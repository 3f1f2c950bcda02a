//! Saved interviews, looked up by a unique prefix of their id.

use vstd::prelude::*;
use crate::keyed::StrMap;
use crate::text::{chars_of, spec_starts_with, starts_with};

verus! {

/// A saved interview, as far as lookups read it.
pub struct Interview {
    pub id: String,
}

/// The saved interviews, keyed by id.
pub struct Store {
    pub interviews: StrMap<Interview>,
}

/// Positions, among the first `n` entries, whose interview id starts with `p`.
pub open spec fn id_hits(pairs: Seq<(Seq<char>, Interview)>, p: Seq<char>, n: nat) -> Seq<int>
    decreases n,
{
    if n == 0 {
        seq![]
    } else {
        id_hits(pairs, p, (n - 1) as nat) + if spec_starts_with(pairs[n - 1].1.id@, p) {
            seq![n - 1]
        } else {
            seq![]
        }
    }
}

/// Positions, among the first `n` entries, whose key starts with `p`.
pub open spec fn key_hits(pairs: Seq<(Seq<char>, Interview)>, p: Seq<char>, n: nat) -> Seq<int>
    decreases n,
{
    if n == 0 {
        seq![]
    } else {
        key_hits(pairs, p, (n - 1) as nat) + if spec_starts_with(pairs[n - 1].0, p) {
            seq![n - 1]
        } else {
            seq![]
        }
    }
}

/// The interview a prefix names: the one stored under exactly that id, or
/// else the only one whose id starts with it.
pub open spec fn spec_find_by_prefix(s: Store, p: Seq<char>) -> Option<Interview> {
    let pairs = s.interviews.pairs();
    if s.interviews@.contains_key(p) {
        Some(s.interviews@[p])
    } else {
        let h = id_hits(pairs, p, pairs.len());
        if h.len() == 1 {
            Some(pairs[h[0]].1)
        } else {
            None
        }
    }
}

/// The id a prefix names: itself when stored, or else the only stored id
/// that starts with it.
pub open spec fn spec_find_id_by_prefix(s: Store, p: Seq<char>) -> Option<Seq<char>> {
    let pairs = s.interviews.pairs();
    if s.interviews@.contains_key(p) {
        Some(p)
    } else {
        let h = key_hits(pairs, p, pairs.len());
        if h.len() == 1 {
            Some(pairs[h[0]].0)
        } else {
            None
        }
    }
}

proof fn lemma_id_hits_range(pairs: Seq<(Seq<char>, Interview)>, p: Seq<char>, n: nat)
    ensures
        forall|i: int| 0 <= i < id_hits(pairs, p, n).len() ==> 0 <= #[trigger] id_hits(pairs, p, n)[i] < n,
    decreases n,
{
    if n > 0 {
        lemma_id_hits_range(pairs, p, (n - 1) as nat);
        let prev = id_hits(pairs, p, (n - 1) as nat);
        let cur = id_hits(pairs, p, n);
        assert forall|i: int| 0 <= i < cur.len() implies 0 <= #[trigger] cur[i] < n by {
            if i < prev.len() {
                assert(cur[i] == prev[i]);
            }
        }
    }
}

proof fn lemma_key_hits_range(pairs: Seq<(Seq<char>, Interview)>, p: Seq<char>, n: nat)
    ensures
        forall|i: int| 0 <= i < key_hits(pairs, p, n).len() ==> 0 <= #[trigger] key_hits(pairs, p, n)[i] < n,
    decreases n,
{
    if n > 0 {
        lemma_key_hits_range(pairs, p, (n - 1) as nat);
        let prev = key_hits(pairs, p, (n - 1) as nat);
        let cur = key_hits(pairs, p, n);
        assert forall|i: int| 0 <= i < cur.len() implies 0 <= #[trigger] cur[i] < n by {
            if i < prev.len() {
                assert(cur[i] == prev[i]);
            }
        }
    }
}

impl Store {
    /// An empty store.
    pub fn new() -> (r: Store)
        ensures
            r.interviews@ == Map::<Seq<char>, Interview>::empty(),
    {
        Store { interviews: StrMap::new() }
    }

    /// The interview named by `prefix`: stored under exactly that id, or the
    /// only one whose id starts with it; `None` when there is none or more
    /// than one.
    pub fn find_by_prefix(&self, prefix: &str) -> (r: Option<&Interview>)
        ensures
            r matches Some(x) ==> spec_find_by_prefix(*self, prefix@) == Some(*x),
            r is None ==> spec_find_by_prefix(*self, prefix@) is None,
    {
        if let Some(i) = self.interviews.get(prefix) {
            return Some(i);
        }
        let p = chars_of(prefix);
        let ghost pairs = self.interviews.pairs();
        let mut hits: Vec<usize> = Vec::new();
        let mut i: usize = 0;
        while i < self.interviews.len()
            invariant
                pairs == self.interviews.pairs(),
                p@ == prefix@,
                i <= pairs.len(),
                hits@.map_values(|x: usize| x as int) == id_hits(pairs, prefix@, i as nat),
            decreases pairs.len() - i,
        {
            let (_, iv) = self.interviews.entry(i);
            let id = chars_of(iv.id.as_str());
            let ghost before = hits@;
            if starts_with(id.as_slice(), p.as_slice()) {
                hits.push(i);
            }
            assert(hits@.map_values(|x: usize| x as int) =~= id_hits(pairs, prefix@, (i + 1) as nat));
            i = i + 1;
        }
        proof {
            lemma_id_hits_range(pairs, prefix@, pairs.len());
        }
        if hits.len() == 1 {
            assert(hits@.map_values(|x: usize| x as int)[0] == hits@[0] as int);
            let (_, iv) = self.interviews.entry(hits[0]);
            Some(iv)
        } else {
            None
        }
    }

    /// The id named by `prefix`: itself when stored, or the only stored id
    /// that starts with it; `None` when there is none or more than one.
    pub fn find_id_by_prefix(&self, prefix: &str) -> (r: Option<String>)
        ensures
            r matches Some(x) ==> spec_find_id_by_prefix(*self, prefix@) == Some(x@),
            r is None ==> spec_find_id_by_prefix(*self, prefix@) is None,
    {
        if self.interviews.contains_key(prefix) {
            return Some(String::from_str(prefix));
        }
        let p = chars_of(prefix);
        let ghost pairs = self.interviews.pairs();
        let mut hits: Vec<usize> = Vec::new();
        let mut i: usize = 0;
        while i < self.interviews.len()
            invariant
                pairs == self.interviews.pairs(),
                p@ == prefix@,
                i <= pairs.len(),
                hits@.map_values(|x: usize| x as int) == key_hits(pairs, prefix@, i as nat),
            decreases pairs.len() - i,
        {
            let (k, _) = self.interviews.entry(i);
            let kc = chars_of(k.as_str());
            if starts_with(kc.as_slice(), p.as_slice()) {
                hits.push(i);
            }
            assert(hits@.map_values(|x: usize| x as int) =~= key_hits(pairs, prefix@, (i + 1) as nat));
            i = i + 1;
        }
        proof {
            lemma_key_hits_range(pairs, prefix@, pairs.len());
        }
        if hits.len() == 1 {
            assert(hits@.map_values(|x: usize| x as int)[0] == hits@[0] as int);
            let (k, _) = self.interviews.entry(hits[0]);
            Some(k.clone())
        } else {
            None
        }
    }
}

proof fn lemma_key_hits_match(pairs: Seq<(Seq<char>, Interview)>, p: Seq<char>, n: nat)
    requires
        n <= pairs.len(),
    ensures
        forall|i: int|
            0 <= i < key_hits(pairs, p, n).len() ==> spec_starts_with(
                pairs[#[trigger] key_hits(pairs, p, n)[i]].0,
                p,
            ),
    decreases n,
{
    if n > 0 {
        lemma_key_hits_match(pairs, p, (n - 1) as nat);
        let prev = key_hits(pairs, p, (n - 1) as nat);
        let cur = key_hits(pairs, p, n);
        assert forall|i: int| 0 <= i < cur.len() implies spec_starts_with(
            pairs[#[trigger] cur[i]].0,
            p,
        ) by {
            if i < prev.len() {
                assert(cur[i] == prev[i]);
            }
        }
    }
}

/// The id a prefix leads to always begins with that prefix.
pub proof fn law_found_id_has_prefix(s: Store, p: Seq<char>)
    ensures
        spec_find_id_by_prefix(s, p) matches Some(k) ==> spec_starts_with(k, p),
{
    let pairs = s.interviews.pairs();
    if s.interviews@.contains_key(p) {
        assert(p.take(p.len() as int) =~= p);
    } else {
        lemma_key_hits_match(pairs, p, pairs.len());
    }
}

/// An id that is stored under exactly the prefix is found, whatever other
/// ids the prefix begins.
pub proof fn law_exact_id_wins(s: Store, p: Seq<char>)
    requires
        s.interviews@.contains_key(p),
    ensures
        spec_find_by_prefix(s, p) == Some(s.interviews@[p]),
        spec_find_id_by_prefix(s, p) == Some(p),
{
}

proof fn lemma_hits_agree(pairs: Seq<(Seq<char>, Interview)>, p: Seq<char>, n: nat)
    requires
        n <= pairs.len(),
        forall|i: int| 0 <= i < pairs.len() ==> (#[trigger] pairs[i]).1.id@ == pairs[i].0,
    ensures
        id_hits(pairs, p, n) == key_hits(pairs, p, n),
    decreases n,
{
    if n > 0 {
        lemma_hits_agree(pairs, p, (n - 1) as nat);
        assert(pairs[n - 1].1.id@ == pairs[n - 1].0);
    }
}

/// When every interview is stored under its own id, the id found for a
/// prefix is the id of the interview found for it.
pub proof fn law_find_id_agrees(s: Store, p: Seq<char>)
    requires
        forall|i: int|
            0 <= i < s.interviews.pairs().len() ==> (#[trigger] s.interviews.pairs()[i]).1.id@
                == s.interviews.pairs()[i].0,
    ensures
        spec_find_id_by_prefix(s, p) == match spec_find_by_prefix(s, p) {
            Some(x) => Some(x.id@),
            None => None::<Seq<char>>,
        },
{
    let pairs = s.interviews.pairs();
    s.interviews.lemma_view_entry(p);
    if s.interviews@.contains_key(p) {
        let i = choose|i: int| 0 <= i < pairs.len() && (#[trigger] pairs[i]).0 == p && s.interviews@[p] == pairs[i].1;
        assert(pairs[i].1.id@ == pairs[i].0);
    } else {
        lemma_hits_agree(pairs, p, pairs.len());
        lemma_key_hits_range(pairs, p, pairs.len());
        let h = key_hits(pairs, p, pairs.len());
        if h.len() == 1 {
            assert(0 <= h[0] < pairs.len());
            assert(pairs[h[0]].1.id@ == pairs[h[0]].0);
        }
    }
}

} // verus!
