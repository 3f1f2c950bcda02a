//! The order in which a topic's questions are offered: written questions
//! before generated ones, each group by ascending level, in random order
//! within each (source, level) bucket.

use vstd::prelude::*;
use rand::seq::SliceRandom;
use crate::models::Question;
use crate::tui::state::section_key;

verus! {

broadcast use vstd::seq_lib::group_to_multiset_ensures;

/// The order of sections: `(source, level)` compared lexicographically,
/// written (`false`) before generated (`true`).
pub open spec fn key_le(a: (bool, u8), b: (bool, u8)) -> bool {
    (!a.0 && b.0) || (a.0 == b.0 && a.1 <= b.1)
}

/// The questions are in section order.
pub open spec fn sections_sorted(qs: Seq<Question>) -> bool {
    forall|i: int, j: int|
        0 <= i < j < qs.len() ==> key_le(section_key(#[trigger] qs[i]), section_key(#[trigger] qs[j]))
}

/// `rand::seq::SliceRandom::shuffle` with the thread-local generator: a
/// Fisher–Yates pass of swaps, so the result holds the same questions.
/// Which order comes out is left open.
#[verifier::external_body]
fn shuffle(qs: &mut Vec<Question>)
    ensures
        final(qs)@.to_multiset() == old(qs)@.to_multiset(),
{
    qs.shuffle(&mut rand::thread_rng());
}

fn key_le_exec(a: &Question, b: &Question) -> (r: bool)
    ensures
        r == key_le(section_key(*a), section_key(*b)),
{
    (!a.ai_generated && b.ai_generated) || (a.ai_generated == b.ai_generated && a.level <= b.level)
}

proof fn lemma_insert_multiset(s: Seq<Question>, j: int, x: Question)
    requires
        0 <= j <= s.len(),
    ensures
        s.insert(j, x).to_multiset() == s.to_multiset().insert(x),
{
    let t = s.insert(j, x);
    assert(t.remove(j) =~= s);
    assert(t.remove(j).to_multiset() == t.to_multiset().remove(t[j]));
    assert(t.to_multiset().count(x) > 0) by {
        assert(t.contains(x)) by {
            assert(t[j] == x);
        }
    }
    assert(t.to_multiset() =~= t.to_multiset().remove(x).insert(x));
}

/// Sorts by section, keeping the order within a section (insertion sort).
fn sort_sections(qs: &mut Vec<Question>)
    ensures
        final(qs)@.to_multiset() == old(qs)@.to_multiset(),
        sections_sorted(final(qs)@),
{
    let n = qs.len();
    let mut i: usize = 1;
    if n == 0 {
        return;
    }
    while i < n
        invariant
            1 <= i <= n,
            qs@.len() == n,
            qs@.to_multiset() == old(qs)@.to_multiset(),
            sections_sorted(qs@.take(i as int)),
        decreases n - i,
    {
        let ghost before = qs@;
        let x = qs.remove(i);
        let mut j: usize = 0;
        while j < i && key_le_exec(&qs[j], &x)
            invariant
                j <= i < n,
                qs@.len() == n - 1,
                qs@ == before.remove(i as int),
                x == before[i as int],
                forall|k: int| 0 <= k < j ==> key_le(section_key(#[trigger] qs@[k]), section_key(x)),
            decreases i - j,
        {
            j = j + 1;
        }
        qs.insert(j, x);
        proof {
            let s = before.remove(i as int);
            lemma_insert_multiset(s, j as int, x);
            let t = qs@;
            assert(t == s.insert(j as int, x));
            assert(forall|k: int| 0 <= k < i ==> s[k] == before[k]);
            assert forall|a: int, b: int| 0 <= a < b < i + 1 implies key_le(
                section_key(#[trigger] t.take(i + 1)[a]),
                section_key(#[trigger] t.take(i + 1)[b]),
            ) by {
                let ta = t.take(i + 1)[a];
                let tb = t.take(i + 1)[b];
                if b < j {
                    assert(ta == before.take(i as int)[a] && tb == before.take(i as int)[b]);
                } else if b == j {
                    assert(ta == before.take(i as int)[a]);
                } else if a < j {
                    assert(ta == before.take(i as int)[a]);
                    assert(tb == before.take(i as int)[b - 1]);
                    if j < i {
                        assert(!key_le(section_key(s[j as int]), section_key(x)));
                        assert(key_le(section_key(before.take(i as int)[a]), section_key(before.take(i as int)[j as int])));
                    }
                    assert(key_le(section_key(before.take(i as int)[a]), section_key(before.take(i as int)[b - 1])));
                } else if a == j {
                    assert(tb == before.take(i as int)[b - 1]);
                    assert(!key_le(section_key(s[j as int]), section_key(x)));
                    assert(key_le(section_key(before.take(i as int)[j as int]), section_key(before.take(i as int)[b - 1])));
                } else {
                    assert(ta == before.take(i as int)[a - 1] && tb == before.take(i as int)[b - 1]);
                }
            }
        }
        i = i + 1;
    }
    assert(qs@.take(n as int) =~= qs@);
}

} // verus!

verus! {

fn same_section(a: &Question, b: &Question) -> (r: bool)
    ensures
        r == (section_key(*a) == section_key(*b)),
{
    a.ai_generated == b.ai_generated && a.level == b.level
}

/// Puts a topic's questions in offering order: written before generated,
/// ascending level within each, and a random order within each
/// (source, level) bucket. The result holds the same questions.
pub fn reorder_questions(qs: &mut Vec<Question>)
    ensures
        final(qs)@.to_multiset() == old(qs)@.to_multiset(),
        sections_sorted(final(qs)@),
{
    sort_sections(qs);
    let ghost all = qs@.to_multiset();
    let ghost sorted = qs@;
    let mut rest = qs.split_off(0);
    assert(rest@ =~= sorted);
    proof {
        assert(qs@ =~= Seq::<Question>::empty());
        vstd::seq_lib::lemma_multiset_commutative(qs@, rest@);
        assert(qs@ + rest@ =~= rest@);
    }
    while rest.len() > 0
        invariant
            qs@.to_multiset().add(rest@.to_multiset()) == all,
            sections_sorted(qs@),
            sections_sorted(rest@),
            forall|a: int, b: int|
                0 <= a < qs@.len() && 0 <= b < rest@.len() ==> key_le(
                    section_key(#[trigger] qs@[a]),
                    section_key(#[trigger] rest@[b]),
                ),
        decreases rest@.len(),
    {
        let ghost r0 = rest@;
        let ghost k = section_key(r0[0]);
        let mut j: usize = 1;
        while j < rest.len() && same_section(&rest[j], &rest[0])
            invariant
                rest@ == r0,
                1 <= j <= r0.len(),
                forall|t: int| 0 <= t < j ==> section_key(#[trigger] r0[t]) == k,
            decreases r0.len() - j,
        {
            j = j + 1;
        }
        let tail = rest.split_off(j);
        let mut bucket = rest;
        rest = tail;
        let ghost b0 = bucket@;
        proof {
            assert(b0 + rest@ =~= r0);
            vstd::seq_lib::lemma_multiset_commutative(b0, rest@);
        }
        shuffle(&mut bucket);
        let ghost b1 = bucket@;
        let ghost q0 = qs@;
        proof {
            assert forall|t: int| 0 <= t < b1.len() implies section_key(#[trigger] b1[t]) == k by {
                assert(b1.to_multiset().count(b1[t]) > 0);
                assert(b0.contains(b1[t]));
                let u = choose|u: int| 0 <= u < b0.len() && b0[u] == b1[t];
                assert(b0[u] == r0[u]);
            }
            assert forall|b: int| 0 <= b < rest@.len() implies key_le(k, section_key(#[trigger] rest@[b])) by {
                assert(rest@[b] == r0[j + b]);
                assert(key_le(section_key(r0[0]), section_key(r0[j + b])));
            }
        }
        qs.append(&mut bucket);
        proof {
            vstd::seq_lib::lemma_multiset_commutative(q0, b1);
            assert(qs@ == q0 + b1);
            assert forall|a: int, b: int| 0 <= a < b < qs@.len() implies key_le(
                section_key(#[trigger] qs@[a]),
                section_key(#[trigger] qs@[b]),
            ) by {
                if b < q0.len() {
                } else if a < q0.len() {
                    assert(qs@[b] == b1[b - q0.len()]);
                    assert(key_le(section_key(q0[a]), section_key(r0[0])));
                } else {
                    assert(qs@[a] == b1[a - q0.len()]);
                    assert(qs@[b] == b1[b - q0.len()]);
                }
            }
            assert forall|a: int, b: int|
                0 <= a < qs@.len() && 0 <= b < rest@.len() implies key_le(
                section_key(#[trigger] qs@[a]),
                section_key(#[trigger] rest@[b]),
            ) by {
                assert(rest@[b] == r0[j + b]);
                assert(key_le(k, section_key(rest@[b])));
                if a < q0.len() {
                    assert(key_le(section_key(q0[a]), section_key(r0[j + b])));
                } else {
                    assert(qs@[a] == b1[a - q0.len()]);
                }
            }
            assert forall|a: int, b: int| 0 <= a < b < rest@.len() implies key_le(
                section_key(#[trigger] rest@[a]),
                section_key(#[trigger] rest@[b]),
            ) by {
                assert(rest@[a] == r0[j + a] && rest@[b] == r0[j + b]);
            }
        }
    }
    proof {
        assert(rest@ =~= Seq::<Question>::empty());
        vstd::seq_lib::lemma_multiset_commutative(qs@, rest@);
        assert(qs@ + rest@ =~= qs@);
    }
}

} // verus!
