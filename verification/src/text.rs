//! Character-sequence utilities: whitespace, trimming, line splitting,
//! prefix tests, searching and small-number parsing and printing.

use vstd::prelude::*;

verus! {

/// Unicode `White_Space` (what `char::is_whitespace` tests).
pub open spec fn spec_is_whitespace(c: char) -> bool {
    ||| ('\u{9}' <= c && c <= '\u{d}')
    ||| c == ' '
    ||| c == '\u{85}'
    ||| c == '\u{a0}'
    ||| c == '\u{1680}'
    ||| ('\u{2000}' <= c && c <= '\u{200a}')
    ||| c == '\u{2028}'
    ||| c == '\u{2029}'
    ||| c == '\u{202f}'
    ||| c == '\u{205f}'
    ||| c == '\u{3000}'
}

pub fn is_whitespace(c: char) -> (r: bool)
    ensures
        r == spec_is_whitespace(c),
{
    ('\u{9}' <= c && c <= '\u{d}') || c == ' ' || c == '\u{85}' || c == '\u{a0}' || c
        == '\u{1680}' || ('\u{2000}' <= c && c <= '\u{200a}') || c == '\u{2028}' || c
        == '\u{2029}' || c == '\u{202f}' || c == '\u{205f}' || c == '\u{3000}'
}

} // verus!

verus! {

/// Appends one character to a string (`String::push`).
#[verifier::external_body]
pub(crate) fn push_char(s: &mut String, c: char)
    ensures
        final(s)@ == old(s)@.push(c),
{
    s.push(c);
}

/// The characters of a string, in order.
pub fn chars_of(s: &str) -> (r: Vec<char>)
    ensures
        r@ == s@,
{
    let mut v: Vec<char> = Vec::new();
    for c in it: s.chars()
        invariant
            v@ == it.seq().take(it.index() as int),
    {
        v.push(c);
    }
    v
}

/// A string made of the given characters.
pub fn string_of(v: &[char]) -> (r: String)
    ensures
        r@ == v@,
{
    let mut s = String::new();
    let mut i: usize = 0;
    while i < v.len()
        invariant
            i <= v@.len(),
            s@ == v@.take(i as int),
        decreases v@.len() - i,
    {
        push_char(&mut s, v[i]);
        proof {
            assert(v@.take(i as int).push(v@[i as int]) =~= v@.take(i + 1));
        }
        i = i + 1;
    }
    proof {
        assert(v@.take(v@.len() as int) =~= v@);
    }
    s
}

} // verus!

verus! {

// ── Trimming ─────────────────────────────────────────────────────────────────

/// `s` without its leading whitespace.
pub open spec fn spec_trim_start(s: Seq<char>) -> Seq<char>
    decreases s.len(),
{
    if s.len() > 0 && spec_is_whitespace(s[0]) {
        spec_trim_start(s.drop_first())
    } else {
        s
    }
}

/// `s` without its trailing whitespace.
pub open spec fn spec_trim_end(s: Seq<char>) -> Seq<char>
    decreases s.len(),
{
    if s.len() > 0 && spec_is_whitespace(s.last()) {
        spec_trim_end(s.drop_last())
    } else {
        s
    }
}

/// `s` without leading and trailing whitespace (`str::trim`).
pub open spec fn spec_trim(s: Seq<char>) -> Seq<char> {
    spec_trim_end(spec_trim_start(s))
}

pub proof fn lemma_trim_start_shape(s: Seq<char>)
    ensures
        spec_trim_start(s).len() <= s.len(),
        spec_trim_start(s) == s.subrange(s.len() - spec_trim_start(s).len(), s.len() as int),
        spec_trim_start(s).len() > 0 ==> !spec_is_whitespace(spec_trim_start(s)[0]),
        forall|i: int|
            0 <= i < s.len() - spec_trim_start(s).len() ==> spec_is_whitespace(#[trigger] s[i]),
    decreases s.len(),
{
    if s.len() > 0 && spec_is_whitespace(s[0]) {
        lemma_trim_start_shape(s.drop_first());
        let t = spec_trim_start(s.drop_first());
        assert(s.drop_first().subrange(s.drop_first().len() - t.len(), s.drop_first().len() as int)
            =~= s.subrange(s.len() - t.len(), s.len() as int));
        assert forall|i: int| 0 <= i < s.len() - t.len() implies spec_is_whitespace(#[trigger] s[i]) by {
            if i > 0 {
                assert(s[i] == s.drop_first()[i - 1]);
            }
        }
    } else {
        assert(s.subrange(0, s.len() as int) =~= s);
    }
}

pub proof fn lemma_trim_end_shape(s: Seq<char>)
    ensures
        spec_trim_end(s).len() <= s.len(),
        spec_trim_end(s) == s.subrange(0, spec_trim_end(s).len() as int),
        spec_trim_end(s).len() > 0 ==> !spec_is_whitespace(spec_trim_end(s).last()),
        forall|i: int|
            spec_trim_end(s).len() <= i < s.len() ==> spec_is_whitespace(#[trigger] s[i]),
    decreases s.len(),
{
    if s.len() > 0 && spec_is_whitespace(s.last()) {
        lemma_trim_end_shape(s.drop_last());
        let t = spec_trim_end(s.drop_last());
        assert(s.drop_last().subrange(0, t.len() as int) =~= s.subrange(0, t.len() as int));
        assert forall|i: int| t.len() <= i < s.len() implies spec_is_whitespace(#[trigger] s[i]) by {
            if i < s.len() - 1 {
                assert(s[i] == s.drop_last()[i]);
            }
        }
    } else {
        assert(s.subrange(0, s.len() as int) =~= s);
    }
}

/// `s` with whitespace removed from both ends.
pub fn trim(s: &[char]) -> (r: Vec<char>)
    ensures
        r@ == spec_trim(s@),
{
    let n = s.len();
    let mut i: usize = 0;
    assert(s@.subrange(0, n as int) =~= s@);
    while i < n && is_whitespace(s[i])
        invariant
            i <= n,
            n == s@.len(),
            spec_trim_start(s@) == spec_trim_start(s@.subrange(i as int, n as int)),
        decreases n - i,
    {
        assert(s@.subrange(i as int, n as int).drop_first() =~= s@.subrange(i + 1, n as int));
        i = i + 1;
    }
    let mut j: usize = n;
    assert(spec_trim_start(s@.subrange(i as int, n as int)) == s@.subrange(i as int, n as int));
    while j > i && is_whitespace(s[j - 1])
        invariant
            i <= j <= n,
            n == s@.len(),
            spec_trim_start(s@) == s@.subrange(i as int, n as int),
            spec_trim_end(s@.subrange(i as int, n as int)) == spec_trim_end(
                s@.subrange(i as int, j as int),
            ),
        decreases j - i,
    {
        assert(s@.subrange(i as int, j as int).drop_last() =~= s@.subrange(i as int, j - 1));
        j = j - 1;
    }
    vstd::slice::slice_to_vec(&s[i..j])
}

} // verus!

verus! {

// ── Lines ────────────────────────────────────────────────────────────────────

/// A line with one trailing carriage return removed.
pub open spec fn spec_strip_cr(l: Seq<char>) -> Seq<char> {
    if l.len() > 0 && l.last() == '\r' {
        l.drop_last()
    } else {
        l
    }
}

/// The finished lines and the unfinished line after reading `s[0..i]`.
pub open spec fn lines_upto(s: Seq<char>, i: int) -> (Seq<Seq<char>>, Seq<char>)
    decreases i,
{
    if i <= 0 {
        (seq![], seq![])
    } else {
        let (done, cur) = lines_upto(s, i - 1);
        if s[i - 1] == '\n' {
            (done.push(spec_strip_cr(cur)), seq![])
        } else {
            (done, cur.push(s[i - 1]))
        }
    }
}

/// The lines of `s` as `str::lines` yields them: split at `\n`, a `\r`
/// just before a `\n` dropped, and no empty last line after a final `\n`.
pub open spec fn spec_lines(s: Seq<char>) -> Seq<Seq<char>> {
    let (done, cur) = lines_upto(s, s.len() as int);
    if cur.len() > 0 {
        done.push(cur)
    } else {
        done
    }
}

fn strip_cr(l: Vec<char>) -> (r: Vec<char>)
    ensures
        r@ == spec_strip_cr(l@),
{
    let mut l = l;
    if l.len() > 0 && l[l.len() - 1] == '\r' {
        l.pop();
    }
    l
}

/// The contents of a list of character vectors.
pub open spec fn views(v: Seq<Vec<char>>) -> Seq<Seq<char>> {
    v.map_values(|l: Vec<char>| l@)
}

/// Splits `s` into its lines.
pub fn split_lines(s: &[char]) -> (r: Vec<Vec<char>>)
    ensures
        views(r@) == spec_lines(s@),
{
    let mut done: Vec<Vec<char>> = Vec::new();
    let mut cur: Vec<char> = Vec::new();
    let mut i: usize = 0;
    while i < s.len()
        invariant
            i <= s@.len(),
            (views(done@), cur@) == lines_upto(s@, i as int),
        decreases s@.len() - i,
    {
        if s[i] == '\n' {
            let finished = strip_cr(cur);
            let ghost before = views(done@);
            done.push(finished);
            assert(views(done@) =~= before.push(finished@));
            cur = Vec::new();
        } else {
            cur.push(s[i]);
        }
        i = i + 1;
    }
    if cur.len() > 0 {
        let ghost before = views(done@);
        let ghost last = cur@;
        done.push(cur);
        assert(views(done@) =~= before.push(last));
    }
    done
}

// ── Prefixes and searching ───────────────────────────────────────────────────

pub open spec fn spec_starts_with(s: Seq<char>, p: Seq<char>) -> bool {
    p.len() <= s.len() && s.take(p.len() as int) == p
}

/// Whether `s` begins with `p`.
pub fn starts_with(s: &[char], p: &[char]) -> (r: bool)
    ensures
        r == spec_starts_with(s@, p@),
{
    if p.len() > s.len() {
        return false;
    }
    let mut i: usize = 0;
    while i < p.len()
        invariant
            p@.len() <= s@.len(),
            i <= p@.len(),
            forall|k: int| 0 <= k < i ==> s@[k] == p@[k],
        decreases p@.len() - i,
    {
        if s[i] != p[i] {
            assert(s@.take(p@.len() as int)[i as int] != p@[i as int]);
            return false;
        }
        i = i + 1;
    }
    assert(s@.take(p@.len() as int) =~= p@);
    true
}

/// The first index at or after `i` where `c` stands in `s`, or `s.len()`.
pub open spec fn find_from(s: Seq<char>, c: char, i: int) -> int
    decreases s.len() - i,
{
    if i >= s.len() {
        s.len() as int
    } else if s[i] == c {
        i
    } else {
        find_from(s, c, i + 1)
    }
}

/// The first index of `c` in `s` (`str::find` with a character).
pub open spec fn spec_find(s: Seq<char>, c: char) -> Option<int> {
    let k = find_from(s, c, 0);
    if 0 <= k < s.len() {
        Some(k)
    } else {
        None
    }
}

pub proof fn lemma_find_from(s: Seq<char>, c: char, i: int)
    requires
        0 <= i <= s.len(),
    ensures
        i <= find_from(s, c, i) <= s.len(),
        find_from(s, c, i) < s.len() ==> s[find_from(s, c, i)] == c,
        forall|k: int| i <= k < find_from(s, c, i) ==> s[k] != c,
    decreases s.len() - i,
{
    if i < s.len() && s[i] != c {
        lemma_find_from(s, c, i + 1);
    }
}

/// The first index of `c` in `s`, if any.
pub fn find_char(s: &[char], c: char) -> (r: Option<usize>)
    ensures
        r matches Some(k) ==> spec_find(s@, c) == Some(k as int),
        r is None ==> spec_find(s@, c) is None,
{
    let mut i: usize = 0;
    while i < s.len()
        invariant
            i <= s@.len(),
            find_from(s@, c, 0) == find_from(s@, c, i as int),
        decreases s@.len() - i,
    {
        if s[i] == c {
            return Some(i);
        }
        i = i + 1;
    }
    None
}

/// Whether `pat` occurs in `s` as a contiguous run (`str::contains`).
pub open spec fn spec_contains(s: Seq<char>, pat: Seq<char>) -> bool {
    exists|i: int| 0 <= i && i + pat.len() <= s.len() && #[trigger] s.subrange(i, i + pat.len()) == pat
}

/// Whether `pat` occurs in `s`.
pub fn contains(s: &[char], pat: &[char]) -> (r: bool)
    ensures
        r == spec_contains(s@, pat@),
{
    if pat.len() > s.len() {
        return false;
    }
    let n = s.len();
    let last = n - pat.len();
    let mut i: usize = 0;
    while i <= last
        invariant
            last == s@.len() - pat@.len(),
            n == s@.len(),
            i <= last + 1,
            forall|k: int| 0 <= k < i ==> #[trigger] s@.subrange(k, k + pat@.len()) != pat@,
        decreases last + 1 - i,
    {
        let mut j: usize = 0;
        let mut same = true;
        while j < pat.len()
            invariant
                i + pat@.len() <= s@.len(),
                s@.len() <= usize::MAX,
                i <= last,
                pat@.len() <= s@.len(),
                last == s@.len() - pat@.len(),
                j <= pat@.len(),
                same == (forall|k: int| 0 <= k < j ==> s@[i + k] == #[trigger] pat@[k]),
            decreases pat@.len() - j,
        {
            if s[i + j] != pat[j] {
                same = false;
            }
            j = j + 1;
        }
        if same {
            assert(s@.subrange(i as int, i + pat@.len()) =~= pat@);
            return true;
        }
        proof {
            let k = choose|k: int| 0 <= k < pat@.len() && s@[i + k] != pat@[k];
            assert(s@.subrange(i as int, i + pat@.len())[k] != pat@[k]);
        }
        if i == last {
            return false;
        }
        i = i + 1;
    }
    false
}

} // verus!

verus! {

// ── Numbers ──────────────────────────────────────────────────────────────────

pub open spec fn spec_is_digit(c: char) -> bool {
    '0' <= c && c <= '9'
}

pub open spec fn digit_value(c: char) -> int {
    c as int - '0' as int
}

/// The value of a run of decimal digits.
pub open spec fn digits_value(d: Seq<char>) -> int
    decreases d.len(),
{
    if d.len() == 0 {
        0
    } else {
        digits_value(d.drop_last()) * 10 + digit_value(d.last())
    }
}

pub open spec fn all_digits(d: Seq<char>) -> bool {
    forall|i: int| 0 <= i < d.len() ==> spec_is_digit(#[trigger] d[i])
}

/// The digits of an unsigned number, after an optional leading `+`.
pub open spec fn unsigned_digits(s: Seq<char>) -> Seq<char> {
    if s.len() > 0 && s[0] == '+' {
        s.drop_first()
    } else {
        s
    }
}

/// What `str::parse::<u8>` gives: an optional `+`, then at least one ASCII
/// digit and nothing else, with a value of at most 255.
pub open spec fn spec_parse_u8(s: Seq<char>) -> Option<u8> {
    let d = unsigned_digits(s);
    if d.len() > 0 && all_digits(d) && digits_value(d) <= 255 {
        Some(digits_value(d) as u8)
    } else {
        None
    }
}

proof fn lemma_digits_value_nonneg(d: Seq<char>)
    requires
        all_digits(d),
    ensures
        digits_value(d) >= 0,
    decreases d.len(),
{
    if d.len() > 0 {
        assert(all_digits(d.drop_last()));
        lemma_digits_value_nonneg(d.drop_last());
        assert(spec_is_digit(d[d.len() - 1]));
    }
}

/// Parses a decimal `u8` the way `str::parse::<u8>` does.
pub fn parse_u8(s: &[char]) -> (r: Option<u8>)
    ensures
        r == spec_parse_u8(s@),
{
    let n = s.len();
    let start: usize = if n > 0 && s[0] == '+' {
        1
    } else {
        0
    };
    proof {
        assert(unsigned_digits(s@) =~= s@.subrange(start as int, n as int));
    }
    if start == n {
        return None;
    }
    let mut acc: u32 = 0;
    let mut i: usize = start;
    assert(s@.subrange(start as int, start as int) =~= Seq::<char>::empty());
    while i < n
        invariant
            start <= i <= n,
            n == s@.len(),
            unsigned_digits(s@) == s@.subrange(start as int, n as int),
            all_digits(s@.subrange(start as int, i as int)),
            acc as int == if digits_value(s@.subrange(start as int, i as int)) < 256 {
                digits_value(s@.subrange(start as int, i as int))
            } else {
                256
            },
        decreases n - i,
    {
        let c = s[i];
        if !('0' <= c && c <= '9') {
            proof {
                let d = unsigned_digits(s@);
                assert(d =~= s@.subrange(start as int, n as int));
                assert(d[i - start] == c);
                assert(!spec_is_digit(d[i - start]));
                assert(!all_digits(d));
            }
            return None;
        }
        let ghost prev = s@.subrange(start as int, i as int);
        let ghost next = s@.subrange(start as int, i + 1);
        proof {
            assert(next.drop_last() =~= prev);
            assert(all_digits(next));
            lemma_digits_value_nonneg(prev);
        }
        let d = (c as u32) - ('0' as u32);
        acc = if acc * 10 + d < 256 {
            acc * 10 + d
        } else {
            256
        };
        i = i + 1;
    }
    if acc < 256 {
        Some(acc as u8)
    } else {
        None
    }
}

/// A decimal digit character.
pub open spec fn digit_char(d: nat) -> char {
    ((48 + d) as u8) as char
}

/// The decimal representation of `n`.
pub open spec fn spec_decimal(n: nat) -> Seq<char>
    decreases n,
{
    if n < 10 {
        seq![digit_char(n)]
    } else {
        spec_decimal(n / 10).push(digit_char(n % 10))
    }
}

/// Appends the decimal representation of `n`.
pub fn push_decimal(s: &mut String, n: u64)
    ensures
        final(s)@ == old(s)@ + spec_decimal(n as nat),
    decreases n,
{
    if n >= 10 {
        push_decimal(s, n / 10);
    }
    let d = (n % 10) as u8;
    push_char(s, (48u8 + d) as char);
    proof {
        if n >= 10 {
            assert(old(s)@ + spec_decimal(n as nat) =~= old(s)@ + spec_decimal((n / 10) as nat) + seq![
                digit_char((n % 10) as nat),
            ]);
        } else {
            assert(old(s)@ + spec_decimal(n as nat) =~= old(s)@.push(digit_char(n as nat)));
        }
    }
}

/// `s` right-aligned in a field of `width` characters (`format!("{:>w$}")`).
pub open spec fn spec_pad_left(s: Seq<char>, width: nat) -> Seq<char> {
    if s.len() >= width {
        s
    } else {
        Seq::new((width - s.len()) as nat, |i: int| ' ') + s
    }
}

/// Appends `t` right-aligned in a field of `width` characters.
pub fn push_padded(s: &mut String, t: &[char], width: usize)
    ensures
        final(s)@ == old(s)@ + spec_pad_left(t@, width as nat),
{
    let mut k: usize = t.len();
    let ghost start = s@;
    while k < width
        invariant
            t@.len() <= k,
            k == t@.len() || k <= width,
            s@ == start + Seq::new((k - t@.len()) as nat, |i: int| ' '),
        decreases width - k,
    {
        push_char(s, ' ');
        assert(s@ =~= start + Seq::new((k + 1 - t@.len()) as nat, |i: int| ' '));
        k = k + 1;
    }
    let mut j: usize = 0;
    let ghost pad = s@;
    while j < t.len()
        invariant
            j <= t@.len(),
            s@ == pad + t@.take(j as int),
        decreases t@.len() - j,
    {
        push_char(s, t[j]);
        assert(s@ =~= pad + t@.take(j + 1));
        j = j + 1;
    }
    assert(t@.take(t@.len() as int) =~= t@);
    assert(s@ =~= start + spec_pad_left(t@, width as nat));
}

/// Appends the characters of `t` to `s`.
pub fn push_chars(s: &mut String, t: &[char])
    ensures
        final(s)@ == old(s)@ + t@,
{
    let mut j: usize = 0;
    let ghost start = s@;
    while j < t.len()
        invariant
            j <= t@.len(),
            s@ == start + t@.take(j as int),
        decreases t@.len() - j,
    {
        push_char(s, t[j]);
        assert(s@ =~= start + t@.take(j + 1));
        j = j + 1;
    }
    assert(t@.take(t@.len() as int) =~= t@);
}

/// Appends the text `t` to `s`.
pub fn push_str(s: &mut String, t: &str)
    ensures
        final(s)@ == old(s)@ + t@,
{
    let cs = chars_of(t);
    push_chars(s, cs.as_slice());
}

} // verus!

verus! {

/// Whether two strings hold the same characters.
pub fn str_eq(a: &str, b: &str) -> (r: bool)
    ensures
        r == (a@ == b@),
{
    let x = chars_of(a);
    let y = chars_of(b);
    if x.len() != y.len() {
        return false;
    }
    let mut i: usize = 0;
    while i < x.len()
        invariant
            x@ == a@,
            y@ == b@,
            x@.len() == y@.len(),
            i <= x@.len(),
            forall|k: int| 0 <= k < i ==> x@[k] == y@[k],
        decreases x@.len() - i,
    {
        if x[i] != y[i] {
            return false;
        }
        i = i + 1;
    }
    assert(x@ =~= y@);
    true
}

} // verus!

verus! {

/// An ASCII character.
pub open spec fn is_ascii_char(c: char) -> bool {
    (c as u32) < 128
}

/// Text made of ASCII characters only.
pub open spec fn is_ascii_text(s: Seq<char>) -> bool {
    forall|i: int| 0 <= i < s.len() ==> is_ascii_char(#[trigger] s[i])
}

/// An ASCII upper-case letter.
pub open spec fn is_ascii_upper(c: char) -> bool {
    'A' <= c && c <= 'Z'
}

/// The ASCII lower case of a character: `A`–`Z` become `a`–`z`, anything
/// else stays.
pub open spec fn ascii_lower(c: char) -> char {
    if is_ascii_upper(c) {
        ((c as u32 + 32) as u8) as char
    } else {
        c
    }
}

/// The ASCII upper case of a character: `a`–`z` become `A`–`Z`, anything
/// else stays.
pub open spec fn ascii_upper(c: char) -> char {
    if 'a' <= c && c <= 'z' {
        ((c as u32 - 32) as u8) as char
    } else {
        c
    }
}

/// An ASCII letter or digit.
pub open spec fn is_ascii_alnum(c: char) -> bool {
    ('a' <= c && c <= 'z') || ('A' <= c && c <= 'Z') || ('0' <= c && c <= '9')
}

/// Text lower-cased letter by letter the ASCII way.
pub open spec fn ascii_lowered(s: Seq<char>) -> Seq<char> {
    s.map_values(|c: char| ascii_lower(c))
}

/// What `str::to_lowercase` returns for the given characters (the full
/// Unicode lower-case mapping, which is not written out here).
pub uninterp spec fn spec_lowercase(s: Seq<char>) -> Seq<char>;

/// `str::to_lowercase`. Its result is named by `spec_lowercase` of the
/// argument. std documents the result as the Unicode lower-case mapping of
/// each character; in the Unicode Character Database the ASCII letters
/// `A`–`Z` map to `a`–`z` and every other ASCII character to itself, so on
/// ASCII text the result is the ASCII lower case. Nothing is said here of
/// other text.
#[verifier::external_body]
pub(crate) fn to_lowercase(s: &str) -> (r: String)
    ensures
        r@ == spec_lowercase(s@),
        is_ascii_text(s@) ==> r@ == ascii_lowered(s@),
{
    s.to_lowercase()
}

/// Whether a character is Unicode alphabetic or numeric
/// (`char::is_alphanumeric`); the property tables are not written out.
pub uninterp spec fn spec_is_alphanumeric(c: char) -> bool;

/// `char::is_alphanumeric`. Its result is named by `spec_is_alphanumeric`.
/// std documents it as the Unicode `Alphabetic` or `Numeric` property;
/// among ASCII characters exactly the letters and digits have one of them.
/// Nothing is said here of other characters.
#[verifier::external_body]
pub(crate) fn is_alphanumeric(c: char) -> (r: bool)
    ensures
        r == spec_is_alphanumeric(c),
        is_ascii_char(c) ==> (r <==> is_ascii_alnum(c)),
{
    c.is_alphanumeric()
}

} // verus!

verus! {

/// The lines joined with `\n` between them (`[..].join("\n")`).
pub open spec fn spec_join_lines(ls: Seq<Seq<char>>) -> Seq<char>
    decreases ls.len(),
{
    if ls.len() == 0 {
        seq![]
    } else if ls.len() == 1 {
        ls[0]
    } else {
        spec_join_lines(ls.drop_last()) + seq!['\n'] + ls.last()
    }
}

/// Joins lines with `\n` between them.
pub fn join_lines(ls: &[Vec<char>]) -> (r: String)
    ensures
        r@ == spec_join_lines(views(ls@)),
{
    let mut out = String::new();
    let mut i: usize = 0;
    while i < ls.len()
        invariant
            i <= ls@.len(),
            out@ == spec_join_lines(views(ls@).take(i as int)),
        decreases ls@.len() - i,
    {
        let ghost v = views(ls@);
        assert(v.take(i + 1).drop_last() =~= v.take(i as int));
        if i > 0 {
            push_char(&mut out, '\n');
        }
        push_chars(&mut out, ls[i].as_slice());
        i = i + 1;
    }
    assert(views(ls@).take(ls@.len() as int) =~= views(ls@));
    out
}

} // verus!

verus! {

/// Removes and returns the last character (`String::pop`).
#[verifier::external_body]
pub(crate) fn pop_char(s: &mut String) -> (r: Option<char>)
    ensures
        old(s)@.len() == 0 ==> r is None && final(s)@ == old(s)@,
        old(s)@.len() > 0 ==> r == Some(old(s)@.last()) && final(s)@ == old(s)@.drop_last(),
{
    s.pop()
}

} // verus!

verus! {

/// The parts joined with `sep` between them (`[..].join(sep)`).
pub open spec fn spec_join_with(parts: Seq<Seq<char>>, sep: Seq<char>) -> Seq<char>
    decreases parts.len(),
{
    if parts.len() == 0 {
        seq![]
    } else if parts.len() == 1 {
        parts[0]
    } else {
        spec_join_with(parts.drop_last(), sep) + sep + parts.last()
    }
}

/// Joins strings with `sep` between them.
pub fn join_strings(parts: &[String], sep: &str) -> (r: String)
    ensures
        r@ == spec_join_with(parts@.map_values(|s: String| s@), sep@),
{
    let ghost v = parts@.map_values(|s: String| s@);
    let sc = chars_of(sep);
    let mut out = String::new();
    let mut i: usize = 0;
    while i < parts.len()
        invariant
            v == parts@.map_values(|s: String| s@),
            sc@ == sep@,
            i <= parts@.len(),
            out@ == spec_join_with(v.take(i as int), sep@),
        decreases parts@.len() - i,
    {
        assert(v.take(i + 1).drop_last() =~= v.take(i as int));
        if i > 0 {
            push_chars(&mut out, sc.as_slice());
        }
        let pc = chars_of(parts[i].as_str());
        push_chars(&mut out, pc.as_slice());
        i = i + 1;
    }
    assert(v.take(parts@.len() as int) =~= v);
    out
}

} // verus!

verus! {

/// The pieces and the unfinished piece after reading `s[0..i]`, splitting at
/// every `sep`.
pub open spec fn split_upto(s: Seq<char>, sep: char, i: int) -> (Seq<Seq<char>>, Seq<char>)
    decreases i,
{
    if i <= 0 {
        (seq![], seq![])
    } else {
        let (done, cur) = split_upto(s, sep, i - 1);
        if s[i - 1] == sep {
            (done.push(cur), seq![])
        } else {
            (done, cur.push(s[i - 1]))
        }
    }
}

/// The pieces of `s` between the occurrences of `sep`, empty pieces
/// included (`str::split` with a character): one more piece than separators.
pub open spec fn spec_split(s: Seq<char>, sep: char) -> Seq<Seq<char>> {
    let (done, cur) = split_upto(s, sep, s.len() as int);
    done.push(cur)
}

/// Splits `s` at every `sep`.
pub fn split_char(s: &[char], sep: char) -> (r: Vec<Vec<char>>)
    ensures
        views(r@) == spec_split(s@, sep),
{
    let mut done: Vec<Vec<char>> = Vec::new();
    let mut cur: Vec<char> = Vec::new();
    let mut i: usize = 0;
    while i < s.len()
        invariant
            i <= s@.len(),
            (views(done@), cur@) == split_upto(s@, sep, i as int),
        decreases s@.len() - i,
    {
        if s[i] == sep {
            let ghost before = views(done@);
            let ghost c = cur@;
            done.push(cur);
            assert(views(done@) =~= before.push(c));
            cur = Vec::new();
        } else {
            cur.push(s[i]);
        }
        i = i + 1;
    }
    let ghost before = views(done@);
    let ghost c = cur@;
    done.push(cur);
    assert(views(done@) =~= before.push(c));
    done
}

/// The decimal representation of a signed number (`i64::to_string`).
pub open spec fn spec_signed_decimal(n: int) -> Seq<char> {
    if n < 0 {
        seq!['-'] + spec_decimal((-n) as nat)
    } else {
        spec_decimal(n as nat)
    }
}

/// Appends the decimal representation of a signed number.
pub fn push_signed(s: &mut String, n: i64)
    ensures
        final(s)@ == old(s)@ + spec_signed_decimal(n as int),
{
    if n < 0 {
        push_char(s, '-');
        let m: u64 = if n == i64::MIN {
            9223372036854775808u64
        } else {
            (-n) as u64
        };
        let ghost mid = s@;
        push_decimal(s, m);
        assert(s@ =~= old(s)@ + spec_signed_decimal(n as int));
    } else {
        push_decimal(s, n as u64);
    }
}

} // verus!

verus! {

/// What `char::to_uppercase` yields for `c` (the Unicode mapping, which may
/// give several characters; not written out here).
pub uninterp spec fn spec_char_upper(c: char) -> Seq<char>;

/// `char::to_uppercase`, collected. Its result is named by
/// `spec_char_upper`. std documents it as the Unicode upper-case mapping;
/// for an ASCII character that is the single character `a`–`z` turned into
/// `A`–`Z`, any other ASCII character itself. Nothing is said here of other
/// characters.
#[verifier::external_body]
pub(crate) fn char_upper(c: char) -> (r: Vec<char>)
    ensures
        r@ == spec_char_upper(c),
        is_ascii_char(c) ==> r@ == seq![ascii_upper(c)],
{
    c.to_uppercase().collect()
}

/// What `char::to_lowercase` yields for `c` (the Unicode mapping, which may
/// give several characters; not written out here).
pub uninterp spec fn spec_char_lower(c: char) -> Seq<char>;

/// `char::to_lowercase`, collected. Its result is named by
/// `spec_char_lower`. std documents it as the Unicode lower-case mapping;
/// for an ASCII character that is the single character `A`–`Z` turned into
/// `a`–`z`, any other ASCII character itself. Nothing is said here of other
/// characters.
#[verifier::external_body]
pub(crate) fn char_lower(c: char) -> (r: Vec<char>)
    ensures
        r@ == spec_char_lower(c),
        is_ascii_char(c) ==> r@ == seq![ascii_lower(c)],
{
    c.to_lowercase().collect()
}

} // verus!

verus! {

// ── Lines of joined lines ────────────────────────────────────────────────────

/// `l` holds no line feed.
pub open spec fn no_newline(l: Seq<char>) -> bool {
    forall|i: int| 0 <= i < l.len() ==> l[i] != '\n'
}

/// Each line with one trailing carriage return removed.
pub open spec fn strip_all(ms: Seq<Seq<char>>) -> Seq<Seq<char>>
    decreases ms.len(),
{
    if ms.len() == 0 {
        seq![]
    } else {
        strip_all(ms.drop_last()).push(spec_strip_cr(ms.last()))
    }
}

pub proof fn lemma_lines_prefix(s: Seq<char>, u: Seq<char>, i: int)
    requires
        0 <= i <= s.len(),
        i <= u.len(),
        forall|j: int| 0 <= j < i ==> u[j] == s[j],
    ensures
        lines_upto(u, i) == lines_upto(s, i),
    decreases i,
{
    if i > 0 {
        lemma_lines_prefix(s, u, i - 1);
    }
}

proof fn lemma_lines_free(t: Seq<char>, k: int)
    requires
        0 <= k <= t.len(),
        no_newline(t),
    ensures
        lines_upto(t, k) == (Seq::<Seq<char>>::empty(), t.take(k)),
    decreases k,
{
    if k > 0 {
        lemma_lines_free(t, k - 1);
        assert(t.take(k - 1).push(t[k - 1]) =~= t.take(k));
    } else {
        assert(t.take(0) =~= Seq::<char>::empty());
    }
}

proof fn lemma_lines_cat(s: Seq<char>, t: Seq<char>, k: int)
    requires
        0 <= k <= t.len(),
        no_newline(t),
    ensures
        ({
            let u = s + seq!['\n'] + t;
            let (d, c) = lines_upto(s, s.len() as int);
            lines_upto(u, s.len() + 1 + k) == (d.push(spec_strip_cr(c)), t.take(k))
        }),
    decreases k,
{
    let u = s + seq!['\n'] + t;
    if k > 0 {
        lemma_lines_cat(s, t, k - 1);
        assert(u[s.len() + k] == t[k - 1]);
        assert(t.take(k - 1).push(t[k - 1]) =~= t.take(k));
    } else {
        lemma_lines_prefix(s, u, s.len() as int);
        assert(u[s.len() as int] == '\n');
        assert(t.take(0) =~= Seq::<char>::empty());
    }
}

/// Splitting joined lines that hold no line feed gives them back: all but
/// the last with a trailing carriage return removed, and the last one
/// unfinished.
pub proof fn lemma_lines_of_join(ms: Seq<Seq<char>>)
    requires
        ms.len() > 0,
        forall|i: int| 0 <= i < ms.len() ==> no_newline(#[trigger] ms[i]),
    ensures
        lines_upto(spec_join_lines(ms), spec_join_lines(ms).len() as int) == (
            strip_all(ms.drop_last()),
            ms.last(),
        ),
    decreases ms.len(),
{
    if ms.len() == 1 {
        lemma_lines_free(ms[0], ms[0].len() as int);
        assert(ms[0].take(ms[0].len() as int) =~= ms[0]);
        assert(ms.drop_last() =~= Seq::<Seq<char>>::empty());
    } else {
        let p = ms.drop_last();
        assert forall|i: int| 0 <= i < p.len() implies no_newline(#[trigger] p[i]) by {
            assert(p[i] == ms[i]);
        }
        lemma_lines_of_join(p);
        let s = spec_join_lines(p);
        let t = ms.last();
        assert(no_newline(ms[ms.len() - 1]));
        lemma_lines_cat(s, t, t.len() as int);
        assert(t.take(t.len() as int) =~= t);
        assert(spec_join_lines(ms) == s + seq!['\n'] + t);
        assert(p.drop_last().push(p.last()) =~= p);
    }
}

/// The lines of joined lines that hold no line feed.
pub proof fn lemma_lines_join(ms: Seq<Seq<char>>)
    requires
        forall|i: int| 0 <= i < ms.len() ==> no_newline(#[trigger] ms[i]),
    ensures
        spec_lines(spec_join_lines(ms)) == if ms.len() == 0 {
            Seq::<Seq<char>>::empty()
        } else if ms.last().len() > 0 {
            strip_all(ms.drop_last()).push(ms.last())
        } else {
            strip_all(ms.drop_last())
        },
{
    if ms.len() > 0 {
        lemma_lines_of_join(ms);
    }
}

/// The lines of any text hold no line feed.
pub proof fn lemma_lines_no_newline(s: Seq<char>)
    ensures
        forall|i: int| 0 <= i < spec_lines(s).len() ==> no_newline(#[trigger] spec_lines(s)[i]),
{
    lemma_lines_upto_no_newline(s, s.len() as int);
}

proof fn lemma_lines_upto_no_newline(s: Seq<char>, n: int)
    requires
        0 <= n <= s.len(),
    ensures
        forall|i: int| 0 <= i < lines_upto(s, n).0.len() ==> no_newline(#[trigger] lines_upto(s, n).0[i]),
        no_newline(lines_upto(s, n).1),
    decreases n,
{
    if n > 0 {
        lemma_lines_upto_no_newline(s, n - 1);
        let (d, c) = lines_upto(s, n - 1);
        if s[n - 1] == '\n' {
            let sc = spec_strip_cr(c);
            assert(no_newline(sc)) by {
                assert forall|i: int| 0 <= i < sc.len() implies sc[i] != '\n' by {
                    assert(sc[i] == c[i]);
                }
            }
            assert forall|i: int| 0 <= i < d.push(sc).len() implies no_newline(#[trigger] d.push(sc)[i]) by {
                if i < d.len() {
                    assert(d.push(sc)[i] == d[i]);
                }
            }
        } else {
            let c2 = c.push(s[n - 1]);
            assert forall|i: int| 0 <= i < c2.len() implies c2[i] != '\n' by {
                if i < c.len() {
                    assert(c2[i] == c[i]);
                }
            }
        }
    }
}

} // verus!
