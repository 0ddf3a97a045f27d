//! Character-level specifications and helpers shared by the parsers.
use vstd::prelude::*;

verus! {

/// Unicode `White_Space`, the set that `char::is_whitespace` accepts.
pub open spec fn is_ws(c: char) -> bool {
    ||| c == ' '
    ||| ('\t' <= c && c <= '\r')
    ||| c == '\u{85}'
    ||| c == '\u{a0}'
    ||| c == '\u{1680}'
    ||| ('\u{2000}' <= c && c <= '\u{200a}')
    ||| c == '\u{2028}'
    ||| c == '\u{2029}'
    ||| c == '\u{202f}'
    ||| c == '\u{205f}'
    ||| c == '\u{3000}'
}

/// Whether `c` is whitespace in the sense of `char::is_whitespace`.
pub fn is_whitespace(c: char) -> (r: bool)
    ensures
        r == is_ws(c),
{
    c == ' ' || ('\t' <= c && c <= '\r') || c == '\u{85}' || c == '\u{a0}' || c == '\u{1680}'
        || ('\u{2000}' <= c && c <= '\u{200a}') || c == '\u{2028}' || c == '\u{2029}'
        || c == '\u{202f}' || c == '\u{205f}' || c == '\u{3000}'
}

/// ASCII lower case of one character, as `char::to_ascii_lowercase`.
pub open spec fn lower(c: char) -> char {
    if 'A' <= c && c <= 'Z' {
        ((c as u32) + 32) as char
    } else {
        c
    }
}

/// ASCII lower case of a text, as `str::to_ascii_lowercase`.
pub open spec fn lower_seq(s: Seq<char>) -> Seq<char> {
    s.map_values(|c: char| lower(c))
}

pub fn to_lower(c: char) -> (r: char)
    ensures
        r == lower(c),
{
    if 'A' <= c && c <= 'Z' {
        let v: u32 = (c as u32) + 32;
        char_of_ascii(v)
    } else {
        c
    }
}

fn char_of_ascii(v: u32) -> (r: char)
    requires
        97 <= v <= 122,
    ensures
        r == v as char,
{
    v as u8 as char
}

/// Whether every character of `s` is whitespace (an empty text counts).
pub open spec fn all_ws(s: Seq<char>) -> bool {
    forall|i: int| 0 <= i < s.len() ==> is_ws(#[trigger] s[i])
}

/// `s` without its leading whitespace, as `str::trim_start`.
pub open spec fn ltrim(s: Seq<char>) -> Seq<char>
    decreases s.len(),
{
    if s.len() > 0 && is_ws(s[0]) {
        ltrim(s.drop_first())
    } else {
        s
    }
}

/// `s` without its trailing whitespace, as `str::trim_end`.
pub open spec fn rtrim(s: Seq<char>) -> Seq<char>
    decreases s.len(),
{
    if s.len() > 0 && is_ws(s.last()) {
        rtrim(s.drop_last())
    } else {
        s
    }
}

/// `s` without leading and trailing whitespace, as `str::trim`.
pub open spec fn trim(s: Seq<char>) -> Seq<char> {
    rtrim(ltrim(s))
}

/// The pieces of `s` between occurrences of `sep`, as `str::split` with a
/// character: one more piece than there are separators.
pub open spec fn split(s: Seq<char>, sep: char) -> Seq<Seq<char>>
    decreases s.len(),
{
    if s.len() == 0 {
        seq![Seq::empty()]
    } else {
        let prev = split(s.drop_last(), sep);
        if s.last() == sep {
            prev.push(Seq::empty())
        } else {
            prev.update(prev.len() - 1, prev.last().push(s.last()))
        }
    }
}

/// The index of the first `c` in `s` at or after `from`, if any.
pub open spec fn find_from(s: Seq<char>, c: char, from: int) -> Option<int>
    decreases s.len() - from,
{
    if from < 0 || from >= s.len() {
        None
    } else if s[from] == c {
        Some(from)
    } else {
        find_from(s, c, from + 1)
    }
}

/// `str::split_once` with a character: the text before and after the first `c`.
pub open spec fn split_once(s: Seq<char>, c: char) -> Option<(Seq<char>, Seq<char>)> {
    match find_from(s, c, 0) {
        Some(i) => Some((s.subrange(0, i), s.subrange(i + 1, s.len() as int))),
        None => None,
    }
}

/// Whitespace collapsed: the words of `s` (as `str::split_whitespace` gives
/// them) joined by single spaces. Built character by character: `.0` is the
/// text so far and `.1` says that a space is owed before the next word.
pub open spec fn collapse_state(s: Seq<char>) -> (Seq<char>, bool)
    decreases s.len(),
{
    if s.len() == 0 {
        (Seq::empty(), false)
    } else {
        let (out, pending) = collapse_state(s.drop_last());
        let c = s.last();
        if is_ws(c) {
            (out, out.len() > 0)
        } else if pending {
            (out.push(' ').push(c), false)
        } else {
            (out.push(c), false)
        }
    }
}

pub open spec fn collapse_ws(s: Seq<char>) -> Seq<char> {
    collapse_state(s).0
}

/// The value of a run of decimal digits.
pub open spec fn digits_value(s: Seq<char>) -> nat
    decreases s.len(),
{
    if s.len() == 0 {
        0
    } else {
        (digits_value(s.drop_last()) * 10 + ((s.last() as u32) - ('0' as u32))) as nat
    }
}

pub open spec fn is_digit(c: char) -> bool {
    '0' <= c && c <= '9'
}

pub open spec fn all_digits(s: Seq<char>) -> bool {
    forall|i: int| 0 <= i < s.len() ==> is_digit(#[trigger] s[i])
}

/// `str::parse::<usize>`: an optional `+`, then at least one digit, and a
/// value that fits in `usize`.
pub open spec fn parse_usize(s: Seq<char>) -> Option<usize> {
    let d = if s.len() > 0 && s[0] == '+' {
        s.drop_first()
    } else {
        s
    };
    if d.len() > 0 && all_digits(d) && digits_value(d) <= usize::MAX {
        Some(digits_value(d) as usize)
    } else {
        None
    }
}

pub open spec fn starts_with(s: Seq<char>, pre: Seq<char>) -> bool {
    pre.len() <= s.len() && s.subrange(0, pre.len() as int) == pre
}

/// A copy of the characters `v[start..end]`.
pub fn sub_vec(v: &Vec<char>, start: usize, end: usize) -> (r: Vec<char>)
    requires
        start <= end <= v.len(),
    ensures
        r@ == v@.subrange(start as int, end as int),
{
    let mut r: Vec<char> = Vec::new();
    let mut i = start;
    while i < end
        invariant
            start <= i <= end <= v.len(),
            r@ == v@.subrange(start as int, i as int),
        decreases end - i,
    {
        r.push(v[i]);
        i = i + 1;
    }
    r
}

/// Whether `v[start..end]` is all whitespace.
pub fn is_blank(v: &Vec<char>, start: usize, end: usize) -> (r: bool)
    requires
        start <= end <= v.len(),
    ensures
        r == all_ws(v@.subrange(start as int, end as int)),
{
    let mut i = start;
    while i < end
        invariant
            start <= i <= end <= v.len(),
            forall|j: int| start <= j < i ==> is_ws(v@[j]),
        decreases end - i,
    {
        if !is_whitespace(v[i]) {
            assert(!is_ws(v@.subrange(start as int, end as int)[i - start]));
            return false;
        }
        i = i + 1;
    }
    assert forall|j: int| 0 <= j < end - start implies is_ws(
        #[trigger] v@.subrange(start as int, end as int)[j],
    ) by {
        assert(v@.subrange(start as int, end as int)[j] == v@[start + j]);
    }
    true
}

/// The characters of `s`, in order.
pub(crate) fn chars_of(s: &str) -> (v: Vec<char>)
    ensures
        v@ == s@,
{
    broadcast use vstd::string::group_string_axioms;

    let mut v: Vec<char> = Vec::new();
    for c in it: s.chars()
        invariant
            v@ == it.seq().take(it.index()),
            it.seq() == s@,
    {
        v.push(c);
    }
    v
}

pub assume_specification[ String::push ](s: &mut String, ch: char)
    ensures
        final(s)@ == old(s)@.push(ch),
;

/// A `String` holding the characters `v[start..end]`.
pub fn string_of(v: &Vec<char>, start: usize, end: usize) -> (s: String)
    requires
        start <= end <= v.len(),
    ensures
        s@ == v@.subrange(start as int, end as int),
{
    let mut s = String::new();
    let mut i = start;
    while i < end
        invariant
            start <= i <= end <= v.len(),
            s@ == v@.subrange(start as int, i as int),
        decreases end - i,
    {
        s.push(v[i]);
        i = i + 1;
    }
    s
}

/// A `String` holding the characters of `v`.
pub fn string_from(v: &Vec<char>) -> (s: String)
    ensures
        s@ == v@,
{
    let s = string_of(v, 0, v.len());
    assert(v@.subrange(0, v.len() as int) =~= v@);
    s
}

/// A copy of a `String`.
pub fn copy_string(s: &String) -> (r: String)
    ensures
        r@ == s@,
{
    s.clone()
}

/// Whether `v[start..end]` equals the text `lit`.
pub fn range_eq(v: &Vec<char>, start: usize, end: usize, lit: &str) -> (r: bool)
    requires
        start <= end <= v.len(),
    ensures
        r == (v@.subrange(start as int, end as int) == lit@),
{
    let l = chars_of(lit);
    if end - start != l.len() {
        return false;
    }
    let mut i: usize = 0;
    while i < l.len()
        invariant
            start <= end <= v.len(),
            end - start == l.len(),
            l@ == lit@,
            0 <= i <= l.len(),
            forall|j: int| 0 <= j < i ==> v@[start + j] == l@[j],
        decreases l.len() - i,
    {
        if v[start + i] != l[i] {
            assert(v@.subrange(start as int, end as int)[i as int] != l@[i as int]);
            return false;
        }
        i = i + 1;
    }
    assert(v@.subrange(start as int, end as int) =~= l@);
    true
}

/// Whether `v` starts with the text `lit`.
pub fn has_prefix(v: &Vec<char>, lit: &str) -> (r: bool)
    ensures
        r == starts_with(v@, lit@),
{
    let l = chars_of(lit);
    if l.len() > v.len() {
        return false;
    }
    let r = range_eq(v, 0, l.len(), lit);
    proof {
        assert(l@ == lit@);
    }
    r
}

/// Whether the text `s` equals the text `lit`.
pub fn str_is(s: &str, lit: &str) -> (r: bool)
    ensures
        r == (s@ == lit@),
{
    let v = chars_of(s);
    let r = range_eq(&v, 0, v.len(), lit);
    assert(v@.subrange(0, v.len() as int) =~= v@);
    r
}

/// Whether two texts are equal.
pub fn string_eq(a: &String, b: &String) -> (r: bool)
    ensures
        r == (a@ == b@),
{
    str_is(a.as_str(), b.as_str())
}

/// The bounds of `trim(v[start..end])` inside `v`.
pub fn trim_range(v: &Vec<char>, start: usize, end: usize) -> (r: (usize, usize))
    requires
        start <= end <= v.len(),
    ensures
        start <= r.0 <= r.1 <= end,
        v@.subrange(r.0 as int, r.1 as int) == trim(v@.subrange(start as int, end as int)),
{
    let mut a = start;
    while a < end && is_whitespace(v[a])
        invariant
            start <= a <= end <= v.len(),
            ltrim(v@.subrange(start as int, end as int)) == ltrim(v@.subrange(a as int, end as int)),
        decreases end - a,
    {
        assert(v@.subrange(a as int, end as int).drop_first() =~= v@.subrange(a + 1, end as int));
        a = a + 1;
    }
    assert(ltrim(v@.subrange(a as int, end as int)) == v@.subrange(a as int, end as int));
    let mut b = end;
    while b > a && is_whitespace(v[b - 1])
        invariant
            start <= a <= b <= end <= v.len(),
            rtrim(v@.subrange(a as int, end as int)) == rtrim(v@.subrange(a as int, b as int)),
        decreases b - a,
    {
        assert(v@.subrange(a as int, b as int).drop_last() =~= v@.subrange(a as int, b - 1));
        b = b - 1;
    }
    (a, b)
}

/// `trim` of a `String`.
pub fn trimmed(s: &str) -> (r: String)
    ensures
        r@ == trim(s@),
{
    let v = chars_of(s);
    let (a, b) = trim_range(&v, 0, v.len());
    assert(v@.subrange(0, v.len() as int) =~= v@);
    string_of(&v, a, b)
}

/// `to_ascii_lowercase` of the characters `v[start..end]`.
pub fn lower_string_of(v: &Vec<char>, start: usize, end: usize) -> (s: String)
    requires
        start <= end <= v.len(),
    ensures
        s@ == lower_seq(v@.subrange(start as int, end as int)),
{
    let mut s = String::new();
    let mut i = start;
    while i < end
        invariant
            start <= i <= end <= v.len(),
            s@ == lower_seq(v@.subrange(start as int, i as int)),
        decreases end - i,
    {
        s.push(to_lower(v[i]));
        proof {
            assert(lower_seq(v@.subrange(start as int, i + 1)) =~= lower_seq(
                v@.subrange(start as int, i as int),
            ).push(lower(v@[i as int])));
        }
        i = i + 1;
    }
    s
}

/// `to_ascii_lowercase` of a text.
pub fn lowered(s: &str) -> (r: String)
    ensures
        r@ == lower_seq(s@),
{
    let v = chars_of(s);
    assert(v@.subrange(0, v.len() as int) =~= v@);
    lower_string_of(&v, 0, v.len())
}

/// The whitespace-collapsed text of `v[start..end]`.
pub fn collapse_range(v: &Vec<char>, start: usize, end: usize) -> (r: String)
    requires
        start <= end <= v.len(),
    ensures
        r@ == collapse_ws(v@.subrange(start as int, end as int)),
{
    let mut out = String::new();
    let mut pending = false;
    let mut nonempty = false;
    let mut i = start;
    while i < end
        invariant
            start <= i <= end <= v.len(),
            (out@, pending) == collapse_state(v@.subrange(start as int, i as int)),
            nonempty == (out@.len() > 0),
        decreases end - i,
    {
        let c = v[i];
        proof {
            assert(v@.subrange(start as int, i + 1).drop_last() =~= v@.subrange(start as int, i as int));
        }
        if is_whitespace(c) {
            pending = nonempty;
        } else {
            if pending {
                out.push(' ');
            }
            out.push(c);
            pending = false;
            nonempty = true;
        }
        i = i + 1;
    }
    out
}

/// Whitespace collapsed, as `split_whitespace().collect::<Vec<_>>().join(" ")`.
pub fn collapse_whitespace(s: &str) -> (r: String)
    ensures
        r@ == collapse_ws(s@),
{
    let v = chars_of(s);
    assert(v@.subrange(0, v.len() as int) =~= v@);
    collapse_range(&v, 0, v.len())
}

proof fn lemma_ltrim_edge(s: Seq<char>)
    ensures
        ltrim(s).len() > 0 ==> !is_ws(ltrim(s)[0]),
        ltrim(s).len() <= s.len(),
        ltrim(s) == s.skip(s.len() - ltrim(s).len()),
    decreases s.len(),
{
    if s.len() > 0 && is_ws(s[0]) {
        lemma_ltrim_edge(s.drop_first());
        assert(s.drop_first().skip(s.drop_first().len() - ltrim(s).len()) =~= s.skip(s.len() - ltrim(s).len()));
    } else {
        assert(s.skip(0) =~= s);
    }
}

proof fn lemma_rtrim_edge(s: Seq<char>)
    ensures
        rtrim(s).len() > 0 ==> !is_ws(rtrim(s).last()),
        rtrim(s).len() <= s.len(),
        rtrim(s) == s.take(rtrim(s).len() as int),
    decreases s.len(),
{
    if s.len() > 0 && is_ws(s.last()) {
        lemma_rtrim_edge(s.drop_last());
        assert(s.drop_last().take(rtrim(s).len() as int) =~= s.take(rtrim(s).len() as int));
    } else {
        assert(s.take(s.len() as int) =~= s);
    }
}

/// A trimmed text neither starts nor ends with whitespace.
pub proof fn lemma_trim_edges(s: Seq<char>)
    ensures
        trim(s).len() > 0 ==> !is_ws(trim(s)[0]) && !is_ws(trim(s).last()),
{
    lemma_ltrim_edge(s);
    lemma_rtrim_edge(ltrim(s));
    if trim(s).len() > 0 {
        assert(trim(s)[0] == ltrim(s)[0]);
    }
}

/// Trimming keeps only characters of the text.
pub proof fn lemma_trim_within(s: Seq<char>, c: char)
    requires
        !s.contains(c),
    ensures
        !trim(s).contains(c),
{
    lemma_ltrim_edge(s);
    let l = ltrim(s);
    lemma_rtrim_edge(l);
    let t = trim(s);
    if t.contains(c) {
        let k = choose|k: int| 0 <= k < t.len() && t[k] == c;
        assert(t[k] == l[k]);
        assert(l[k] == s[s.len() - l.len() + k]);
    }
}

/// A text that neither starts nor ends with whitespace is its own trim.
pub proof fn lemma_trim_unchanged(s: Seq<char>)
    requires
        s.len() > 0 ==> !is_ws(s[0]) && !is_ws(s.last()),
    ensures
        trim(s) == s,
{
}

/// Lower-casing keeps whitespace whitespace and anything else not.
pub proof fn lemma_lower_ws(c: char)
    ensures
        is_ws(lower(c)) == is_ws(c),
        lower(lower(c)) == lower(c),
{
}

/// Trimming and lower-casing a second time changes nothing.
pub proof fn lemma_lower_trim_idempotent(s: Seq<char>)
    ensures
        lower_seq(trim(lower_seq(trim(s)))) == lower_seq(trim(s)),
{
    let t = trim(s);
    let l = lower_seq(t);
    lemma_trim_edges(s);
    if l.len() > 0 {
        lemma_lower_ws(t[0]);
        lemma_lower_ws(t.last());
        assert(l[0] == lower(t[0]));
        assert(l.last() == lower(t.last()));
    }
    lemma_trim_unchanged(l);
    assert forall|i: int| 0 <= i < l.len() implies #[trigger] lower_seq(l)[i] == l[i] by {
        lemma_lower_ws(t[i]);
    }
    assert(lower_seq(l) =~= l);
}

/// Text as whitespace collapsing leaves it: every whitespace character is
/// a single space between two other characters.
pub open spec fn tidy(t: Seq<char>) -> bool {
    forall|i: int|
        0 <= i < t.len() && is_ws(#[trigger] t[i]) ==> t[i] == ' ' && 0 < i && i + 1 < t.len() && !is_ws(t[i - 1])
            && !is_ws(t[i + 1])
}

/// Collapsing gives tidy text, and a space is owed only after some text.
pub proof fn lemma_collapse_tidy(s: Seq<char>)
    ensures
        tidy(collapse_state(s).0),
        collapse_state(s).1 ==> collapse_state(s).0.len() > 0,
        collapse_state(s).0.len() > 0 ==> !is_ws(collapse_state(s).0.last()),
    decreases s.len(),
{
    if s.len() > 0 {
        lemma_collapse_tidy(s.drop_last());
        let (out, pending) = collapse_state(s.drop_last());
        let c = s.last();
        if !is_ws(c) {
            let r = collapse_state(s).0;
            if pending {
                assert(r == out.push(' ').push(c));
                assert forall|i: int| 0 <= i < r.len() && is_ws(#[trigger] r[i]) implies r[i] == ' ' && 0 < i && i + 1
                    < r.len() && !is_ws(r[i - 1]) && !is_ws(r[i + 1]) by {
                    if i < out.len() {
                        assert(r[i] == out[i]);
                        if i + 1 < out.len() {
                            assert(r[i + 1] == out[i + 1]);
                        }
                        assert(r[i - 1] == out[i - 1]);
                    } else if i == out.len() {
                        assert(r[i - 1] == out.last());
                    }
                }
            } else {
                assert(r == out.push(c));
                assert forall|i: int| 0 <= i < r.len() && is_ws(#[trigger] r[i]) implies r[i] == ' ' && 0 < i && i + 1
                    < r.len() && !is_ws(r[i - 1]) && !is_ws(r[i + 1]) by {
                    if i < out.len() {
                        assert(r[i] == out[i]);
                        if i + 1 < out.len() {
                            assert(r[i + 1] == out[i + 1]);
                        }
                        assert(r[i - 1] == out[i - 1]);
                    }
                }
            }
        }
    }
}

/// Collapsing a prefix of tidy text gives the prefix without a trailing
/// space, owing that space.
proof fn lemma_collapse_tidy_prefix(t: Seq<char>, k: int)
    requires
        tidy(t),
        0 <= k <= t.len(),
    ensures
        collapse_state(t.take(k)) == (if k > 0 && t[k - 1] == ' ' {
            (t.take(k - 1), true)
        } else {
            (t.take(k), false)
        }),
    decreases k,
{
    if k > 0 {
        lemma_collapse_tidy_prefix(t, k - 1);
        assert(t.take(k).drop_last() =~= t.take(k - 1));
        assert(t.take(k).last() == t[k - 1]);
        let c = t[k - 1];
        if is_ws(c) {
            assert(k - 1 > 0 && !is_ws(t[k - 2]));
            assert(t[k - 2] != ' ');
        } else {
            if k > 1 && t[k - 2] == ' ' {
                assert(t.take(k - 2).push(' ').push(c) =~= t.take(k));
            } else {
                assert(t.take(k - 1).push(c) =~= t.take(k));
            }
        }
    }
}

/// Tidy text collapses to itself.
pub proof fn lemma_collapse_tidy_fixed(t: Seq<char>)
    requires
        tidy(t),
        t.len() > 0 ==> !is_ws(t.last()),
    ensures
        collapse_ws(t) == t,
{
    lemma_collapse_tidy_prefix(t, t.len() as int);
    assert(t.take(t.len() as int) =~= t);
}

/// Appending a digit never makes the value smaller.
pub proof fn lemma_digits_value_mono(s: Seq<char>, k: int)
    requires
        0 <= k <= s.len(),
        all_digits(s),
    ensures
        digits_value(s.subrange(0, k)) <= digits_value(s),
    decreases s.len() - k,
{
    if k < s.len() {
        lemma_digits_value_mono(s, k + 1);
        assert(s.subrange(0, k + 1).drop_last() =~= s.subrange(0, k));
        assert(is_digit(s[k]));
    } else {
        assert(s.subrange(0, k) =~= s);
    }
}

/// `parse_usize` of the characters `v[start..end]`.
pub fn parse_usize_range(v: &Vec<char>, start: usize, end: usize) -> (r: Option<usize>)
    requires
        start <= end <= v.len(),
    ensures
        r == parse_usize(v@.subrange(start as int, end as int)),
{
    let ghost s = v@.subrange(start as int, end as int);
    let mut a = start;
    if a < end && v[a] == '+' {
        a = a + 1;
    }
    let ghost d = v@.subrange(a as int, end as int);
    proof {
        if start < end && v@[start as int] == '+' {
            assert(d =~= s.drop_first());
        } else {
            assert(d =~= s);
        }
    }
    if a == end {
        return None;
    }
    let mut value: usize = 0;
    let mut i = a;
    while i < end
        invariant
            start <= a <= i <= end <= v.len(),
            d == v@.subrange(a as int, end as int),
            s == v@.subrange(start as int, end as int),
            d == (if s.len() > 0 && s[0] == '+' {
                s.drop_first()
            } else {
                s
            }),
            d.len() > 0,
            all_digits(v@.subrange(a as int, i as int)),
            value as nat == digits_value(v@.subrange(a as int, i as int)),
        decreases end - i,
    {
        let c = v[i];
        proof {
            assert(v@.subrange(a as int, i + 1).drop_last() =~= v@.subrange(a as int, i as int));
        }
        if !('0' <= c && c <= '9') {
            proof {
                assert(!is_digit(d[i - a]));
            }
            return None;
        }
        let digit: usize = ((c as u32) - ('0' as u32)) as usize;
        if value > (usize::MAX - digit) / 10 {
            proof {
                assert(digits_value(v@.subrange(a as int, i + 1)) > usize::MAX) by (nonlinear_arith)
                    requires
                        digits_value(v@.subrange(a as int, i + 1)) == value * 10 + digit,
                        value > (usize::MAX - digit) / 10,
                        digit <= 9,
                ;
                assert forall|j: int| 0 <= j < i + 1 - a implies is_digit(
                    #[trigger] v@.subrange(a as int, i + 1)[j],
                ) by {
                    if j < i - a {
                        assert(v@.subrange(a as int, i + 1)[j] == v@.subrange(a as int, i as int)[j]);
                    }
                }
                if all_digits(d) {
                    assert(d.subrange(0, i + 1 - a) =~= v@.subrange(a as int, i + 1));
                    lemma_digits_value_mono(d, i + 1 - a);
                }
            }
            return None;
        }
        proof {
            assert(value * 10 + digit <= usize::MAX) by (nonlinear_arith)
                requires
                    value <= (usize::MAX - digit) / 10,
                    digit <= 9,
            ;
        }
        value = value * 10 + digit;
        proof {
            assert forall|j: int| 0 <= j < i + 1 - a implies is_digit(
                #[trigger] v@.subrange(a as int, i + 1)[j],
            ) by {
                if j < i - a {
                    assert(v@.subrange(a as int, i + 1)[j] == v@.subrange(a as int, i as int)[j]);
                }
            }
        }
        i = i + 1;
    }
    proof {
        assert(v@.subrange(a as int, end as int) == d);
    }
    Some(value)
}

/// The words of `s`, as `str::split_whitespace` gives them. Built character
/// by character: `.1` says that the last character read belongs to a word.
pub open spec fn words_state(s: Seq<char>) -> (Seq<Seq<char>>, bool)
    decreases s.len(),
{
    if s.len() == 0 {
        (Seq::empty(), false)
    } else {
        let (ws, inw) = words_state(s.drop_last());
        let c = s.last();
        if is_ws(c) {
            (ws, false)
        } else if inw && ws.len() > 0 {
            (ws.update(ws.len() - 1, ws.last().push(c)), true)
        } else {
            (ws.push(seq![c]), true)
        }
    }
}

pub open spec fn words(s: Seq<char>) -> Seq<Seq<char>> {
    words_state(s).0
}

/// The bounds in `v` of the words of `v[start..end]`.
pub fn word_ranges(v: &Vec<char>, start: usize, end: usize) -> (r: Vec<(usize, usize)>)
    requires
        start <= end <= v.len(),
    ensures
        r@.len() == words(v@.subrange(start as int, end as int)).len(),
        forall|k: int|
            0 <= k < r@.len() ==> {
                &&& start <= (#[trigger] r@[k]).0 <= r@[k].1 <= end
                &&& v@.subrange(r@[k].0 as int, r@[k].1 as int) == words(
                    v@.subrange(start as int, end as int),
                )[k]
            },
{
    let mut r: Vec<(usize, usize)> = Vec::new();
    let mut in_word = false;
    let mut i = start;
    while i < end
        invariant
            start <= i <= end <= v.len(),
            r@.len() == words_state(v@.subrange(start as int, i as int)).0.len(),
            in_word == words_state(v@.subrange(start as int, i as int)).1,
            in_word ==> r@.len() > 0 && r@.last().1 == i,
            forall|k: int|
                0 <= k < r@.len() ==> {
                    &&& start <= (#[trigger] r@[k]).0 <= r@[k].1 <= i
                    &&& v@.subrange(r@[k].0 as int, r@[k].1 as int) == words_state(
                        v@.subrange(start as int, i as int),
                    ).0[k]
                },
        decreases end - i,
    {
        let c = v[i];
        let ghost prev = words_state(v@.subrange(start as int, i as int));
        proof {
            assert(v@.subrange(start as int, i + 1).drop_last() =~= v@.subrange(start as int, i as int));
        }
        if is_whitespace(c) {
            in_word = false;
        } else if in_word && r.len() > 0 {
            let last = r.len() - 1;
            let (a, _) = r[last];
            r.set(last, (a, i + 1));
            proof {
                assert(v@.subrange(a as int, i + 1) =~= v@.subrange(a as int, i as int).push(c));
            }
        } else {
            r.push((i, i + 1));
            in_word = true;
            proof {
                assert(v@.subrange(i as int, i + 1) =~= seq![c]);
            }
        }
        i = i + 1;
    }
    r
}

} // verus!
