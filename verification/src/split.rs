//! Splitting a character range at a separator, with its proof.
use vstd::prelude::*;
use crate::text::{find_from, split};

verus! {

/// After a separator (or at the start) the last piece of `split` is empty.
proof fn lemma_split_boundary(s: Seq<char>, sep: char, a: int)
    requires
        0 <= a <= s.len(),
        a == 0 || s[a - 1] == sep,
    ensures
        split(s.subrange(0, a), sep).len() > 0,
        split(s.subrange(0, a), sep).last() == Seq::<char>::empty(),
{
    if a > 0 {
        assert(s.subrange(0, a).drop_last() =~= s.subrange(0, a - 1));
    }
}

proof fn lemma_split_len(s: Seq<char>, sep: char)
    ensures
        split(s, sep).len() >= 1,
    decreases s.len(),
{
    if s.len() > 0 {
        lemma_split_len(s.drop_last(), sep);
    }
}

/// A run without separators extends the last piece.
proof fn lemma_split_run(s: Seq<char>, sep: char, a: int, b: int)
    requires
        0 <= a <= b <= s.len(),
        a == 0 || s[a - 1] == sep,
        forall|j: int| a <= j < b ==> s[j] != sep,
    ensures
        split(s.subrange(0, b), sep) == split(s.subrange(0, a), sep).drop_last().push(
            s.subrange(a, b),
        ),
    decreases b - a,
{
    lemma_split_boundary(s, sep, a);
    if b == a {
        let p = split(s.subrange(0, a), sep);
        assert(s.subrange(a, b) =~= Seq::<char>::empty());
        assert(p.drop_last().push(s.subrange(a, b)) =~= p);
    } else {
        lemma_split_run(s, sep, a, b - 1);
        assert(s.subrange(0, b).drop_last() =~= s.subrange(0, b - 1));
        let prev = split(s.subrange(0, b - 1), sep);
        lemma_split_len(s.subrange(0, b - 1), sep);
        assert(s.subrange(a, b - 1).push(s[b - 1]) =~= s.subrange(a, b));
        assert(prev.update(prev.len() - 1, prev.last().push(s[b - 1])) =~= split(
            s.subrange(0, a),
            sep,
        ).drop_last().push(s.subrange(a, b)));
    }
}

/// The ranges of the pieces of `split(v[start..end], sep)`, each given by its
/// bounds in `v`.
pub fn split_ranges(v: &Vec<char>, start: usize, end: usize, sep: char) -> (r: Vec<(usize, usize)>)
    requires
        start <= end <= v.len(),
    ensures
        r@.len() == split(v@.subrange(start as int, end as int), sep).len(),
        forall|k: int|
            0 <= k < r@.len() ==> {
                &&& start <= (#[trigger] r@[k]).0 <= r@[k].1 <= end
                &&& v@.subrange(r@[k].0 as int, r@[k].1 as int) == split(
                    v@.subrange(start as int, end as int),
                    sep,
                )[k]
            },
{
    let ghost s = v@.subrange(start as int, end as int);
    let mut r: Vec<(usize, usize)> = Vec::new();
    let mut piece_start = start;
    let mut i = start;
    while i < end
        invariant
            start <= piece_start <= i <= end <= v.len(),
            s == v@.subrange(start as int, end as int),
            piece_start == start || v@[piece_start - 1] == sep,
            forall|j: int| piece_start <= j < i ==> v@[j] != sep,
            r@.len() + 1 == split(s.subrange(0, piece_start - start), sep).len(),
            forall|k: int|
                0 <= k < r@.len() ==> {
                    &&& start <= (#[trigger] r@[k]).0 <= r@[k].1 <= end
                    &&& v@.subrange(r@[k].0 as int, r@[k].1 as int) == split(
                        s.subrange(0, piece_start - start),
                        sep,
                    )[k]
                },
        decreases end - i,
    {
        if v[i] == sep {
            proof {
                let a = piece_start - start;
                let b = i - start;
                assert forall|j: int| a <= j < b implies s[j] != sep by {
                    assert(s[j] == v@[start + j]);
                }
                lemma_split_run(s, sep, a, b);
                lemma_split_boundary(s, sep, a);
                assert(s.subrange(0, b + 1).drop_last() =~= s.subrange(0, b));
                assert(s.subrange(a, b) =~= v@.subrange(piece_start as int, i as int));
                assert(s[b] == sep);
            }
            r.push((piece_start, i));
            piece_start = i + 1;
        }
        i = i + 1;
    }
    proof {
        let a = piece_start - start;
        assert forall|j: int| a <= j < s.len() implies s[j] != sep by {
            assert(s[j] == v@[start + j]);
        }
        lemma_split_run(s, sep, a, s.len() as int);
        lemma_split_boundary(s, sep, a);
        assert(s.subrange(0, s.len() as int) =~= s);
        assert(s.subrange(a, s.len() as int) =~= v@.subrange(piece_start as int, end as int));
    }
    r.push((piece_start, end));
    r
}

/// The position of the first `c` in `v[start..end]`, as an index into `v`.
pub fn find_in(v: &Vec<char>, start: usize, end: usize, c: char) -> (r: Option<usize>)
    requires
        start <= end <= v.len(),
    ensures
        match r {
            Some(i) => start <= i < end && find_from(v@.subrange(start as int, end as int), c, 0)
                == Some(i - start),
            None => find_from(v@.subrange(start as int, end as int), c, 0) == None::<int>,
        },
{
    let ghost s = v@.subrange(start as int, end as int);
    let mut i = start;
    while i < end
        invariant
            start <= i <= end <= v.len(),
            s == v@.subrange(start as int, end as int),
            find_from(s, c, 0) == find_from(s, c, i - start),
        decreases end - i,
    {
        if v[i] == c {
            return Some(i);
        }
        i = i + 1;
    }
    None
}

} // verus!
