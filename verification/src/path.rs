//! Paths as sequences of `/`-delimited segments.

use vstd::prelude::*;

verus! {

broadcast use vstd::string::group_string_axioms;

/// The pieces of `s` between its `/` characters, in order. A string with `n`
/// separators has `n + 1` pieces; empty pieces are kept.
pub open spec fn split(s: Seq<char>) -> Seq<Seq<char>>
    decreases s.len(),
{
    if s.len() == 0 {
        seq![Seq::<char>::empty()]
    } else {
        let before = split(s.drop_last());
        if s.last() == '/' {
            before.push(Seq::<char>::empty())
        } else {
            before.drop_last().push(before.last().push(s.last()))
        }
    }
}

/// `s` without its leading `/`, if it has one.
pub open spec fn strip_root(s: Seq<char>) -> Seq<char> {
    if s.len() > 0 && s[0] == '/' {
        s.subrange(1, s.len() as int)
    } else {
        s
    }
}

/// The segments of a path or of a route template. One leading `/` is
/// optional and ignored; the root (`/` or the empty string) has no segment.
pub open spec fn segments(path: Seq<char>) -> Seq<Seq<char>> {
    let rest = strip_root(path);
    if rest.len() == 0 {
        Seq::<Seq<char>>::empty()
    } else {
        split(rest)
    }
}

/// The pieces put together again, with one `/` between neighbours.
pub open spec fn join(pieces: Seq<Seq<char>>) -> Seq<char>
    decreases pieces.len(),
{
    if pieces.len() == 0 {
        Seq::<char>::empty()
    } else if pieces.len() == 1 {
        pieces[0]
    } else {
        join(pieces.drop_last()) + seq!['/'] + pieces.last()
    }
}

/// The character sequences that a list of strings stands for.
pub open spec fn texts(strings: Seq<String>) -> Seq<Seq<char>> {
    strings.map_values(|s: String| s@)
}

/// Splits `path` into its segments.
pub fn split_segments(path: &str) -> (segs: Vec<String>)
    ensures
        texts(segs@) == segments(path@),
{
    let n = path.unicode_len();
    let mut segs: Vec<String> = Vec::new();
    if n == 0 {
        assert(texts(segs@) =~= segments(path@));
        return segs;
    }
    let begin: usize = if path.get_char(0) == '/' { 1 } else { 0 };
    if begin == n {
        assert(texts(segs@) =~= segments(path@));
        return segs;
    }
    let rest = path.substring_char(begin, n);
    assert(rest@ == strip_root(path@));
    let m: usize = n - begin;
    let mut start: usize = 0;
    let mut i: usize = 0;
    proof {
        assert(rest@.take(0) =~= Seq::<char>::empty());
        assert(texts(segs@).push(rest@.subrange(0, 0)) =~= split(rest@.take(0)));
    }
    for c in it: rest.chars()
        invariant
            it.seq() == rest@,
            i == it.index(),
            m == rest@.len(),
            start <= i <= m,
            texts(segs@).push(rest@.subrange(start as int, i as int)) == split(rest@.take(i as int)),
    {
        proof {
            let s = rest@.take(i + 1);
            assert(s.drop_last() =~= rest@.take(i as int));
            assert(s.last() == c);
            assert(rest@.subrange(start as int, i as int).push(c) =~= rest@.subrange(
                start as int,
                i + 1,
            ));
            assert(rest@.subrange(i + 1, i + 1) =~= Seq::<char>::empty());
        }
        if c == '/' {
            let piece = rest.substring_char(start, i).to_owned();
            let ghost before = segs@;
            segs.push(piece);
            assert(texts(segs@) =~= texts(before).push(piece@));
            start = i + 1;
        } else {
            assert(texts(segs@).push(rest@.subrange(start as int, i as int)).drop_last() =~= texts(
                segs@,
            ));
        }
        i = i + 1;
    }
    let piece = rest.substring_char(start, m).to_owned();
    let ghost before = segs@;
    segs.push(piece);
    proof {
        assert(rest@.take(m as int) =~= rest@);
        assert(texts(segs@) =~= texts(before).push(piece@));
    }
    segs
}

} // verus!
