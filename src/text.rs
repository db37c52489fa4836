//! Character-sequence helpers: splitting on a separator, and the
//! facts about splits that the URL parser relies on.

use vstd::prelude::*;

verus! {

/// The pieces of `s` between occurrences of `c`, as `str::split` yields
/// them: always at least one piece, possibly empty.
pub open spec fn split_on(s: Seq<char>, c: char) -> Seq<Seq<char>>
    decreases s.len(),
{
    if s.len() == 0 {
        seq![Seq::empty()]
    } else {
        let front = split_on(s.drop_last(), c);
        if s.last() == c {
            front.push(Seq::empty())
        } else {
            front.update(front.len() - 1, front.last().push(s.last()))
        }
    }
}

/// The views of a sequence of strings.
pub open spec fn views(v: Seq<String>) -> Seq<Seq<char>> {
    v.map_values(|x: String| x@)
}

/// Text without the separator splits into itself alone.
pub proof fn lemma_split_without(s: Seq<char>, c: char)
    requires
        !s.contains(c),
    ensures
        split_on(s, c) == seq![s],
    decreases s.len(),
{
    if s.len() == 0 {
        assert(s =~= Seq::<char>::empty());
    } else {
        let t = s.drop_last();
        assert(!t.contains(c)) by {
            if t.contains(c) {
                let i = choose|i: int| 0 <= i < t.len() && t[i] == c;
                assert(s[i] == c);
            }
        }
        lemma_split_without(t, c);
        assert(s[s.len() - 1] != c);
        assert(t.push(s.last()) =~= s);
        assert(seq![t].update(0, t.push(s.last())) =~= seq![s]);
    }
}

/// Splitting `y`, a separator, then `x` (which holds no separator) gives the
/// pieces of `y` followed by `x`.
pub proof fn lemma_split_after(y: Seq<char>, c: char, x: Seq<char>)
    requires
        !x.contains(c),
    ensures
        split_on(y + seq![c] + x, c) == split_on(y, c).push(x),
    decreases x.len(),
{
    let s = y + seq![c] + x;
    if x.len() == 0 {
        assert(s.drop_last() =~= y);
        assert(x =~= Seq::<char>::empty());
    } else {
        let t = x.drop_last();
        assert(!t.contains(c)) by {
            if t.contains(c) {
                let i = choose|i: int| 0 <= i < t.len() && t[i] == c;
                assert(x[i] == c);
            }
        }
        lemma_split_after(y, c, t);
        assert(s.drop_last() =~= y + seq![c] + t);
        assert(x[x.len() - 1] != c);
        assert(s.last() == x.last());
        assert(t.push(x.last()) =~= x);
        assert(split_on(y, c).push(t).update(split_on(y, c).len() as int, x) =~= split_on(
            y,
            c,
        ).push(x));
    }
}

/// Splits `s` at every occurrence of `c`.
pub fn split(s: &str, c: char) -> (r: Vec<String>)
    ensures
        views(r@) == split_on(s@, c),
        r@.len() >= 1,
{
    let n = s.unicode_len();
    let mut pieces: Vec<String> = Vec::new();
    let mut start: usize = 0;
    let mut i: usize = 0;
    proof {
        assert(s@.subrange(0, 0) =~= Seq::<char>::empty());
        assert(views(pieces@).push(s@.subrange(0, 0)) =~= seq![Seq::<char>::empty()]);
    }
    while i < n
        invariant
            n == s@.len(),
            start <= i <= n,
            views(pieces@).push(s@.subrange(start as int, i as int)) == split_on(
                s@.subrange(0, i as int),
                c,
            ),
        decreases n - i,
    {
        let ch = s.get_char(i);
        let ghost before = views(pieces@);
        let ghost last = s@.subrange(start as int, i as int);
        proof {
            let t = s@.subrange(0, i + 1);
            assert(t.drop_last() =~= s@.subrange(0, i as int));
            assert(t.last() == ch);
        }
        if ch == c {
            let piece = s.substring_char(start, i).to_owned();
            pieces.push(piece);
            start = i + 1;
            proof {
                assert(views(pieces@) =~= before.push(last));
                assert(s@.subrange(start as int, i + 1) =~= Seq::<char>::empty());
            }
        } else {
            proof {
                assert(last.push(ch) =~= s@.subrange(start as int, i + 1));
                assert(before.push(last).update(before.len() as int, last.push(ch)) =~= before.push(
                    s@.subrange(start as int, i + 1),
                ));
            }
        }
        i = i + 1;
    }
    let ghost before = views(pieces@);
    let piece = s.substring_char(start, n).to_owned();
    pieces.push(piece);
    proof {
        assert(s@.subrange(0, n as int) =~= s@);
        assert(views(pieces@) =~= before.push(s@.subrange(start as int, n as int)));
    }
    pieces
}

} // verus!
