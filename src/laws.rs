//! Properties that relate parsing and rendering, proved over the models
//! that the constructors and `href` are specified by.

use vstd::prelude::*;
use crate::text::{split_on, lemma_split_without, lemma_split_after};
use crate::url::{
    Pairs, UrlModel, ParseFault, keys_unique, has_key, put_pair, fold_tokens, query_of,
    parse_absolute, before_query, pair_text, join_pairs, query_text, render,
};

verus! {

/// Concatenating two texts without `c` gives a text without `c`.
pub proof fn lemma_concat_without(x: Seq<char>, y: Seq<char>, c: char)
    requires
        !x.contains(c),
        !y.contains(c),
    ensures
        !(x + y).contains(c),
{
    if (x + y).contains(c) {
        let i = choose|i: int| 0 <= i < (x + y).len() && (x + y)[i] == c;
        if i < x.len() {
            assert(x[i] == c);
        } else {
            assert(y[i - x.len()] == c);
        }
    }
}

/// Joining two texts without `c` by a character other than `c` gives a text
/// without `c`.
proof fn lemma_join3_without(x: Seq<char>, d: char, y: Seq<char>, c: char)
    requires
        !x.contains(c),
        !y.contains(c),
        d != c,
    ensures
        !(x + seq![d] + y).contains(c),
{
    assert(!seq![d].contains(c)) by {
        if seq![d].contains(c) {
            let i = choose|i: int| 0 <= i < 1 && seq![d][i] == c;
        }
    }
    lemma_concat_without(x, seq![d], c);
    lemma_concat_without(x + seq![d], y, c);
}

/// Keys and values hold none of the characters that delimit a query.
pub open spec fn plain_pairs(q: Pairs) -> bool {
    forall|i: int|
        0 <= i < q.len() ==> {
            &&& !(#[trigger] q[i]).0.contains('&')
            &&& !q[i].0.contains('=')
            &&& !q[i].0.contains('?')
            &&& !q[i].1.contains('&')
            &&& !q[i].1.contains('=')
            &&& !q[i].1.contains('?')
        }
}

/// The `key=value` tokens of the pairs.
pub open spec fn tokens_of(q: Pairs) -> Seq<Seq<char>> {
    q.map_values(|p: (Seq<char>, Seq<char>)| pair_text(p))
}

proof fn lemma_join_without(q: Pairs, c: char)
    requires
        plain_pairs(q),
        c == '?' || c == '&',
        q.len() >= 1,
    ensures
        c == '?' ==> !join_pairs(q).contains(c),
        split_on(join_pairs(q), '&') == tokens_of(q),
    decreases q.len(),
{
    let last = q[q.len() - 1];
    assert(plain_pairs(q.drop_last()));
    lemma_join3_without(last.0, '=', last.1, '?');
    lemma_join3_without(last.0, '=', last.1, '&');
    if q.len() == 1 {
        lemma_split_without(pair_text(q[0]), '&');
        assert(tokens_of(q) =~= seq![pair_text(q[0])]);
    } else {
        lemma_join_without(q.drop_last(), c);
        if c == '?' {
            lemma_join3_without(join_pairs(q.drop_last()), '&', pair_text(last), '?');
        }
        lemma_split_after(join_pairs(q.drop_last()), '&', pair_text(last));
        assert(tokens_of(q.drop_last()).push(pair_text(last)) =~= tokens_of(q));
    }
}

/// Reading the tokens of pairs with fresh, unique keys appends the pairs.
proof fn lemma_fold_fresh(q: Pairs, acc: Pairs)
    requires
        plain_pairs(q),
        keys_unique(acc + q),
    ensures
        fold_tokens(tokens_of(q), acc) == Ok::<Pairs, ParseFault>(acc + q),
    decreases q.len(),
{
    if q.len() == 0 {
        assert(acc + q =~= acc);
    } else {
        let p = q[0];
        lemma_split_without(p.0, '=');
        lemma_split_after(p.0, '=', p.1);
        assert(split_on(pair_text(p), '=') =~= seq![p.0, p.1]);
        assert(!has_key(acc, p.0)) by {
            if has_key(acc, p.0) {
                let i = choose|i: int| 0 <= i < acc.len() && acc[i].0 == p.0;
                assert((acc + q)[i].0 == (acc + q)[acc.len() as int].0);
            }
        }
        assert(put_pair(acc, p.0, p.1) =~= acc.push(p));
        assert(tokens_of(q).drop_first() =~= tokens_of(q.drop_first()));
        assert(acc.push(p) + q.drop_first() =~= acc + q);
        assert(plain_pairs(q.drop_first()));
        lemma_fold_fresh(q.drop_first(), acc.push(p));
    }
}

/// Query round trip: appending a mapping's pairs as `?k1=v1&k2=v2...` to
/// text without `?` and reading the query back gives the same pairs, when
/// keys are unique and keys and values hold no `&`, `=` or `?`.
pub proof fn lemma_query_round_trip(s: Seq<char>, q: Pairs)
    requires
        !s.contains('?'),
        keys_unique(q),
        plain_pairs(q),
    ensures
        query_of(s + query_text(q)) == Ok::<Pairs, ParseFault>(q),
        parse_absolute(s + query_text(q)) matches Ok(m) ==> m.query == q,
{
    let t = s + query_text(q);
    if q.len() == 0 {
        assert(t =~= s);
        lemma_split_without(s, '?');
        assert(q =~= Seq::<(Seq<char>, Seq<char>)>::empty());
    } else {
        lemma_join_without(q, '?');
        lemma_join_without(q, '&');
        lemma_split_without(s, '?');
        assert(t =~= s + seq!['?'] + join_pairs(q));
        lemma_split_after(s, '?', join_pairs(q));
        assert(Seq::<(Seq<char>, Seq<char>)>::empty() + q =~= q);
        lemma_fold_fresh(q, Seq::empty());
    }
}

/// Round trip without query: for an origin with exactly one `.`, and no `/`
/// after it, and a path without `/`, `.` or `?`, parsing `origin/path`
/// gives that origin and path and no query, and rendering gives the text
/// back.
pub proof fn lemma_plain_round_trip(origin: Seq<char>, path: Seq<char>)
    requires
        !origin.contains('?'),
        exists|i: int|
            0 <= i < origin.len() && origin[i] == '.' && !origin.subrange(0, i).contains('.')
                && !origin.subrange(i + 1, origin.len() as int).contains('.') && !origin.subrange(
                i + 1,
                origin.len() as int,
            ).contains('/'),
        !path.contains('/'),
        !path.contains('.'),
        !path.contains('?'),
    ensures
        parse_absolute(origin + seq!['/'] + path) == Ok::<UrlModel, ParseFault>(
            UrlModel { origin: origin, path: path, query: Seq::empty() },
        ),
        render(UrlModel { origin: origin, path: path, query: Seq::empty() }) == origin + seq!['/']
            + path,
{
    let i = choose|i: int|
        0 <= i < origin.len() && origin[i] == '.' && !origin.subrange(0, i).contains('.')
            && !origin.subrange(i + 1, origin.len() as int).contains('.') && !origin.subrange(
            i + 1,
            origin.len() as int,
        ).contains('/');
    let a = origin.subrange(0, i);
    let b = origin.subrange(i + 1, origin.len() as int);
    let s = origin + seq!['/'] + path;
    let x = b + seq!['/'] + path;
    assert(origin =~= a + seq!['.'] + b);
    assert(s =~= a + seq!['.'] + x);
    lemma_join3_without(b, '/', path, '.');
    lemma_split_without(a, '.');
    lemma_split_after(a, '.', x);
    assert(split_on(s, '.') =~= seq![a, x]);
    lemma_split_without(b, '/');
    lemma_split_after(b, '/', path);
    assert(split_on(x, '/') =~= seq![b, path]);
    lemma_join3_without(origin, '/', path, '?');
    lemma_split_without(s, '?');
    lemma_split_without(path, '?');
    assert(before_query(path) == path);
    assert(query_text(Seq::<(Seq<char>, Seq<char>)>::empty()) =~= Seq::<char>::empty());
    assert(render(UrlModel { origin: origin, path: path, query: Seq::empty() }) =~= s);
}

/// An empty path renders as the origin and a `/`, followed by the query
/// text, which is nothing when there are no query parameters.
pub proof fn lemma_empty_path_render(m: UrlModel)
    requires
        m.path.len() == 0,
    ensures
        render(m) == m.origin + seq!['/'] + query_text(m.query),
        m.query.len() == 0 ==> render(m) == m.origin + seq!['/'],
{
    assert(m.path =~= Seq::<char>::empty());
    assert(render(m) =~= m.origin + seq!['/'] + query_text(m.query));
    if m.query.len() == 0 {
        assert(render(m) =~= m.origin + seq!['/']);
    }
}

/// The rendered text always begins with the origin.
pub proof fn lemma_render_starts_with_origin(m: UrlModel)
    ensures
        render(m).len() > m.origin.len(),
        render(m).subrange(0, m.origin.len() as int) == m.origin,
{
    assert(render(m).subrange(0, m.origin.len() as int) =~= m.origin);
}

/// Last write wins: setting `k` to `v` in pairs with unique keys keeps the
/// keys unique, leaves a single pair for `k`, holding `v`, and keeps every
/// other pair.
pub proof fn lemma_put_last_write_wins(q: Pairs, k: Seq<char>, v: Seq<char>)
    requires
        keys_unique(q),
    ensures
        keys_unique(put_pair(q, k, v)),
        has_key(put_pair(q, k, v), k),
        forall|i: int|
            0 <= i < put_pair(q, k, v).len() && (#[trigger] put_pair(q, k, v)[i]).0 == k
                ==> put_pair(q, k, v)[i].1 == v,
        forall|i: int| 0 <= i < q.len() && (#[trigger] q[i]).0 != k ==> put_pair(q, k, v).contains(q[i]),
        put_pair(q, k, v).len() == if has_key(q, k) { q.len() } else { q.len() + 1 },
{
    let r = put_pair(q, k, v);
    if has_key(q, k) {
        let c = choose|c: int| 0 <= c < q.len() && q[c].0 == k;
        assert(r[c].0 == k);
        assert forall|i: int| 0 <= i < q.len() && (#[trigger] q[i]).0 != k implies r.contains(q[i]) by {
            assert(r[i] == q[i]);
        }
    } else {
        assert(r[q.len() as int].0 == k);
        assert forall|i: int| 0 <= i < q.len() && (#[trigger] q[i]).0 != k implies r.contains(q[i]) by {
            assert(r[i] == q[i]);
        }
    }
}

} // verus!
