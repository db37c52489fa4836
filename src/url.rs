//! The URL value: parsing from absolute text or from a path relative to
//! another URL, query-parameter updates, and canonical rendering.

use vstd::prelude::*;
use crate::text::{split, split_on, views};

verus! {

/// Query parameters as (key, value) pairs.
pub type Pairs = Seq<(Seq<char>, Seq<char>)>;

/// What a `Url` stands for.
pub struct UrlModel {
    pub origin: Seq<char>,
    pub path: Seq<char>,
    pub query: Pairs,
}

/// What a `ParseError` stands for.
pub enum ParseFault {
    MalformedUrl(Seq<char>),
    MalformedKeyValue(Seq<char>),
}

/// Why a URL could not be built.
#[derive(Debug, PartialEq, Eq)]
pub enum ParseError {
    /// The text does not split into an origin and a path, or holds more
    /// than one `?`.
    MalformedUrl(String),
    /// A query token does not split into exactly a key and a value.
    MalformedKeyValue(String),
}

impl View for ParseError {
    type V = ParseFault;

    open spec fn view(&self) -> ParseFault {
        match self {
            ParseError::MalformedUrl(s) => ParseFault::MalformedUrl(s@),
            ParseError::MalformedKeyValue(s) => ParseFault::MalformedKeyValue(s@),
        }
    }
}

/// The message that describes a fault.
pub open spec fn message_of(f: ParseFault) -> Seq<char> {
    match f {
        ParseFault::MalformedUrl(s) => "Wrong URL: "@ + s,
        ParseFault::MalformedKeyValue(s) => "Wrong key-value pair: "@ + s,
    }
}

impl ParseError {
    /// A human-readable description of the error.
    pub fn message(&self) -> (r: String)
        ensures
            r@ == message_of(self@),
    {
        match self {
            ParseError::MalformedUrl(s) => {
                let mut m = "Wrong URL: ".to_owned();
                m.append(s.as_str());
                m
            },
            ParseError::MalformedKeyValue(s) => {
                let mut m = "Wrong key-value pair: ".to_owned();
                m.append(s.as_str());
                m
            },
        }
    }
}

/// The views of a sequence of string pairs.
pub open spec fn pair_views(v: Seq<(String, String)>) -> Pairs {
    v.map_values(|p: (String, String)| (p.0@, p.1@))
}

/// No key occurs twice.
pub open spec fn keys_unique(q: Pairs) -> bool {
    forall|i: int, j: int| 0 <= i < j < q.len() ==> q[i].0 != q[j].0
}

/// Some pair has key `k`.
pub open spec fn has_key(q: Pairs, k: Seq<char>) -> bool {
    exists|i: int| 0 <= i < q.len() && q[i].0 == k
}

/// `q` with `k` set to `v`: an existing pair for `k` is overwritten in
/// place, otherwise the pair is appended.
pub open spec fn put_pair(q: Pairs, k: Seq<char>, v: Seq<char>) -> Pairs {
    if has_key(q, k) {
        let i = choose|i: int| 0 <= i < q.len() && q[i].0 == k;
        q.update(i, (k, v))
    } else {
        q.push((k, v))
    }
}

/// Reads query tokens in order into `acc`; a token must split on `=` into
/// exactly two parts.
pub open spec fn fold_tokens(tokens: Seq<Seq<char>>, acc: Pairs) -> Result<Pairs, ParseFault>
    decreases tokens.len(),
{
    if tokens.len() == 0 {
        Ok(acc)
    } else {
        let kv = split_on(tokens[0], '=');
        if kv.len() != 2 {
            Err(ParseFault::MalformedKeyValue(tokens[0]))
        } else {
            fold_tokens(tokens.drop_first(), put_pair(acc, kv[0], kv[1]))
        }
    }
}

/// The query parameters of `s`: none without a `?`, the `&`-separated
/// tokens after a single `?`, an error for two or more.
pub open spec fn query_of(s: Seq<char>) -> Result<Pairs, ParseFault> {
    let parts = split_on(s, '?');
    if parts.len() == 1 {
        Ok(Seq::empty())
    } else if parts.len() != 2 {
        Err(ParseFault::MalformedUrl(s))
    } else {
        fold_tokens(split_on(parts[1], '&'), Seq::empty())
    }
}

/// `s` up to its first `?`.
pub open spec fn before_query(s: Seq<char>) -> Seq<char> {
    split_on(s, '?')[0]
}

/// The URL that absolute text `s` denotes.
pub open spec fn parse_absolute(s: Seq<char>) -> Result<UrlModel, ParseFault> {
    let parts = split_on(s, '.');
    if parts.len() < 2 {
        Err(ParseFault::MalformedUrl(s))
    } else {
        match query_of(s) {
            Err(e) => Err(e),
            Ok(q) => {
                let seg = split_on(parts[1], '/');
                if seg.len() == 1 {
                    Ok(UrlModel { origin: before_query(s), path: Seq::empty(), query: q })
                } else {
                    Ok(
                        UrlModel {
                            origin: parts[0] + seq!['.'] + seg[0],
                            path: before_query(seg[1]),
                            query: q,
                        },
                    )
                }
            },
        }
    }
}

/// `p` without one leading and one trailing `/`.
pub open spec fn strip_slashes(p: Seq<char>) -> Seq<char> {
    let a = if p.len() > 0 && p[0] == '/' {
        p.drop_first()
    } else {
        p
    };
    if a.len() > 0 && a.last() == '/' {
        a.drop_last()
    } else {
        a
    }
}

/// The URL that relative path `p` denotes under `origin`.
pub open spec fn parse_relative(p: Seq<char>, origin: Seq<char>) -> Result<UrlModel, ParseFault> {
    let s = strip_slashes(p);
    match query_of(s) {
        Err(e) => Err(e),
        Ok(q) => Ok(UrlModel { origin: origin, path: before_query(s), query: q }),
    }
}

/// `key=value`.
pub open spec fn pair_text(p: (Seq<char>, Seq<char>)) -> Seq<char> {
    p.0 + seq!['='] + p.1
}

/// The pairs as `key=value` joined by `&`.
pub open spec fn join_pairs(q: Pairs) -> Seq<char>
    decreases q.len(),
{
    if q.len() == 0 {
        Seq::empty()
    } else if q.len() == 1 {
        pair_text(q[0])
    } else {
        join_pairs(q.drop_last()) + seq!['&'] + pair_text(q.last())
    }
}

/// Nothing for no pairs, else `?` and the joined pairs.
pub open spec fn query_text(q: Pairs) -> Seq<char> {
    if q.len() == 0 {
        Seq::empty()
    } else {
        seq!['?'] + join_pairs(q)
    }
}

/// The canonical text of a URL.
pub open spec fn render(m: UrlModel) -> Seq<char> {
    m.origin + seq!['/'] + m.path + query_text(m.query)
}

/// The model of a construction result.
pub open spec fn outcome(r: Result<Url, ParseError>) -> Result<UrlModel, ParseFault> {
    match r {
        Ok(u) => Ok(u@),
        Err(e) => Err(e@),
    }
}

/// The model of a query extraction result.
pub open spec fn query_outcome(r: Result<Vec<(String, String)>, ParseError>) -> Result<
    Pairs,
    ParseFault,
> {
    match r {
        Ok(q) => Ok(pair_views(q@)),
        Err(e) => Err(e@),
    }
}

/// A URL: an origin, a path, and query parameters with unique keys.
pub struct Url {
    origin: String,
    path: String,
    query_params: Vec<(String, String)>,
}

impl View for Url {
    type V = UrlModel;

    closed spec fn view(&self) -> UrlModel {
        UrlModel {
            origin: self.origin@,
            path: self.path@,
            query: pair_views(self.query_params@),
        }
    }
}

/// Sets `key` to `value` in `q`, overwriting an existing pair for `key`.
fn put_param(q: &mut Vec<(String, String)>, key: String, value: String)
    requires
        keys_unique(pair_views(old(q)@)),
    ensures
        pair_views(final(q)@) == put_pair(pair_views(old(q)@), key@, value@),
        keys_unique(pair_views(final(q)@)),
{
    let ghost q0 = pair_views(q@);
    let mut i: usize = 0;
    while i < q.len()
        invariant
            q0 == pair_views(q@),
            q0 == pair_views(old(q)@),
            keys_unique(q0),
            i <= q@.len(),
            forall|j: int| 0 <= j < i ==> q0[j].0 != key@,
        decreases q@.len() - i,
    {
        if q[i].0 == key {
            let ghost k = key@;
            let ghost v = value@;
            q.set(i, (key, value));
            proof {
                assert(q0[i as int].0 == k);
                assert(has_key(q0, k));
                let c = choose|c: int| 0 <= c < q0.len() && q0[c].0 == k;
                assert(c == i);
                assert(pair_views(q@) =~= q0.update(i as int, (k, v)));
            }
            return;
        }
        i = i + 1;
    }
    let ghost k = key@;
    let ghost v = value@;
    q.push((key, value));
    proof {
        assert(!has_key(q0, k));
        assert(pair_views(q@) =~= q0.push((k, v)));
    }
}


impl Url {
    /// The query parameters of this URL have unique keys.
    pub open spec fn wf(&self) -> bool {
        keys_unique(self@.query)
    }

    /// Parses absolute text: the origin is the text up to the first `/` after
    /// the first `.`, the path the segment after that `/`, and the query
    /// parameters come from the text after `?`.
    pub fn new(url: &str) -> (r: Result<Url, ParseError>)
        ensures
            outcome(r) == parse_absolute(url@),
            r matches Ok(u) ==> u.wf(),
    {
        let parts = split(url, '.');
        if parts.len() < 2 {
            return Err(ParseError::MalformedUrl(url.to_owned()));
        }
        let top_level_and_path = split(parts[1].as_str(), '/');
        let query_params = match Url::extract_query_params(url) {
            Ok(q) => q,
            Err(e) => return Err(e),
        };
        proof {
            assert(views(parts@)[1] == parts[1]@);
        }
        if top_level_and_path.len() == 1 {
            let before = split(url, '?');
            proof {
                assert(views(before@)[0] == before[0]@);
            }
            return Ok(Url { origin: before[0].clone(), path: String::new(), query_params });
        }
        let mut origin = parts[0].clone();
        proof {
            reveal_strlit(".");
            assert("."@ =~= seq!['.']);
        }
        origin.append(".");
        origin.append(top_level_and_path[0].as_str());
        let path = split(top_level_and_path[1].as_str(), '?');
        proof {
            assert(views(parts@)[1] == parts[1]@);
            assert(views(top_level_and_path@)[0] == top_level_and_path[0]@);
            assert(views(path@)[0] == path[0]@);
        }
        Ok(Url { origin, path: path[0].clone(), query_params })
    }

    /// Resolves `path` under the origin of `url`: one leading and one trailing
    /// `/` are dropped, and the query parameters come from `path` alone.
    pub fn from_url(path: &str, url: &Url) -> (r: Result<Url, ParseError>)
        ensures
            outcome(r) == parse_relative(path@, url@.origin),
            r matches Ok(u) ==> u.wf(),
    {
        let n = path.unicode_len();
        let mut from: usize = 0;
        let mut to: usize = n;
        if n > 0 && path.get_char(0) == '/' {
            from = 1;
        }
        if to > from && path.get_char(to - 1) == '/' {
            to = to - 1;
        }
        let stripped = path.substring_char(from, to);
        proof {
            let p = path@;
            let a = if p.len() > 0 && p[0] == '/' {
                p.drop_first()
            } else {
                p
            };
            assert(a =~= p.subrange(from as int, n as int));
            if a.len() > 0 && a.last() == '/' {
                assert(stripped@ =~= a.drop_last());
            } else {
                assert(stripped@ =~= a);
            }
        }
        let query_params = match Url::extract_query_params(stripped) {
            Ok(q) => q,
            Err(e) => return Err(e),
        };
        let before = split(stripped, '?');
        proof {
            assert(views(before@)[0] == before[0]@);
        }
        Ok(Url { origin: url.origin.clone(), path: before[0].clone(), query_params })
    }

    /// The scheme and host.
    pub fn origin(&self) -> (r: &str)
        ensures
            r@ == self@.origin,
    {
        self.origin.as_str()
    }

    /// The path, without leading or trailing `/` and without the query.
    pub fn path(&self) -> (r: &str)
        ensures
            r@ == self@.path,
    {
        self.path.as_str()
    }

    /// The canonical text: origin, `/`, path, then `?` and the `key=value`
    /// pairs joined by `&` when there are any.
    pub fn href(&self) -> (r: String)
        ensures
            r@ == render(self@),
    {
        let ghost q = self@.query;
        let mut out = self.origin.clone();
        proof {
            reveal_strlit("/");
            reveal_strlit("?");
            reveal_strlit("&");
            reveal_strlit("=");
            assert("/"@ =~= seq!['/']);
            assert("?"@ =~= seq!['?']);
            assert("&"@ =~= seq!['&']);
            assert("="@ =~= seq!['=']);
        }
        out.append("/");
        out.append(self.path.as_str());
        let n = self.query_params.len();
        if n == 0 {
            proof {
                assert(out@ =~= render(self@));
            }
            return out;
        }
        let ghost head = out@;
        out.append("?");
        let mut i: usize = 0;
        while i < n
            invariant
                n == q.len(),
                "&"@ == seq!['&'],
                "="@ == seq!['='],
                q == pair_views(self.query_params@),
                head == self@.origin + seq!['/'] + self@.path,
                i <= n,
                i == 0 ==> out@ == head + seq!['?'],
                i > 0 ==> out@ == head + seq!['?'] + join_pairs(q.subrange(0, i as int)),
            decreases n - i,
        {
            let ghost prev = out@;
            if i > 0 {
                out.append("&");
            }
            let pair = &self.query_params[i];
            out.append(pair.0.as_str());
            out.append("=");
            out.append(pair.1.as_str());
            proof {
                let t = q.subrange(0, i + 1);
                assert(t.last() == q[i as int]);
                assert(pair_text(q[i as int]) == self.query_params@[i as int].0@ + seq!['=']
                    + self.query_params@[i as int].1@);
                if i > 0 {
                    assert(t.drop_last() =~= q.subrange(0, i as int));
                    assert(out@ =~= prev + seq!['&'] + pair_text(q[i as int]));
                    assert(out@ =~= head + seq!['?'] + join_pairs(t));
                } else {
                    assert(out@ =~= prev + pair_text(q[i as int]));
                    assert(out@ =~= head + seq!['?'] + join_pairs(t));
                }
            }
            i = i + 1;
        }
        proof {
            assert(q.subrange(0, n as int) =~= q);
            assert(out@ =~= render(self@));
        }
        out
    }

    /// The query parameters as (key, value) pairs, each key once.
    pub fn query_params(&self) -> (r: &Vec<(String, String)>)
        ensures
            pair_views(r@) == self@.query,
    {
        &self.query_params
    }

    /// Sets query parameter `key` to `value`: an existing value for `key` is
    /// overwritten, otherwise the pair is added. Origin and path stay.
    pub fn add_query_param(&mut self, key: &str, value: &str)
        requires
            old(self).wf(),
        ensures
            final(self).wf(),
            final(self)@ == (UrlModel {
                query: put_pair(old(self)@.query, key@, value@),
                ..old(self)@
            }),
    {
        put_param(&mut self.query_params, key.to_owned(), value.to_owned());
    }

    /// The query parameters of `url`.
    fn extract_query_params(url: &str) -> (r: Result<Vec<(String, String)>, ParseError>)
        ensures
            query_outcome(r) == query_of(url@),
            r matches Ok(q) ==> keys_unique(pair_views(q@)),
    {
        let parts = split(url, '?');
        let mut map: Vec<(String, String)> = Vec::new();
        if parts.len() == 1 {
            proof {
                assert(pair_views(map@) =~= Seq::empty());
            }
            return Ok(map);
        }
        if parts.len() != 2 {
            return Err(ParseError::MalformedUrl(url.to_owned()));
        }
        let params = split(parts[1].as_str(), '&');
        let ghost tokens = views(params@);
        proof {
            assert(views(parts@)[1] == parts[1]@);
            assert(pair_views(map@) =~= Seq::empty());
            assert(tokens.subrange(0, tokens.len() as int) =~= tokens);
        }
        let mut i: usize = 0;
        while i < params.len()
            invariant
                tokens == views(params@),
                i <= tokens.len(),
                keys_unique(pair_views(map@)),
                fold_tokens(tokens.subrange(i as int, tokens.len() as int), pair_views(map@))
                    == query_of(url@),
            decreases tokens.len() - i,
        {
            let param = &params[i];
            let key_value = split(param.as_str(), '=');
            let ghost rest = tokens.subrange(i as int, tokens.len() as int);
            proof {
                assert(rest[0] == param@);
                assert(rest.drop_first() =~= tokens.subrange(i + 1, tokens.len() as int));
            }
            if key_value.len() != 2 {
                return Err(ParseError::MalformedKeyValue(param.clone()));
            }
            proof {
                assert(views(key_value@)[0] == key_value[0]@);
                assert(views(key_value@)[1] == key_value[1]@);
            }
            put_param(&mut map, key_value[0].clone(), key_value[1].clone());
            i = i + 1;
        }
        proof {
            assert(tokens.subrange(i as int, tokens.len() as int) =~= Seq::<Seq<char>>::empty());
        }
        Ok(map)
    }
}

} // verus!
