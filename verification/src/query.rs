//! The query envelope.
//!
//! A request's payload is the JSON array `[query_type, term, options]`,
//! where the term and the options are already-serialized JSON blobs handed
//! in by the query-builder layer, and both are optional.  `CONTINUE`,
//! `STOP` and `NOREPLY_WAIT` envelopes carry the type alone.

use vstd::prelude::*;
use vstd::slice::{slice_subrange, slice_to_vec};
use crate::json::{
    dec_render, digit_run_end, is_digit, is_sep, json_value_ok, lemma_dec_render,
    lemma_digit_extent, lemma_digit_run_end, lemma_value_extent, parse_u64_at, parse_u64_spec,
    scan_end, scan_value,
};

verus! {

/// The wire kinds of a query.
#[derive(Debug, Clone, Copy, PartialEq, Eq, Structural)]
pub enum QueryKind {
    Start,
    Continue,
    Stop,
    NoreplyWait,
}

/// The numeric code a query kind travels as.
pub open spec fn query_code(q: QueryKind) -> u64 {
    match q {
        QueryKind::Start => 1,
        QueryKind::Continue => 2,
        QueryKind::Stop => 3,
        QueryKind::NoreplyWait => 4,
    }
}

pub fn query_code_of(q: QueryKind) -> (r: u64)
    ensures
        r == query_code(q),
{
    match q {
        QueryKind::Start => 1,
        QueryKind::Continue => 2,
        QueryKind::Stop => 3,
        QueryKind::NoreplyWait => 4,
    }
}

/// The envelope bytes for a query: `[code]`, `[code,term]` or
/// `[code,term,opts]`.
pub open spec fn render_query(q: QueryKind, term: Option<Seq<u8>>, opts: Option<Seq<u8>>) -> Seq<
    u8,
> {
    seq![91u8] + dec_render(query_code(q) as int) + (match term {
        Some(t) => seq![44u8] + t + (match opts {
            Some(o) => seq![44u8] + o,
            None => Seq::empty(),
        }),
        None => Seq::empty(),
    }) + seq![93u8]
}

/// Writes `n` in decimal.
pub fn u64_to_dec(n: u64) -> (r: Vec<u8>)
    ensures
        r@ == dec_render(n as int),
    decreases n,
{
    if n < 10 {
        let mut v: Vec<u8> = Vec::new();
        v.push(48 + n as u8);
        proof {
            assert(v@ =~= dec_render(n as int));
        }
        v
    } else {
        let mut v = u64_to_dec(n / 10);
        v.push(48 + (n % 10) as u8);
        proof {
            assert(v@ =~= dec_render(n as int));
        }
        v
    }
}

/// Builds the envelope for one query from the serialized term and options.
/// Options only travel together with a term.
pub fn wrap_query(q: QueryKind, term: Option<&Vec<u8>>, opts: Option<&Vec<u8>>) -> (r: Vec<u8>)
    requires
        opts is Some ==> term is Some,
    ensures
        r@ == render_query(
            q,
            match term {
                Some(t) => Some(t@),
                None => None,
            },
            match opts {
                Some(o) => Some(o@),
                None => None,
            },
        ),
{
    let mut r: Vec<u8> = Vec::new();
    r.push(91);
    let mut code = u64_to_dec(query_code_of(q));
    r.append(&mut code);
    match term {
        Some(t) => {
            r.push(44);
            let mut t2 = slice_to_vec(t.as_slice());
            r.append(&mut t2);
            match opts {
                Some(o) => {
                    r.push(44);
                    let mut o2 = slice_to_vec(o.as_slice());
                    r.append(&mut o2);
                },
                None => {},
            }
        },
        None => {},
    }
    r.push(93);
    proof {
        assert(r@ =~= render_query(
            q,
            match term {
                Some(t) => Some(t@),
                None => None,
            },
            match opts {
                Some(o) => Some(o@),
                None => None,
            },
        ));
    }
    r
}

/// What reading an envelope gives back: the numeric query type, the term
/// blob and the options blob.  `None` on anything that [`render_query`]
/// could not have produced.
pub open spec fn parse_query_spec(s: Seq<u8>) -> Option<(u64, Option<Seq<u8>>, Option<Seq<u8>>)> {
    if s.len() < 3 || s[0] != 91 || s[s.len() - 1] != 93 {
        None
    } else {
        match parse_u64_spec(s, 1) {
            None => None,
            Some((code, p)) => {
                if p == s.len() - 1 {
                    Some((code, None, None))
                } else if s[p] != 44 {
                    None
                } else {
                    let e1 = scan_end(s, p + 1);
                    if e1 <= p + 1 || e1 >= s.len() {
                        None
                    } else if e1 == s.len() - 1 {
                        Some((code, Some(s.subrange(p + 1, e1)), None))
                    } else if s[e1] == 44 {
                        let e2 = scan_end(s, e1 + 1);
                        if e1 + 1 < e2 && e2 == s.len() - 1 {
                            Some((code, Some(s.subrange(p + 1, e1)), Some(s.subrange(e1 + 1, e2))))
                        } else {
                            None
                        }
                    } else {
                        None
                    }
                }
            },
        }
    }
}

/// Reads a query envelope back into its parts.
pub fn parse_query_envelope(s: &[u8]) -> (r: Option<(u64, Option<Vec<u8>>, Option<Vec<u8>>)>)
    ensures
        match r {
            Some((code, term, opts)) => parse_query_spec(s@) == Some(
                (
                    code,
                    match term {
                        Some(t) => Some(t@),
                        None => None,
                    },
                    match opts {
                        Some(o) => Some(o@),
                        None => None,
                    },
                ),
            ),
            None => parse_query_spec(s@) is None,
        },
{
    if s.len() < 3 {
        return None;
    }
    if *vstd::slice::slice_index_get(s, 0) != 91 {
        return None;
    }
    if *vstd::slice::slice_index_get(s, s.len() - 1) != 93 {
        return None;
    }
    let (code, p) = match parse_u64_at(s, 1) {
        Some(x) => x,
        None => {
            return None;
        },
    };
    proof {
        lemma_digit_run_end(s@, 1);
        assert(p == digit_run_end(s@, 1));
        assert(!is_digit(s@[s@.len() - 1]));
        assert(p <= s@.len() - 1);
    }
    if p == s.len() - 1 {
        return Some((code, None, None));
    }
    if *vstd::slice::slice_index_get(s, p) != 44 {
        return None;
    }
    let e1 = scan_value(s, p + 1);
    if e1 <= p + 1 || e1 >= s.len() {
        return None;
    }
    let term = slice_to_vec(slice_subrange(s, p + 1, e1));
    if e1 == s.len() - 1 {
        return Some((code, Some(term), None));
    }
    if *vstd::slice::slice_index_get(s, e1) != 44 {
        return None;
    }
    let e2 = scan_value(s, e1 + 1);
    if e1 + 1 < e2 && e2 == s.len() - 1 {
        let opts = slice_to_vec(slice_subrange(s, e1 + 1, e2));
        Some((code, Some(term), Some(opts)))
    } else {
        None
    }
}

/// Round trip: an envelope built from a query kind, a self-delimiting term
/// and self-delimiting options reads back to exactly those parts.
pub proof fn lemma_query_round_trip(q: QueryKind, term: Option<Seq<u8>>, opts: Option<Seq<u8>>)
    requires
        term matches Some(t) ==> json_value_ok(t),
        opts matches Some(o) ==> json_value_ok(o),
        opts is Some ==> term is Some,
    ensures
        parse_query_spec(render_query(q, term, opts)) == Some((query_code(q), term, opts)),
{
    let code = query_code(q);
    let d = dec_render(code as int);
    lemma_dec_render(code as int);
    let s = render_query(q, term, opts);
    assert(s[0] == 91);
    assert(s[s.len() - 1] == 93);
    let p: int = 1 + d.len() as int;
    match term {
        None => {
            assert(s.len() == d.len() + 2);
            assert(forall|k: int| 0 <= k < d.len() ==> s[1 + k] == #[trigger] d[k]);
            assert(!is_digit(s[p]));
            lemma_digit_extent(s, 1, d);
            assert(parse_u64_spec(s, 1) == Some((code, p)));
            assert(p == s.len() - 1);
        },
        Some(t) => {
            assert(forall|k: int| 0 <= k < d.len() ==> s[1 + k] == #[trigger] d[k]);
            assert(s[p] == 44);
            assert(!is_digit(s[p]));
            lemma_digit_extent(s, 1, d);
            assert(parse_u64_spec(s, 1) == Some((code, p)));
            match opts {
                None => {
                    assert(s.len() == d.len() + t.len() + 3);
                    assert(forall|k: int| 0 <= k < t.len() ==> s[p + 1 + k] == #[trigger] t[k]);
                    assert(is_sep(s[p + 1 + t.len()]));
                    lemma_value_extent(s, p + 1, t);
                    let e1 = scan_end(s, p + 1);
                    assert(e1 == p + 1 + t.len());
                    assert(e1 == s.len() - 1);
                    assert(s.subrange(p + 1, e1) =~= t);
                },
                Some(o) => {
                    assert(s.len() == d.len() + t.len() + o.len() + 4);
                    assert(forall|k: int| 0 <= k < t.len() ==> s[p + 1 + k] == #[trigger] t[k]);
                    assert(is_sep(s[p + 1 + t.len()]));
                    lemma_value_extent(s, p + 1, t);
                    let e1 = scan_end(s, p + 1);
                    assert(e1 == p + 1 + t.len());
                    assert(s[e1] == 44);
                    assert(forall|k: int| 0 <= k < o.len() ==> s[e1 + 1 + k] == #[trigger] o[k]);
                    assert(is_sep(s[e1 + 1 + o.len()]));
                    lemma_value_extent(s, e1 + 1, o);
                    let e2 = scan_end(s, e1 + 1);
                    assert(e2 == e1 + 1 + o.len());
                    assert(e2 == s.len() - 1);
                    assert(s.subrange(p + 1, e1) =~= t);
                    assert(s.subrange(e1 + 1, e2) =~= o);
                },
            }
        },
    }
}

} // verus!
