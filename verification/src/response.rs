//! The response envelope and its classification.
//!
//! A response frame's payload is a compact JSON object
//! `{"t":<type>,"e":<error code>,"r":[...],...}`: the numeric response
//! type, an optional numeric error code, and the result array.  Keys may
//! come in any order; unknown keys are skipped.  Classification maps the
//! decoded envelope to a terminal success, a partial success that asks for
//! a continuation, or an error of the taxonomy.

use vstd::prelude::*;
use vstd::slice::{slice_subrange, slice_to_vec};
use crate::err::{Availability, Driver, Error, Runtime};
use crate::json::{
    dec_render, is_plain, join_values, lemma_dec_render, lemma_digit_extent, lemma_plain_value,
    lemma_string_value, lemma_value_extent, json_value_ok, render_array,
    is_digit, is_sep, lemma_scan_end, parse_u64_at, parse_u64_spec,
    scan_end, scan_value, unescape_bytes, unescape_json,
};

verus! {

// Response type codes of the wire protocol.
pub const SUCCESS_ATOM: u64 = 1;
pub const SUCCESS_SEQUENCE: u64 = 2;
pub const SUCCESS_PARTIAL: u64 = 3;
pub const WAIT_COMPLETE: u64 = 4;
pub const SERVER_INFO_RESPONSE: u64 = 5;
pub const CLIENT_ERROR: u64 = 16;
pub const COMPILE_ERROR: u64 = 17;
pub const RUNTIME_ERROR: u64 = 18;

// Error codes a `RUNTIME_ERROR` response may carry.
pub const CODE_INTERNAL: u64 = 1000000;
pub const CODE_RESOURCE_LIMIT: u64 = 2000000;
pub const CODE_QUERY_LOGIC: u64 = 3000000;
pub const CODE_NON_EXISTENCE: u64 = 3100000;
pub const CODE_OP_FAILED: u64 = 4100000;
pub const CODE_OP_INDETERMINATE: u64 = 4200000;
pub const CODE_USER: u64 = 5000000;
pub const CODE_PERMISSION: u64 = 6000000;

/// One entry of a response's result array, as the driver hands it on:
/// an explicit no-document marker for a literal `null`, a decoded string,
/// or the raw bytes of anything else.
#[derive(Debug, Clone, PartialEq, Eq)]
pub enum RItem {
    Null,
    Text(Vec<u8>),
    Raw(Vec<u8>),
}

/// The mathematical shape of an [`RItem`].
pub enum ItemSpec {
    NullV,
    TextV(Seq<u8>),
    RawV(Seq<u8>),
}

impl View for RItem {
    type V = ItemSpec;

    open spec fn view(&self) -> ItemSpec {
        match self {
            RItem::Null => ItemSpec::NullV,
            RItem::Text(v) => ItemSpec::TextV(v@),
            RItem::Raw(v) => ItemSpec::RawV(v@),
        }
    }
}

/// A decoded response envelope.  `r_raw` keeps the unparsed bytes of the
/// result array for errors that carry it verbatim.
#[derive(Debug, Clone, PartialEq, Eq)]
pub struct Response {
    pub t: u64,
    pub e: Option<u64>,
    pub items: Vec<RItem>,
    pub r_raw: Vec<u8>,
}

// ------------------------------------------------------------------
// Object field lookup
// ------------------------------------------------------------------

/// The value extent of `key` among the entries of a compact JSON object
/// body, walking entries from `from`.  `None` when the key is not there or
/// the entries do not have the `"key":value` shape.
pub open spec fn obj_get(s: Seq<u8>, from: int, key: Seq<u8>) -> Option<(int, int)>
    decreases s.len() - from,
{
    if from < 0 || from >= s.len() {
        None
    } else {
        let ke = scan_end(s, from);
        if ke >= s.len() || s[ke] != 58 {
            None
        } else if ke - from >= 2 && s[from] == 34 && s[ke - 1] == 34 && s.subrange(
            from + 1,
            ke - 1,
        ) == key {
            Some((ke + 1, scan_end(s, ke + 1)))
        } else {
            let ve = scan_end(s, ke + 1);
            if ve < s.len() && s[ve] == 44 && from < ve + 1 {
                obj_get(s, ve + 1, key)
            } else {
                None
            }
        }
    }
}

pub(crate) fn slices_eq(a: &[u8], b: &[u8]) -> (r: bool)
    ensures
        r == (a@ == b@),
{
    if a.len() != b.len() {
        proof {
            assert(a@ != b@);
        }
        return false;
    }
    let mut i: usize = 0;
    while i < a.len()
        invariant
            i <= a@.len(),
            a@.len() == b@.len(),
            forall|j: int| 0 <= j < i ==> a@[j] == b@[j],
        decreases a@.len() - i,
    {
        if *vstd::slice::slice_index_get(a, i) != *vstd::slice::slice_index_get(b, i) {
            proof {
                assert(a@[i as int] != b@[i as int]);
            }
            return false;
        }
        i = i + 1;
    }
    proof {
        assert(a@ =~= b@);
    }
    true
}

/// Finds the value of `key` in an object body, walking entries from `from`.
pub fn obj_get_exec(s: &[u8], from: usize, key: &[u8]) -> (r: Option<(usize, usize)>)
    requires
        0 < from,
    ensures
        match r {
            Some((a, b)) => {
                &&& obj_get(s@, from as int, key@) == Some((a as int, b as int))
                &&& from < a <= b <= s@.len()
                &&& b == scan_end(s@, a as int)
            },
            None => obj_get(s@, from as int, key@) is None,
        },
{
    let mut cur: usize = from;
    loop
        invariant
            from <= cur,
            obj_get(s@, from as int, key@) == obj_get(s@, cur as int, key@),
        decreases s@.len() - cur,
    {
        if cur >= s.len() {
            return None;
        }
        let ke = scan_value(s, cur);
        proof {
            lemma_scan_end(s@, cur as int);
        }
        if ke >= s.len() {
            return None;
        }
        if *vstd::slice::slice_index_get(s, ke) != 58 {
            return None;
        }
        let is_key = ke - cur >= 2 && *vstd::slice::slice_index_get(s, cur) == 34
            && *vstd::slice::slice_index_get(s, ke - 1) == 34 && slices_eq(
            slice_subrange(s, cur + 1, ke - 1),
            key,
        );
        if is_key {
            let ve = scan_value(s, ke + 1);
            proof {
                lemma_scan_end(s@, ke + 1);
            }
            return Some((ke + 1, ve));
        }
        let ve = scan_value(s, ke + 1);
        proof {
            lemma_scan_end(s@, ke + 1);
        }
        if ve < s.len() && *vstd::slice::slice_index_get(s, ve) == 44 {
            cur = ve + 1;
        } else {
            return None;
        }
    }
}

// ------------------------------------------------------------------
// Result items
// ------------------------------------------------------------------

/// What one result-array element denotes: `null`, a string literal read
/// back into raw bytes, or anything else kept as it came.
pub open spec fn item_spec_of(w: Seq<u8>) -> Option<ItemSpec> {
    if w == seq![110u8, 117u8, 108u8, 108u8] {
        Some(ItemSpec::NullV)
    } else if w.len() >= 2 && w[0] == 34 && w[w.len() - 1] == 34 {
        match unescape_bytes(w.subrange(1, w.len() - 1)) {
            Some(t) => Some(ItemSpec::TextV(t)),
            None => None,
        }
    } else if w.len() > 0 {
        Some(ItemSpec::RawV(w))
    } else {
        None
    }
}

/// The elements of the result array whose interior spans `s[from..endx)`,
/// separated by top-level commas.
pub open spec fn items_values(s: Seq<u8>, from: int, endx: int) -> Option<Seq<ItemSpec>>
    decreases endx - from,
{
    if from >= endx {
        if from == endx {
            Some(Seq::empty())
        } else {
            None
        }
    } else {
        let e = scan_end(s, from);
        if e <= from {
            None
        } else if e == endx {
            match item_spec_of(s.subrange(from, e)) {
                Some(it) => Some(seq![it]),
                None => None,
            }
        } else if e < endx && s[e] == 44 {
            match item_spec_of(s.subrange(from, e)) {
                Some(it) => match items_values(s, e + 1, endx) {
                    Some(rest) => Some(seq![it] + rest),
                    None => None,
                },
                None => None,
            }
        } else {
            None
        }
    }
}

fn item_of_bytes(s: &[u8], a: usize, b: usize) -> (r: Option<RItem>)
    requires
        a <= b <= s@.len(),
    ensures
        match r {
            Some(it) => item_spec_of(s@.subrange(a as int, b as int)) == Some(it@),
            None => item_spec_of(s@.subrange(a as int, b as int)) is None,
        },
{
    let ghost w = s@.subrange(a as int, b as int);
    let win = slice_subrange(s, a, b);
    let null_lit: [u8; 4] = [110, 117, 108, 108];
    if slices_eq(win, null_lit.as_slice()) {
        proof {
            assert(null_lit@ =~= seq![110u8, 117u8, 108u8, 108u8]);
        }
        return Some(RItem::Null);
    }
    proof {
        assert(null_lit@ =~= seq![110u8, 117u8, 108u8, 108u8]);
    }
    if b - a >= 2 && *vstd::slice::slice_index_get(s, a) == 34 && *vstd::slice::slice_index_get(
        s,
        b - 1,
    ) == 34 {
        let inner = slice_subrange(s, a + 1, b - 1);
        proof {
            assert(inner@ =~= w.subrange(1, w.len() - 1));
        }
        match unescape_json(inner) {
            Some(t) => {
                return Some(RItem::Text(t));
            },
            None => {
                return None;
            },
        }
    }
    if b > a {
        Some(RItem::Raw(slice_to_vec(win)))
    } else {
        None
    }
}

spec fn opt_items_concat(p: Seq<ItemSpec>, o: Option<Seq<ItemSpec>>) -> Option<Seq<ItemSpec>> {
    match o {
        Some(t) => Some(p + t),
        None => None,
    }
}

fn parse_items(s: &[u8], from: usize, endx: usize) -> (r: Option<Vec<RItem>>)
    requires
        from <= endx <= s@.len(),
    ensures
        match r {
            Some(items) => items_values(s@, from as int, endx as int) == Some(
                items@.map_values(|it: RItem| it@),
            ),
            None => items_values(s@, from as int, endx as int) is None,
        },
{
    let mut out: Vec<RItem> = Vec::new();
    let mut cur: usize = from;
    proof {
        assert(out@.map_values(|it: RItem| it@) =~= Seq::<ItemSpec>::empty());
        if items_values(s@, from as int, endx as int) is Some {
            let t = items_values(s@, from as int, endx as int).unwrap();
            assert(Seq::<ItemSpec>::empty() + t =~= t);
        }
    }
    while cur < endx
        invariant
            from <= cur <= endx <= s@.len(),
            items_values(s@, from as int, endx as int) == opt_items_concat(
                out@.map_values(|it: RItem| it@),
                items_values(s@, cur as int, endx as int),
            ),
        decreases endx - cur,
    {
        let e = scan_value(s, cur);
        proof {
            lemma_scan_end(s@, cur as int);
        }
        if e <= cur {
            return None;
        }
        if e > endx {
            return None;
        }
        if e < endx {
            if *vstd::slice::slice_index_get(s, e) != 44 {
                return None;
            }
        }
        let it = match item_of_bytes(s, cur, e) {
            Some(it) => it,
            None => {
                return None;
            },
        };
        proof {
            let pre = out@.map_values(|x: RItem| x@);
            let post = out@.push(it).map_values(|x: RItem| x@);
            assert(post =~= pre.push(it@));
            if e == endx {
                assert(items_values(s@, cur as int, endx as int) == Some(seq![it@]));
                assert(pre + seq![it@] =~= post);
                assert(items_values(s@, endx as int, endx as int) == Some(
                    Seq::<ItemSpec>::empty(),
                ));
                assert(post + Seq::<ItemSpec>::empty() =~= post);
            } else {
                if items_values(s@, e + 1, endx as int) is Some {
                    let rest = items_values(s@, e + 1, endx as int).unwrap();
                    assert(pre + (seq![it@] + rest) =~= post + rest);
                }
            }
        }
        out.push(it);
        if e == endx {
            cur = endx;
        } else {
            cur = e + 1;
        }
    }
    proof {
        if cur == endx {
            assert(items_values(s@, endx as int, endx as int) == Some(Seq::<ItemSpec>::empty()));
            assert(out@.map_values(|it: RItem| it@) + Seq::<ItemSpec>::empty() =~= out@.map_values(
                |it: RItem| it@,
            ));
        }
    }
    Some(out)
}

// ------------------------------------------------------------------
// The envelope
// ------------------------------------------------------------------

/// The value of a numeric field that must fill its extent exactly.
pub open spec fn num_field(s: Seq<u8>, a: int, b: int) -> Option<u64> {
    match parse_u64_spec(s, a) {
        Some((v, e)) => if e == b {
            Some(v)
        } else {
            None
        },
        None => None,
    }
}

/// What decoding a response envelope gives: the type, the optional error
/// code, the decoded result items, and the raw bytes of the result array.
pub open spec fn parse_response_spec(s: Seq<u8>) -> Option<
    (u64, Option<u64>, Seq<ItemSpec>, Seq<u8>),
> {
    if s.len() < 2 || s[0] != 123 || s[s.len() - 1] != 125 {
        None
    } else {
        match obj_get(s, 1, seq![116u8]) {
            None => None,
            Some((ts, te)) => match num_field(s, ts, te) {
                None => None,
                Some(tv) => match obj_get(s, 1, seq![114u8]) {
                    None => None,
                    Some((rs, re)) => if !(0 <= rs && rs + 2 <= re && re <= s.len() && s[rs] == 91
                        && s[re - 1] == 93) {
                        None
                    } else {
                        match items_values(s, rs + 1, re - 1) {
                            None => None,
                            Some(its) => match obj_get(s, 1, seq![101u8]) {
                                None => Some((tv, None, its, s.subrange(rs, re))),
                                Some((es, ee)) => match num_field(s, es, ee) {
                                    None => None,
                                    Some(ev) => Some((tv, Some(ev), its, s.subrange(rs, re))),
                                },
                            },
                        }
                    },
                },
            },
        }
    }
}

pub(crate) fn num_field_exec(s: &[u8], a: usize, b: usize) -> (r: Option<u64>)
    requires
        a <= s@.len(),
    ensures
        r == num_field(s@, a as int, b as int),
{
    match parse_u64_at(s, a) {
        Some((v, e)) => if e == b {
            Some(v)
        } else {
            None
        },
        None => None,
    }
}

/// Decodes one response payload.
pub fn parse_response(s: &[u8]) -> (r: Option<Response>)
    ensures
        match r {
            Some(resp) => parse_response_spec(s@) == Some(
                (resp.t, resp.e, resp.items@.map_values(|it: RItem| it@), resp.r_raw@),
            ),
            None => parse_response_spec(s@) is None,
        },
{
    if s.len() < 2 {
        return None;
    }
    if *vstd::slice::slice_index_get(s, 0) != 123 {
        return None;
    }
    if *vstd::slice::slice_index_get(s, s.len() - 1) != 125 {
        return None;
    }
    let key_t: [u8; 1] = [116];
    let key_r: [u8; 1] = [114];
    let key_e: [u8; 1] = [101];
    proof {
        assert(key_t@ =~= seq![116u8]);
        assert(key_r@ =~= seq![114u8]);
        assert(key_e@ =~= seq![101u8]);
    }
    let (ts, te) = match obj_get_exec(s, 1, key_t.as_slice()) {
        Some(x) => x,
        None => {
            return None;
        },
    };
    let tv = match num_field_exec(s, ts, te) {
        Some(v) => v,
        None => {
            return None;
        },
    };
    let (rs, re) = match obj_get_exec(s, 1, key_r.as_slice()) {
        Some(x) => x,
        None => {
            return None;
        },
    };
    if !(re - rs >= 2 && *vstd::slice::slice_index_get(s, rs) == 91 && *vstd::slice::slice_index_get(
        s,
        re - 1,
    ) == 93) {
        return None;
    }
    let items = match parse_items(s, rs + 1, re - 1) {
        Some(items) => items,
        None => {
            return None;
        },
    };
    let r_raw = slice_to_vec(slice_subrange(s, rs, re));
    match obj_get_exec(s, 1, key_e.as_slice()) {
        None => Some(Response { t: tv, e: None, items, r_raw }),
        Some((es, ee)) => match num_field_exec(s, es, ee) {
            None => None,
            Some(ev) => Some(Response { t: tv, e: Some(ev), items, r_raw }),
        },
    }
}

// ------------------------------------------------------------------
// Classification
// ------------------------------------------------------------------

/// What the dispatcher does with a response: finish, continue the cursor,
/// or surface an error.
#[derive(Debug, Clone, PartialEq, Eq)]
pub enum Classified {
    /// Terminal success: every decoded value has been emitted.
    Done,
    /// Partial success: values emitted, a continuation is owed.
    Partial,
    Fail(Error),
}

/// The note attached to a response type the driver does not model.
pub open spec fn unsupported_response_note() -> Seq<u8> {
    seq![
        117u8, 110u8, 115u8, 117u8, 112u8, 112u8, 111u8, 114u8, 116u8, 101u8, 100u8, 32u8, 114u8,
        101u8, 115u8, 112u8, 111u8, 110u8, 115u8, 101u8, 32u8, 116u8, 121u8, 112u8, 101u8,
    ]
}

fn unsupported_note_exec() -> (r: Vec<u8>)
    ensures
        r@ == unsupported_response_note(),
{
    let v: Vec<u8> = vec![
        117, 110, 115, 117, 112, 112, 111, 114, 116, 101, 100, 32, 114, 101, 115, 112, 111, 110,
        115, 101, 32, 116, 121, 112, 101,
    ];
    proof {
        assert(v@ =~= unsupported_response_note());
    }
    v
}

/// Whether `code` is in the fixed table of runtime error codes.
pub open spec fn known_code(code: u64) -> bool {
    ||| code == CODE_INTERNAL
    ||| code == CODE_RESOURCE_LIMIT
    ||| code == CODE_QUERY_LOGIC
    ||| code == CODE_NON_EXISTENCE
    ||| code == CODE_OP_FAILED
    ||| code == CODE_OP_INDETERMINATE
    ||| code == CODE_USER
    ||| code == CODE_PERMISSION
}

/// The error a known code maps to, carrying message `m`.
pub open spec fn error_for_code(code: u64, m: Seq<u8>, err: Error) -> bool {
    if code == CODE_INTERNAL {
        err matches Error::Runtime(Runtime::Internal(v)) && v@ == m
    } else if code == CODE_RESOURCE_LIMIT {
        err matches Error::Runtime(Runtime::ResourceLimit(v)) && v@ == m
    } else if code == CODE_QUERY_LOGIC {
        err matches Error::Runtime(Runtime::QueryLogic(v)) && v@ == m
    } else if code == CODE_NON_EXISTENCE {
        err matches Error::Runtime(Runtime::NonExistence(v)) && v@ == m
    } else if code == CODE_OP_FAILED {
        err matches Error::Runtime(Runtime::Availability(Availability::OpFailed(v))) && v@ == m
    } else if code == CODE_OP_INDETERMINATE {
        err matches Error::Runtime(Runtime::Availability(Availability::OpIndeterminate(v))) && v@
            == m
    } else if code == CODE_USER {
        err matches Error::Runtime(Runtime::User(v)) && v@ == m
    } else if code == CODE_PERMISSION {
        err matches Error::Runtime(Runtime::Permission(v)) && v@ == m
    } else {
        false
    }
}

/// How an envelope classifies, following the response-type and error-code
/// tables: success types finish or continue; error types carry a message
/// that must be a single-element array holding one string, anything else
/// being surfaced raw; a present error code maps through the code table.
pub open spec fn classifies(
    t: u64,
    e: Option<u64>,
    items: Seq<ItemSpec>,
    raw: Seq<u8>,
    c: Classified,
) -> bool {
    let known_t = t == SUCCESS_ATOM || t == SUCCESS_SEQUENCE || t == SUCCESS_PARTIAL || t
        == WAIT_COMPLETE || t == SERVER_INFO_RESPONSE || t == CLIENT_ERROR || t == COMPILE_ERROR
        || t == RUNTIME_ERROR;
    let is_err_t = t == CLIENT_ERROR || t == COMPILE_ERROR || t == RUNTIME_ERROR;
    let single = items.len() == 1 && items[0] is TextV;
    if !known_t {
        c matches Classified::Fail(Error::Driver(Driver::Other(v))) && v@
            == unsupported_response_note()
    } else if (e is Some || is_err_t) && !single {
        c matches Classified::Fail(Error::Db(v)) && v@ == raw
    } else if e is Some {
        let m = items[0]->TextV_0;
        if known_code(e->0) {
            c matches Classified::Fail(err) && error_for_code(e->0, m, err)
        } else {
            c matches Classified::Fail(Error::Db(v)) && v@ == raw
        }
    } else if t == CLIENT_ERROR {
        c matches Classified::Fail(Error::Driver(Driver::Other(v))) && v@ == items[0]->TextV_0
    } else if t == COMPILE_ERROR {
        c matches Classified::Fail(Error::Compile(v)) && v@ == items[0]->TextV_0
    } else if t == RUNTIME_ERROR {
        c matches Classified::Fail(Error::Db(v)) && v@ == raw
    } else if t == SUCCESS_PARTIAL {
        c == Classified::Partial
    } else {
        c == Classified::Done
    }
}

/// Classifies a decoded envelope.
pub fn classify(resp: Response) -> (c: Classified)
    ensures
        classifies(resp.t, resp.e, resp.items@.map_values(|it: RItem| it@), resp.r_raw@, c),
{
    let Response { t, e, items, r_raw } = resp;
    let ghost iview = resp.items@.map_values(|it: RItem| it@);
    let known_t = t == SUCCESS_ATOM || t == SUCCESS_SEQUENCE || t == SUCCESS_PARTIAL || t
        == WAIT_COMPLETE || t == SERVER_INFO_RESPONSE || t == CLIENT_ERROR || t == COMPILE_ERROR
        || t == RUNTIME_ERROR;
    let is_err_t = t == CLIENT_ERROR || t == COMPILE_ERROR || t == RUNTIME_ERROR;
    if !known_t {
        return Classified::Fail(Error::Driver(Driver::Other(unsupported_note_exec())));
    }
    let mut msg: Option<Vec<u8>> = None;
    if items.len() == 1 {
        let mut items2 = items;
        match items2.pop().unwrap() {
            RItem::Text(v) => {
                proof {
                    assert(iview[0] == ItemSpec::TextV(v@));
                }
                msg = Some(v);
            },
            _ => {},
        }
    }
    proof {
        assert(msg is Some <==> (iview.len() == 1 && iview[0] is TextV));
        if msg is Some {
            assert(msg->0@ == iview[0]->TextV_0);
        }
    }
    if e.is_some() || is_err_t {
        if msg.is_none() {
            return Classified::Fail(Error::Db(r_raw));
        }
    }
    match e {
        Some(code) => {
            let m = msg.unwrap();
            if code == CODE_INTERNAL {
                Classified::Fail(Error::Runtime(Runtime::Internal(m)))
            } else if code == CODE_RESOURCE_LIMIT {
                Classified::Fail(Error::Runtime(Runtime::ResourceLimit(m)))
            } else if code == CODE_QUERY_LOGIC {
                Classified::Fail(Error::Runtime(Runtime::QueryLogic(m)))
            } else if code == CODE_NON_EXISTENCE {
                Classified::Fail(Error::Runtime(Runtime::NonExistence(m)))
            } else if code == CODE_OP_FAILED {
                Classified::Fail(Error::Runtime(Runtime::Availability(Availability::OpFailed(m))))
            } else if code == CODE_OP_INDETERMINATE {
                Classified::Fail(
                    Error::Runtime(Runtime::Availability(Availability::OpIndeterminate(m))),
                )
            } else if code == CODE_USER {
                Classified::Fail(Error::Runtime(Runtime::User(m)))
            } else if code == CODE_PERMISSION {
                Classified::Fail(Error::Runtime(Runtime::Permission(m)))
            } else {
                Classified::Fail(Error::Db(r_raw))
            }
        },
        None => {
            if t == CLIENT_ERROR {
                Classified::Fail(Error::Driver(Driver::Other(msg.unwrap())))
            } else if t == COMPILE_ERROR {
                Classified::Fail(Error::Compile(msg.unwrap()))
            } else if t == RUNTIME_ERROR {
                Classified::Fail(Error::Db(r_raw))
            } else if t == SUCCESS_PARTIAL {
                Classified::Partial
            } else {
                Classified::Done
            }
        },
    }
}

// ------------------------------------------------------------------
// The round trip
// ------------------------------------------------------------------

/// The bytes of `s` starting at `p` are exactly `w`.
pub open spec fn window_eq(s: Seq<u8>, p: int, w: Seq<u8>) -> bool {
    forall|k: int| 0 <= k < w.len() ==> #[trigger] s[p + k] == w[k]
}

/// The canonical rendering of a response envelope: the type, the error
/// code when there is one, and the result array, in that order.
pub open spec fn render_response(t: u64, e: Option<u64>, ws: Seq<Seq<u8>>) -> Seq<u8> {
    seq![123u8, 34u8, 116u8, 34u8, 58u8] + dec_render(t as int) + (match e {
        Some(c) => seq![44u8, 34u8, 101u8, 34u8, 58u8] + dec_render(c as int),
        None => Seq::empty(),
    }) + seq![44u8, 34u8, 114u8, 34u8, 58u8] + render_array(ws) + seq![125u8]
}

/// The values an array's interior denotes, element by element.
proof fn lemma_items_at(s: Seq<u8>, p: int, ws: Seq<Seq<u8>>, endx: int)
    requires
        forall|i: int|
            0 <= i < ws.len() ==> json_value_ok(#[trigger] ws[i]) && item_spec_of(
                ws[i],
            ) is Some,
        0 <= p,
        endx < s.len(),
        endx == p + join_values(ws).len(),
        window_eq(s, p, join_values(ws)),
        is_sep(s[endx]),
    ensures
        items_values(s, p, endx) == Some(
            Seq::new(ws.len(), |i: int| item_spec_of(ws[i]).unwrap()),
        ),
    decreases ws.len(),
{
    let jv = join_values(ws);
    let expected = Seq::new(ws.len(), |i: int| item_spec_of(ws[i]).unwrap());
    if ws.len() == 0 {
        assert(expected =~= Seq::<ItemSpec>::empty());
    } else {
        let w = ws[0];
        assert(json_value_ok(w));
        if ws.len() == 1 {
            assert(jv == w);
            assert(forall|k: int| 0 <= k < w.len() ==> s[p + k] == #[trigger] w[k]);
            lemma_value_extent(s, p, w);
            let e = scan_end(s, p);
            assert(e == endx);
            assert(s.subrange(p, e) =~= w);
            assert(e > p);
            let it = item_spec_of(w).unwrap();
            assert(items_values(s, p, endx) == Some(seq![it]));
            assert(expected =~= seq![it]);
        } else {
            let rest = ws.drop_first();
            let jr = join_values(rest);
            assert(jv == w + seq![44u8] + jr);
            let wl = w.len() as int;
            assert(forall|k: int| 0 <= k < w.len() ==> s[p + k] == #[trigger] w[k]);
            assert(s[p + wl] == jv[wl]);
            assert(jv[wl] == 44);
            lemma_value_extent(s, p, w);
            let e = scan_end(s, p);
            assert(e == p + wl);
            assert(e < endx);
            assert(s[e] == 44);
            assert(s.subrange(p, e) =~= w);
            let it = item_spec_of(w).unwrap();
            assert(forall|i: int|
                0 <= i < rest.len() ==> json_value_ok(#[trigger] rest[i]) && item_spec_of(
                    rest[i],
                ) is Some);
            assert forall|k: int| 0 <= k < jr.len() implies #[trigger] s[(e + 1) + k]
                == jr[k] by {
                assert(s[p + (wl + 1 + k)] == jv[wl + 1 + k]);
            }
            lemma_items_at(s, e + 1, rest, endx);
            let tail = Seq::new(rest.len(), |i: int| item_spec_of(rest[i]).unwrap());
            assert(items_values(s, p, endx) == Some(seq![it] + tail));
            assert(expected =~= seq![it] + tail);
        }
    }
}

/// One object entry `"c":value` sitting at `p`: how the field walk treats
/// it — a matching key yields the value's extent, any other key steps over
/// the entry, or stops when no comma follows.
proof fn lemma_obj_entry(s: Seq<u8>, p: int, c: u8, value: Seq<u8>, key: Seq<u8>)
    requires
        0 <= p,
        p + 4 + value.len() < s.len(),
        s[p] == 34,
        s[p + 1] == c,
        s[p + 2] == 34,
        s[p + 3] == 58,
        c != 34 && c != 92,
        window_eq(s, p + 4, value),
        json_value_ok(value),
        is_sep(s[p + 4 + value.len()]),
    ensures
        scan_end(s, p + 4) == p + 4 + value.len(),
        key == seq![c] ==> obj_get(s, p, key) == Some((p + 4, p + 4 + value.len())),
        key != seq![c] && s[p + 4 + value.len()] == 44 ==> obj_get(s, p, key) == obj_get(
            s,
            p + 4 + value.len() + 1,
            key,
        ),
        key != seq![c] && s[p + 4 + value.len()] != 44 ==> obj_get(s, p, key) is None,
{
    let name = seq![34u8, c, 34u8];
    lemma_string_value(name);
    assert(window_eq(s, p, name)) by {
        assert(s[p + 0] == 34 && s[p + 1] == c && s[p + 2] == 34);
    }
    lemma_value_extent(s, p, name);
    assert(scan_end(s, p) == p + 3);
    lemma_value_extent(s, p + 4, value);
    assert(s.subrange(p + 1, p + 2) =~= seq![c]);
}

/// A rendered decimal followed by a separator is a numeric field holding
/// exactly the rendered number.
proof fn lemma_num_entry(s: Seq<u8>, p: int, n: u64)
    requires
        0 <= p,
        p + dec_render(n as int).len() < s.len(),
        window_eq(s, p, dec_render(n as int)),
        is_sep(s[p + dec_render(n as int).len()]),
    ensures
        json_value_ok(dec_render(n as int)),
        num_field(s, p, p + dec_render(n as int).len()) == Some(n),
{
    let d = dec_render(n as int);
    lemma_dec_render(n as int);
    assert forall|k: int| 0 <= k < d.len() implies is_plain(#[trigger] d[k]) by {
        assert(is_digit(d[k]));
    }
    lemma_plain_value(d);
    assert(!is_digit(s[p + d.len()]));
    lemma_digit_extent(s, p, d);
}

/// Round trip: a canonically rendered envelope decodes to exactly the
/// type, the error code and the values it was built from, with the result
/// array carried raw as rendered.
#[verifier::rlimit(60)]
pub proof fn lemma_response_round_trip(t: u64, e: Option<u64>, ws: Seq<Seq<u8>>)
    requires
        forall|i: int|
            0 <= i < ws.len() ==> json_value_ok(#[trigger] ws[i]) && item_spec_of(
                ws[i],
            ) is Some,
    ensures
        parse_response_spec(render_response(t, e, ws)) == Some(
            (t, e, Seq::new(ws.len(), |i: int| item_spec_of(ws[i]).unwrap()), render_array(ws)),
        ),
{
    let s = render_response(t, e, ws);
    let dt = dec_render(t as int);
    let arr = render_array(ws);
    let key_t = seq![116u8];
    let key_e = seq![101u8];
    let key_r = seq![114u8];
    lemma_dec_render(t as int);
    crate::json::lemma_array_value(ws);
    let dl = dt.len() as int;
    let te = 5 + dl;
    assert(s[0] == 123);
    assert(key_t[0] == 116 && key_e[0] == 101 && key_r[0] == 114);
    // the t entry
    assert(window_eq(s, 5, dt));
    assert(s[te] == 44);
    lemma_num_entry(s, 5, t);
    assert(s[1] == 34 && s[2] == 116 && s[3] == 34 && s[4] == 58);
    lemma_obj_entry(s, 1, 116, dt, key_t);
    lemma_obj_entry(s, 1, 116, dt, key_e);
    lemma_obj_entry(s, 1, 116, dt, key_r);
    assert(obj_get(s, 1, key_t) == Some((5int, te)));
    assert(num_field(s, 5, te) == Some(t));
    assert(obj_get(s, 1, key_e) == obj_get(s, te + 1, key_e));
    assert(obj_get(s, 1, key_r) == obj_get(s, te + 1, key_r));
    // the e entry, when there is one
    let rs = match e {
        Some(c) => {
            let de = dec_render(c as int);
            lemma_dec_render(c as int);
            let el = de.len() as int;
            assert(window_eq(s, te + 5, de));
            assert(s[te + 5 + el] == 44);
            lemma_num_entry(s, te + 5, c);
            assert(s[te + 1] == 34 && s[te + 2] == 101 && s[te + 3] == 34 && s[te + 4] == 58);
            lemma_obj_entry(s, te + 1, 101, de, key_e);
            lemma_obj_entry(s, te + 1, 101, de, key_r);
            assert(obj_get(s, te + 1, key_e) == Some((te + 5, te + 5 + el)));
            assert(num_field(s, te + 5, te + 5 + el) == Some(c));
            assert(obj_get(s, te + 1, key_r) == obj_get(s, te + 5 + el + 1, key_r));
            te + 5 + el + 1 + 4
        },
        None => te + 1 + 4,
    };
    // the r entry: its value is the whole array
    let re = rs + arr.len() as int;
    assert(window_eq(s, rs, arr));
    assert(s.len() == rs + arr.len() + 1);
    assert(s[re] == 125);
    assert(s[rs - 4] == 34 && s[rs - 3] == 114 && s[rs - 2] == 34 && s[rs - 1] == 58);
    lemma_obj_entry(s, rs - 4, 114, arr, key_r);
    assert(obj_get(s, rs - 4, key_r) == Some((rs, re)));
    match e {
        Some(_) => {},
        None => {
            // with no e entry, the walk for `e` runs off the r entry
            lemma_obj_entry(s, rs - 4, 114, arr, key_e);
            assert(obj_get(s, rs - 4, key_e) is None);
        },
    }
    // the array itself: bracket shape, and its elements
    assert(s[rs] == 91);
    assert(s[re - 1] == 93);
    assert(re - rs >= 2);
    let jv = join_values(ws);
    assert forall|k: int| 0 <= k < jv.len() implies #[trigger] s[(rs + 1) + k] == jv[k] by {
        assert(arr[1 + k] == jv[k]);
        assert(s[rs + (1 + k)] == arr[1 + k]);
    }
    assert(is_sep(s[re - 1]));
    assert(re - 1 == rs + 1 + jv.len());
    lemma_items_at(s, rs + 1, ws, re - 1);
    assert(s.subrange(rs, re) =~= arr);
    assert(s[s.len() - 1] == 125);
    assert(s.len() >= 2);
}

// ------------------------------------------------------------------
// Health probe
// ------------------------------------------------------------------

/// The response a healthy connection gives to the probe query `[1,1]`.
pub open spec fn valid_probe_response() -> Seq<u8> {
    seq![
        123u8, 34u8, 116u8, 34u8, 58u8, 49u8, 44u8, 34u8, 114u8, 34u8, 58u8, 91u8, 49u8, 93u8,
        125u8,
    ]
}

/// The payload of the health-probe query: `[1,1]`, a `START` of the
/// constant expression `1`.
pub fn health_probe_payload() -> (r: Vec<u8>)
    ensures
        r@ == seq![91u8, 49u8, 44u8, 49u8, 93u8],
{
    let v: Vec<u8> = vec![91, 49, 44, 49, 93];
    proof {
        assert(v@ =~= seq![91u8, 49u8, 44u8, 49u8, 93u8]);
    }
    v
}

/// Whether a probe's response bytes are exactly the expected pattern.
/// Any other payload means the connection must be treated as broken.
pub fn is_valid_response(resp: &[u8]) -> (r: bool)
    ensures
        r == (resp@ == valid_probe_response()),
{
    let expected: Vec<u8> = vec![123, 34, 116, 34, 58, 49, 44, 34, 114, 34, 58, 91, 49, 93, 125];
    proof {
        assert(expected@ =~= valid_probe_response());
    }
    slices_eq(resp, expected.as_slice())
}

} // verus!
