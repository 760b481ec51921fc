//! The authentication handshake.
//!
//! A fresh transport is authenticated with SCRAM-SHA-256, pipelined to
//! save a round trip: the 4-byte version magic and the framed first auth
//! request go out together, before the server's version reply is read.
//! Handshake frames travel under token 0 — the sentinel token that no
//! request ever uses.  The challenge-response arithmetic itself is done by
//! the `scram` crate; everything around it — message framing, the JSON
//! bodies, the error classification — is this module's own.
//!
//! A response whose numeric `error_code` lies in the range 10 to 20
//! reserved for authentication failures maps to `Driver::Auth`; any other
//! non-success is a generic connection failure.  Handshake failures are
//! never retried here: retry, if any, happens one layer up by re-running
//! the whole handshake on a new transport.

use vstd::prelude::*;
use vstd::bytes::{spec_u32_to_le_bytes, u32_to_le_bytes};
use vstd::string::StringSliceAdditionalSpecFns;
use crate::err::{Driver, Error, Runtime};
use crate::frame::{encode_frame, frame_spec};
use crate::json::{escape_bytes, escape_json, unescape_bytes, unescape_json};
use crate::response::{num_field, num_field_exec, obj_get, obj_get_exec, slices_eq};
use crate::VERSION_MAGIC;

verus! {

// ------------------------------------------------------------------
// What is relied on from outside
// ------------------------------------------------------------------

#[verifier::external_type_specification]
#[verifier::external_body]
pub struct ExScramClient<'a>(scram::ScramClient<'a>);

#[verifier::external_type_specification]
#[verifier::external_body]
pub struct ExServerFirst<'a>(scram::client::ServerFirst<'a>);

#[verifier::external_type_specification]
#[verifier::external_body]
pub struct ExClientFinal(scram::client::ClientFinal);

#[verifier::external_type_specification]
#[verifier::external_body]
pub struct ExServerFinal(scram::client::ServerFinal);

/// Relies on scram::ScramClient::new: the SCRAM state for these
/// credentials, seeded with a fresh random nonce.
#[verifier::external_body]
fn scram_new<'a>(user: &'a str, password: &'a str) -> scram::ScramClient<'a> {
    scram::ScramClient::new(user, password, None)
}

/// Relies on scram::ScramClient::client_first: the client-first message
/// and the state that awaits the server's reply.  The message depends on
/// the random nonce, so nothing is promised of its content.
#[verifier::external_body]
fn scram_client_first<'a>(sc: scram::ScramClient<'a>) -> (scram::client::ServerFirst<'a>, Vec<u8>) {
    let (st, msg) = sc.client_first();
    (st, msg.into_bytes())
}

/// The challenge shapes scram's first-message parser reads without
/// panicking: the text is at least two bytes and every comma-separated
/// field is at least two bytes long (the parser slices the first two
/// bytes of each field unconditionally).  In UTF-8 the comma byte only
/// ever encodes the comma, so splitting the bytes splits the text.
pub open spec fn scram_fields_ok(b: Seq<u8>) -> bool {
    &&& b.len() >= 2
    &&& b[0] != 44
    &&& b[1] != 44
    &&& forall|i: int|
        0 <= i < b.len() && #[trigger] b[i] == 44 ==> i + 2 < b.len() && b[i + 1] != 44 && b[i
            + 2] != 44
}

/// Runtime test for [`scram_fields_ok`].
fn scram_fields_check(v: &[u8]) -> (r: bool)
    ensures
        r == scram_fields_ok(v@),
{
    if v.len() < 2 {
        return false;
    }
    if *vstd::slice::slice_index_get(v, 0) == 44 || *vstd::slice::slice_index_get(v, 1) == 44 {
        return false;
    }
    let mut i: usize = 0;
    while i < v.len()
        invariant
            i <= v@.len(),
            v@.len() >= 2,
            v@[0] != 44 && v@[1] != 44,
            forall|j: int|
                0 <= j < i && #[trigger] v@[j] == 44 ==> j + 2 < v@.len() && v@[j + 1] != 44
                    && v@[j + 2] != 44,
        decreases v@.len() - i,
    {
        if *vstd::slice::slice_index_get(v, i) == 44 {
            if i >= v.len() - 2 {
                return false;
            }
            if *vstd::slice::slice_index_get(v, i + 1) == 44 || *vstd::slice::slice_index_get(
                v,
                i + 2,
            ) == 44 {
                return false;
            }
        }
        i = i + 1;
    }
    true
}

/// The proof shapes scram's final-message parser reads without panicking:
/// when the text is two bytes or longer it must begin with two one-byte
/// characters (the parser slices the first two bytes of the `&str`, which
/// must fall on a character boundary).  Shorter texts are refused by the
/// parser before any slicing.
pub open spec fn scram_proof_ok(b: Seq<u8>) -> bool {
    b.len() >= 2 ==> (b[0] <= 127 && b[1] <= 127)
}

/// Runtime test for [`scram_proof_ok`].
fn scram_proof_check(v: &[u8]) -> (r: bool)
    ensures
        r == scram_proof_ok(v@),
{
    if v.len() < 2 {
        true
    } else {
        *vstd::slice::slice_index_get(v, 0) <= 127 && *vstd::slice::slice_index_get(v, 1) <= 127
    }
}

/// Relies on scram::client::ServerFirst::handle_server_first: checks the
/// server's challenge and derives the client proof; `None` on a malformed
/// or mismatched challenge.  The `requires` keeps out the field shapes
/// whose first two bytes the parser would slice out of range.
#[verifier::external_body]
fn scram_handle_server_first<'a>(st: scram::client::ServerFirst<'a>, msg: &str) -> Option<
    scram::client::ClientFinal,
>
    requires
        scram_fields_ok(msg.spec_bytes()),
{
    match st.handle_server_first(msg) {
        Ok(cf) => Some(cf),
        Err(_) => None,
    }
}

/// Relies on scram::client::ClientFinal::client_final: the client-final
/// message and the state that validates the server's proof.
#[verifier::external_body]
fn scram_client_final(st: scram::client::ClientFinal) -> (scram::client::ServerFinal, Vec<u8>) {
    let (st2, msg) = st.client_final();
    (st2, msg.into_bytes())
}

/// Relies on scram::client::ServerFinal::handle_server_final: true only
/// when the server's authentication proof validates.  The `requires`
/// keeps out texts whose third byte is not a character boundary, which
/// the parser's slicing would panic on.
#[verifier::external_body]
fn scram_handle_server_final(st: scram::client::ServerFinal, msg: &str) -> bool
    requires
        scram_proof_ok(msg.spec_bytes()),
{
    match st.handle_server_final(msg) {
        Ok(()) => true,
        Err(_) => false,
    }
}

/// Relies on str::from_utf8: `Some` exactly on valid UTF-8, viewing the
/// same bytes.
#[verifier::external_body]
fn bytes_as_str(v: &[u8]) -> (r: Option<&str>)
    ensures
        r matches Some(s) ==> s.spec_bytes() == v@,
        r is None ==> !vstd::utf8::valid_utf8(v@),
{
    std::str::from_utf8(v).ok()
}

// ------------------------------------------------------------------
// The handshake messages
// ------------------------------------------------------------------

/// The bytes before the authentication string in the first auth request:
/// `{"protocol_version":0,"authentication_method":"SCRAM-SHA-256","authentication":"`.
pub open spec fn auth_request_prefix() -> Seq<u8> {
    seq![
        123u8, 34u8, 112u8, 114u8, 111u8, 116u8, 111u8, 99u8, 111u8, 108u8, 95u8, 118u8, 101u8,
        114u8, 115u8, 105u8, 111u8, 110u8, 34u8, 58u8, 48u8, 44u8, 34u8, 97u8, 117u8, 116u8,
        104u8, 101u8, 110u8, 116u8, 105u8, 99u8, 97u8, 116u8, 105u8, 111u8, 110u8, 95u8, 109u8,
        101u8, 116u8, 104u8, 111u8, 100u8, 34u8, 58u8, 34u8, 83u8, 67u8, 82u8, 65u8, 77u8, 45u8,
        83u8, 72u8, 65u8, 45u8, 50u8, 53u8, 54u8, 34u8, 44u8, 34u8, 97u8, 117u8, 116u8, 104u8,
        101u8, 110u8, 116u8, 105u8, 99u8, 97u8, 116u8, 105u8, 111u8, 110u8, 34u8, 58u8, 34u8,
    ]
}

/// The bytes before the authentication string in the confirmation:
/// `{"authentication":"`.
pub open spec fn confirmation_prefix() -> Seq<u8> {
    seq![
        123u8, 34u8, 97u8, 117u8, 116u8, 104u8, 101u8, 110u8, 116u8, 105u8, 99u8, 97u8, 116u8,
        105u8, 111u8, 110u8, 34u8, 58u8, 34u8,
    ]
}

/// The closing `"}` of both messages.
pub open spec fn quote_suffix() -> Seq<u8> {
    seq![34u8, 125u8]
}

/// The first auth request carrying the client-first message `auth`.
pub open spec fn render_auth_request(auth: Seq<u8>) -> Seq<u8> {
    auth_request_prefix() + escape_bytes(auth) + quote_suffix()
}

/// The confirmation carrying the client-final message `auth`.
pub open spec fn render_auth_confirmation(auth: Seq<u8>) -> Seq<u8> {
    confirmation_prefix() + escape_bytes(auth) + quote_suffix()
}

fn render_auth_request_exec(auth: &[u8]) -> (r: Vec<u8>)
    ensures
        r@ == render_auth_request(auth@),
{
    let mut r: Vec<u8> = vec![
        123, 34, 112, 114, 111, 116, 111, 99, 111, 108, 95, 118, 101, 114, 115, 105, 111, 110, 34,
        58, 48, 44, 34, 97, 117, 116, 104, 101, 110, 116, 105, 99, 97, 116, 105, 111, 110, 95,
        109, 101, 116, 104, 111, 100, 34, 58, 34, 83, 67, 82, 65, 77, 45, 83, 72, 65, 45, 50, 53,
        54, 34, 44, 34, 97, 117, 116, 104, 101, 110, 116, 105, 99, 97, 116, 105, 111, 110, 34, 58,
        34,
    ];
    let mut body = escape_json(auth);
    r.append(&mut body);
    r.push(34);
    r.push(125);
    proof {
        assert(r@ =~= render_auth_request(auth@));
    }
    r
}

fn render_auth_confirmation_exec(auth: &[u8]) -> (r: Vec<u8>)
    ensures
        r@ == render_auth_confirmation(auth@),
{
    let mut r: Vec<u8> = vec![
        123, 34, 97, 117, 116, 104, 101, 110, 116, 105, 99, 97, 116, 105, 111, 110, 34, 58, 34,
    ];
    let mut body = escape_json(auth);
    r.append(&mut body);
    r.push(34);
    r.push(125);
    proof {
        assert(r@ =~= render_auth_confirmation(auth@));
    }
    r
}

// ------------------------------------------------------------------
// Parsing the server's handshake replies
// ------------------------------------------------------------------

pub open spec fn key_success() -> Seq<u8> {
    seq![115u8, 117u8, 99u8, 99u8, 101u8, 115u8, 115u8]
}

pub open spec fn key_authentication() -> Seq<u8> {
    seq![97u8, 117u8, 116u8, 104u8, 101u8, 110u8, 116u8, 105u8, 99u8, 97u8, 116u8, 105u8, 111u8,
        110u8]
}

pub open spec fn key_error_code() -> Seq<u8> {
    seq![101u8, 114u8, 114u8, 111u8, 114u8, 95u8, 99u8, 111u8, 100u8, 101u8]
}

pub open spec fn key_error() -> Seq<u8> {
    seq![101u8, 114u8, 114u8, 111u8, 114u8]
}

/// A boolean field: the literal `true` or `false`, filling its extent.
pub open spec fn bool_field(s: Seq<u8>, a: int, b: int) -> Option<bool> {
    let w = s.subrange(a, b);
    if w == seq![116u8, 114u8, 117u8, 101u8] {
        Some(true)
    } else if w == seq![102u8, 97u8, 108u8, 115u8, 101u8] {
        Some(false)
    } else {
        None
    }
}

/// A string field: a quoted literal, read back through the escapes.
pub open spec fn str_field(s: Seq<u8>, a: int, b: int) -> Option<Seq<u8>> {
    let w = s.subrange(a, b);
    if w.len() >= 2 && w[0] == 34 && w[w.len() - 1] == 34 {
        unescape_bytes(w.subrange(1, w.len() - 1))
    } else {
        None
    }
}

fn bool_field_exec(s: &[u8], a: usize, b: usize) -> (r: Option<bool>)
    requires
        a <= b <= s@.len(),
    ensures
        r == bool_field(s@, a as int, b as int),
{
    let w = vstd::slice::slice_subrange(s, a, b);
    let t: Vec<u8> = vec![116, 114, 117, 101];
    let f: Vec<u8> = vec![102, 97, 108, 115, 101];
    proof {
        assert(t@ =~= seq![116u8, 114u8, 117u8, 101u8]);
        assert(f@ =~= seq![102u8, 97u8, 108u8, 115u8, 101u8]);
    }
    if slices_eq(w, t.as_slice()) {
        Some(true)
    } else if slices_eq(w, f.as_slice()) {
        Some(false)
    } else {
        None
    }
}

fn str_field_exec(s: &[u8], a: usize, b: usize) -> (r: Option<Vec<u8>>)
    requires
        a <= b <= s@.len(),
    ensures
        match r {
            Some(v) => str_field(s@, a as int, b as int) == Some(v@),
            None => str_field(s@, a as int, b as int) is None,
        },
{
    let ghost w = s@.subrange(a as int, b as int);
    if b - a >= 2 && *vstd::slice::slice_index_get(s, a) == 34 && *vstd::slice::slice_index_get(
        s,
        b - 1,
    ) == 34 {
        let inner = vstd::slice::slice_subrange(s, a + 1, b - 1);
        proof {
            assert(inner@ =~= w.subrange(1, w.len() - 1));
        }
        unescape_json(inner)
    } else {
        None
    }
}

/// What the server's version/info reply says: whether it reports success.
pub open spec fn parse_server_info_spec(s: Seq<u8>) -> Option<bool> {
    if s.len() < 2 || s[0] != 123 || s[s.len() - 1] != 125 {
        None
    } else {
        match obj_get(s, 1, key_success()) {
            None => None,
            Some((a, b)) => bool_field(s, a, b),
        }
    }
}

/// Reads the server's version/info reply.
pub fn parse_server_info(s: &[u8]) -> (r: Option<bool>)
    ensures
        r == parse_server_info_spec(s@),
{
    if s.len() < 2 {
        return None;
    }
    if *vstd::slice::slice_index_get(s, 0) != 123 {
        return None;
    }
    if *vstd::slice::slice_index_get(s, s.len() - 1) != 125 {
        return None;
    }
    let key: Vec<u8> = vec![115, 117, 99, 99, 101, 115, 115];
    proof {
        assert(key@ =~= key_success());
    }
    match obj_get_exec(s, 1, key.as_slice()) {
        None => None,
        Some((a, b)) => bool_field_exec(s, a, b),
    }
}

/// A decoded auth reply: the success flag, the server's authentication
/// string, and — on failure — the numeric error code and message.
pub struct AuthReply {
    pub success: bool,
    pub authentication: Option<Vec<u8>>,
    pub error_code: Option<u64>,
    pub error: Option<Vec<u8>>,
}

/// What decoding an auth reply gives: success flag, authentication
/// string, error code, error message; absent fields stay absent, present
/// ones must have their field's shape.
pub open spec fn parse_auth_reply_spec(s: Seq<u8>) -> Option<
    (bool, Option<Seq<u8>>, Option<u64>, Option<Seq<u8>>),
> {
    if s.len() < 2 || s[0] != 123 || s[s.len() - 1] != 125 {
        None
    } else {
        match obj_get(s, 1, key_success()) {
            None => None,
            Some((a, b)) => match bool_field(s, a, b) {
                None => None,
                Some(succ) => {
                    let auth = match obj_get(s, 1, key_authentication()) {
                        None => Some(None),
                        Some((a2, b2)) => match str_field(s, a2, b2) {
                            None => None,
                            Some(v) => Some(Some(v)),
                        },
                    };
                    let code = match obj_get(s, 1, key_error_code()) {
                        None => Some(None),
                        Some((a3, b3)) => match num_field(s, a3, b3) {
                            None => None,
                            Some(v) => Some(Some(v)),
                        },
                    };
                    let msg = match obj_get(s, 1, key_error()) {
                        None => Some(None),
                        Some((a4, b4)) => match str_field(s, a4, b4) {
                            None => None,
                            Some(v) => Some(Some(v)),
                        },
                    };
                    match (auth, code, msg) {
                        (Some(a5), Some(c5), Some(m5)) => Some((succ, a5, c5, m5)),
                        _ => None,
                    }
                },
            },
        }
    }
}

/// Reads an auth reply.
pub fn parse_auth_reply(s: &[u8]) -> (r: Option<AuthReply>)
    ensures
        match r {
            Some(ar) => parse_auth_reply_spec(s@) == Some(
                (
                    ar.success,
                    match ar.authentication {
                        Some(ref v) => Some(v@),
                        None => None,
                    },
                    ar.error_code,
                    match ar.error {
                        Some(ref v) => Some(v@),
                        None => None,
                    },
                ),
            ),
            None => parse_auth_reply_spec(s@) is None,
        },
{
    if s.len() < 2 {
        return None;
    }
    if *vstd::slice::slice_index_get(s, 0) != 123 {
        return None;
    }
    if *vstd::slice::slice_index_get(s, s.len() - 1) != 125 {
        return None;
    }
    let k_success: Vec<u8> = vec![115, 117, 99, 99, 101, 115, 115];
    let k_auth: Vec<u8> = vec![97, 117, 116, 104, 101, 110, 116, 105, 99, 97, 116, 105, 111, 110];
    let k_code: Vec<u8> = vec![101, 114, 114, 111, 114, 95, 99, 111, 100, 101];
    let k_error: Vec<u8> = vec![101, 114, 114, 111, 114];
    proof {
        assert(k_success@ =~= key_success());
        assert(k_auth@ =~= key_authentication());
        assert(k_code@ =~= key_error_code());
        assert(k_error@ =~= key_error());
    }
    let (a, b) = match obj_get_exec(s, 1, k_success.as_slice()) {
        None => {
            return None;
        },
        Some(x) => x,
    };
    let success = match bool_field_exec(s, a, b) {
        None => {
            return None;
        },
        Some(x) => x,
    };
    let authentication = match obj_get_exec(s, 1, k_auth.as_slice()) {
        None => None,
        Some((a2, b2)) => match str_field_exec(s, a2, b2) {
            None => {
                return None;
            },
            Some(v) => Some(v),
        },
    };
    let error_code = match obj_get_exec(s, 1, k_code.as_slice()) {
        None => None,
        Some((a3, b3)) => match num_field_exec(s, a3, b3) {
            None => {
                return None;
            },
            Some(v) => Some(v),
        },
    };
    let error = match obj_get_exec(s, 1, k_error.as_slice()) {
        None => None,
        Some((a4, b4)) => match str_field_exec(s, a4, b4) {
            None => {
                return None;
            },
            Some(v) => Some(v),
        },
    };
    Some(AuthReply { success, authentication, error_code, error })
}

// ------------------------------------------------------------------
// Error classification
// ------------------------------------------------------------------

/// The error a rejected auth reply maps to: codes 10 through 20 with a
/// message are authentication failures; everything else is a generic
/// internal failure carrying the raw payload.
pub open spec fn rejection_error(
    code: Option<u64>,
    msg: Option<Seq<u8>>,
    payload: Seq<u8>,
    e: Error,
) -> bool {
    match code {
        Some(c) => if 10 <= c <= 20 && msg is Some {
            e matches Error::Driver(Driver::Auth(v)) && v@ == msg->0
        } else {
            e matches Error::Runtime(Runtime::Internal(v)) && v@ == payload
        },
        None => e matches Error::Runtime(Runtime::Internal(v)) && v@ == payload,
    }
}

/// The note for a reply that names no authentication string.
pub open spec fn no_auth_note() -> Seq<u8> {
    seq![
        110u8, 111u8, 32u8, 115u8, 101u8, 114u8, 118u8, 101u8, 114u8, 32u8, 97u8, 117u8, 116u8,
        104u8, 101u8, 110u8, 116u8, 105u8, 99u8, 97u8, 116u8, 105u8, 111u8, 110u8,
    ]
}

/// The note for a SCRAM exchange the library could not complete.
pub open spec fn scram_note() -> Seq<u8> {
    seq![
        115u8, 99u8, 114u8, 97u8, 109u8, 32u8, 101u8, 120u8, 99u8, 104u8, 97u8, 110u8, 103u8,
        101u8, 32u8, 102u8, 97u8, 105u8, 108u8, 101u8, 100u8,
    ]
}

/// The note for a message too large to frame.
pub open spec fn oversize_note() -> Seq<u8> {
    seq![
        111u8, 118u8, 101u8, 114u8, 115u8, 105u8, 122u8, 101u8, 100u8, 32u8, 109u8, 101u8, 115u8,
        115u8, 97u8, 103u8, 101u8,
    ]
}

fn no_auth_note_exec() -> (r: Vec<u8>)
    ensures
        r@ == no_auth_note(),
{
    let v: Vec<u8> = vec![
        110, 111, 32, 115, 101, 114, 118, 101, 114, 32, 97, 117, 116, 104, 101, 110, 116, 105, 99,
        97, 116, 105, 111, 110,
    ];
    proof {
        assert(v@ =~= no_auth_note());
    }
    v
}

fn scram_note_exec() -> (r: Vec<u8>)
    ensures
        r@ == scram_note(),
{
    let v: Vec<u8> = vec![
        115, 99, 114, 97, 109, 32, 101, 120, 99, 104, 97, 110, 103, 101, 32, 102, 97, 105, 108,
        101, 100,
    ];
    proof {
        assert(v@ =~= scram_note());
    }
    v
}

fn oversize_note_exec() -> (r: Vec<u8>)
    ensures
        r@ == oversize_note(),
{
    let v: Vec<u8> = vec![
        111, 118, 101, 114, 115, 105, 122, 101, 100, 32, 109, 101, 115, 115, 97, 103, 101,
    ];
    proof {
        assert(v@ =~= oversize_note());
    }
    v
}

// ------------------------------------------------------------------
// The handshake itself
// ------------------------------------------------------------------

/// The handshake after the pipelined opening: the version reply and the
/// server-first message are still owed.
pub struct HandshakeSent<'a> {
    scram: scram::client::ServerFirst<'a>,
}

/// The handshake after the confirmation went out: only the server's final
/// proof is still owed.
pub struct HandshakeFinal {
    scram: scram::client::ServerFinal,
}

/// Opens the handshake: the returned bytes are the 4-byte version magic
/// followed, in the same write, by the framed first auth request — sent
/// before any server reply is awaited.  The one failure is a client-first
/// message too large for the frame's length field.
pub fn handshake_open<'a>(user: &'a str, password: &'a str) -> (r: Result<
    (HandshakeSent<'a>, Vec<u8>),
    Error,
>)
    ensures
        r matches Ok((st, out)) ==> exists|cf: Seq<u8>|
            out@ == spec_u32_to_le_bytes(VERSION_MAGIC) + frame_spec(
                0,
                #[trigger] render_auth_request(cf),
            ),
        r matches Err(e) ==> (e matches Error::Driver(Driver::Serialization(v)) && v@
            == oversize_note()),
{
    let sc = scram_new(user, password);
    let (st, cf) = scram_client_first(sc);
    let payload = render_auth_request_exec(cf.as_slice());
    if payload.len() > u32::MAX as usize {
        return Err(Error::Driver(Driver::Serialization(oversize_note_exec())));
    }
    let mut out = u32_to_le_bytes(VERSION_MAGIC);
    let mut fr = encode_frame(0, payload.as_slice());
    out.append(&mut fr);
    proof {
        assert(out@ == spec_u32_to_le_bytes(VERSION_MAGIC) + frame_spec(
            0,
            render_auth_request(cf@),
        ));
    }
    Ok((HandshakeSent { scram: st }, out))
}

/// Handles the server's version/info reply: a payload that does not parse
/// is a protocol error carried raw; a parsed reply that reports failure
/// is an internal server failure carried raw.
pub fn handshake_on_info(payload: &[u8]) -> (r: Result<(), Error>)
    ensures
        match parse_server_info_spec(payload@) {
            Some(true) => r is Ok,
            Some(false) => r matches Err(Error::Runtime(Runtime::Internal(v))) && v@ == payload@,
            None => r matches Err(Error::Driver(Driver::Protocol(v))) && v@ == payload@,
        },
{
    match parse_server_info(payload) {
        Some(true) => Ok(()),
        Some(false) => Err(Error::Runtime(Runtime::Internal(vstd::slice::slice_to_vec(payload)))),
        None => Err(Error::Driver(Driver::Protocol(vstd::slice::slice_to_vec(payload)))),
    }
}

/// Handles the server's first auth reply.  On success the returned bytes
/// are the framed confirmation carrying the client-final message, and the
/// handshake awaits the server's proof.  A reply that does not parse is a
/// protocol error; a rejection classifies per [`rejection_error`]; a
/// success without an authentication string is refused.  On a well-formed
/// success the challenge's acceptance is the SCRAM library's to decide:
/// what can go wrong there is an authentication failure, an
/// authentication string that is not UTF-8 (a protocol error carried
/// raw), or a client-final message too large to frame.
pub fn handshake_on_auth_first<'a>(st: HandshakeSent<'a>, payload: &[u8]) -> (r: Result<
    (HandshakeFinal, Vec<u8>),
    Error,
>)
    ensures
        ({
            let p = parse_auth_reply_spec(payload@);
            &&& p is None ==> (r matches Err(Error::Driver(Driver::Protocol(v))) && v@
                == payload@)
            &&& p matches Some(t) ==> {
                &&& !t.0 ==> (r matches Err(e) && rejection_error(t.2, t.3, payload@, e))
                &&& t.0 && t.1 is None ==> (r matches Err(Error::Driver(Driver::Other(v))) && v@
                    == no_auth_note())
                &&& t.0 && t.1 is Some ==> (r matches Err(e) ==> {
                    ||| e matches Error::Driver(Driver::Auth(v)) && v@ == scram_note()
                    ||| e matches Error::Driver(Driver::Protocol(v)) && v@ == payload@
                        && !vstd::utf8::valid_utf8(t.1->0)
                    ||| e matches Error::Driver(Driver::Serialization(v)) && v@ == oversize_note()
                })
                &&& r matches Ok(pair) ==> (t.0 && t.1 is Some && (exists|cf: Seq<u8>|
                    pair.1@ == frame_spec(0, #[trigger] render_auth_confirmation(cf))))
            }
        }),
{
    let reply = match parse_auth_reply(payload) {
        Some(x) => x,
        None => {
            return Err(Error::Driver(Driver::Protocol(vstd::slice::slice_to_vec(payload))));
        },
    };
    if !reply.success {
        return Err(auth_rejection_of(&reply, payload));
    }
    let auth = match reply.authentication {
        Some(v) => v,
        None => {
            return Err(Error::Driver(Driver::Other(no_auth_note_exec())));
        },
    };
    let auth_str = match bytes_as_str(auth.as_slice()) {
        Some(s) => s,
        None => {
            return Err(Error::Driver(Driver::Protocol(vstd::slice::slice_to_vec(payload))));
        },
    };
    if !scram_fields_check(auth.as_slice()) {
        return Err(Error::Driver(Driver::Auth(scram_note_exec())));
    }
    let cf = match scram_handle_server_first(st.scram, auth_str) {
        Some(cf) => cf,
        None => {
            return Err(Error::Driver(Driver::Auth(scram_note_exec())));
        },
    };
    let (st2, msg) = scram_client_final(cf);
    let body = render_auth_confirmation_exec(msg.as_slice());
    if body.len() > u32::MAX as usize {
        return Err(Error::Driver(Driver::Serialization(oversize_note_exec())));
    }
    let out = encode_frame(0, body.as_slice());
    proof {
        assert(out@ == frame_spec(0, render_auth_confirmation(msg@)));
    }
    Ok((HandshakeFinal { scram: st2 }, out))
}

/// Handles the server's final reply.  A reply that does not parse is a
/// protocol error; a rejection classifies per [`rejection_error`]; a
/// success that carries no authentication proof is accepted.  When a
/// proof is carried its validation is the SCRAM library's to decide: a
/// mismatch is a terminal authentication failure, and a proof that is
/// not UTF-8 is a protocol error carried raw.
pub fn handshake_on_auth_final(st: HandshakeFinal, payload: &[u8]) -> (r: Result<(), Error>)
    ensures
        ({
            let p = parse_auth_reply_spec(payload@);
            &&& p is None ==> (r matches Err(Error::Driver(Driver::Protocol(v))) && v@
                == payload@)
            &&& p matches Some(t) ==> {
                &&& !t.0 ==> (r matches Err(e) && rejection_error(t.2, t.3, payload@, e))
                &&& t.0 && t.1 is None ==> r is Ok
                &&& t.0 && t.1 is Some ==> (r matches Err(e) ==> {
                    ||| e matches Error::Driver(Driver::Auth(v)) && v@ == scram_note()
                    ||| e matches Error::Driver(Driver::Protocol(v)) && v@ == payload@
                        && !vstd::utf8::valid_utf8(t.1->0)
                })
                &&& r is Ok ==> t.0
            }
            &&& r is Ok ==> p is Some
        }),
{
    let reply = match parse_auth_reply(payload) {
        Some(x) => x,
        None => {
            return Err(Error::Driver(Driver::Protocol(vstd::slice::slice_to_vec(payload))));
        },
    };
    if !reply.success {
        return Err(auth_rejection_of(&reply, payload));
    }
    match reply.authentication {
        None => Ok(()),
        Some(auth) => {
            let auth_str = match bytes_as_str(auth.as_slice()) {
                Some(s) => s,
                None => {
                    return Err(Error::Driver(Driver::Protocol(vstd::slice::slice_to_vec(
                        payload,
                    ))));
                },
            };
            if !scram_proof_check(auth.as_slice()) {
                return Err(Error::Driver(Driver::Auth(scram_note_exec())));
            }
            if scram_handle_server_final(st.scram, auth_str) {
                Ok(())
            } else {
                Err(Error::Driver(Driver::Auth(scram_note_exec())))
            }
        },
    }
}

/// The error for a reply whose success flag is down.
fn auth_rejection_of(reply: &AuthReply, payload: &[u8]) -> (e: Error)
    ensures
        rejection_error(
            reply.error_code,
            match reply.error {
                Some(ref v) => Some(v@),
                None => None,
            },
            payload@,
            e,
        ),
{
    let code_in_range = match reply.error_code {
        Some(c) => 10 <= c && c <= 20,
        None => false,
    };
    if code_in_range {
        match &reply.error {
            Some(msg) => {
                let mut m: Vec<u8> = Vec::new();
                let mut k: usize = 0;
                let msg_len = msg.len();
                while k < msg_len
                    invariant
                        k <= msg@.len(),
                        msg_len == msg@.len(),
                        m@ == msg@.subrange(0, k as int),
                    decreases msg@.len() - k,
                {
                    let b = msg[k];
                    m.push(b);
                    proof {
                        assert(m@ =~= msg@.subrange(0, k + 1));
                    }
                    k = k + 1;
                }
                proof {
                    assert(m@ =~= msg@);
                }
                return Error::Driver(Driver::Auth(m));
            },
            None => {},
        }
    }
    Error::Runtime(Runtime::Internal(vstd::slice::slice_to_vec(payload)))
}

} // verus!
