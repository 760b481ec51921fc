//! The handshake, driven against a real SCRAM server, and the options.

use std::num::NonZeroU32;

use reql::args::Args;
use reql::err::{Driver, Error, Runtime};
use reql::frame::take_frame;
use reql::handshake::{
    handshake_on_auth_final, handshake_on_auth_first, handshake_on_info, handshake_open,
    parse_auth_reply, parse_server_info,
};
use reql::opts::ConnectOpts;
use reql::version_magic;

use scram::server::{AuthenticationProvider, PasswordInfo};
use scram::ScramServer;

struct OneUser;

impl AuthenticationProvider for OneUser {
    fn get_password_for(&self, username: &str) -> Option<PasswordInfo> {
        if username != "admin" {
            return None;
        }
        let salt = b"0123456789abcdef".to_vec();
        let iterations = NonZeroU32::new(4096).unwrap();
        let hashed = scram::hash_password("secret", iterations, &salt);
        Some(PasswordInfo::new(hashed.to_vec(), 4096, salt))
    }
}

fn json_str_field(payload: &[u8], key: &str) -> String {
    let v: serde_json::Value = serde_json::from_slice(payload).unwrap();
    v[key].as_str().unwrap().to_string()
}

#[test]
fn handshake_authenticates_against_a_scram_server() {
    let (hs, out) = handshake_open("admin", "secret").unwrap();

    // the preamble: the 4-byte version magic, little-endian
    assert_eq!(&out[..4], &version_magic().to_le_bytes());

    // then, pipelined in the same write, the framed auth request under
    // the sentinel token 0
    let (token, payload, used) = take_frame(&out[4..]).unwrap();
    assert_eq!(token, 0);
    assert_eq!(used, out.len() - 4);
    let v: serde_json::Value = serde_json::from_slice(&payload).unwrap();
    assert_eq!(v["protocol_version"], 0);
    assert_eq!(v["authentication_method"], "SCRAM-SHA-256");
    let client_first = v["authentication"].as_str().unwrap().to_string();

    // the server answers the version exchange and the client first
    let server = ScramServer::new(OneUser);
    let scram_first = server.handle_client_first(&client_first).unwrap();
    let (scram_final, server_first) = scram_first.server_first();

    let info = b"{\"success\":true,\"min_protocol_version\":0,\
                  \"max_protocol_version\":0,\"server_version\":\"2.3.0\"}";
    handshake_on_info(info).unwrap();

    let reply1 = format!(
        "{{\"success\":true,\"authentication\":{}}}",
        serde_json::to_string(&server_first).unwrap()
    );
    let (hs2, out2) = handshake_on_auth_first(hs, reply1.as_bytes()).unwrap();

    // the confirmation travels framed under token 0 as well
    let (token2, payload2, used2) = take_frame(&out2).unwrap();
    assert_eq!(token2, 0);
    assert_eq!(used2, out2.len());
    let client_final = json_str_field(&payload2, "authentication");

    // the server validates the proof and sends its own
    let server_final_state = scram_final.handle_client_final(&client_final).unwrap();
    let (status, server_final) = server_final_state.server_final();
    assert_eq!(status, scram::server::AuthenticationStatus::Authenticated);

    let reply2 = format!(
        "{{\"success\":true,\"authentication\":{}}}",
        serde_json::to_string(&server_final).unwrap()
    );
    handshake_on_auth_final(hs2, reply2.as_bytes()).unwrap();
}

#[test]
fn handshake_rejects_a_forged_server_proof() {
    let (hs, _) = handshake_open("admin", "secret").unwrap();
    let server = ScramServer::new(OneUser);
    // drive the exchange far enough to hold a final state
    let (_, out) = handshake_open("admin", "secret").unwrap();
    let (_, payload, _) = take_frame(&out[4..]).unwrap();
    let client_first = json_str_field(&payload, "authentication");
    let scram_first = server.handle_client_first(&client_first).unwrap();
    let (_, server_first) = scram_first.server_first();
    // the server-first answers a different client-first exchange, so the
    // nonce cannot match and the exchange must fail as an auth error
    let reply = format!(
        "{{\"success\":true,\"authentication\":{}}}",
        serde_json::to_string(&server_first).unwrap()
    );
    match handshake_on_auth_first(hs, reply.as_bytes()) {
        Err(Error::Driver(Driver::Auth(_))) => {}
        Err(other) => panic!("expected an authentication failure, got {:?}", other),
        Ok(_) => panic!("expected an authentication failure, got success"),
    }
}

/// Drives a real exchange up to the state that awaits the server's proof.
fn reach_final() -> reql::handshake::HandshakeFinal {
    let (hs, out) = handshake_open("admin", "secret").unwrap();
    let (_, payload, _) = take_frame(&out[4..]).unwrap();
    let client_first = json_str_field(&payload, "authentication");
    let server = ScramServer::new(OneUser);
    let scram_first = server.handle_client_first(&client_first).unwrap();
    let (_, server_first) = scram_first.server_first();
    let reply = format!(
        "{{\"success\":true,\"authentication\":{}}}",
        serde_json::to_string(&server_first).unwrap()
    );
    let (hs2, _) = handshake_on_auth_first(hs, reply.as_bytes()).unwrap();
    hs2
}

#[test]
fn hostile_auth_strings_fail_cleanly() {
    // a challenge with a field shorter than two bytes is refused up front
    let (hs, _) = handshake_open("admin", "secret").unwrap();
    let body = b"{\"success\":true,\"authentication\":\"a,b\"}";
    match handshake_on_auth_first(hs, body) {
        Err(Error::Driver(Driver::Auth(m))) => assert_eq!(m, b"scram exchange failed".to_vec()),
        Err(other) => panic!("expected an authentication failure, got {:?}", other),
        Ok(_) => panic!("expected an authentication failure, got success"),
    }
    // an empty field between commas likewise
    let (hs, _) = handshake_open("admin", "secret").unwrap();
    let body = b"{\"success\":true,\"authentication\":\"r=x,,i=1\"}";
    assert!(matches!(
        handshake_on_auth_first(hs, body),
        Err(Error::Driver(Driver::Auth(_)))
    ));
    // a final proof that opens mid-character is refused the same way
    let hs2 = reach_final();
    let body = "{\"success\":true,\"authentication\":\"\u{20AC}\"}";
    assert!(matches!(
        handshake_on_auth_final(hs2, body.as_bytes()),
        Err(Error::Driver(Driver::Auth(_)))
    ));
    // a successful final reply without a proof is accepted
    let hs2 = reach_final();
    assert!(handshake_on_auth_final(hs2, b"{\"success\":true}").is_ok());
    // an authentication string that is not UTF-8 is a protocol error
    let hs2 = reach_final();
    let mut body = b"{\"success\":true,\"authentication\":\"".to_vec();
    body.push(0xFF);
    body.extend_from_slice(b"\"}");
    match handshake_on_auth_final(hs2, &body) {
        Err(Error::Driver(Driver::Protocol(v))) => assert_eq!(v, body),
        Err(other) => panic!("expected a protocol error, got {:?}", other),
        Ok(_) => panic!("expected a protocol error, got success"),
    }
}

#[test]
fn server_info_classifies() {
    assert_eq!(
        parse_server_info(b"{\"success\":true,\"min_protocol_version\":0}"),
        Some(true)
    );
    assert_eq!(parse_server_info(b"{\"success\":false}"), Some(false));
    assert_eq!(parse_server_info(b"ERROR: not json"), None);

    assert!(handshake_on_info(b"{\"success\":true}").is_ok());
    assert_eq!(
        handshake_on_info(b"{\"success\":false}"),
        Err(Error::Runtime(Runtime::Internal(b"{\"success\":false}".to_vec())))
    );
    assert_eq!(
        handshake_on_info(b"garbage"),
        Err(Error::Driver(Driver::Protocol(b"garbage".to_vec())))
    );
}

#[test]
fn auth_error_codes_in_range_classify_as_auth_failures() {
    let reply =
        parse_auth_reply(b"{\"success\":false,\"error\":\"Wrong password\",\"error_code\":12}")
            .unwrap();
    assert!(!reply.success);
    assert_eq!(reply.error_code, Some(12));
    assert_eq!(reply.error, Some(b"Wrong password".to_vec()));

    // through the handshake: code in 10..=20 is an authentication failure
    let (hs, _) = handshake_open("admin", "secret").unwrap();
    let body = b"{\"success\":false,\"error\":\"Wrong password\",\"error_code\":12}";
    match handshake_on_auth_first(hs, body) {
        Err(e) => assert_eq!(e, Error::Driver(Driver::Auth(b"Wrong password".to_vec()))),
        Ok(_) => panic!("expected an authentication failure"),
    }

    // any other code is a generic connection failure carrying the payload
    let (hs, _) = handshake_open("admin", "secret").unwrap();
    let body = b"{\"success\":false,\"error\":\"down\",\"error_code\":99}";
    match handshake_on_auth_first(hs, body) {
        Err(e) => assert_eq!(e, Error::Runtime(Runtime::Internal(body.to_vec()))),
        Ok(_) => panic!("expected a generic connection failure"),
    }

    // success without an authentication string is refused
    let (hs, _) = handshake_open("admin", "secret").unwrap();
    match handshake_on_auth_first(hs, b"{\"success\":true}") {
        Err(e) => assert_eq!(
            e,
            Error::Driver(Driver::Other(b"no server authentication".to_vec()))
        ),
        Ok(_) => panic!("expected a refusal"),
    }
}

#[test]
fn connect_opts_build_up() {
    let opts = ConnectOpts::default();
    assert_eq!(opts.servers, vec!["localhost:28015".to_string()]);
    assert_eq!(opts.db, "test");
    assert_eq!(opts.user, "admin");
    assert_eq!(opts.password, "");
    assert_eq!(opts.retries, 5);
    assert!(opts.tls.is_none());

    let opts = opts
        .set_servers(vec!["a:1".to_string(), "b:2".to_string()])
        .set_db("blog".to_string())
        .set_user("mike".to_string())
        .set_password("hunter2".to_string())
        .set_retries(3);
    assert_eq!(opts.servers.len(), 2);
    assert_eq!(opts.db, "blog");
    assert_eq!(opts.user, "mike");
    assert_eq!(opts.password, "hunter2");
    assert_eq!(opts.retries, 3);
}

#[test]
fn args_keep_term_and_string_apart() {
    let mut args = Args::new();
    assert!(args.term().is_empty());
    args.set_term(b"[14,[\"blog\"]]".to_vec());
    args.set_string("r.db(\"blog\")".to_string());
    assert_eq!(args.term(), &b"[14,[\"blog\"]]".to_vec());
    assert_eq!(args.string, "r.db(\"blog\")");
}
