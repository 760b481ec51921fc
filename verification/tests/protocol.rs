//! Response decoding, classification, the connection, the pool and the
//! dispatcher.

use reql::conn::Connection;
use reql::dispatch::{DispatchAction, DispatchState, Dispatcher, WriteKind};
use reql::err::{Availability, Driver, Error, Runtime};
use reql::pool::{
    select_subpool, sort_servers, ConnectionPool, PoolGet, PoolGetState, Server, SubPoolStatus,
};
use reql::query::{parse_query_envelope, wrap_query, QueryKind};
use reql::response::{
    classify, health_probe_payload, is_valid_response, parse_response, Classified, RItem,
};

fn err(tag: &[u8]) -> Error {
    Error::Driver(Driver::Io(tag.to_vec()))
}

#[test]
fn response_envelope_decodes() {
    let resp = parse_response(b"{\"t\":18,\"e\":3100000,\"r\":[\"missing\"],\"b\":[]}").unwrap();
    assert_eq!(resp.t, 18);
    assert_eq!(resp.e, Some(3100000));
    assert_eq!(resp.items, vec![RItem::Text(b"missing".to_vec())]);
    assert_eq!(resp.r_raw, b"[\"missing\"]".to_vec());
}

#[test]
fn response_items_decode_by_kind() {
    let resp = parse_response(b"{\"t\":1,\"r\":[null,\"a\\\"b\",{\"x\":1},17]}").unwrap();
    assert_eq!(
        resp.items,
        vec![
            RItem::Null,
            RItem::Text(b"a\"b".to_vec()),
            RItem::Raw(b"{\"x\":1}".to_vec()),
            RItem::Raw(b"17".to_vec()),
        ]
    );
    // a message with a unicode escape reads back as UTF-8 bytes
    let resp = parse_response(b"{\"t\":17,\"r\":[\"caf\\u00e9\"]}").unwrap();
    assert_eq!(
        classify(resp),
        Classified::Fail(Error::Compile(b"caf\xC3\xA9".to_vec()))
    );
}

#[test]
fn unknown_keys_and_any_key_order_are_accepted() {
    // trailing fields the driver does not model are skipped
    let resp = parse_response(b"{\"t\":1,\"r\":[1],\"b\":[],\"p\":{\"x\":2},\"n\":[2]}").unwrap();
    assert_eq!(resp.t, 1);
    assert_eq!(resp.items, vec![RItem::Raw(b"1".to_vec())]);
    // keys may come in any order
    let resp = parse_response(b"{\"r\":[\"m\"],\"e\":5000000,\"t\":18}").unwrap();
    assert_eq!(resp.t, 18);
    assert_eq!(resp.e, Some(5000000));
    assert_eq!(
        classify(resp),
        Classified::Fail(Error::Runtime(Runtime::User(b"m".to_vec())))
    );
    // an empty result array is fine
    let resp = parse_response(b"{\"t\":2,\"r\":[]}").unwrap();
    assert!(resp.items.is_empty());
    assert_eq!(classify(resp), Classified::Done);
}

#[test]
fn malformed_responses_are_refused() {
    assert!(parse_response(b"").is_none());
    assert!(parse_response(b"{\"t\":1}").is_none());
    assert!(parse_response(b"{\"r\":[]}").is_none());
    assert!(parse_response(b"{\"t\":x,\"r\":[]}").is_none());
    assert!(parse_response(b"{\"t\":1,\"r\":{}}").is_none());
}

#[test]
fn classification_of_runtime_errors() {
    let non_existence = parse_response(b"{\"t\":18,\"e\":3100000,\"r\":[\"missing\"]}").unwrap();
    assert_eq!(
        classify(non_existence),
        Classified::Fail(Error::Runtime(Runtime::NonExistence(b"missing".to_vec())))
    );
    let op_failed = parse_response(b"{\"t\":18,\"e\":4100000,\"r\":[\"down\"]}").unwrap();
    assert_eq!(
        classify(op_failed),
        Classified::Fail(Error::Runtime(Runtime::Availability(Availability::OpFailed(
            b"down".to_vec()
        ))))
    );
    let cases: Vec<(u64, fn(Vec<u8>) -> Runtime)> = vec![
        (1000000, Runtime::Internal as fn(Vec<u8>) -> Runtime),
        (2000000, Runtime::ResourceLimit),
        (3000000, Runtime::QueryLogic),
        (5000000, Runtime::User),
        (6000000, Runtime::Permission),
    ];
    for (code, wrap) in cases {
        let body = format!("{{\"t\":18,\"e\":{},\"r\":[\"m\"]}}", code);
        let resp = parse_response(body.as_bytes()).unwrap();
        assert_eq!(
            classify(resp),
            Classified::Fail(Error::Runtime(wrap(b"m".to_vec())))
        );
    }
    let indeterminate = parse_response(b"{\"t\":18,\"e\":4200000,\"r\":[\"m\"]}").unwrap();
    assert_eq!(
        classify(indeterminate),
        Classified::Fail(Error::Runtime(Runtime::Availability(
            Availability::OpIndeterminate(b"m".to_vec())
        )))
    );
}

#[test]
fn classification_of_generic_errors() {
    let client = parse_response(b"{\"t\":16,\"r\":[\"oops\"]}").unwrap();
    assert_eq!(
        classify(client),
        Classified::Fail(Error::Driver(Driver::Other(b"oops".to_vec())))
    );
    let compile = parse_response(b"{\"t\":17,\"r\":[\"bad term\"]}").unwrap();
    assert_eq!(
        classify(compile),
        Classified::Fail(Error::Compile(b"bad term".to_vec()))
    );
    // a runtime error without a code is surfaced raw
    let raw = parse_response(b"{\"t\":18,\"r\":[\"m\"]}").unwrap();
    assert_eq!(classify(raw), Classified::Fail(Error::Db(b"[\"m\"]".to_vec())));
    // an error whose result is not one string is surfaced raw
    let shape = parse_response(b"{\"t\":18,\"e\":3100000,\"r\":[1,2]}").unwrap();
    assert_eq!(classify(shape), Classified::Fail(Error::Db(b"[1,2]".to_vec())));
    // an unknown error code is surfaced raw
    let unknown_code = parse_response(b"{\"t\":18,\"e\":777,\"r\":[\"m\"]}").unwrap();
    assert_eq!(
        classify(unknown_code),
        Classified::Fail(Error::Db(b"[\"m\"]".to_vec()))
    );
}

#[test]
fn classification_of_successes() {
    let atom = parse_response(b"{\"t\":1,\"r\":[1]}").unwrap();
    assert_eq!(classify(atom), Classified::Done);
    let sequence = parse_response(b"{\"t\":2,\"r\":[1]}").unwrap();
    assert_eq!(classify(sequence), Classified::Done);
    let wait = parse_response(b"{\"t\":4,\"r\":[]}").unwrap();
    assert_eq!(classify(wait), Classified::Done);
    let partial = parse_response(b"{\"t\":3,\"r\":[1]}").unwrap();
    assert_eq!(classify(partial), Classified::Partial);
    let unknown = parse_response(b"{\"t\":99,\"r\":[]}").unwrap();
    assert_eq!(
        classify(unknown),
        Classified::Fail(Error::Driver(Driver::Other(
            b"unsupported response type".to_vec()
        )))
    );
}

#[test]
fn health_probe_matches_exact_bytes() {
    assert_eq!(health_probe_payload(), b"[1,1]".to_vec());
    assert!(is_valid_response(b"{\"t\":1,\"r\":[1]}"));
    assert!(!is_valid_response(b"{\"t\":1,\"r\":[2]}"));
    assert!(!is_valid_response(b""));
}

#[test]
fn tokens_are_sequential_from_one() {
    let mut conn = Connection::new();
    for expected in 1..=5u64 {
        assert_eq!(conn.token().unwrap(), expected);
    }
    assert!(!conn.is_broken());
}

#[test]
fn token_overflow_breaks_the_connection() {
    let mut conn = Connection::new();
    conn.next_token = u64::MAX;
    assert_eq!(conn.token().unwrap(), u64::MAX);
    assert!(conn.is_broken());
    assert_eq!(conn.token(), Err(Driver::TokenOverflow));
    assert_eq!(conn.token(), Err(Driver::TokenOverflow));
}

#[test]
fn pending_table_delivers_once_and_drops_late_frames() {
    let mut conn = Connection::new();
    let token = conn.token().unwrap();
    assert!(conn.register(token));
    // only one waiter per token
    assert!(!conn.register(token));
    // nothing delivered yet
    assert_eq!(conn.take_delivered(token), None);
    assert!(conn.deliver(token, b"page".to_vec()));
    // a duplicate frame does not displace the delivered one
    assert!(!conn.deliver(token, b"dup".to_vec()));
    assert_eq!(conn.take_delivered(token), Some(b"page".to_vec()));
    // the slot is retired: a late frame is dropped
    assert!(!conn.deliver(token, b"late".to_vec()));
    // retiring an unknown token is harmless
    conn.retire(token);
}

#[test]
fn subpool_selection_prefers_idle_then_total() {
    let pools = vec![
        SubPoolStatus { idle: 0, total: 2 },
        SubPoolStatus { idle: 3, total: 3 },
        SubPoolStatus { idle: 1, total: 4 },
    ];
    assert_eq!(select_subpool(&pools), Some(1));

    let pools = vec![
        SubPoolStatus { idle: 0, total: 0 },
        SubPoolStatus { idle: 0, total: 2 },
        SubPoolStatus { idle: 0, total: 0 },
    ];
    assert_eq!(select_subpool(&pools), Some(1));

    let pools = vec![
        SubPoolStatus { idle: 0, total: 0 },
        SubPoolStatus { idle: 0, total: 0 },
    ];
    assert_eq!(select_subpool(&pools), None);
}

#[test]
fn servers_sort_by_latency() {
    let s = |addr: &str, ms: u64| Server { addresses: vec![addr.to_string()], latency_ms: ms };
    let sorted = sort_servers(vec![
        s("c", u64::MAX),
        s("a", 3),
        s("b", 17),
        s("d", 1),
    ]);
    let latencies: Vec<u64> = sorted.iter().map(|x| x.latency_ms).collect();
    assert_eq!(latencies, vec![1, 3, 17, u64::MAX]);
    assert_eq!(sorted[0].addresses, vec!["d".to_string()]);

    let pool = ConnectionPool::new(vec![s("x", 9), s("y", 2)], 5);
    assert_eq!(pool.retries, 5);
    assert_eq!(pool.servers[0].latency_ms, 2);
}

#[test]
fn pool_checkout_fails_after_exactly_three_attempts() {
    let mut get = PoolGet::new(3);
    get.on_checkout_failed(err(b"first"));
    assert!(matches!(get.state, PoolGetState::Selecting));
    get.on_checkout_failed(err(b"second"));
    assert!(matches!(get.state, PoolGetState::Selecting));
    get.on_checkout_failed(err(b"third"));
    match get.state {
        PoolGetState::Failed(e) => assert_eq!(e, err(b"third")),
        _ => panic!("expected failure after the third attempt"),
    }
    assert_eq!(get.attempts_left, 0);
}

#[test]
fn dispatcher_connect_retries_exhaust_with_last_error() {
    let mut d = Dispatcher::new(3);
    assert_eq!(d.on_connect_failed(err(b"one")), DispatchAction::Connect);
    assert_eq!(d.on_connect_failed(err(b"two")), DispatchAction::Connect);
    assert_eq!(d.on_connect_failed(err(b"three")), DispatchAction::Stop);
    assert_eq!(d.state, DispatchState::Failed(err(b"three")));
}

#[test]
fn cursor_continuation_yields_pages_in_order() {
    let mut d = Dispatcher::new(5);
    assert_eq!(d.on_connect_ok(), DispatchAction::Write(WriteKind::Start));
    assert_eq!(d.on_write_ok(), DispatchAction::Read);

    let mut yielded: Vec<RItem> = Vec::new();
    let mut continues: u32 = 0;

    // first read: a partial page
    let resp = parse_response(b"{\"t\":3,\"r\":[1,2]}").unwrap();
    let items = resp.items.clone();
    let (emitted, action) = d.on_response(classify(resp), items);
    yielded.extend(emitted);
    assert_eq!(action, DispatchAction::Write(WriteKind::Continue));
    continues += 1;
    assert_eq!(wrap_query(QueryKind::Continue, None, None), b"[2]".to_vec());
    assert_eq!(d.on_write_ok(), DispatchAction::Read);

    // second read: the terminal page
    let resp = parse_response(b"{\"t\":2,\"r\":[3]}").unwrap();
    let items = resp.items.clone();
    let (emitted, action) = d.on_response(classify(resp), items);
    yielded.extend(emitted);
    assert_eq!(action, DispatchAction::Stop);
    assert_eq!(d.state, DispatchState::Done);

    assert_eq!(
        yielded,
        vec![
            RItem::Raw(b"1".to_vec()),
            RItem::Raw(b"2".to_vec()),
            RItem::Raw(b"3".to_vec()),
        ]
    );
    assert_eq!(continues, 1);
    assert_eq!(d.continues_sent, 1);
}

#[test]
fn write_unavailability_resends_the_write() {
    let body =
        b"{\"t\":18,\"e\":4100000,\"r\":[\"Cannot perform write: primary replica for shard unavailable\"]}";
    let resp = parse_response(body).unwrap();
    let classified = classify(resp);

    // with budget remaining: one re-send of the original write, no error
    let mut d = Dispatcher::new(3);
    d.on_connect_ok();
    d.on_write_ok();
    let (emitted, action) = d.on_response(classified.clone(), Vec::new());
    assert!(emitted.is_empty());
    assert_eq!(action, DispatchAction::Write(WriteKind::Start));
    assert_eq!(d.state, DispatchState::Writing(WriteKind::Start));
    assert_eq!(d.attempts_left, 2);

    // with the budget spent: the availability error is surfaced
    let mut d = Dispatcher::new(1);
    d.on_connect_ok();
    d.on_write_ok();
    let (_, action) = d.on_response(classified, Vec::new());
    assert_eq!(action, DispatchAction::Stop);
    match d.state {
        DispatchState::Failed(Error::Runtime(Runtime::Availability(Availability::OpFailed(m)))) => {
            assert!(m.starts_with(b"Cannot perform write: primary replica for shard"));
        }
        other => panic!("unexpected state {:?}", other),
    }
}

#[test]
fn other_errors_are_terminal_at_once() {
    let mut d = Dispatcher::new(10);
    d.on_connect_ok();
    d.on_write_ok();
    let resp = parse_response(b"{\"t\":17,\"r\":[\"bad\"]}").unwrap();
    let (_, action) = d.on_response(classify(resp), Vec::new());
    assert_eq!(action, DispatchAction::Stop);
    assert_eq!(d.state, DispatchState::Failed(Error::Compile(b"bad".to_vec())));
    // the budget was not touched
    assert_eq!(d.attempts_left, 10);
}

#[test]
fn echoed_envelope_decodes_back_to_the_query() {
    // a server stub that echoes the query envelope back as the result of
    // a SUCCESS_ATOM response
    let term = b"{\"name\":\"User 0\",\"age\":0}".to_vec();
    let opts = b"{\"db\":\"blog\"}".to_vec();
    let envelope = wrap_query(QueryKind::Start, Some(&term), Some(&opts));

    let mut echoed = b"{\"t\":1,\"r\":[".to_vec();
    echoed.extend_from_slice(&envelope);
    echoed.extend_from_slice(b"]}");

    let resp = parse_response(&echoed).unwrap();
    assert_eq!(resp.t, 1);
    let back = match &resp.items[0] {
        RItem::Raw(v) => v.clone(),
        other => panic!("unexpected item {:?}", other),
    };
    let (code, term2, opts2) = parse_query_envelope(&back).unwrap();
    assert_eq!(code, 1);
    assert_eq!(term2, Some(term));
    assert_eq!(opts2, Some(opts));
    assert_eq!(classify(resp), Classified::Done);
}
