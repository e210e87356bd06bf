use quotefeed::errors::{ApplicationError, RecvError};
use quotefeed::frames::{parse_client_msg, ws_err, ws_ok, ClientMsg};
use quotefeed::oauth::Credentials;
use quotefeed::quotes::{QuotePayload, QuotesState};
use quotefeed::watch::{ConnState, ConnectDecision, FrameAction, WatchConn};

fn valid_credentials(now: i64) -> Credentials {
    Credentials::new("acc".to_string(), "ref".to_string(), 3600, now)
}

#[test]
fn connect_without_credential_rejects_and_closes() {
    let mut conn = WatchConn::new();
    match conn.on_connect(&None, 0) {
        ConnectDecision::Reject { frame } => {
            assert_eq!(
                frame,
                "{\"error\":{\"MissingAuthentication\":\"missing authentication cookie\"}}"
            );
        },
        _ => panic!("a missing credential must be rejected"),
    }
    assert!(matches!(conn.state, ConnState::Closed));
    assert!(conn.sub.is_none());
}

#[test]
fn connect_with_expired_credential_asks_for_refresh() {
    let mut conn = WatchConn::new();
    let stale = Credentials::new("acc".to_string(), "ref".to_string(), 60, 0);
    match conn.on_connect(&Some(stale), 10_000) {
        ConnectDecision::NeedsRefresh { refresh_token } => {
            assert_eq!(refresh_token, "ref");
        },
        _ => panic!("an expired credential must be refreshed"),
    }
    assert!(matches!(conn.state, ConnState::Connecting));
}

#[test]
fn connect_with_valid_credential_attaches_and_greets() {
    let now = 1_700_000_000;
    let mut conn = WatchConn::new();
    let mut service = QuotesState::new();
    assert!(matches!(
        conn.on_connect(&Some(valid_credentials(now)), now),
        ConnectDecision::Ready
    ));
    let greeting = conn.attach(&mut service);
    assert_eq!(greeting, "{\"event\":\"subscribed\"}");
    assert!(matches!(conn.state, ConnState::Looping));
    assert_eq!(service.poller.subscribers, 1);
    assert!(service.poller.running);
}

#[test]
fn add_frame_is_acknowledged_and_pushed() {
    let now = 1_700_000_000;
    let mut conn = WatchConn::new();
    let mut service = QuotesState::new();
    service.set_credentials(valid_credentials(now));
    conn.attach(&mut service);
    match conn.on_text_frame("{\"type\":\"add\",\"symbols\":[\"AAPL\"]}", &mut service) {
        FrameAction::Ack(frame) => {
            assert_eq!(
                frame,
                "{\"event\":\"ok\",\"type\":\"add\",\"symbols\":[\"AAPL\"]}"
            );
        },
        _ => panic!("an add frame must be acknowledged"),
    }
    assert_eq!(service.poller.pending, vec!["AAPL".to_string()]);
    assert_eq!(conn.tickers, vec!["AAPL".to_string()]);
}

#[test]
fn remove_and_subscribe_frames_mutate_the_watch_list() {
    let mut conn = WatchConn::new();
    let mut service = QuotesState::new();
    conn.attach(&mut service);
    conn.on_text_frame("{\"type\":\"add\",\"symbols\":[\"AAPL\",\"MSFT\",\"NVDA\"]}", &mut service);
    conn.on_text_frame("{\"type\":\"remove\",\"symbols\":[\"MSFT\"]}", &mut service);
    assert_eq!(conn.tickers, vec!["AAPL".to_string(), "NVDA".to_string()]);
    assert_eq!(service.poller.pending, conn.tickers);
    conn.on_text_frame("{\"type\":\"subscribe\",\"symbols\":[\"TSLA\",\"TSLA\"]}", &mut service);
    assert_eq!(conn.tickers, vec!["TSLA".to_string()]);
    assert_eq!(service.poller.pending, conn.tickers);
}

#[test]
fn ping_frame_pongs_without_touching_the_watch_list() {
    let mut conn = WatchConn::new();
    let mut service = QuotesState::new();
    conn.attach(&mut service);
    conn.on_text_frame("{\"type\":\"add\",\"symbols\":[\"AAPL\"]}", &mut service);
    match conn.on_text_frame("{\"type\":\"ping\",\"data\":[1,2,3]}", &mut service) {
        FrameAction::Pong(data) => assert_eq!(data, vec![1u8, 2, 3]),
        _ => panic!("a ping must be answered with a transport pong"),
    }
    assert_eq!(conn.tickers, vec!["AAPL".to_string()]);
    assert!(matches!(conn.state, ConnState::Looping));
}

#[test]
fn malformed_frame_draws_an_error_and_the_loop_continues() {
    let mut conn = WatchConn::new();
    let mut service = QuotesState::new();
    conn.attach(&mut service);
    match conn.on_text_frame("{\"type\":\"warp\"}", &mut service) {
        FrameAction::Error(frame) => {
            assert!(frame.starts_with("{\"error\":{\"InvalidWebSocketPayload\":"));
        },
        _ => panic!("a malformed frame must draw an error frame"),
    }
    assert!(matches!(conn.state, ConnState::Looping));
}

#[test]
fn broadcast_success_becomes_a_quote_frame() {
    let mut conn = WatchConn::new();
    let mut service = QuotesState::new();
    conn.attach(&mut service);
    conn.on_text_frame("{\"type\":\"add\",\"symbols\":[\"AAPL\"]}", &mut service);
    service.publish(Ok(QuotePayload { body: "{\"AAPL\":{}}".to_string() }));
    let frame = conn.on_broadcast(&mut service).unwrap();
    assert_eq!(frame, "{\"event\":\"quote\",\"data\":{\"AAPL\":{}}}");
    // the demand set was re-asserted
    assert_eq!(service.poller.pending, conn.tickers);
}

#[test]
fn broadcast_failure_is_shared_with_every_subscriber() {
    let mut a = WatchConn::new();
    let mut b = WatchConn::new();
    let mut service = QuotesState::new();
    a.attach(&mut service);
    b.attach(&mut service);
    service.publish(Err(ApplicationError::MissingAuthentication));
    let fa = a.on_broadcast(&mut service).unwrap();
    let fb = b.on_broadcast(&mut service).unwrap();
    assert_eq!(fa, fb);
    assert_eq!(
        fa,
        "{\"error\":{\"Polling\":\"shared error in polling: missing authentication cookie\"}}"
    );
}

#[test]
fn closed_channel_ends_the_connection() {
    let mut conn = WatchConn::new();
    let mut service = QuotesState::new();
    conn.attach(&mut service);
    service.poller.close();
    assert_eq!(conn.on_broadcast(&mut service).unwrap_err(), RecvError::Closed);
    conn.close(&mut service);
    assert!(matches!(conn.state, ConnState::Closed));
    assert_eq!(service.poller.subscribers, 0);
    assert!(!service.poller.running);
    assert!(service.poller.pending.is_empty());
}

#[test]
fn refresh_failure_is_fatal() {
    let mut conn = WatchConn::new();
    let frame = conn.refresh_failed("exchange said no".to_string());
    assert_eq!(
        frame,
        "{\"error\":{\"InvalidCredentials\":\"invalid credentials string: error in oauth flow: exchange said no\"}}"
    );
    assert!(matches!(conn.state, ConnState::Closed));
}

#[test]
fn acknowledgement_echoes_the_message() {
    let msg = parse_client_msg("{\"type\":\"remove\",\"symbols\":[\"A\",\"B\"]}").unwrap();
    assert!(matches!(&msg, ClientMsg::Remove { symbols } if symbols == &vec!["A".to_string(), "B".to_string()]));
    assert_eq!(
        ws_ok(&msg),
        "{\"event\":\"ok\",\"type\":\"remove\",\"symbols\":[\"A\",\"B\"]}"
    );
}

#[test]
fn error_frames_escape_their_messages() {
    let e = ApplicationError::Network("bad \"gateway\"".to_string());
    assert_eq!(
        ws_err(&e),
        "{\"error\":{\"Network\":\"network error: bad \\\"gateway\\\"\"}}"
    );
}
