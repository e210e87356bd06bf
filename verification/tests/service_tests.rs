use quotefeed::endpoints::{one_shot_result, one_shot_setup, parse_quotes_query, QuotesQuery};
use quotefeed::errors::{ApplicationError, RecvError, ResponseStatus};
use quotefeed::oauth::Credentials;
use quotefeed::quotes::{quote_request_url, CyclePlan, QuotePayload, QuotesState};

const NOW: i64 = 1_700_000_000;

fn valid_credentials() -> Credentials {
    Credentials::new("acc".to_string(), "ref".to_string(), 3600, NOW)
}

#[test]
fn empty_pending_short_circuits_to_an_empty_success() {
    let mut service = QuotesState::new();
    service.set_credentials(valid_credentials());
    let mut sub = service.subscribe();
    assert!(matches!(service.begin_cycle(NOW), CyclePlan::PublishEmpty));
    service.publish_empty_success();
    let outcome = sub.recv(&service.poller).unwrap();
    assert_eq!(outcome.as_ref().unwrap().body, "{}");
}

#[test]
fn nonempty_pending_goes_upstream_with_the_current_token() {
    let mut service = QuotesState::new();
    service.set_credentials(valid_credentials());
    let _sub = service.subscribe();
    service.extend_quotes(vec!["NVDA".to_string(), "AAPL".to_string()]);
    match service.begin_cycle(NOW) {
        CyclePlan::Fetch { symbols, access_token } => {
            assert_eq!(symbols, vec!["NVDA".to_string(), "AAPL".to_string()]);
            assert_eq!(access_token, "acc");
            assert_eq!(
                quote_request_url(&symbols),
                "https://api.schwabapi.com/marketdata/v1/quotes?symbols=NVDA,AAPL&fields=quote,fundamental,extended,reference,regular&indicative=false"
            );
        },
        _ => panic!("a nonempty batch must go upstream"),
    }
    assert!(service.poller.pending.is_empty());
}

#[test]
fn expired_credential_broadcasts_the_authentication_failure() {
    let mut service = QuotesState::new();
    service.set_credentials(Credentials::new("acc".to_string(), "ref".to_string(), 60, 0));
    let mut sub = service.subscribe();
    service.extend_quotes(vec!["NVDA".to_string()]);
    assert!(matches!(service.begin_cycle(NOW), CyclePlan::PublishAuthError));
    service.publish_auth_error();
    let outcome = sub.recv(&service.poller).unwrap();
    assert!(matches!(
        outcome.as_ref().unwrap_err(),
        ApplicationError::MissingAuthentication
    ));
}

#[test]
fn cycle_count_is_independent_of_subscriber_count() {
    let mut service = QuotesState::new();
    service.set_credentials(valid_credentials());
    let subs: Vec<_> = (0..10).map(|_| service.subscribe()).collect();
    assert_eq!(service.poller.cycles, 0);
    assert!(matches!(service.begin_cycle(NOW), CyclePlan::PublishEmpty));
    assert_eq!(service.poller.cycles, 1);
    for s in subs {
        service.unsubscribe(s);
    }
    assert!(matches!(service.begin_cycle(NOW), CyclePlan::Stop));
    assert_eq!(service.poller.cycles, 1);
}

#[test]
fn missing_query_parameter_is_a_bad_request() {
    let q = QuotesQuery { symbols: None };
    let e = parse_quotes_query(&q).unwrap_err();
    match &e {
        ApplicationError::MissingQueryParameters(ps) => {
            assert_eq!(ps, &vec!["q".to_string()]);
        },
        _ => panic!("a missing parameter must be reported as missing"),
    }
    assert_eq!(e.response_status(), ResponseStatus::BadRequest);
    assert_eq!(e.message(), "missing required query parameters: [\"q\"]");
}

#[test]
fn symbol_lists_are_split_trimmed_and_filtered() {
    let q = QuotesQuery { symbols: Some("  NVDA , AAPL ,, MSFT ".to_string()) };
    let symbols = parse_quotes_query(&q).unwrap();
    assert_eq!(
        symbols,
        vec!["NVDA".to_string(), "AAPL".to_string(), "MSFT".to_string()]
    );
}

#[test]
fn one_shot_request_returns_exactly_one_quote_body() {
    let mut service = QuotesState::new();
    let q = QuotesQuery { symbols: Some("NVDA".to_string()) };
    let symbols = parse_quotes_query(&q).unwrap();
    let mut sub = one_shot_setup(&mut service, valid_credentials(), symbols);
    assert_eq!(service.poller.pending, vec!["NVDA".to_string()]);
    // the next poll cycle
    match service.begin_cycle(NOW) {
        CyclePlan::Fetch { symbols, .. } => assert_eq!(symbols, vec!["NVDA".to_string()]),
        _ => panic!("the one-shot symbols must reach the cycle"),
    }
    service.publish(Ok(QuotePayload { body: "{\"NVDA\":{}}".to_string() }));
    let outcome = sub.recv(&service.poller);
    let body = one_shot_result(outcome.as_ref().map(|v| *v).map_err(|e| *e)).unwrap();
    assert_eq!(body, "{\"NVDA\":{}}");
    assert!(!sub.ready(&service.poller));
    service.unsubscribe(sub);
    // the one-shot addition is permanent until the subscriber count resets
    assert!(service.poller.pending.is_empty());
}

#[test]
fn one_shot_failures_map_to_internal_errors() {
    let shared = Err(ApplicationError::Network("boom".to_string()));
    let (status, body) = one_shot_result(Ok(&shared)).unwrap_err();
    assert_eq!(status, ResponseStatus::InternalServerError);
    assert_eq!(
        body,
        "{\"error\":{\"Polling\":\"shared error in polling: network error: boom\"}}"
    );
    let (status, body) = one_shot_result(Err(RecvError::Lagged(3))).unwrap_err();
    assert_eq!(status, ResponseStatus::InternalServerError);
    assert_eq!(
        body,
        "{\"error\":{\"ChannelBroadcastFailed\":\"channel failed: channel lagged by 3\"}}"
    );
}

#[test]
fn statuses_follow_the_failure_kind() {
    assert_eq!(
        ApplicationError::MissingAuthentication.response_status(),
        ResponseStatus::Unauthorized
    );
    assert_eq!(
        ApplicationError::InvalidCredentials(quotefeed::errors::CredentialsError::Oauth2(
            "x".to_string()
        ))
        .response_status(),
        ResponseStatus::Unauthorized
    );
    assert_eq!(
        ApplicationError::InvalidWebSocketPayload.response_status(),
        ResponseStatus::BadRequest
    );
    assert_eq!(
        ApplicationError::Network("x".to_string()).response_status(),
        ResponseStatus::InternalServerError
    );
    assert_eq!(
        ApplicationError::QuoteResponseDeserialization("x".to_string()).response_status(),
        ResponseStatus::InternalServerError
    );
    assert_eq!(
        ApplicationError::ChannelBroadcastFailed(RecvError::Closed).response_status(),
        ResponseStatus::InternalServerError
    );
}
