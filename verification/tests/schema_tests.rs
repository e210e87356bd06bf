use quotefeed::connector::{
    parse_sub_response, schwab_market, subscribe_request, SchwabChannel, SchwabSubResponse,
};
use quotefeed::errors::ApplicationError;
use quotefeed::schema::{parse_users_payload, ApiError};

#[test]
fn api_error_de() {
    const JSON: &str = "{\"id\":\"b1b4d335-35e8-4bce-81af-c22e60122086\",\"status\":\"400\",\"title\":\"Bad Request\",\"detail\":\"Search combination should have min of 1.\",\"source\":{\"pointer\":[\"/data/attributes/symbols\",\"/data/attributes/cusips\",\"/data/attributes/ssids\"]}}";
    let result = ApiError::parse(JSON);
    assert!(result.is_some());
    let e = result.unwrap();
    assert_eq!(e.status.as_deref(), Some("400"));
    assert_eq!(e.title.as_deref(), Some("Bad Request"));
    assert_eq!(
        e.source.unwrap().pointer.unwrap(),
        vec![
            "/data/attributes/symbols".to_string(),
            "/data/attributes/cusips".to_string(),
            "/data/attributes/ssids".to_string()
        ]
    );
}

#[test]
fn test_schwab_subscription_response() {
    struct TestCase {
        input: &'static str,
        expected: Option<SchwabSubResponse>,
    }

    let cases = vec![
        TestCase {
            input: "\n                {\"event\":\"subscribed\"}\n                ",
            expected: Some(SchwabSubResponse::Event { event: "subscribed".to_string() }),
        },
        TestCase {
            input: "\n                {\"error\":{\"MissingAuthentication\":\"missing authentication cookie\"}}\n                ",
            expected: Some(SchwabSubResponse::Error {
                errors: vec![(
                    "MissingAuthentication".to_string(),
                    "missing authentication cookie".to_string(),
                )],
            }),
        },
    ];

    for (index, test) in cases.into_iter().enumerate() {
        let actual = parse_sub_response(test.input);
        match (actual, test.expected) {
            (Ok(SchwabSubResponse::Event { event }), Some(SchwabSubResponse::Event { event: e })) => {
                assert_eq!(event, e, "TC{} failed", index)
            },
            (Ok(SchwabSubResponse::Error { errors }), Some(SchwabSubResponse::Error { errors: e })) => {
                assert_eq!(errors, e, "TC{} failed", index)
            },
            (actual, _) => {
                panic!("TC{index} failed: unexpected result {:?}", actual.is_ok());
            },
        }
    }
}

#[test]
fn test_validate_schwab_sub_response() {
    struct TestCase {
        input_response: SchwabSubResponse,
        is_valid: bool,
    }

    let cases = vec![
        TestCase {
            input_response: SchwabSubResponse::Event { event: "subscribed".to_string() },
            is_valid: true,
        },
        TestCase {
            input_response: SchwabSubResponse::Error {
                errors: vec![(
                    "MissingAuthentication".to_string(),
                    "missing authentication cookie".to_string(),
                )],
            },
            is_valid: false,
        },
    ];

    for (index, test) in cases.into_iter().enumerate() {
        let actual = test.input_response.validate().is_ok();
        assert_eq!(actual, test.is_valid, "TestCase {} failed", index);
    }
}

const ACCOUNT_JSON: &str = "{\"accountNumber\":\"123\",\"primaryAccount\":true,\"type\":\"margin\",\"nickName\":\"main\",\"displayAcctId\":\"d-123\",\"autoPositionEffect\":false,\"accountColor\":\"Green\",\"lotSelectionMethod\":\"FIFO\",\"hasFuturesAccount\":false,\"hasForexAccount\":true}";

#[test]
fn users_payload_yields_its_accounts() {
    let body = format!("{{\"accounts\":[{ACCOUNT_JSON}]}}");
    let accounts = parse_users_payload(&body).unwrap();
    assert_eq!(accounts.len(), 1);
    let a = &accounts[0];
    assert_eq!(a.account_number, "123");
    assert!(a.primary_account);
    assert_eq!(a.account_type, "margin");
    assert_eq!(a.nick_name, "main");
    assert_eq!(a.display_id, "d-123");
    assert!(!a.auto_position_effect);
    assert_eq!(a.account_color, "Green");
    assert_eq!(a.lot_selection_method, "FIFO");
    assert!(!a.has_futures_account);
    assert!(a.has_forex_account);
}

#[test]
fn users_payload_failures_name_their_layer() {
    assert!(matches!(
        parse_users_payload("not json").unwrap_err(),
        ApplicationError::InvalidJson(_)
    ));
    match parse_users_payload("{\"other\":1}").unwrap_err() {
        ApplicationError::InvalidJsonLookup { index, .. } => assert_eq!(index, "accounts"),
        _ => panic!("a missing accounts member must be a lookup failure"),
    }
    match parse_users_payload("{\"accounts\":7}").unwrap_err() {
        ApplicationError::InvalidJsonLookup { index, .. } => {
            assert_eq!(index, "enforce<array>(accounts)")
        },
        _ => panic!("a non-array accounts member must be a lookup failure"),
    }
    assert!(matches!(
        parse_users_payload("{\"accounts\":[{\"accountNumber\":5}]}").unwrap_err(),
        ApplicationError::SchwabAccountDeserialization(_)
    ));
}

#[test]
fn subscribe_request_carries_every_market() {
    let markets = vec!["BTC-USDT".to_string(), "ETH-USDT".to_string()];
    assert_eq!(
        subscribe_request(&markets),
        "{\"type\":\"subscribe\",\"symbols\":[\"BTC-USDT\",\"ETH-USDT\"]}"
    );
}

#[test]
fn market_ids_join_and_upper_case() {
    assert_eq!(schwab_market("btc", "usdt").name(), "BTC-USDT");
    assert_eq!(schwab_market("Aapl", "usd").name(), "AAPL-USD");
    assert_eq!(SchwabChannel::trades().name(), "quotes/stream");
}
