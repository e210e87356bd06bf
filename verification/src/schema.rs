use vstd::prelude::*;
use vstd::string::StringExecFns;

use crate::errors::ApplicationError;
use crate::json::{
    jv_view, jv_views, lemma_jv_views_len, obj_get, sp_json, JsonSpec, JsonValue,
};
use crate::text::str_to_chars;

verus! {

/// The upstream asset classes.
#[derive(Clone, Copy, Debug, PartialEq, Eq, Structural)]
pub enum AssetMainType {
    Bond,
    Equity,
    Forex,
    Future,
    FutureOption,
    Index,
    MutualFund,
    Option,
}

/// The equity sub-classes.
#[derive(Clone, Copy, Debug, PartialEq, Eq, Structural)]
pub enum EquityAssetSubType {
    Coe,
    Prf,
    Adr,
    Gdr,
    Cef,
    Etf,
    Etn,
    Uit,
    War,
    Rgt,
}

/// The mutual-fund sub-classes.
#[derive(Clone, Copy, Debug, PartialEq, Eq, Structural)]
pub enum MutualFundAssetSubType {
    Oef,
    Cef,
    Mmf,
}

/// How a quote was formed.
#[derive(Clone, Copy, Debug, PartialEq, Eq, Structural)]
pub enum QuoteType {
    Nbbo,
    Nfl,
}

/// How often a dividend is paid.
#[derive(Clone, Copy, Debug, PartialEq, Eq, Structural)]
pub enum DivFreq {
    Annually,
    SemiAnnually,
    Triannually,
    Quarterly,
    Bimonthly,
    ElevenTimes,
    Monthly,
    NoDividend,
}

/// A fund's strategy class.
#[derive(Clone, Copy, Debug, PartialEq, Eq, Structural)]
pub enum FundStrategy {
    A,
    L,
    P,
    Q,
    S,
}

/// Put or call.
#[derive(Clone, Copy, Debug, PartialEq, Eq, Structural)]
pub enum ContractType {
    P,
    C,
}

/// American or European exercise.
#[derive(Clone, Copy, Debug, PartialEq, Eq, Structural)]
pub enum ExerciseType {
    A,
    E,
}

/// When a contract expires.
#[derive(Clone, Copy, Debug, PartialEq, Eq, Structural)]
pub enum ExpirationType {
    M,
    Q,
    W,
    S,
}

/// Morning or afternoon settlement.
#[derive(Clone, Copy, Debug, PartialEq, Eq, Structural)]
pub enum SettlementType {
    A,
    P,
}

/// The reference block of a forex quote.
#[derive(Debug)]
pub struct ReferenceForex {
    pub description: Option<String>,
    pub exchange: Option<String>,
    pub exchange_name: Option<String>,
    pub is_tradable: Option<bool>,
    pub market_maker: Option<String>,
    pub product: Option<String>,
    pub trading_hours: Option<String>,
}

/// The reference block of an index quote.
#[derive(Debug)]
pub struct ReferenceIndex {
    pub description: Option<String>,
    pub exchange: Option<String>,
    pub exchange_name: Option<String>,
}

/// The reference block of a mutual-fund quote.
#[derive(Debug)]
pub struct ReferenceMutualFund {
    pub cusip: Option<String>,
    pub description: Option<String>,
    pub exchange: Option<String>,
    pub exchange_name: Option<String>,
}

/// What a quote request rejected.
#[derive(Debug)]
pub struct QuoteError {
    pub invalid_cusips: Vec<String>,
    pub invalid_ssids: Vec<i64>,
    pub invalid_symbols: Vec<String>,
}

/// Where inside a rejected request an error points.
#[derive(Debug)]
pub struct ErrorSource {
    pub pointer: Option<Vec<String>>,
}

/// One structured error of an upstream HTTP error response.
#[derive(Debug)]
pub struct ApiError {
    pub id: Option<String>,
    pub status: Option<String>,
    pub title: Option<String>,
    pub detail: Option<String>,
    pub source: Option<ErrorSource>,
}

/// The errors of an upstream HTTP error response.
#[derive(Debug)]
pub struct ApiErrorResponse(pub Vec<ApiError>);

/// One brokerage account of the authenticated user.
#[derive(Debug)]
pub struct SchwabAccount {
    pub account_number: String,
    pub primary_account: bool,
    pub account_type: String,
    pub nick_name: String,
    pub display_id: String,
    pub auto_position_effect: bool,
    pub account_color: String,
    pub lot_selection_method: String,
    pub has_futures_account: bool,
    pub has_forex_account: bool,
}

/// The authenticated user's accounts.
#[derive(Debug)]
pub struct SchwabUsers(pub Vec<SchwabAccount>);

fn get_str_field(doc: &JsonValue, key: &str) -> (r: Option<String>)
    ensures
        (match r {
            Some(s) => obj_get(jv_view(*doc), key@) == Some(JsonSpec::Str(s@)),
            None => !(obj_get(jv_view(*doc), key@) matches Some(JsonSpec::Str(_))),
        }),
{
    match doc.get(&str_to_chars(key)) {
        Some(v) => v.str_value(),
        None => None,
    }
}

fn get_bool_field(doc: &JsonValue, key: &str) -> (r: Option<bool>)
    ensures
        (match r {
            Some(b) => obj_get(jv_view(*doc), key@) == Some(JsonSpec::Bool(b)),
            None => !(obj_get(jv_view(*doc), key@) matches Some(JsonSpec::Bool(_))),
        }),
{
    match doc.get(&str_to_chars(key)) {
        Some(v) => v.bool_value(),
        None => None,
    }
}

/// Whether a document carries every account field with its right type.
pub open spec fn is_account_json(v: JsonSpec) -> bool {
    &&& obj_get(v, "accountNumber"@) matches Some(JsonSpec::Str(_))
    &&& obj_get(v, "primaryAccount"@) matches Some(JsonSpec::Bool(_))
    &&& obj_get(v, "type"@) matches Some(JsonSpec::Str(_))
    &&& obj_get(v, "nickName"@) matches Some(JsonSpec::Str(_))
    &&& obj_get(v, "displayAcctId"@) matches Some(JsonSpec::Str(_))
    &&& obj_get(v, "autoPositionEffect"@) matches Some(JsonSpec::Bool(_))
    &&& obj_get(v, "accountColor"@) matches Some(JsonSpec::Str(_))
    &&& obj_get(v, "lotSelectionMethod"@) matches Some(JsonSpec::Str(_))
    &&& obj_get(v, "hasFuturesAccount"@) matches Some(JsonSpec::Bool(_))
    &&& obj_get(v, "hasForexAccount"@) matches Some(JsonSpec::Bool(_))
}

/// Whether `a` holds exactly the account fields of the document.
pub open spec fn account_matches(v: JsonSpec, a: SchwabAccount) -> bool {
    &&& obj_get(v, "accountNumber"@) == Some(JsonSpec::Str(a.account_number@))
    &&& obj_get(v, "primaryAccount"@) == Some(JsonSpec::Bool(a.primary_account))
    &&& obj_get(v, "type"@) == Some(JsonSpec::Str(a.account_type@))
    &&& obj_get(v, "nickName"@) == Some(JsonSpec::Str(a.nick_name@))
    &&& obj_get(v, "displayAcctId"@) == Some(JsonSpec::Str(a.display_id@))
    &&& obj_get(v, "autoPositionEffect"@) == Some(JsonSpec::Bool(a.auto_position_effect))
    &&& obj_get(v, "accountColor"@) == Some(JsonSpec::Str(a.account_color@))
    &&& obj_get(v, "lotSelectionMethod"@) == Some(JsonSpec::Str(a.lot_selection_method@))
    &&& obj_get(v, "hasFuturesAccount"@) == Some(JsonSpec::Bool(a.has_futures_account))
    &&& obj_get(v, "hasForexAccount"@) == Some(JsonSpec::Bool(a.has_forex_account))
}

impl SchwabAccount {
    /// Reads one account out of a JSON document: every field must be
    /// present under its wire name with its right type.
    pub fn of_json(v: &JsonValue) -> (r: Option<SchwabAccount>)
        ensures
            (match r {
                Some(a) => is_account_json(jv_view(*v)) && account_matches(jv_view(*v), a),
                None => !is_account_json(jv_view(*v)),
            }),
    {
        let account_number = match get_str_field(v, "accountNumber") {
            Some(s) => s,
            None => {
                return None;
            },
        };
        let primary_account = match get_bool_field(v, "primaryAccount") {
            Some(b) => b,
            None => {
                return None;
            },
        };
        let account_type = match get_str_field(v, "type") {
            Some(s) => s,
            None => {
                return None;
            },
        };
        let nick_name = match get_str_field(v, "nickName") {
            Some(s) => s,
            None => {
                return None;
            },
        };
        let display_id = match get_str_field(v, "displayAcctId") {
            Some(s) => s,
            None => {
                return None;
            },
        };
        let auto_position_effect = match get_bool_field(v, "autoPositionEffect") {
            Some(b) => b,
            None => {
                return None;
            },
        };
        let account_color = match get_str_field(v, "accountColor") {
            Some(s) => s,
            None => {
                return None;
            },
        };
        let lot_selection_method = match get_str_field(v, "lotSelectionMethod") {
            Some(s) => s,
            None => {
                return None;
            },
        };
        let has_futures_account = match get_bool_field(v, "hasFuturesAccount") {
            Some(b) => b,
            None => {
                return None;
            },
        };
        let has_forex_account = match get_bool_field(v, "hasForexAccount") {
            Some(b) => b,
            None => {
                return None;
            },
        };
        Some(
            SchwabAccount {
                account_number,
                primary_account,
                account_type,
                nick_name,
                display_id,
                auto_position_effect,
                account_color,
                lot_selection_method,
                has_futures_account,
                has_forex_account,
            },
        )
    }
}

/// Reads the authenticated user's accounts out of an upstream response
/// body: the `accounts` member must be an array of account records. A body
/// outside the JSON subset is `InvalidJson`; a missing `accounts` member
/// or one that is no array is the lookup failure the response text is
/// attached to; a malformed element is an account-deserialization failure.
#[verifier::loop_isolation(false)]
#[verifier::rlimit(80)]
pub fn parse_users_payload(text: &str) -> (r: Result<Vec<SchwabAccount>, ApplicationError>)
    ensures
        (match r {
            Ok(accts) => {
                &&& sp_json(text@) matches Some(doc)
                &&& obj_get(doc, "accounts"@) matches Some(JsonSpec::Arr(a))
                &&& accts@.len() == a.len()
                &&& forall|i: int|
                    0 <= i < a.len() ==> is_account_json(#[trigger] a[i]) && account_matches(
                        a[i],
                        accts@[i],
                    )
            },
            Err(e) => match e {
                ApplicationError::InvalidJson(_) => sp_json(text@) is None,
                ApplicationError::InvalidJsonLookup { index, object } => {
                    &&& sp_json(text@) matches Some(doc)
                    &&& object@ == text@
                    &&& (index@ == "accounts"@ && obj_get(doc, "accounts"@) is None || index@
                        == "enforce<array>(accounts)"@ && (obj_get(doc, "accounts"@) matches Some(
                        w,
                    ) && !(w is Arr)))
                },
                ApplicationError::SchwabAccountDeserialization(_) => {
                    &&& sp_json(text@) matches Some(doc)
                    &&& obj_get(doc, "accounts"@) matches Some(JsonSpec::Arr(a))
                    &&& exists|i: int| 0 <= i < a.len() && !is_account_json(#[trigger] a[i])
                },
                _ => false,
            },
        }),
{
    let doc = match crate::json::parse_json(text) {
        Some(d) => d,
        None => {
            let mut m = String::new();
            m.append("not a JSON document in the supported subset");
            return Err(ApplicationError::InvalidJson(m));
        },
    };
    let accounts = match doc.get(&str_to_chars("accounts")) {
        Some(a) => a,
        None => {
            let mut index = String::new();
            index.append("accounts");
            let mut object = String::new();
            object.append(text);
            return Err(ApplicationError::InvalidJsonLookup { index, object });
        },
    };
    let items = match accounts {
        JsonValue::Arr(items) => items,
        _ => {
            proof {
                assert(!(jv_view(*accounts) is Arr));
            }
            let mut index = String::new();
            index.append("enforce<array>(accounts)");
            let mut object = String::new();
            object.append(text);
            return Err(ApplicationError::InvalidJsonLookup { index, object });
        },
    };
    let ghost avs = jv_views(items@);
    proof {
        lemma_jv_views_len(items@);
        assert(jv_view(*accounts) == JsonSpec::Arr(avs));
        assert(obj_get(jv_view(doc), "accounts"@) == Some(JsonSpec::Arr(avs)));
        assert(sp_json(text@) == Some(jv_view(doc)));
    }
    let mut result: Vec<SchwabAccount> = Vec::new();
    let mut k: usize = 0;
    while k < items.len()
        invariant
            k <= items@.len(),
            avs == jv_views(items@),
            avs.len() == items@.len(),
            forall|j: int| 0 <= j < items@.len() ==> avs[j] == jv_view(items@[j]),
            result@.len() == k,
            forall|j: int|
                0 <= j < k ==> is_account_json(#[trigger] avs[j]) && account_matches(
                    avs[j],
                    result@[j],
                ),
        decreases items@.len() - k,
    {
        match SchwabAccount::of_json(&items[k]) {
            Some(a) => {
                result.push(a);
            },
            None => {
                proof {
                    assert(!is_account_json(avs[k as int]));
                    assert(sp_json(text@) == Some(jv_view(doc)));
                    assert(obj_get(jv_view(doc), "accounts"@) == Some(JsonSpec::Arr(avs)));
                    assert(!is_account_json(
                        obj_get(sp_json(text@)->0, "accounts"@)->0->Arr_0[k as int],
                    ));
                }
                let mut m = String::new();
                m.append("missing or mistyped account field");
                return Err(ApplicationError::SchwabAccountDeserialization(m));
            },
        }
        k += 1;
    }
    Ok(result)
}

} // verus!

verus! {

/// Whether an optional member, when present, is a string.
pub open spec fn opt_str_ok(v: JsonSpec, k: Seq<char>) -> bool {
    match obj_get(v, k) {
        None => true,
        Some(JsonSpec::Str(_)) => true,
        Some(_) => false,
    }
}

/// Whether `r` holds exactly the optional string member under `k`.
pub open spec fn opt_str_matches(v: JsonSpec, k: Seq<char>, r: Option<String>) -> bool {
    match obj_get(v, k) {
        None => r is None,
        Some(JsonSpec::Str(s)) => r matches Some(t) && t@ == s,
        Some(_) => false,
    }
}

/// Whether a document is an error source: an object whose `pointer`
/// member, when present, is an array of strings.
pub open spec fn is_error_source_json(v: JsonSpec) -> bool {
    &&& v is Obj
    &&& match obj_get(v, "pointer"@) {
        None => true,
        Some(JsonSpec::Arr(a)) => crate::frames::str_items(a) is Some,
        Some(_) => false,
    }
}

/// Whether `e` holds exactly the error-source fields of the document.
pub open spec fn error_source_matches(v: JsonSpec, e: ErrorSource) -> bool {
    match obj_get(v, "pointer"@) {
        None => e.pointer is None,
        Some(JsonSpec::Arr(a)) => e.pointer matches Some(p) && crate::frames::str_items(a)
            == Some(p.deep_view()),
        Some(_) => false,
    }
}

/// Whether a document is one upstream error record: an object whose four
/// text members, when present, are strings, and whose `source`, when
/// present, is an error source.
pub open spec fn is_api_error_json(v: JsonSpec) -> bool {
    &&& v is Obj
    &&& opt_str_ok(v, "id"@)
    &&& opt_str_ok(v, "status"@)
    &&& opt_str_ok(v, "title"@)
    &&& opt_str_ok(v, "detail"@)
    &&& match obj_get(v, "source"@) {
        None => true,
        Some(src) => is_error_source_json(src),
    }
}

/// Whether `e` holds exactly the error fields of the document.
pub open spec fn api_error_matches(v: JsonSpec, e: ApiError) -> bool {
    &&& opt_str_matches(v, "id"@, e.id)
    &&& opt_str_matches(v, "status"@, e.status)
    &&& opt_str_matches(v, "title"@, e.title)
    &&& opt_str_matches(v, "detail"@, e.detail)
    &&& match obj_get(v, "source"@) {
        None => e.source is None,
        Some(src) => e.source matches Some(es) && error_source_matches(src, es),
    }
}

fn get_opt_str(doc: &JsonValue, key: &str) -> (r: Result<Option<String>, ()>)
    ensures
        (match r {
            Ok(o) => opt_str_matches(jv_view(*doc), key@, o) && opt_str_ok(jv_view(*doc), key@),
            Err(_) => !opt_str_ok(jv_view(*doc), key@),
        }),
{
    match doc.get(&str_to_chars(key)) {
        None => Ok(None),
        Some(v) => match v.str_value() {
            Some(s) => Ok(Some(s)),
            None => {
                proof {
                    assert(!(jv_view(*v) is Str));
                }
                Err(())
            },
        },
    }
}

impl ErrorSource {
    /// Reads an error source out of a JSON document.
    pub fn of_json(v: &JsonValue) -> (r: Option<ErrorSource>)
        ensures
            (match r {
                Some(e) => is_error_source_json(jv_view(*v)) && error_source_matches(
                    jv_view(*v),
                    e,
                ),
                None => !is_error_source_json(jv_view(*v)),
            }),
    {
        match v {
            JsonValue::Obj(_) => {},
            _ => {
                proof {
                    assert(!(jv_view(*v) is Obj));
                }
                return None;
            },
        }
        match v.get(&str_to_chars("pointer")) {
            None => Some(ErrorSource { pointer: None }),
            Some(p) => match p {
                JsonValue::Arr(items) => match crate::frames::collect_strings(items) {
                    Some(ss) => Some(ErrorSource { pointer: Some(ss) }),
                    None => None,
                },
                _ => {
                    proof {
                        assert(!(jv_view(*p) is Arr));
                    }
                    None
                },
            },
        }
    }
}

impl ApiError {
    /// Reads one upstream error record out of a JSON document.
    pub fn of_json(v: &JsonValue) -> (r: Option<ApiError>)
        ensures
            (match r {
                Some(e) => is_api_error_json(jv_view(*v)) && api_error_matches(jv_view(*v), e),
                None => !is_api_error_json(jv_view(*v)),
            }),
    {
        match v {
            JsonValue::Obj(_) => {},
            _ => {
                proof {
                    assert(!(jv_view(*v) is Obj));
                }
                return None;
            },
        }
        let id = match get_opt_str(v, "id") {
            Ok(o) => o,
            Err(_) => {
                return None;
            },
        };
        let status = match get_opt_str(v, "status") {
            Ok(o) => o,
            Err(_) => {
                return None;
            },
        };
        let title = match get_opt_str(v, "title") {
            Ok(o) => o,
            Err(_) => {
                return None;
            },
        };
        let detail = match get_opt_str(v, "detail") {
            Ok(o) => o,
            Err(_) => {
                return None;
            },
        };
        let source = match v.get(&str_to_chars("source")) {
            None => None,
            Some(src) => match ErrorSource::of_json(src) {
                Some(es) => Some(es),
                None => {
                    return None;
                },
            },
        };
        Some(ApiError { id, status, title, detail, source })
    }

    /// Parses one upstream error record from text.
    pub fn parse(text: &str) -> (r: Option<ApiError>)
        ensures
            (match r {
                Some(e) => sp_json(text@) matches Some(doc) && is_api_error_json(doc)
                    && api_error_matches(doc, e),
                None => match sp_json(text@) {
                    Some(doc) => !is_api_error_json(doc),
                    None => true,
                },
            }),
    {
        match crate::json::parse_json(text) {
            Some(doc) => ApiError::of_json(&doc),
            None => None,
        }
    }
}

} // verus!
