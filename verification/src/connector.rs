use vstd::prelude::*;
use vstd::string::StringExecFns;

use crate::json::{
    jm_views, jtext, jv_view, lemma_jm_views_len, obj_get, sp_json, JsonSpec, JsonValue,
};
use crate::text::{chars_to_string, str_eq, str_to_chars};

verus! {

/// The upstream exchange this connector speaks to.
pub struct Schwab;

/// The websocket endpoint the connector dials.
pub const BASE_URL_SCHWAB: &'static str = "wss://127.0.0.1:8000/u/quotes/stream";

/// The one channel the connector subscribes to.
pub struct SchwabChannel(pub &'static str);

impl SchwabChannel {
    /// The trades channel.
    pub fn trades() -> (r: Self)
        ensures
            r.0@ == "quotes/stream"@,
    {
        SchwabChannel("quotes/stream")
    }

    pub fn name<'a>(&'a self) -> (r: &'a str)
        ensures
            r@ == self.0@,
    {
        self.0
    }
}

/// A market identifier in the upstream's spelling.
pub struct SchwabMarket(pub String);

impl SchwabMarket {
    pub fn name<'a>(&'a self) -> (r: &'a str)
        ensures
            r@ == self.0@,
    {
        self.0.as_str()
    }
}

/// The ASCII upper-case form of `c`.
pub open spec fn ascii_upper_char(c: char) -> char {
    if 97 <= c as int <= 122 {
        ((c as u8) - 32) as char
    } else {
        c
    }
}

/// The ASCII upper-case form of `s`.
pub open spec fn ascii_upper(s: Seq<char>) -> Seq<char> {
    Seq::new(s.len(), |i: int| ascii_upper_char(s[i]))
}

fn upper_char_exec(c: char) -> (r: char)
    ensures
        r == ascii_upper_char(c),
{
    let u = c as u32;
    if 97 <= u && u <= 122 {
        ((u - 32) as u8) as char
    } else {
        c
    }
}

/// The market identifier for a base/quote pair: `BASE-QUOTE`, upper-cased
/// letter by letter (ASCII).
pub fn schwab_market(base: &str, quote: &str) -> (r: SchwabMarket)
    ensures
        r.0@ == ascii_upper(base@ + seq!['-'] + quote@),
{
    let bs = str_to_chars(base);
    let qs = str_to_chars(quote);
    let ghost joined = base@ + seq!['-'] + quote@;
    let mut out: Vec<char> = Vec::new();
    let mut i: usize = 0;
    while i < bs.len()
        invariant
            i <= bs@.len(),
            bs@ == base@,
            qs@ == quote@,
            out@ =~= ascii_upper(joined).take(i as int),
            joined == base@ + seq!['-'] + quote@,
        decreases bs@.len() - i,
    {
        out.push(upper_char_exec(bs[i]));
        proof {
            assert(joined[i as int] == bs@[i as int]);
            assert(out@ =~= ascii_upper(joined).take(i as int + 1));
        }
        i += 1;
    }
    out.push(upper_char_exec('-'));
    proof {
        assert(joined[bs@.len() as int] == '-');
        assert(out@ =~= ascii_upper(joined).take(bs@.len() as int + 1));
    }
    let mut j: usize = 0;
    while j < qs.len()
        invariant
            j <= qs@.len(),
            bs@ == base@,
            qs@ == quote@,
            out@ =~= ascii_upper(joined).take(bs@.len() + 1 + j as int),
            joined == base@ + seq!['-'] + quote@,
        decreases qs@.len() - j,
    {
        out.push(upper_char_exec(qs[j]));
        proof {
            assert(joined[bs@.len() + 1 + j as int] == qs@[j as int]);
            assert(out@ =~= ascii_upper(joined).take(bs@.len() + 1 + j as int + 1));
        }
        j += 1;
    }
    proof {
        assert(ascii_upper(joined).take(joined.len() as int) =~= ascii_upper(joined));
    }
    SchwabMarket(chars_to_string(&out))
}

/// The subscription request the connector sends for a set of markets.
pub open spec fn subscribe_request_json(markets: Seq<Seq<char>>) -> JsonSpec {
    JsonSpec::Obj(
        seq![
            ("type"@, JsonSpec::Str("subscribe"@)),
            ("symbols"@, JsonSpec::Arr(crate::frames::strs_json(markets))),
        ],
    )
}

/// Renders the one request frame the connector sends: a wholesale
/// `subscribe` for every wanted market.
pub fn subscribe_request(markets: &Vec<String>) -> (r: String)
    ensures
        r@ == jtext(subscribe_request_json(markets.deep_view())),
{
    let mut members: Vec<(Vec<char>, JsonValue)> = Vec::new();
    members.push((str_to_chars("type"), JsonValue::of_str("subscribe")));
    members.push((
        str_to_chars("symbols"),
        JsonValue::Arr(crate::frames::strings_to_nodes(markets)),
    ));
    let doc = JsonValue::Obj(members);
    proof {
        let ms = doc->Obj_0@;
        lemma_jm_views_len(ms);
        let mv = jm_views(ms);
        assert(mv.len() == 2);
        assert(mv[0] == (ms[0].0@, jv_view(ms[0].1)));
        assert(mv[1] == (ms[1].0@, jv_view(ms[1].1)));
        assert(mv =~= subscribe_request_json(markets.deep_view())->Obj_0);
        assert(jv_view(doc) == subscribe_request_json(markets.deep_view()));
    }
    crate::json::json_to_string(&doc)
}

/// What the server answers a subscription request with.
pub enum SchwabSubResponse {
    /// An event frame; a successful subscription carries `subscribed`.
    Event { event: String },
    /// A structured error frame: failure kinds mapping to messages.
    Error { errors: Vec<(String, String)> },
}

/// Why a subscription response was not a success.
pub enum SocketError {
    Subscribe(String),
}

/// The key/value strings of object members, when every value is a string.
pub open spec fn str_members(m: Seq<(Seq<char>, JsonSpec)>) -> Option<
    Seq<(Seq<char>, Seq<char>)>,
>
    decreases m.len(),
{
    if m.len() == 0 {
        Some(Seq::empty())
    } else {
        match m.first().1 {
            JsonSpec::Str(s) => match str_members(m.drop_first()) {
                Some(t) => Some(seq![(m.first().0, s)] + t),
                None => None,
            },
            _ => None,
        }
    }
}

/// The mathematical shape of a subscription response.
pub enum SubResponseSpec {
    Event(Seq<char>),
    Error(Seq<(Seq<char>, Seq<char>)>),
}

/// The shape of `r`.
pub open spec fn sub_response_view(r: SchwabSubResponse) -> SubResponseSpec {
    match r {
        SchwabSubResponse::Event { event } => SubResponseSpec::Event(event@),
        SchwabSubResponse::Error { errors } => SubResponseSpec::Error(errors.deep_view()),
    }
}

/// The subscription response a JSON document carries, if any: an `event`
/// string, or an `error` object of message strings.
pub open spec fn sub_response_of_json(v: JsonSpec) -> Option<SubResponseSpec> {
    match obj_get(v, "event"@) {
        Some(JsonSpec::Str(e)) => Some(SubResponseSpec::Event(e)),
        _ => match obj_get(v, "error"@) {
            Some(JsonSpec::Obj(m)) => match str_members(m) {
                Some(es) => Some(SubResponseSpec::Error(es)),
                None => None,
            },
            _ => None,
        },
    }
}

fn collect_str_members(m: &Vec<(Vec<char>, JsonValue)>) -> (r: Option<Vec<(String, String)>>)
    ensures
        (match r {
            Some(es) => str_members(jm_views(m@)) == Some(es.deep_view()),
            None => str_members(jm_views(m@)) is None,
        }),
{
    let ghost mv = jm_views(m@);
    let mut out: Vec<(String, String)> = Vec::new();
    let mut i: usize = 0;
    proof {
        lemma_jm_views_len(m@);
        assert(mv.skip(0) =~= mv);
        assert(out.deep_view() =~= Seq::<(Seq<char>, Seq<char>)>::empty());
        if str_members(mv) is Some {
            assert(Seq::<(Seq<char>, Seq<char>)>::empty() + str_members(mv)->0 =~= str_members(
                mv,
            )->0);
        }
    }
    while i < m.len()
        invariant
            i <= m@.len(),
            mv == jm_views(m@),
            mv.len() == m@.len(),
            forall|j: int| 0 <= j < m@.len() ==> mv[j] == (m@[j].0@, jv_view(m@[j].1)),
            out@.len() == i,
            (match str_members(mv) {
                Some(es) => str_members(mv.skip(i as int)) matches Some(t) && es
                    == out.deep_view() + t,
                None => true,
            }),
            str_members(mv.skip(i as int)) is None <==> str_members(mv) is None,
        decreases m@.len() - i,
    {
        proof {
            assert(mv.skip(i as int).first() == mv[i as int]);
            assert(mv.skip(i as int).drop_first() =~= mv.skip(i as int + 1));
        }
        match m[i].1.str_value() {
            Some(s) => {
                let ghost sv = s@;
                let ghost prev = out.deep_view();
                let key = chars_to_string(&m[i].0);
                out.push((key, s));
                proof {
                    assert(out.deep_view() =~= prev.push((mv[i as int].0, sv)));
                    if str_members(mv) is Some {
                        let t1 = str_members(mv.skip(i as int))->0;
                        let t2 = str_members(mv.skip(i as int + 1))->0;
                        assert(t1 == seq![(mv[i as int].0, sv)] + t2);
                        assert(prev + t1 =~= prev.push((mv[i as int].0, sv)) + t2);
                    }
                }
            },
            None => {
                proof {
                    assert(str_members(mv.skip(i as int)) is None);
                }
                return None;
            },
        }
        i += 1;
    }
    proof {
        assert(mv.skip(m@.len() as int) =~= Seq::<(Seq<char>, JsonSpec)>::empty());
        if str_members(mv) is Some {
            assert(str_members(mv)->0 =~= out.deep_view());
        } else {
            assert(false);
        }
    }
    Some(out)
}

/// Parses a subscription response: an `event` frame, else an `error`
/// frame; anything else is a subscription failure.
pub fn parse_sub_response(text: &str) -> (r: Result<SchwabSubResponse, SocketError>)
    ensures
        (match r {
            Ok(resp) => sp_json(text@) matches Some(doc) && sub_response_of_json(doc) == Some(
                sub_response_view(resp),
            ),
            Err(_) => match sp_json(text@) {
                Some(doc) => sub_response_of_json(doc) is None,
                None => true,
            },
        }),
{
    let doc = match crate::json::parse_json(text) {
        Some(d) => d,
        None => {
            let mut msg = String::new();
            msg.append("subscription response was not a JSON document in the supported subset");
            return Err(SocketError::Subscribe(msg));
        },
    };
    match doc.get(&str_to_chars("event")) {
        Some(v) => match v.str_value() {
            Some(event) => {
                return Ok(SchwabSubResponse::Event { event });
            },
            None => {
                proof {
                    assert(!(jv_view(*v) is Str));
                }
            },
        },
        None => {},
    }
    match doc.get(&str_to_chars("error")) {
        Some(v) => match v {
            JsonValue::Obj(m) => match collect_str_members(m) {
                Some(errors) => Ok(SchwabSubResponse::Error { errors }),
                None => {
                    let mut msg = String::new();
                    msg.append("error frame held a value that is not a message string");
                    Err(SocketError::Subscribe(msg))
                },
            },
            _ => {
                proof {
                    assert(!(jv_view(*v) is Obj));
                }
                let mut msg = String::new();
                msg.append("error member was not an object");
                Err(SocketError::Subscribe(msg))
            },
        },
        None => {
            let mut msg = String::new();
            msg.append("did not receive a subscribe event or an error frame");
            Err(SocketError::Subscribe(msg))
        },
    }
}

impl SchwabSubResponse {
    /// Validates the response: only the `subscribed` event passes; any
    /// other event, and every error frame, is a subscription failure.
    pub fn validate(self) -> (r: Result<SchwabSubResponse, SocketError>)
        ensures
            (match r {
                Ok(v) => v == self && (self matches SchwabSubResponse::Event { event } && event@
                    == "subscribed"@),
                Err(_) => !(self matches SchwabSubResponse::Event { event } && event@
                    == "subscribed"@),
            }),
    {
        match self {
            SchwabSubResponse::Event { event } => {
                if str_eq(event.as_str(), "subscribed") {
                    Ok(SchwabSubResponse::Event { event })
                } else {
                    let mut msg = String::new();
                    msg.append("did not receive subscribe event: got ");
                    msg.append(event.as_str());
                    Err(SocketError::Subscribe(msg))
                }
            },
            SchwabSubResponse::Error { errors: _ } => {
                let mut msg = String::new();
                msg.append("received failure subscription response");
                Err(SocketError::Subscribe(msg))
            },
        }
    }
}

} // verus!

verus! {

/// The request frame the connector sends is exactly a `subscribe` control
/// message of the watch protocol: the server parses it back as the same
/// market list.
pub proof fn lemma_subscribe_request_round_trip(markets: Seq<Seq<char>>)
    ensures
        crate::frames::spec_parse_client_msg(jtext(subscribe_request_json(markets)))
            == Some(crate::frames::ClientMsgSpec::Subscribe(markets)),
{
    reveal_with_fuel(crate::json::members_get, 4);
    reveal_strlit("type");
    reveal_strlit("symbols");
    reveal_strlit("subscribe");
    reveal_strlit("add");
    reveal_strlit("remove");
    let doc = subscribe_request_json(markets);
    let members = doc->Obj_0;
    assert(crate::json::jspec_ok(doc)) by {
        crate::frames::lemma_strs_json_ok(markets);
        assert(members.first() == members[0]);
        assert(members.drop_first().first() == members[1]);
        assert(members.drop_first().drop_first() =~= Seq::<(Seq<char>, JsonSpec)>::empty());
        assert(crate::json::jspec_ok(members[0].1));
        assert(members[1].1 == JsonSpec::Arr(crate::frames::strs_json(markets)));
        assert(crate::json::jspec_ok(members[1].1));
        assert(crate::json::jspec_members_ok(members.drop_first().drop_first()));
        assert(crate::json::jspec_members_ok(members.drop_first()));
        assert(crate::json::jspec_members_ok(members));
    }
    crate::json::lemma_parse_of_jtext(doc);
    assert(members.len() == 2);
    assert(members.first() == members[0]);
    assert(members.drop_first().first() == members[1]);
    assert(members[0].0 == "type"@);
    assert(members[1].0 == "symbols"@);
    assert("type"@.len() == 4 && "symbols"@.len() == 7);
    assert("subscribe"@.len() == 9 && "add"@.len() == 3 && "remove"@.len() == 6);
    assert(crate::json::members_get(members, "type"@) == Some(members[0].1));
    assert(crate::json::members_get(members, "symbols"@) == Some(members[1].1));
    crate::frames::lemma_str_items_of_strs(markets);
}

} // verus!

verus! {

/// A structured error frame of the watch protocol parses on this side as
/// exactly its failure map: one kind name carrying one message.
pub proof fn lemma_error_frame_round_trip(kind: Seq<char>, msg: Seq<char>)
    ensures
        crate::json::sp_json(jtext(crate::frames::err_json(kind, msg))) == Some(
            crate::frames::err_json(kind, msg),
        ),
        sub_response_of_json(crate::frames::err_json(kind, msg)) == Some(
            SubResponseSpec::Error(seq![(kind, msg)]),
        ),
{
    reveal_with_fuel(crate::json::members_get, 3);
    reveal_with_fuel(str_members, 3);
    reveal_strlit("event");
    reveal_strlit("error");
    let doc = crate::frames::err_json(kind, msg);
    let members = doc->Obj_0;
    let inner = members[0].1->Obj_0;
    assert(members.len() == 1);
    assert(members.first() == members[0]);
    assert(members[0].0 == "error"@);
    assert("error"@ != "event"@) by {
        assert("error"@[1] == 'r' && "event"@[1] == 'v');
    }
    assert(crate::json::jspec_ok(doc)) by {
        assert(inner.first() == inner[0]);
        assert(inner.drop_first() =~= Seq::<(Seq<char>, JsonSpec)>::empty());
        assert(crate::json::jspec_members_ok(inner.drop_first()));
        assert(crate::json::jspec_ok(inner[0].1));
        assert(crate::json::jspec_members_ok(inner));
        assert(crate::json::jspec_ok(members[0].1));
        assert(members.drop_first() =~= Seq::<(Seq<char>, JsonSpec)>::empty());
        assert(crate::json::jspec_members_ok(members.drop_first()));
        assert(crate::json::jspec_members_ok(members));
    }
    crate::json::lemma_parse_of_jtext(doc);
    assert(crate::json::members_get(members, "event"@) is None) by {
        assert(members.drop_first() =~= Seq::<(Seq<char>, JsonSpec)>::empty());
    }
    assert(crate::json::members_get(members, "error"@) == Some(members[0].1));
    assert(inner.first() == inner[0]);
    assert(inner[0] == (kind, JsonSpec::Str(msg)));
    assert(inner.drop_first() =~= Seq::<(Seq<char>, JsonSpec)>::empty());
    assert(str_members(inner) == Some(seq![(kind, msg)] + Seq::<(Seq<char>, Seq<char>)>::empty()));
    assert(seq![(kind, msg)] + Seq::<(Seq<char>, Seq<char>)>::empty() =~= seq![(kind, msg)]);
}

} // verus!
