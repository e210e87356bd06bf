use vstd::prelude::*;
use vstd::string::StringExecFns;

use crate::errors::ApplicationError;
use crate::json::{
    jm_views, jtext, jv_view, jv_views, obj_get, sp_json, JsonSpec, JsonValue,
    lemma_jm_views_len, lemma_jv_views_len,
};
use crate::text::{str_eq, str_to_chars};

verus! {

/// An inbound control frame: what a connected client may ask of its
/// watch-list.
pub enum ClientMsg {
    Add { symbols: Vec<String> },
    Remove { symbols: Vec<String> },
    Subscribe { symbols: Vec<String> },
    Ping(Vec<u8>),
}

/// The mathematical shape of a control frame.
pub enum ClientMsgSpec {
    Add(Seq<Seq<char>>),
    Remove(Seq<Seq<char>>),
    Subscribe(Seq<Seq<char>>),
    Ping(Seq<u8>),
}

/// The shape of `m`.
pub open spec fn msg_view(m: ClientMsg) -> ClientMsgSpec {
    match m {
        ClientMsg::Add { symbols } => ClientMsgSpec::Add(symbols.deep_view()),
        ClientMsg::Remove { symbols } => ClientMsgSpec::Remove(symbols.deep_view()),
        ClientMsg::Subscribe { symbols } => ClientMsgSpec::Subscribe(symbols.deep_view()),
        ClientMsg::Ping(data) => ClientMsgSpec::Ping(data@),
    }
}

/// The strings of a JSON array, when every element is a string.
pub open spec fn str_items(a: Seq<JsonSpec>) -> Option<Seq<Seq<char>>>
    decreases a.len(),
{
    if a.len() == 0 {
        Some(Seq::empty())
    } else {
        match a.first() {
            JsonSpec::Str(s) => match str_items(a.drop_first()) {
                Some(t) => Some(seq![s] + t),
                None => None,
            },
            _ => None,
        }
    }
}

/// The bytes of a JSON array, when every element is an integer below 256.
pub open spec fn byte_items(a: Seq<JsonSpec>) -> Option<Seq<u8>>
    decreases a.len(),
{
    if a.len() == 0 {
        Some(Seq::empty())
    } else {
        match a.first() {
            JsonSpec::Int(n) => if 0 <= n < 256 {
                match byte_items(a.drop_first()) {
                    Some(t) => Some(seq![n as u8] + t),
                    None => None,
                }
            } else {
                None
            },
            _ => None,
        }
    }
}

/// The control message a JSON document carries, if any: a `type` tag of
/// `add`, `remove` or `subscribe` with a `symbols` string array, or `ping`
/// with a `data` byte array.
pub open spec fn client_msg_of_json(v: JsonSpec) -> Option<ClientMsgSpec> {
    match obj_get(v, "type"@) {
        Some(JsonSpec::Str(t)) => if t == "add"@ {
            match obj_get(v, "symbols"@) {
                Some(JsonSpec::Arr(a)) => match str_items(a) {
                    Some(ss) => Some(ClientMsgSpec::Add(ss)),
                    None => None,
                },
                _ => None,
            }
        } else if t == "remove"@ {
            match obj_get(v, "symbols"@) {
                Some(JsonSpec::Arr(a)) => match str_items(a) {
                    Some(ss) => Some(ClientMsgSpec::Remove(ss)),
                    None => None,
                },
                _ => None,
            }
        } else if t == "subscribe"@ {
            match obj_get(v, "symbols"@) {
                Some(JsonSpec::Arr(a)) => match str_items(a) {
                    Some(ss) => Some(ClientMsgSpec::Subscribe(ss)),
                    None => None,
                },
                _ => None,
            }
        } else if t == "ping"@ {
            match obj_get(v, "data"@) {
                Some(JsonSpec::Arr(a)) => match byte_items(a) {
                    Some(bs) => Some(ClientMsgSpec::Ping(bs)),
                    None => None,
                },
                _ => None,
            }
        } else {
            None
        },
        _ => None,
    }
}

/// What a whole control-frame text means, if anything.
pub open spec fn spec_parse_client_msg(text: Seq<char>) -> Option<ClientMsgSpec> {
    match sp_json(text) {
        Some(doc) => client_msg_of_json(doc),
        None => None,
    }
}

pub(crate) fn collect_strings(a: &Vec<JsonValue>) -> (r: Option<Vec<String>>)
    ensures
        (match r {
            Some(ss) => str_items(jv_views(a@)) == Some(ss.deep_view()),
            None => str_items(jv_views(a@)) is None,
        }),
{
    let ghost vs = jv_views(a@);
    let mut out: Vec<String> = Vec::new();
    let mut i: usize = 0;
    proof {
        lemma_jv_views_len(a@);
        assert(vs.skip(0) =~= vs);
        assert(out.deep_view() =~= Seq::<Seq<char>>::empty());
        if str_items(vs) is Some {
            assert(Seq::<Seq<char>>::empty() + str_items(vs)->0 =~= str_items(vs)->0);
        }
    }
    while i < a.len()
        invariant
            i <= a@.len(),
            vs == jv_views(a@),
            vs.len() == a@.len(),
            forall|j: int| 0 <= j < a@.len() ==> vs[j] == jv_view(a@[j]),
            out@.len() == i,
            (match str_items(vs) {
                Some(ss) => str_items(vs.skip(i as int)) matches Some(t) && ss == out.deep_view()
                    + t,
                None => true,
            }),
            str_items(vs.skip(i as int)) is None <==> str_items(vs) is None,
        decreases a@.len() - i,
    {
        proof {
            assert(vs.skip(i as int).first() == vs[i as int]);
            assert(vs.skip(i as int).drop_first() =~= vs.skip(i as int + 1));
        }
        match a[i].str_value() {
            Some(s) => {
                let ghost sv = s@;
                let ghost prev = out.deep_view();
                out.push(s);
                proof {
                    assert(out.deep_view() =~= prev.push(sv));
                    assert(vs[i as int] == JsonSpec::Str(sv));
                    if str_items(vs) is Some {
                        let t1 = str_items(vs.skip(i as int))->0;
                        let t2 = str_items(vs.skip(i as int + 1))->0;
                        assert(t1 == seq![sv] + t2);
                        assert(prev + t1 =~= prev.push(sv) + t2);
                    }
                }
            },
            None => {
                proof {
                    assert(str_items(vs.skip(i as int)) is None);
                }
                return None;
            },
        }
        i += 1;
    }
    proof {
        assert(vs.skip(a@.len() as int) =~= Seq::<JsonSpec>::empty());
        if str_items(vs) is Some {
            assert(str_items(vs)->0 =~= out.deep_view());
        } else {
            assert(false);
        }
    }
    Some(out)
}

fn collect_bytes(a: &Vec<JsonValue>) -> (r: Option<Vec<u8>>)
    ensures
        (match r {
            Some(bs) => byte_items(jv_views(a@)) == Some(bs@),
            None => byte_items(jv_views(a@)) is None,
        }),
{
    let ghost vs = jv_views(a@);
    let mut out: Vec<u8> = Vec::new();
    let mut i: usize = 0;
    proof {
        lemma_jv_views_len(a@);
        assert(vs.skip(0) =~= vs);
        if byte_items(vs) is Some {
            assert(Seq::<u8>::empty() + byte_items(vs)->0 =~= byte_items(vs)->0);
        }
    }
    while i < a.len()
        invariant
            i <= a@.len(),
            vs == jv_views(a@),
            vs.len() == a@.len(),
            forall|j: int| 0 <= j < a@.len() ==> vs[j] == jv_view(a@[j]),
            out@.len() == i,
            (match byte_items(vs) {
                Some(bs) => byte_items(vs.skip(i as int)) matches Some(t) && bs == out@ + t,
                None => true,
            }),
            byte_items(vs.skip(i as int)) is None <==> byte_items(vs) is None,
        decreases a@.len() - i,
    {
        proof {
            assert(vs.skip(i as int).first() == vs[i as int]);
            assert(vs.skip(i as int).drop_first() =~= vs.skip(i as int + 1));
        }
        let n = match a[i].int_value() {
            Some(n) => n,
            None => {
                proof {
                    assert(byte_items(vs.skip(i as int)) is None);
                }
                return None;
            },
        };
        if n < 0 || n > 255 {
            proof {
                assert(byte_items(vs.skip(i as int)) is None);
            }
            return None;
        }
        let ghost prev = out@;
        out.push(n as u8);
        proof {
            assert(vs[i as int] == JsonSpec::Int(n as int));
            if byte_items(vs) is Some {
                let t1 = byte_items(vs.skip(i as int))->0;
                let t2 = byte_items(vs.skip(i as int + 1))->0;
                assert(t1 == seq![n as u8] + t2);
                assert(prev + t1 =~= prev.push(n as u8) + t2);
            }
        }
        i += 1;
    }
    proof {
        assert(vs.skip(a@.len() as int) =~= Seq::<JsonSpec>::empty());
        if byte_items(vs) is Some {
            assert(byte_items(vs)->0 =~= out@);
        } else {
            assert(false);
        }
    }
    Some(out)
}

/// Parses one inbound control frame. A malformed payload — not a document
/// of the JSON subset, or not one of the four control messages — is the
/// `InvalidWebSocketPayload` failure.
pub fn parse_client_msg(text: &str) -> (r: Result<ClientMsg, ApplicationError>)
    ensures
        (match r {
            Ok(m) => spec_parse_client_msg(text@) == Some(msg_view(m)),
            Err(e) => e is InvalidWebSocketPayload && spec_parse_client_msg(text@) is None,
        }),
{
    let doc = match crate::json::parse_json(text) {
        Some(d) => d,
        None => {
            return Err(ApplicationError::InvalidWebSocketPayload);
        },
    };
    let tag = match doc.get(&str_to_chars("type")) {
        Some(t) => match t.str_value() {
            Some(s) => s,
            None => {
                return Err(ApplicationError::InvalidWebSocketPayload);
            },
        },
        None => {
            return Err(ApplicationError::InvalidWebSocketPayload);
        },
    };
    if str_eq(tag.as_str(), "add") || str_eq(tag.as_str(), "remove") || str_eq(
        tag.as_str(),
        "subscribe",
    ) {
        let symbols = match doc.get(&str_to_chars("symbols")) {
            Some(v) => match v {
                JsonValue::Arr(a) => match collect_strings(a) {
                    Some(ss) => ss,
                    None => {
                        return Err(ApplicationError::InvalidWebSocketPayload);
                    },
                },
                _ => {
                    proof {
                        assert(!(jv_view(*v) is Arr));
                    }
                    return Err(ApplicationError::InvalidWebSocketPayload);
                },
            },
            None => {
                return Err(ApplicationError::InvalidWebSocketPayload);
            },
        };
        if str_eq(tag.as_str(), "add") {
            Ok(ClientMsg::Add { symbols })
        } else if str_eq(tag.as_str(), "remove") {
            Ok(ClientMsg::Remove { symbols })
        } else {
            Ok(ClientMsg::Subscribe { symbols })
        }
    } else if str_eq(tag.as_str(), "ping") {
        let data = match doc.get(&str_to_chars("data")) {
            Some(v) => match v {
                JsonValue::Arr(a) => match collect_bytes(a) {
                    Some(bs) => bs,
                    None => {
                        return Err(ApplicationError::InvalidWebSocketPayload);
                    },
                },
                _ => {
                    proof {
                        assert(!(jv_view(*v) is Arr));
                    }
                    return Err(ApplicationError::InvalidWebSocketPayload);
                },
            },
            None => {
                return Err(ApplicationError::InvalidWebSocketPayload);
            },
        };
        Ok(ClientMsg::Ping(data))
    } else {
        Err(ApplicationError::InvalidWebSocketPayload)
    }
}

} // verus!

verus! {

/// The JSON nodes of a string list.
pub open spec fn strs_json(l: Seq<Seq<char>>) -> Seq<JsonSpec> {
    Seq::new(l.len(), |i: int| JsonSpec::Str(l[i]))
}

/// The JSON nodes of a byte list.
pub open spec fn bytes_json(b: Seq<u8>) -> Seq<JsonSpec> {
    Seq::new(b.len(), |i: int| JsonSpec::Int(b[i] as int))
}

/// The JSON document of the acknowledgement frame for `m`: the `ok` event
/// echoing the accepted control message.
pub open spec fn ok_json(m: ClientMsgSpec) -> JsonSpec {
    match m {
        ClientMsgSpec::Add(ss) => JsonSpec::Obj(
            seq![
                ("event"@, JsonSpec::Str("ok"@)),
                ("type"@, JsonSpec::Str("add"@)),
                ("symbols"@, JsonSpec::Arr(strs_json(ss))),
            ],
        ),
        ClientMsgSpec::Remove(ss) => JsonSpec::Obj(
            seq![
                ("event"@, JsonSpec::Str("ok"@)),
                ("type"@, JsonSpec::Str("remove"@)),
                ("symbols"@, JsonSpec::Arr(strs_json(ss))),
            ],
        ),
        ClientMsgSpec::Subscribe(ss) => JsonSpec::Obj(
            seq![
                ("event"@, JsonSpec::Str("ok"@)),
                ("type"@, JsonSpec::Str("subscribe"@)),
                ("symbols"@, JsonSpec::Arr(strs_json(ss))),
            ],
        ),
        ClientMsgSpec::Ping(bs) => JsonSpec::Obj(
            seq![
                ("event"@, JsonSpec::Str("ok"@)),
                ("type"@, JsonSpec::Str("ping"@)),
                ("data"@, JsonSpec::Arr(bytes_json(bs))),
            ],
        ),
    }
}

/// The text of the acknowledgement frame for `m`.
pub open spec fn ok_frame_text(m: ClientMsgSpec) -> Seq<char> {
    jtext(ok_json(m))
}

/// The text of the frame greeting a successfully attached connection.
pub open spec fn subscribed_frame_text() -> Seq<char> {
    "{\"event\":\"subscribed\"}"@
}

/// The text of a quote frame carrying a cycle's payload text verbatim.
pub open spec fn quote_frame_text(body: Seq<char>) -> Seq<char> {
    "{\"event\":\"quote\",\"data\":"@ + body + "}"@
}

/// The JSON document of a structured error frame: the failure kind's name
/// mapping to its human-readable message.
pub open spec fn err_json(kind: Seq<char>, msg: Seq<char>) -> JsonSpec {
    JsonSpec::Obj(
        seq![("error"@, JsonSpec::Obj(seq![(kind, JsonSpec::Str(msg))]))],
    )
}

/// The text of a structured error frame.
pub open spec fn err_frame_text(kind: Seq<char>, msg: Seq<char>) -> Seq<char> {
    jtext(err_json(kind, msg))
}

pub(crate) fn strings_to_nodes(l: &Vec<String>) -> (r: Vec<JsonValue>)
    ensures
        jv_views(r@) == strs_json(l.deep_view()),
{
    let mut out: Vec<JsonValue> = Vec::new();
    let mut i: usize = 0;
    while i < l.len()
        invariant
            i <= l.len(),
            out@.len() == i,
            jv_views(out@) =~= strs_json(l.deep_view()).take(i as int),
        decreases l.len() - i,
    {
        let ghost prev = out@;
        out.push(JsonValue::Str(str_to_chars(l[i].as_str())));
        proof {
            assert(out@.drop_last() =~= prev);
            lemma_jv_views_len(out@);
            lemma_jv_views_len(prev);
            assert(jv_views(out@) =~= jv_views(prev).push(jv_view(out@.last())));
            assert(jv_view(out@.last()) == JsonSpec::Str(l@[i as int]@));
            assert(l.deep_view()[i as int] == l@[i as int]@);
            assert(jv_views(out@) =~= strs_json(l.deep_view()).take(i as int + 1));
        }
        i += 1;
    }
    proof {
        assert(strs_json(l.deep_view()).take(l.len() as int) =~= strs_json(l.deep_view()));
    }
    out
}

fn bytes_to_nodes(b: &Vec<u8>) -> (r: Vec<JsonValue>)
    ensures
        jv_views(r@) == bytes_json(b@),
{
    let mut out: Vec<JsonValue> = Vec::new();
    let mut i: usize = 0;
    while i < b.len()
        invariant
            i <= b.len(),
            out@.len() == i,
            jv_views(out@) =~= bytes_json(b@).take(i as int),
        decreases b.len() - i,
    {
        let ghost prev = out@;
        out.push(JsonValue::Int(b[i] as i64));
        proof {
            assert(out@.drop_last() =~= prev);
            lemma_jv_views_len(out@);
            lemma_jv_views_len(prev);
            assert(jv_views(out@) =~= jv_views(prev).push(jv_view(out@.last())));
            assert(jv_view(out@.last()) == JsonSpec::Int(b@[i as int] as int));
            assert(jv_views(out@) =~= bytes_json(b@).take(i as int + 1));
        }
        i += 1;
    }
    proof {
        assert(bytes_json(b@).take(b.len() as int) =~= bytes_json(b@));
    }
    out
}

/// Renders the `{"event":"subscribed"}` greeting.
pub fn ws_subscribed() -> (r: String)
    ensures
        r@ == subscribed_frame_text(),
{
    let mut s = String::new();
    s.append("{\"event\":\"subscribed\"}");
    s
}

/// Renders the acknowledgement frame echoing the accepted control message.
pub fn ws_ok(msg: &ClientMsg) -> (r: String)
    ensures
        r@ == ok_frame_text(msg_view(*msg)),
{
    let mut members: Vec<(Vec<char>, JsonValue)> = Vec::new();
    members.push((str_to_chars("event"), JsonValue::of_str("ok")));
    match msg {
        ClientMsg::Add { symbols } => {
            members.push((str_to_chars("type"), JsonValue::of_str("add")));
            members.push((str_to_chars("symbols"), JsonValue::Arr(strings_to_nodes(symbols))));
        },
        ClientMsg::Remove { symbols } => {
            members.push((str_to_chars("type"), JsonValue::of_str("remove")));
            members.push((str_to_chars("symbols"), JsonValue::Arr(strings_to_nodes(symbols))));
        },
        ClientMsg::Subscribe { symbols } => {
            members.push((str_to_chars("type"), JsonValue::of_str("subscribe")));
            members.push((str_to_chars("symbols"), JsonValue::Arr(strings_to_nodes(symbols))));
        },
        ClientMsg::Ping(data) => {
            members.push((str_to_chars("type"), JsonValue::of_str("ping")));
            members.push((str_to_chars("data"), JsonValue::Arr(bytes_to_nodes(data))));
        },
    }
    let doc = JsonValue::Obj(members);
    proof {
        let ms = doc->Obj_0@;
        lemma_jm_views_len(ms);
        let mv = jm_views(ms);
        assert(mv.len() == 3);
        assert(mv[0] == (ms[0].0@, jv_view(ms[0].1)));
        assert(mv[1] == (ms[1].0@, jv_view(ms[1].1)));
        assert(mv[2] == (ms[2].0@, jv_view(ms[2].1)));
        assert(mv =~= ok_json(msg_view(*msg))->Obj_0);
        assert(jv_view(doc) == ok_json(msg_view(*msg)));
    }
    crate::json::json_to_string(&doc)
}

/// Renders a quote frame around a cycle's payload text.
pub fn ws_quote(body: &String) -> (r: String)
    ensures
        r@ == quote_frame_text(body@),
{
    let mut s = String::new();
    s.append("{\"event\":\"quote\",\"data\":");
    s.append(body.as_str());
    s.append("}");
    s
}

/// Renders the structured error frame for a failure: its kind's name
/// mapping to its message.
pub fn ws_err(e: &ApplicationError) -> (r: String)
    ensures
        r@ == err_frame_text(e.spec_kind(), e.spec_message()),
{
    ws_err_parts(e.kind_name(), e.message())
}

} // verus!

verus! {

/// Renders a structured error frame from a kind name and message directly.
pub fn ws_err_parts(kind: String, msg: String) -> (r: String)
    ensures
        r@ == err_frame_text(kind@, msg@),
{
    let mut inner: Vec<(Vec<char>, JsonValue)> = Vec::new();
    inner.push((str_to_chars(kind.as_str()), JsonValue::Str(str_to_chars(msg.as_str()))));
    let mut members: Vec<(Vec<char>, JsonValue)> = Vec::new();
    members.push((str_to_chars("error"), JsonValue::Obj(inner)));
    let doc = JsonValue::Obj(members);
    proof {
        let ms = doc->Obj_0@;
        lemma_jm_views_len(ms);
        let inner_ms = ms[0].1->Obj_0@;
        lemma_jm_views_len(inner_ms);
        assert(jm_views(inner_ms) =~= seq![(kind@, JsonSpec::Str(msg@))]);
        assert(jv_view(ms[0].1) == JsonSpec::Obj(jm_views(inner_ms)));
        assert(jm_views(ms) =~= err_json(kind@, msg@)->Obj_0);
        assert(jv_view(doc) == err_json(kind@, msg@));
    }
    crate::json::json_to_string(&doc)
}

} // verus!

verus! {

pub(crate) proof fn lemma_str_items_of_strs(ss: Seq<Seq<char>>)
    ensures
        str_items(strs_json(ss)) == Some(ss),
    decreases ss.len(),
{
    if ss.len() == 0 {
        assert(strs_json(ss) =~= Seq::<JsonSpec>::empty());
        assert(str_items(strs_json(ss)) == Some(Seq::<Seq<char>>::empty()));
        assert(Some(Seq::<Seq<char>>::empty()) == Some(ss)) by {
            assert(Seq::<Seq<char>>::empty() =~= ss);
        }
    } else {
        assert(strs_json(ss).first() == JsonSpec::Str(ss.first()));
        assert(strs_json(ss).drop_first() =~= strs_json(ss.drop_first()));
        lemma_str_items_of_strs(ss.drop_first());
        assert(seq![ss.first()] + ss.drop_first() =~= ss);
    }
}

proof fn lemma_byte_items_of_bytes(bs: Seq<u8>)
    ensures
        byte_items(bytes_json(bs)) == Some(bs),
    decreases bs.len(),
{
    if bs.len() == 0 {
        assert(bytes_json(bs) =~= Seq::<JsonSpec>::empty());
        assert(byte_items(bytes_json(bs)) == Some(Seq::<u8>::empty()));
        assert(Seq::<u8>::empty() =~= bs);
    } else {
        assert(bytes_json(bs).first() == JsonSpec::Int(bs.first() as int));
        assert(0 <= bs.first() as int && (bs.first() as int) < 256);
        assert(bytes_json(bs).drop_first() =~= bytes_json(bs.drop_first()));
        lemma_byte_items_of_bytes(bs.drop_first());
        assert((bs.first() as int) as u8 == bs.first());
        assert(seq![bs.first()] + bs.drop_first() =~= bs);
    }
}

pub(crate) proof fn lemma_strs_json_ok(ss: Seq<Seq<char>>)
    ensures
        crate::json::jspec_all_ok(strs_json(ss)),
    decreases ss.len(),
{
    if ss.len() == 0 {
        assert(strs_json(ss).len() == 0);
    } else {
        assert(strs_json(ss).first() == JsonSpec::Str(ss.first()));
        assert(crate::json::jspec_ok(strs_json(ss).first()));
        assert(strs_json(ss).drop_first() =~= strs_json(ss.drop_first()));
        lemma_strs_json_ok(ss.drop_first());
        assert(crate::json::jspec_all_ok(strs_json(ss).drop_first()));
    }
}

proof fn lemma_bytes_json_ok(bs: Seq<u8>)
    ensures
        crate::json::jspec_all_ok(bytes_json(bs)),
    decreases bs.len(),
{
    if bs.len() == 0 {
        assert(bytes_json(bs).len() == 0);
    } else {
        assert(bytes_json(bs).first() == JsonSpec::Int(bs.first() as int));
        assert(0 <= bs.first() as int && (bs.first() as int) < 256);
        assert(crate::json::jspec_ok(bytes_json(bs).first()));
        assert(bytes_json(bs).drop_first() =~= bytes_json(bs.drop_first()));
        lemma_bytes_json_ok(bs.drop_first());
        assert(crate::json::jspec_all_ok(bytes_json(bs).drop_first()));
    }
}

/// The acknowledgement frame echoes the accepted message exactly: parsed
/// back as a control frame, it is that message again.
pub proof fn lemma_ack_echoes_message(m: ClientMsgSpec)
    ensures
        spec_parse_client_msg(ok_frame_text(m)) == Some(m),
{
    reveal_with_fuel(crate::json::members_get, 5);
    reveal_strlit("event");
    reveal_strlit("type");
    reveal_strlit("symbols");
    reveal_strlit("data");
    reveal_strlit("ok");
    reveal_strlit("add");
    reveal_strlit("remove");
    reveal_strlit("subscribe");
    reveal_strlit("ping");
    let doc = ok_json(m);
    assert(crate::json::jspec_ok(doc)) by {
        match m {
            ClientMsgSpec::Add(ss) => {
                lemma_strs_json_ok(ss);
                crate::json::lemma_members_ok_unfold3(doc);
            },
            ClientMsgSpec::Remove(ss) => {
                lemma_strs_json_ok(ss);
                crate::json::lemma_members_ok_unfold3(doc);
            },
            ClientMsgSpec::Subscribe(ss) => {
                lemma_strs_json_ok(ss);
                crate::json::lemma_members_ok_unfold3(doc);
            },
            ClientMsgSpec::Ping(bs) => {
                lemma_bytes_json_ok(bs);
                crate::json::lemma_members_ok_unfold3(doc);
            },
        }
    }
    crate::json::lemma_parse_of_jtext(doc);
    let members = doc->Obj_0;
    assert(members.len() == 3);
    assert(members.first() == members[0]);
    assert(members.drop_first().first() == members[1]);
    assert(members.drop_first().drop_first().first() == members[2]);
    assert(members[0].0 == "event"@);
    assert("event"@.len() == 5 && "type"@.len() == 4 && "symbols"@.len() == 7 && "data"@.len()
        == 4 && "ok"@.len() == 2);
    assert("add"@.len() == 3 && "remove"@.len() == 6 && "subscribe"@.len() == 9 && "ping"@.len()
        == 4);
    assert("event"@ != "type"@);
    assert("event"@ != "symbols"@);
    assert("event"@ != "data"@);
    assert("type"@ != "symbols"@);
    assert("type"@ != "data"@) by {
        assert("type"@[0] == 't' && "data"@[0] == 'd');
    }
    assert(members[1].0 == "type"@);
    assert(crate::json::members_get(members, "type"@) == Some(members[1].1));
    match m {
        ClientMsgSpec::Add(ss) => {
            assert(members[1].1 == JsonSpec::Str("add"@));
            assert(members[2].0 == "symbols"@);
            assert(crate::json::members_get(members, "symbols"@) == Some(members[2].1));
            lemma_str_items_of_strs(ss);
        },
        ClientMsgSpec::Remove(ss) => {
            assert(members[1].1 == JsonSpec::Str("remove"@));
            assert("remove"@ != "add"@);
            assert(members[2].0 == "symbols"@);
            assert(crate::json::members_get(members, "symbols"@) == Some(members[2].1));
            lemma_str_items_of_strs(ss);
        },
        ClientMsgSpec::Subscribe(ss) => {
            assert(members[1].1 == JsonSpec::Str("subscribe"@));
            assert("subscribe"@ != "add"@);
            assert("subscribe"@ != "remove"@);
            assert(members[2].0 == "symbols"@);
            assert(crate::json::members_get(members, "symbols"@) == Some(members[2].1));
            lemma_str_items_of_strs(ss);
        },
        ClientMsgSpec::Ping(bs) => {
            assert(members[1].1 == JsonSpec::Str("ping"@));
            assert("ping"@ != "add"@);
            assert("ping"@ != "remove"@);
            assert("ping"@ != "subscribe"@);
            assert("ping"@[0] == 'p');
            assert(members[2].0 == "data"@);
            assert(crate::json::members_get(members, "data"@) == Some(members[2].1));
            lemma_byte_items_of_bytes(bs);
        },
    }
}

} // verus!
