use vstd::prelude::*;
use vstd::string::StringExecFns;
use vstd::utf8::{decode_utf8, encode_utf8, valid_utf8};

use base64::Engine;

use crate::errors::CredentialsError;
use crate::json::{jtext, jv_view, obj_get, sp_json, JsonSpec, JsonValue};
use crate::text::{chars_to_string, str_to_chars};

verus! {

/// The OAuth application this service authenticates against.
pub struct Schwab;

/// A credential record as it travels inside another JSON document.
#[derive(Debug)]
pub struct CredentialsPackaged {
    pub credentials: String,
}

/// What a token exchange or refresh hands back: the two tokens and the
/// access token's lifetime in seconds.
#[derive(Debug)]
pub struct TokenGrant {
    pub access_token: String,
    pub refresh_token: String,
    pub expires_in: i64,
}

/// An access/refresh token pair with its lifetime: `expires_in` seconds
/// from the `minted` instant (both in seconds; `minted` is a Unix time).
#[derive(Debug)]
pub struct Credentials {
    pub access_token: String,
    pub refresh_token: String,
    pub expires_in: i64,
    pub minted: i64,
}

/// The text that serializing base64 bytes produces. Named for
/// base64's URL-safe, unpadded encode; the wrapper below applies it.
pub uninterp spec fn b64url_of(b: Seq<u8>) -> Seq<char>;

/// What base64's URL-safe, unpadded decode yields on a text: the bytes when
/// the text is a canonical encoding, nothing otherwise. The wrappers below
/// apply it.
pub uninterp spec fn b64url_decode_of(s: Seq<char>) -> Option<Seq<u8>>;

/// Relies on base64's `URL_SAFE_NO_PAD` engine: encoding yields the
/// unpadded url-safe text of the bytes, and decoding that text yields the
/// bytes back (the engine accepts only canonical input).
#[verifier::external_body]
fn b64url_encode(b: &[u8]) -> (r: String)
    ensures
        r@ == b64url_of(b@),
        b64url_decode_of(r@) == Some(b@),
{
    base64::engine::general_purpose::URL_SAFE_NO_PAD.encode(b)
}

/// Relies on base64's `URL_SAFE_NO_PAD` engine: decode succeeds exactly on
/// canonical unpadded url-safe text, returns the encoded bytes, and its
/// error case carries the decoder's message.
#[verifier::external_body]
fn b64url_decode(s: &str) -> (r: Result<Vec<u8>, String>)
    ensures
        (match r {
            Ok(v) => b64url_decode_of(s@) == Some(v@) && b64url_of(v@) == s@,
            Err(_) => b64url_decode_of(s@) is None,
        }),
{
    base64::engine::general_purpose::URL_SAFE_NO_PAD.decode(s).map_err(|e| format!("{e}"))
}

/// Relies on `String::from_utf8`: succeeds exactly on valid UTF-8 and
/// returns the decoded characters; its error case carries the converter's
/// message.
#[verifier::external_body]
fn bytes_to_string(v: Vec<u8>) -> (r: Result<String, String>)
    ensures
        (match r {
            Ok(s) => valid_utf8(v@) && s@ == decode_utf8(v@),
            Err(_) => !valid_utf8(v@),
        }),
{
    String::from_utf8(v).map_err(|e| format!("{e}"))
}

/// The JSON shape a credential record serializes to.
pub open spec fn credentials_json(c: Credentials) -> JsonSpec {
    JsonSpec::Obj(
        seq![
            ("access_token"@, JsonSpec::Str(c.access_token@)),
            ("refresh_token"@, JsonSpec::Str(c.refresh_token@)),
            ("expires_in"@, JsonSpec::Int(c.expires_in as int)),
            ("minted"@, JsonSpec::Int(c.minted as int)),
        ],
    )
}

/// The four fields a JSON document must carry to be a credential record,
/// in any member order: both tokens as strings and both numbers in range.
pub open spec fn credentials_of_json(v: JsonSpec) -> Option<(Seq<char>, Seq<char>, int, int)> {
    match (
        obj_get(v, "access_token"@),
        obj_get(v, "refresh_token"@),
        obj_get(v, "expires_in"@),
        obj_get(v, "minted"@),
    ) {
        (Some(JsonSpec::Str(a)), Some(JsonSpec::Str(r)), Some(JsonSpec::Int(e)), Some(
            JsonSpec::Int(m),
        )) => Some((a, r, e, m)),
        _ => None,
    }
}

impl Credentials {
    pub fn new(access_token: String, refresh_token: String, expires_in: i64, minted: i64) -> (r:
        Self)
        ensures
            r == (Credentials { access_token, refresh_token, expires_in, minted }),
    {
        Credentials { access_token, refresh_token, expires_in, minted }
    }

    /// Builds credentials from a fresh grant minted now.
    pub fn from_grant(grant: TokenGrant, now: i64) -> (r: Self)
        ensures
            r.access_token == grant.access_token,
            r.refresh_token == grant.refresh_token,
            r.expires_in == grant.expires_in,
            r.minted == now,
    {
        Credentials {
            access_token: grant.access_token,
            refresh_token: grant.refresh_token,
            expires_in: grant.expires_in,
            minted: now,
        }
    }

    /// The instant the access token expires, in seconds.
    pub open spec fn spec_expiry(self) -> int {
        self.minted + self.expires_in
    }

    /// Whether the access token is within `skew_seconds` of expiry at `now`.
    pub open spec fn spec_expired_skewed(self, now: int, skew_seconds: int) -> bool {
        self.spec_expiry() - now <= skew_seconds
    }

    /// Whether the token counts as expired at `now`: within five minutes of
    /// its expiry.
    pub open spec fn spec_expired(self, now: int) -> bool {
        self.spec_expired_skewed(now, 300)
    }

    /// The seconds until expiry at `now` (negative once past).
    pub fn expires_in_at(&self, now: i64) -> (r: i128)
        ensures
            r as int == self.spec_expiry() - now,
    {
        self.minted as i128 + self.expires_in as i128 - now as i128
    }

    pub fn is_expired_skewed(&self, now: i64, skew_seconds: i64) -> (r: bool)
        ensures
            r == self.spec_expired_skewed(now as int, skew_seconds as int),
    {
        self.expires_in_at(now) <= skew_seconds as i128
    }

    pub fn is_expired(&self, now: i64) -> (r: bool)
        ensures
            r == self.spec_expired(now as int),
    {
        self.is_expired_skewed(now, 300)
    }

    /// The access token, handed out only while it is valid at `now`.
    pub fn access_token_at<'a>(&'a self, now: i64) -> (r: Option<&'a String>)
        ensures
            (match r {
                Some(t) => !self.spec_expired(now as int) && t == &self.access_token,
                None => self.spec_expired(now as int),
            }),
    {
        if self.is_expired(now) {
            None
        } else {
            Some(&self.access_token)
        }
    }

    pub fn refresh_token<'a>(&'a self) -> (r: &'a String)
        ensures
            r == &self.refresh_token,
    {
        &self.refresh_token
    }

    /// Installs a fresh grant minted at `now`. The grant must outlive the
    /// expiry skew: a refresh that hands back an already-expired token is a
    /// broken exchange, not an input this accepts.
    pub fn apply_refresh(&mut self, grant: TokenGrant, now: i64)
        requires
            grant.expires_in > 300,
        ensures
            final(self).access_token == grant.access_token,
            final(self).refresh_token == grant.refresh_token,
            final(self).expires_in == grant.expires_in,
            final(self).minted == now,
            !final(self).spec_expired(now as int),
    {
        self.minted = now;
        self.access_token = grant.access_token;
        self.refresh_token = grant.refresh_token;
        self.expires_in = grant.expires_in;
    }

    /// Serializes the record as JSON and encodes it in unpadded url-safe
    /// base64, the form the authentication cookie carries.
    pub fn encode(credentials: &Self) -> (r: String)
        ensures
            r@ == b64url_of(encode_utf8(jtext(credentials_json(*credentials)))),
            b64url_decode_of(r@) == Some(encode_utf8(jtext(credentials_json(*credentials)))),
    {
        let mut members: Vec<(Vec<char>, JsonValue)> = Vec::new();
        members.push((str_to_chars("access_token"), JsonValue::Str(
            str_to_chars(credentials.access_token.as_str()),
        )));
        members.push((str_to_chars("refresh_token"), JsonValue::Str(
            str_to_chars(credentials.refresh_token.as_str()),
        )));
        members.push((str_to_chars("expires_in"), JsonValue::Int(credentials.expires_in)));
        members.push((str_to_chars("minted"), JsonValue::Int(credentials.minted)));
        let doc = JsonValue::Obj(members);
        proof {
            let ms = doc->Obj_0@;
            crate::json::lemma_jm_views_len(ms);
            let mv = crate::json::jm_views(ms);
            assert(mv.len() == 4);
            assert(ms[0].0@ == "access_token"@ && ms[0].1 == JsonValue::Str(ms[0].1->Str_0));
            assert(mv[0] == (ms[0].0@, jv_view(ms[0].1)));
            assert(jv_view(ms[0].1) == JsonSpec::Str(credentials.access_token@));
            assert(mv[1] == (ms[1].0@, jv_view(ms[1].1)));
            assert(jv_view(ms[1].1) == JsonSpec::Str(credentials.refresh_token@));
            assert(mv[2] == (ms[2].0@, jv_view(ms[2].1)));
            assert(jv_view(ms[2].1) == JsonSpec::Int(credentials.expires_in as int));
            assert(mv[3] == (ms[3].0@, jv_view(ms[3].1)));
            assert(jv_view(ms[3].1) == JsonSpec::Int(credentials.minted as int));
            assert(mv =~= credentials_json(*credentials)->Obj_0);
            assert(jv_view(doc) == credentials_json(*credentials));
        }
        let text = crate::json::json_to_string(&doc);
        b64url_encode(text.as_str().as_bytes())
    }

    /// Decodes what `encode` produced: base64, then UTF-8, then the JSON
    /// record. Each layer's rejection is its own error kind, and only a
    /// text carrying all four fields yields credentials.
    pub fn decode(encoded: &str) -> (r: Result<Self, CredentialsError>)
        ensures
            (match r {
                Ok(c) => {
                    &&& b64url_decode_of(encoded@) matches Some(bytes)
                    &&& valid_utf8(bytes)
                    &&& sp_json(decode_utf8(bytes)) matches Some(doc)
                    &&& credentials_of_json(doc) == Some(
                        (c.access_token@, c.refresh_token@, c.expires_in as int, c.minted as int),
                    )
                },
                Err(e) => {
                    match e {
                        CredentialsError::Decode(_) => b64url_decode_of(encoded@) is None,
                        CredentialsError::Utf8(_) => {
                            &&& b64url_decode_of(encoded@) matches Some(bytes)
                            &&& !valid_utf8(bytes)
                        },
                        CredentialsError::SerDe(_) => {
                            &&& b64url_decode_of(encoded@) matches Some(bytes)
                            &&& valid_utf8(bytes)
                            &&& match sp_json(decode_utf8(bytes)) {
                                Some(doc) => credentials_of_json(doc) is None,
                                None => true,
                            }
                        },
                        CredentialsError::Oauth2(_) => false,
                    }
                },
            }),
    {
        let bytes = match b64url_decode(encoded) {
            Ok(b) => b,
            Err(m) => {
                return Err(CredentialsError::Decode(m));
            },
        };
        let text = match bytes_to_string(bytes) {
            Ok(t) => t,
            Err(m) => {
                return Err(CredentialsError::Utf8(m));
            },
        };
        let doc = match crate::json::parse_json(text.as_str()) {
            Some(d) => d,
            None => {
                let mut m = String::new();
                m.append("not a JSON document in the supported subset");
                return Err(CredentialsError::SerDe(m));
            },
        };
        let access = doc.get(&str_to_chars("access_token"));
        let access = match access {
            Some(v) => v.str_value(),
            None => None,
        };
        let refresh = doc.get(&str_to_chars("refresh_token"));
        let refresh = match refresh {
            Some(v) => v.str_value(),
            None => None,
        };
        let expires = doc.get(&str_to_chars("expires_in"));
        let expires = match expires {
            Some(v) => v.int_value(),
            None => None,
        };
        let minted = doc.get(&str_to_chars("minted"));
        let minted = match minted {
            Some(v) => v.int_value(),
            None => None,
        };
        match (access, refresh, expires, minted) {
            (Some(a), Some(rt), Some(e), Some(m)) => Ok(Credentials {
                access_token: a,
                refresh_token: rt,
                expires_in: e,
                minted: m,
            }),
            _ => {
                let mut m = String::new();
                m.append("missing or mistyped credential fields");
                Err(CredentialsError::SerDe(m))
            },
        }
    }
}

/// A run of `n` stars.
pub open spec fn stars(n: nat) -> Seq<char>
    decreases n,
{
    if n == 0 {
        Seq::empty()
    } else {
        stars((n - 1) as nat).push('*')
    }
}

/// A secret fit for a log line: its first four characters, the rest
/// replaced by stars.
pub open spec fn censor_spec(s: Seq<char>) -> Seq<char> {
    if s.len() <= 4 {
        s
    } else {
        s.take(4) + stars((s.len() - 4) as nat)
    }
}

/// Censors a secret: everything past the first four characters becomes a
/// star.
pub fn censor(s: &str) -> (r: String)
    ensures
        r@ == censor_spec(s@),
{
    let chars = str_to_chars(s);
    let mut out: Vec<char> = Vec::new();
    let keep: usize = if chars.len() <= 4 {
        chars.len()
    } else {
        4
    };
    let mut i: usize = 0;
    while i < keep
        invariant
            i <= keep <= chars@.len(),
            chars@ == s@,
            out@ =~= s@.take(i as int),
        decreases keep - i,
    {
        out.push(chars[i]);
        proof {
            assert(out@ =~= s@.take(i as int + 1));
        }
        i += 1;
    }
    while i < chars.len()
        invariant
            keep <= i <= chars@.len(),
            keep == (if chars@.len() <= 4 {
                chars@.len() as int
            } else {
                4
            }),
            chars@ == s@,
            out@ =~= s@.take(keep as int) + stars((i - keep) as nat),
        decreases chars@.len() - i,
    {
        out.push('*');
        proof {
            assert(out@ =~= s@.take(keep as int) + stars((i + 1 - keep) as nat));
        }
        i += 1;
    }
    proof {
        if s@.len() <= 4 {
            assert(out@ =~= s@);
        }
    }
    chars_to_string(&out)
}

impl CredentialsPackaged {
    /// Unpacks the carried credential text, exactly as `decode` reads a
    /// cookie value.
    pub fn unpack(&self) -> (r: Result<Credentials, CredentialsError>)
        ensures
            (match r {
                Ok(c) => {
                    &&& b64url_decode_of(self.credentials@) matches Some(bytes)
                    &&& valid_utf8(bytes)
                    &&& sp_json(decode_utf8(bytes)) matches Some(doc)
                    &&& credentials_of_json(doc) == Some(
                        (c.access_token@, c.refresh_token@, c.expires_in as int, c.minted as int),
                    )
                },
                Err(e) => {
                    match e {
                        CredentialsError::Decode(_) => b64url_decode_of(self.credentials@) is None,
                        CredentialsError::Utf8(_) => {
                            &&& b64url_decode_of(self.credentials@) matches Some(bytes)
                            &&& !valid_utf8(bytes)
                        },
                        CredentialsError::SerDe(_) => {
                            &&& b64url_decode_of(self.credentials@) matches Some(bytes)
                            &&& valid_utf8(bytes)
                            &&& match sp_json(decode_utf8(bytes)) {
                                Some(doc) => credentials_of_json(doc) is None,
                                None => true,
                            }
                        },
                        CredentialsError::Oauth2(_) => false,
                    }
                },
            }),
    {
        Credentials::decode(self.credentials.as_str())
    }
}

} // verus!

verus! {

impl Credentials {
    /// A description safe to log: both tokens censored past their first
    /// four characters.
    pub fn redacted(&self) -> (r: String)
        ensures
            r@ == "Credentials { access_token: "@ + censor_spec(self.access_token@)
                + ", refresh_token: "@ + censor_spec(self.refresh_token@) + ", expires_in: "@
                + crate::text::int_digits(self.expires_in as int) + ", minted: "@
                + crate::text::int_digits(self.minted as int) + " }"@,
    {
        let mut s = String::new();
        s.append("Credentials { access_token: ");
        let a = censor(self.access_token.as_str());
        s.append(a.as_str());
        s.append(", refresh_token: ");
        let rt = censor(self.refresh_token.as_str());
        s.append(rt.as_str());
        s.append(", expires_in: ");
        let mut digits: Vec<char> = Vec::new();
        crate::text::push_int_digits(self.expires_in, &mut digits);
        let d1 = chars_to_string(&digits);
        s.append(d1.as_str());
        s.append(", minted: ");
        let mut digits2: Vec<char> = Vec::new();
        crate::text::push_int_digits(self.minted, &mut digits2);
        let d2 = chars_to_string(&digits2);
        s.append(d2.as_str());
        s.append(" }");
        s
    }
}

} // verus!

verus! {

/// The credential record survives its cookie round trip at the JSON layer:
/// parsing the written record recovers exactly the four fields.
pub proof fn lemma_credentials_record_round_trip(c: Credentials)
    ensures
        sp_json(jtext(credentials_json(c))) == Some(credentials_json(c)),
        credentials_of_json(credentials_json(c)) == Some(
            (c.access_token@, c.refresh_token@, c.expires_in as int, c.minted as int),
        ),
{
    reveal_with_fuel(crate::json::members_get, 6);
    reveal_strlit("access_token");
    reveal_strlit("refresh_token");
    reveal_strlit("expires_in");
    reveal_strlit("minted");
    let doc = credentials_json(c);
    let members = doc->Obj_0;
    assert(members.len() == 4);
    assert(members.first() == members[0]);
    assert(members.drop_first().first() == members[1]);
    assert(members.drop_first().drop_first().first() == members[2]);
    assert(members.drop_first().drop_first().drop_first().first() == members[3]);
    assert(members.drop_first().drop_first().drop_first().drop_first() =~= Seq::<
        (Seq<char>, JsonSpec),
    >::empty());
    assert(crate::json::jspec_ok(doc)) by {
        assert(crate::json::jspec_ok(members[0].1));
        assert(crate::json::jspec_ok(members[1].1));
        assert(members[2].1 == JsonSpec::Int(c.expires_in as int));
        assert(crate::json::jspec_ok(members[2].1));
        assert(members[3].1 == JsonSpec::Int(c.minted as int));
        assert(crate::json::jspec_ok(members[3].1));
        assert(crate::json::jspec_members_ok(
            members.drop_first().drop_first().drop_first().drop_first(),
        ));
        assert(crate::json::jspec_members_ok(members.drop_first().drop_first().drop_first()));
        assert(crate::json::jspec_members_ok(members.drop_first().drop_first()));
        assert(crate::json::jspec_members_ok(members.drop_first()));
        assert(crate::json::jspec_members_ok(members));
    }
    crate::json::lemma_parse_of_jtext(doc);
    assert("access_token"@.len() == 12 && "refresh_token"@.len() == 13 && "expires_in"@.len()
        == 10 && "minted"@.len() == 6);
    assert(crate::json::members_get(members, "access_token"@) == Some(members[0].1));
    assert(crate::json::members_get(members, "refresh_token"@) == Some(members[1].1));
    assert(crate::json::members_get(members, "expires_in"@) == Some(members[2].1));
    assert(crate::json::members_get(members, "minted"@) == Some(members[3].1));
}

} // verus!
