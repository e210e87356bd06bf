use vstd::prelude::*;
use vstd::string::StringExecFns;

use crate::text::{chars_to_string, dec_digits, push_dec_digits};

verus! {

/// Why a broadcast receive failed: the receiver fell behind the channel's
/// buffer by the given number of values, or the sender is gone.
#[derive(Clone, Copy, Debug, PartialEq, Eq, Structural)]
pub enum RecvError {
    Lagged(u64),
    Closed,
}

/// Why a stored credential string could not be turned into credentials.
#[derive(Debug)]
pub enum CredentialsError {
    /// The base64 layer rejected the text; the payload is the decoder's message.
    Decode(String),
    /// The decoded bytes were not valid UTF-8; the payload is the converter's message.
    Utf8(String),
    /// The decoded text was not the JSON form of credentials.
    SerDe(String),
    /// The token-refresh exchange failed; the payload is the transport's message.
    Oauth2(String),
}

/// Every failure the service can hand to a caller or broadcast to subscribers.
#[derive(Debug)]
pub enum ApplicationError {
    MissingAuthentication,
    InvalidWebSocketPayload,
    InvalidCredentials(CredentialsError),
    Network(String),
    InvalidJson(String),
    InvalidJsonLookup { index: String, object: String },
    SchwabAccountDeserialization(String),
    QuoteResponseDeserialization(String),
    ChannelBroadcastFailed(RecvError),
    /// One failure of a poll cycle, observed identically by every subscriber.
    Polling(Box<ApplicationError>),
    MissingQueryParameters(Vec<String>),
}

/// The response category a failure maps to at the HTTP edge.
#[derive(Clone, Copy, Debug, PartialEq, Eq, Structural)]
pub enum ResponseStatus {
    Unauthorized,
    BadRequest,
    InternalServerError,
}

impl RecvError {
    /// The human-readable text of this failure.
    pub open spec fn spec_message(self) -> Seq<char> {
        match self {
            RecvError::Lagged(n) => "channel lagged by "@ + dec_digits(n as nat),
            RecvError::Closed => "channel closed"@,
        }
    }

    pub fn message(&self) -> (r: String)
        ensures
            r@ == self.spec_message(),
    {
        match self {
            RecvError::Lagged(n) => {
                let mut v: Vec<char> = Vec::new();
                push_dec_digits(*n, &mut v);
                let mut s = String::new();
                s.append("channel lagged by ");
                let tail = chars_to_string(&v);
                s.append(tail.as_str());
                s
            },
            RecvError::Closed => {
                let mut s = String::new();
                s.append("channel closed");
                s
            },
        }
    }
}

/// The elements of `l`, each in double quotes, joined by ", ".
pub open spec fn quoted_join(l: Seq<Seq<char>>) -> Seq<char>
    decreases l.len(),
{
    if l.len() == 0 {
        Seq::empty()
    } else if l.len() == 1 {
        seq!['"'] + l[0] + seq!['"']
    } else {
        quoted_join(l.drop_last()) + ", "@ + seq!['"'] + l.last() + seq!['"']
    }
}

/// The list form `["a", "b"]` of the strings in `l`.
pub open spec fn quoted_list(l: Seq<Seq<char>>) -> Seq<char> {
    seq!['['] + quoted_join(l) + seq![']']
}

/// Renders the strings of `l` as `["a", "b"]`.
pub fn render_quoted_list(l: &Vec<String>) -> (r: String)
    ensures
        r@ == quoted_list(l.deep_view()),
{
    proof {
        reveal_strlit("[");
        reveal_strlit("]");
        reveal_strlit("\"");
    }
    let mut s = String::new();
    s.append("[");
    let mut i: usize = 0;
    while i < l.len()
        invariant
            i <= l.len(),
            s@ == seq!['['] + quoted_join(l.deep_view().take(i as int)),
        decreases l.len() - i,
    {
        if i > 0 {
            s.append(", ");
        }
        s.append("\"");
        s.append(l[i].as_str());
        s.append("\"");
        proof {
            reveal_strlit("[");
            reveal_strlit("\"");
            let dv = l.deep_view();
            assert(dv[i as int] == l@[i as int]@);
            assert(dv.take(i as int + 1).drop_last() =~= dv.take(i as int));
            assert(dv.take(i as int + 1).last() == dv[i as int]);
            assert(s@ =~= seq!['['] + quoted_join(dv.take(i as int + 1)));
        }
        i += 1;
    }
    proof {
        assert(l.deep_view().take(l.len() as int) =~= l.deep_view());
    }
    s.append("]");
    s
}

impl ApplicationError {
    /// The name of this failure's kind, used as the key of an error frame.
    pub open spec fn spec_kind(self) -> Seq<char> {
        match self {
            ApplicationError::MissingAuthentication => "MissingAuthentication"@,
            ApplicationError::InvalidWebSocketPayload => "InvalidWebSocketPayload"@,
            ApplicationError::InvalidCredentials(_) => "InvalidCredentials"@,
            ApplicationError::Network(_) => "Network"@,
            ApplicationError::InvalidJson(_) => "InvalidJson"@,
            ApplicationError::InvalidJsonLookup { .. } => "InvalidJsonLookup"@,
            ApplicationError::SchwabAccountDeserialization(_) => "SchwabAccountDeserialization"@,
            ApplicationError::QuoteResponseDeserialization(_) => "QuoteResponseDeserialization"@,
            ApplicationError::ChannelBroadcastFailed(_) => "ChannelBroadcastFailed"@,
            ApplicationError::Polling(_) => "Polling"@,
            ApplicationError::MissingQueryParameters(_) => "MissingQueryParameters"@,
        }
    }

    pub fn kind_name(&self) -> (r: String)
        ensures
            r@ == self.spec_kind(),
    {
        let mut s = String::new();
        match self {
            ApplicationError::MissingAuthentication => s.append("MissingAuthentication"),
            ApplicationError::InvalidWebSocketPayload => s.append("InvalidWebSocketPayload"),
            ApplicationError::InvalidCredentials(_) => s.append("InvalidCredentials"),
            ApplicationError::Network(_) => s.append("Network"),
            ApplicationError::InvalidJson(_) => s.append("InvalidJson"),
            ApplicationError::InvalidJsonLookup { .. } => s.append("InvalidJsonLookup"),
            ApplicationError::SchwabAccountDeserialization(_) => s.append(
                "SchwabAccountDeserialization",
            ),
            ApplicationError::QuoteResponseDeserialization(_) => s.append(
                "QuoteResponseDeserialization",
            ),
            ApplicationError::ChannelBroadcastFailed(_) => s.append("ChannelBroadcastFailed"),
            ApplicationError::Polling(_) => s.append("Polling"),
            ApplicationError::MissingQueryParameters(_) => s.append("MissingQueryParameters"),
        }
        s
    }

    /// The human-readable text of this failure.
    pub open spec fn spec_message(self) -> Seq<char>
        decreases self,
    {
        match self {
            ApplicationError::MissingAuthentication => "missing authentication cookie"@,
            ApplicationError::InvalidWebSocketPayload => (
            "invalid WebSocket payload; expected JSON control message of the form: {\"type\":\"add|remove\",\"symbols\":[\"AAPL\",\"MSFT\",...]}"@
            ),
            ApplicationError::InvalidCredentials(e) => "invalid credentials string: "@
                + e.spec_message(),
            ApplicationError::Network(m) => "network error: "@ + m@,
            ApplicationError::InvalidJson(m) => "expected json: "@ + m@,
            ApplicationError::InvalidJsonLookup { index, object } => index@ + " not found in "@
                + object@,
            ApplicationError::SchwabAccountDeserialization(m) => (
            "SchwabAccount deserialization failed: "@ + m@
            ),
            ApplicationError::QuoteResponseDeserialization(m) => (
            "QuoteResponse deserialization failed: "@ + m@
            ),
            ApplicationError::ChannelBroadcastFailed(e) => "channel failed: "@ + e.spec_message(),
            ApplicationError::Polling(e) => "shared error in polling: "@ + e.spec_message(),
            ApplicationError::MissingQueryParameters(ps) => (
            "missing required query parameters: "@ + quoted_list(ps.deep_view())
            ),
        }
    }

    pub fn message(&self) -> (r: String)
        ensures
            r@ == self.spec_message(),
        decreases *self,
    {
        let mut s = String::new();
        match self {
            ApplicationError::MissingAuthentication => {
                s.append("missing authentication cookie");
            },
            ApplicationError::InvalidWebSocketPayload => {
                s.append(
                    "invalid WebSocket payload; expected JSON control message of the form: {\"type\":\"add|remove\",\"symbols\":[\"AAPL\",\"MSFT\",...]}",
                );
            },
            ApplicationError::InvalidCredentials(e) => {
                s.append("invalid credentials string: ");
                let inner = e.message();
                s.append(inner.as_str());
            },
            ApplicationError::Network(m) => {
                s.append("network error: ");
                s.append(m.as_str());
            },
            ApplicationError::InvalidJson(m) => {
                s.append("expected json: ");
                s.append(m.as_str());
            },
            ApplicationError::InvalidJsonLookup { index, object } => {
                s.append(index.as_str());
                s.append(" not found in ");
                s.append(object.as_str());
            },
            ApplicationError::SchwabAccountDeserialization(m) => {
                s.append("SchwabAccount deserialization failed: ");
                s.append(m.as_str());
            },
            ApplicationError::QuoteResponseDeserialization(m) => {
                s.append("QuoteResponse deserialization failed: ");
                s.append(m.as_str());
            },
            ApplicationError::ChannelBroadcastFailed(e) => {
                s.append("channel failed: ");
                let inner = e.message();
                s.append(inner.as_str());
            },
            ApplicationError::Polling(e) => {
                s.append("shared error in polling: ");
                let inner = e.message();
                s.append(inner.as_str());
            },
            ApplicationError::MissingQueryParameters(ps) => {
                s.append("missing required query parameters: ");
                let list = render_quoted_list(ps);
                s.append(list.as_str());
            },
        }
        s
    }

    /// The response category of this failure at the HTTP edge: authentication
    /// failures are unauthorized, malformed input is a bad request, and every
    /// upstream, transport, decode or channel failure is an internal error.
    pub open spec fn spec_status(self) -> ResponseStatus {
        match self {
            ApplicationError::MissingAuthentication => ResponseStatus::Unauthorized,
            ApplicationError::InvalidCredentials(_) => ResponseStatus::Unauthorized,
            ApplicationError::InvalidWebSocketPayload => ResponseStatus::BadRequest,
            ApplicationError::MissingQueryParameters(_) => ResponseStatus::BadRequest,
            _ => ResponseStatus::InternalServerError,
        }
    }

    pub fn response_status(&self) -> (r: ResponseStatus)
        ensures
            r == self.spec_status(),
    {
        match self {
            ApplicationError::MissingAuthentication => ResponseStatus::Unauthorized,
            ApplicationError::InvalidCredentials(_) => ResponseStatus::Unauthorized,
            ApplicationError::InvalidWebSocketPayload => ResponseStatus::BadRequest,
            ApplicationError::MissingQueryParameters(_) => ResponseStatus::BadRequest,
            _ => ResponseStatus::InternalServerError,
        }
    }
}

impl CredentialsError {
    /// The human-readable text of this failure.
    pub open spec fn spec_message(self) -> Seq<char> {
        match self {
            CredentialsError::Decode(m) => "could not decode credential: "@ + m@,
            CredentialsError::Utf8(m) => "encountered invalid UTF 8: "@ + m@,
            CredentialsError::SerDe(m) => "invalid JSON for Credentials: "@ + m@,
            CredentialsError::Oauth2(m) => "error in oauth flow: "@ + m@,
        }
    }

    pub fn message(&self) -> (r: String)
        ensures
            r@ == self.spec_message(),
    {
        let mut s = String::new();
        match self {
            CredentialsError::Decode(m) => {
                s.append("could not decode credential: ");
                s.append(m.as_str());
            },
            CredentialsError::Utf8(m) => {
                s.append("encountered invalid UTF 8: ");
                s.append(m.as_str());
            },
            CredentialsError::SerDe(m) => {
                s.append("invalid JSON for Credentials: ");
                s.append(m.as_str());
            },
            CredentialsError::Oauth2(m) => {
                s.append("error in oauth flow: ");
                s.append(m.as_str());
            },
        }
        s
    }
}

} // verus!
