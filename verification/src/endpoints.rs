use vstd::prelude::*;
use vstd::string::StringExecFns;

use crate::errors::{ApplicationError, RecvError, ResponseStatus};
use crate::json::is_ws;
use crate::oauth::Credentials;
use crate::poller::{extend_unique_seq, Subscription};
use crate::quotes::{QuoteOutcome, QuotesState};
use crate::text::{chars_to_string, str_to_chars};

verus! {

/// The query parameters of the one-shot quote request.
pub struct QuotesQuery {
    pub symbols: Option<String>,
}

/// The first position at or after `i` holding a comma, or the end.
pub open spec fn first_comma(s: Seq<char>, i: int) -> int
    decreases s.len() - i,
{
    if i < s.len() && s[i] != ',' {
        first_comma(s, i + 1)
    } else {
        i
    }
}

/// `f` without leading and trailing whitespace.
pub open spec fn sp_trim(f: Seq<char>) -> Seq<char>
    decreases f.len(),
{
    if f.len() == 0 {
        f
    } else if is_ws(f.first()) {
        sp_trim(f.drop_first())
    } else if is_ws(f.last()) {
        sp_trim(f.drop_last())
    } else {
        f
    }
}

/// The symbols of the comma-separated list in `s` from position `i` on:
/// each field trimmed, empty fields dropped. The field's end never lies
/// before `i` nor past the end; the bounds are spelled out for the
/// termination measure.
pub open spec fn symbols_from(s: Seq<char>, i: int) -> Seq<Seq<char>>
    decreases s.len() - i,
{
    let c0 = first_comma(s, i);
    let c = if c0 < i {
        i
    } else if c0 > s.len() {
        s.len() as int
    } else {
        c0
    };
    let t = sp_trim(s.subrange(i, c));
    let head: Seq<Seq<char>> = if t.len() == 0 {
        Seq::empty()
    } else {
        seq![t]
    };
    if c >= s.len() {
        head
    } else {
        head + symbols_from(s, c + 1)
    }
}

/// The symbols a raw query value denotes.
pub open spec fn symbols_spec(s: Seq<char>) -> Seq<Seq<char>> {
    symbols_from(s, 0)
}

/// Splits out the symbols of `chars` from position `i` on, appending them
/// to `out`.
fn split_symbols_from(chars: &Vec<char>, i: usize, out: &mut Vec<String>)
    requires
        i <= chars@.len(),
    ensures
        final(out).deep_view() == old(out).deep_view() + symbols_from(chars@, i as int),
    decreases chars@.len() - i,
{
    // find the end of this field
    let mut c = i;
    while c < chars.len() && chars[c] != ','
        invariant
            i <= c <= chars@.len(),
            first_comma(chars@, i as int) == first_comma(chars@, c as int),
        decreases chars@.len() - c,
    {
        c += 1;
    }
    proof {
        assert(first_comma(chars@, c as int) == c as int);
    }
    // trim the field
    let mut a = i;
    let mut b = c;
    while a < b && crate::json::is_ws_exec(chars[a])
        invariant
            i <= a <= b <= chars@.len(),
            sp_trim(chars@.subrange(i as int, c as int)) == sp_trim(
                chars@.subrange(a as int, b as int),
            ),
            b == c,
        decreases b - a,
    {
        proof {
            assert(chars@.subrange(a as int, b as int).drop_first() =~= chars@.subrange(
                a as int + 1,
                b as int,
            ));
        }
        a += 1;
    }
    while b > a && crate::json::is_ws_exec(chars[b - 1])
        invariant
            i <= a <= b <= c <= chars@.len(),
            sp_trim(chars@.subrange(i as int, c as int)) == sp_trim(
                chars@.subrange(a as int, b as int),
            ),
            a < b ==> !is_ws(chars@[a as int]),
        decreases b - a,
    {
        proof {
            assert(chars@.subrange(a as int, b as int).drop_last() =~= chars@.subrange(
                a as int,
                b as int - 1,
            ));
            assert(chars@.subrange(a as int, b as int).first() == chars@[a as int]);
        }
        b -= 1;
    }
    let ghost trimmed = sp_trim(chars@.subrange(i as int, c as int));
    proof {
        let f = chars@.subrange(a as int, b as int);
        if f.len() > 0 {
            assert(f.first() == chars@[a as int]);
            assert(f.last() == chars@[b as int - 1]);
        }
        assert(sp_trim(f) == f);
        assert(trimmed == f);
    }
    let ghost entry = out.deep_view();
    if b > a {
        let mut field: Vec<char> = Vec::new();
        let mut k = a;
        while k < b
            invariant
                a <= k <= b <= chars@.len(),
                field@ =~= chars@.subrange(a as int, k as int),
            decreases b - k,
        {
            field.push(chars[k]);
            proof {
                assert(field@ =~= chars@.subrange(a as int, k as int + 1));
            }
            k += 1;
        }
        proof {
            assert(field@ =~= chars@.subrange(a as int, b as int));
        }
        out.push(chars_to_string(&field));
        proof {
            assert(out.deep_view() =~= entry.push(trimmed));
        }
    }
    proof {
        let head: Seq<Seq<char>> = if trimmed.len() == 0 {
            Seq::empty()
        } else {
            seq![trimmed]
        };
        assert(out.deep_view() =~= entry + head);
    }
    if c < chars.len() {
        split_symbols_from(chars, c + 1, out);
        proof {
            let head: Seq<Seq<char>> = if trimmed.len() == 0 {
                Seq::empty()
            } else {
                seq![trimmed]
            };
            assert(symbols_from(chars@, i as int) == head + symbols_from(chars@, c as int + 1));
            assert(out.deep_view() =~= entry + symbols_from(chars@, i as int));
        }
    } else {
        proof {
            let head: Seq<Seq<char>> = if trimmed.len() == 0 {
                Seq::empty()
            } else {
                seq![trimmed]
            };
            assert(symbols_from(chars@, i as int) == head);
        }
    }
}

/// Splits a comma-separated symbol list: fields trimmed of surrounding
/// whitespace, empty fields dropped.
pub fn split_symbols(raw: &str) -> (r: Vec<String>)
    ensures
        r.deep_view() == symbols_spec(raw@),
{
    let chars = str_to_chars(raw);
    let mut out: Vec<String> = Vec::new();
    proof {
        assert(out.deep_view() =~= Seq::<Seq<char>>::empty());
    }
    split_symbols_from(&chars, 0, &mut out);
    proof {
        assert(Seq::<Seq<char>>::empty() + symbols_from(raw@, 0) =~= symbols_from(raw@, 0));
    }
    out
}

/// Reads the one-shot query: a missing `symbols` value is the
/// missing-parameter failure naming `q`; otherwise the raw value splits
/// into its symbols.
pub fn parse_quotes_query(q: &QuotesQuery) -> (r: Result<Vec<String>, ApplicationError>)
    ensures
        (match r {
            Ok(ss) => q.symbols matches Some(s) && ss.deep_view() == symbols_spec(s@),
            Err(e) => {
                &&& q.symbols is None
                &&& e matches ApplicationError::MissingQueryParameters(ps)
                &&& ps.deep_view() =~= seq!["q"@]
            },
        }),
{
    match &q.symbols {
        Some(s) => Ok(split_symbols(s.as_str())),
        None => {
            let mut name = String::new();
            name.append("q");
            let mut ps: Vec<String> = Vec::new();
            ps.push(name);
            proof {
                assert(ps.deep_view() =~= seq!["q"@]);
            }
            Err(ApplicationError::MissingQueryParameters(ps))
        },
    }
}

/// Prepares the one-shot request on the shared service: installs the
/// validated credential, appends the symbols to the pending set — a
/// permanent addition, never pruned by this path — and attaches one
/// subscription that will observe the next cycle.
pub fn one_shot_setup(service: &mut QuotesState, credentials: Credentials, symbols: Vec<String>)
    -> (sub: Subscription)
    requires
        old(service).poller.subscribers < usize::MAX,
    ensures
        final(service).credentials == Some(credentials),
        final(service).poller.pending_view() == extend_unique_seq(
            old(service).poller.pending_view(),
            symbols.deep_view(),
        ),
        final(service).poller.subscribers == old(service).poller.subscribers + 1,
        final(service).poller.running == (old(service).poller.running || old(
            service,
        ).poller.subscribers == 0),
        final(service).poller.cycles == old(service).poller.cycles,
        final(service).poller.history == old(service).poller.history,
        sub.cursor == old(service).poller.history@.len(),
        sub.wf(final(service).poller),
{
    service.set_credentials(credentials);
    service.extend_quotes(symbols);
    service.subscribe()
}

/// Maps the single awaited broadcast value to the HTTP result: the payload
/// body on success; otherwise the response category and a structured error
/// body — a channel failure and a shared polling failure are both internal
/// errors.
pub fn one_shot_result(outcome: Result<&QuoteOutcome, RecvError>) -> (r: Result<
    String,
    (ResponseStatus, String),
>)
    ensures
        (match outcome {
            Ok(oc) => match oc {
                Ok(p) => r matches Ok(body) && body@ == p.body@,
                Err(e) => r matches Err((st, body)) && st == ResponseStatus::InternalServerError
                    && body@ == crate::frames::err_frame_text(
                    "Polling"@,
                    "shared error in polling: "@ + e.spec_message(),
                ),
            },
            Err(e) => r matches Err((st, body)) && st == ResponseStatus::InternalServerError
                && body@ == crate::frames::err_frame_text(
                "ChannelBroadcastFailed"@,
                "channel failed: "@ + e.spec_message(),
            ),
        }),
{
    match outcome {
        Ok(oc) => match oc {
            Ok(p) => {
                let mut body = String::new();
                body.append(p.body.as_str());
                Ok(body)
            },
            Err(e) => {
                let mut kind = String::new();
                kind.append("Polling");
                let mut msg = String::new();
                msg.append("shared error in polling: ");
                let inner = e.message();
                msg.append(inner.as_str());
                Err((ResponseStatus::InternalServerError, crate::frames::ws_err_parts(kind, msg)))
            },
        },
        Err(e) => {
            let mut kind = String::new();
            kind.append("ChannelBroadcastFailed");
            let mut msg = String::new();
            msg.append("channel failed: ");
            let inner = e.message();
            msg.append(inner.as_str());
            Err((ResponseStatus::InternalServerError, crate::frames::ws_err_parts(kind, msg)))
        },
    }
}

} // verus!
