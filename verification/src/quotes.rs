use vstd::prelude::*;
use vstd::string::StringExecFns;

use crate::errors::ApplicationError;
use crate::oauth::Credentials;
use crate::poller::{Poller, Subscription};

verus! {

/// One successful upstream quote response, carried as its JSON text: the
/// upstream wire schema is opaque here, already parsed and validated at the
/// edge.
#[derive(Debug)]
pub struct QuotePayload {
    pub body: String,
}

/// What one poll cycle broadcasts: the payload, or one failure value that
/// every subscriber of the cycle observes identically.
pub type QuoteOutcome = Result<QuotePayload, ApplicationError>;

/// What the poll loop must do next, decided at the start of a cycle.
pub enum CyclePlan {
    /// Nobody is subscribed: the loop terminates.
    Stop,
    /// The taken batch was empty: broadcast an empty success without any
    /// upstream call.
    PublishEmpty,
    /// The credential expired: broadcast the cycle's authentication failure
    /// without any upstream call.
    PublishAuthError,
    /// Call upstream with this batch and token, then publish the outcome.
    Fetch { symbols: Vec<String>, access_token: String },
}

/// The elements of `l` joined by commas.
pub open spec fn join_commas(l: Seq<Seq<char>>) -> Seq<char>
    decreases l.len(),
{
    if l.len() == 0 {
        Seq::empty()
    } else if l.len() == 1 {
        l[0]
    } else {
        join_commas(l.drop_last()) + seq![','] + l.last()
    }
}

/// Joins symbols with commas, as the upstream query expects.
pub fn join_symbols(l: &Vec<String>) -> (r: String)
    ensures
        r@ == join_commas(l.deep_view()),
{
    let mut s = String::new();
    let mut i: usize = 0;
    while i < l.len()
        invariant
            i <= l.len(),
            s@ == join_commas(l.deep_view().take(i as int)),
        decreases l.len() - i,
    {
        if i > 0 {
            s.append(",");
        }
        s.append(l[i].as_str());
        proof {
            reveal_strlit(",");
            let dv = l.deep_view();
            assert(dv[i as int] == l@[i as int]@);
            assert(dv.take(i as int + 1).drop_last() =~= dv.take(i as int));
            assert(dv.take(i as int + 1).last() == dv[i as int]);
            assert(dv.take(i as int + 1)[0] == dv[0]);
            assert(s@ =~= join_commas(dv.take(i as int + 1)));
        }
        i += 1;
    }
    proof {
        assert(l.deep_view().take(l.len() as int) =~= l.deep_view());
    }
    s
}

/// The full upstream quote request for a batch of symbols.
pub fn quote_request_url(symbols: &Vec<String>) -> (r: String)
    ensures
        r@ == "https://api.schwabapi.com/marketdata/v1/quotes?symbols="@ + join_commas(
            symbols.deep_view(),
        )
            + "&fields=quote,fundamental,extended,reference,regular&indicative=false"@,
{
    let mut s = String::new();
    s.append("https://api.schwabapi.com/marketdata/v1/quotes?symbols=");
    let joined = join_symbols(symbols);
    s.append(joined.as_str());
    s.append("&fields=quote,fundamental,extended,reference,regular&indicative=false");
    s
}

/// The quote-distribution service: one poller specialized to ticker
/// symbols and quote outcomes, plus the credential cell its fetch cycles
/// read.
pub struct QuotesState {
    pub poller: Poller<QuoteOutcome>,
    pub credentials: Option<Credentials>,
}

impl QuotesState {
    /// A fresh service: a 16-slot broadcast buffer, a half-second cycle
    /// delay, and no credential installed yet.
    pub fn new() -> (r: Self)
        ensures
            r.poller.buffer == 16,
            r.poller.delay_ms == 500,
            r.poller.subscribers == 0,
            !r.poller.running,
            !r.poller.closed,
            r.poller.pending_view() == Seq::<Seq<char>>::empty(),
            r.poller.history@.len() == 0,
            r.poller.cycles == 0,
            r.credentials is None,
    {
        QuotesState { poller: Poller::new(16, 500), credentials: None }
    }

    /// Replaces the credential cell's contents.
    pub fn set_credentials(&mut self, credentials: Credentials)
        ensures
            final(self).credentials == Some(credentials),
            final(self).poller == old(self).poller,
    {
        self.credentials = Some(credentials);
    }

    /// Replaces the pending symbol set.
    pub fn set_quotes(&mut self, quotes: Vec<String>)
        ensures
            final(self).poller.pending_view() == quotes.deep_view(),
            final(self).poller == (Poller {
                pending: final(self).poller.pending,
                ..old(self).poller
            }),
            final(self).credentials == old(self).credentials,
    {
        self.poller.set_state(quotes);
    }

    /// Appends the symbols not already pending.
    pub fn extend_quotes(&mut self, quotes: Vec<String>)
        ensures
            final(self).poller.pending_view() == crate::poller::extend_unique_seq(
                old(self).poller.pending_view(),
                quotes.deep_view(),
            ),
            final(self).poller == (Poller {
                pending: final(self).poller.pending,
                ..old(self).poller
            }),
            final(self).credentials == old(self).credentials,
    {
        self.poller.extend_unique(quotes);
    }

    /// Attaches one subscriber; the count of fetch invocations is untouched
    /// however many attach.
    pub fn subscribe(&mut self) -> (sub: Subscription)
        requires
            old(self).poller.subscribers < usize::MAX,
        ensures
            final(self).poller == (Poller {
                subscribers: (old(self).poller.subscribers + 1) as usize,
                running: old(self).poller.running || old(self).poller.subscribers == 0,
                ..old(self).poller
            }),
            final(self).credentials == old(self).credentials,
            sub.cursor == old(self).poller.history@.len(),
            sub.wf(final(self).poller),
    {
        self.poller.subscribe()
    }

    /// Detaches one subscriber; when the last leaves, the loop stops and
    /// the pending set is cleared.
    pub fn unsubscribe(&mut self, sub: Subscription)
        requires
            old(self).poller.subscribers >= 1,
        ensures
            final(self).poller.subscribers == old(self).poller.subscribers - 1,
            final(self).credentials == old(self).credentials,
            old(self).poller.subscribers == 1 ==> !final(self).poller.running
                && final(self).poller.pending_view() == Seq::<Seq<char>>::empty(),
            old(self).poller.subscribers > 1 ==> final(self).poller == (Poller {
                subscribers: (old(self).poller.subscribers - 1) as usize,
                ..old(self).poller
            }),
    {
        self.poller.unsubscribe(sub);
    }

    /// Starts one poll cycle at `now`: stop when nobody listens; otherwise
    /// take and clear the pending batch — exactly one fetch invocation per
    /// cycle, no matter how many subscribers — and decide whether the cycle
    /// short-circuits (empty batch, or expired credential) or goes
    /// upstream with the batch and the current access token. A cycle only
    /// runs with a credential installed: its absence is a programming
    /// error, not a runtime condition.
    pub fn begin_cycle(&mut self, now: i64) -> (r: CyclePlan)
        requires
            old(self).credentials is Some || old(self).poller.subscribers == 0,
            old(self).poller.cycles < u64::MAX,
        ensures
            final(self).credentials == old(self).credentials,
            old(self).poller.subscribers == 0 ==> r is Stop && final(self).poller == (Poller {
                running: false,
                ..old(self).poller
            }),
            old(self).poller.subscribers > 0 ==> {
                &&& final(self).poller == (Poller {
                    pending: final(self).poller.pending,
                    cycles: (old(self).poller.cycles + 1) as u64,
                    ..old(self).poller
                })
                &&& final(self).poller.pending_view() == Seq::<Seq<char>>::empty()
                &&& final(self).poller.cycles == old(self).poller.cycles + 1
                &&& (old(self).poller.pending_view().len() == 0 ==> r is PublishEmpty)
                &&& (old(self).poller.pending_view().len() > 0
                    && old(self).credentials->0.spec_expired(now as int) ==> r
                    is PublishAuthError)
                &&& (old(self).poller.pending_view().len() > 0
                    && !old(self).credentials->0.spec_expired(now as int) ==> {
                    &&& r matches CyclePlan::Fetch { symbols, access_token }
                    &&& symbols.deep_view() == old(self).poller.pending_view()
                    &&& access_token@ == old(self).credentials->0.access_token@
                })
            },
    {
        if !self.poller.poll_gate() {
            return CyclePlan::Stop;
        }
        let batch = self.poller.take_batch();
        if batch.len() == 0 {
            proof {
                assert(batch.deep_view().len() == 0);
            }
            return CyclePlan::PublishEmpty;
        }
        proof {
            assert(batch.deep_view().len() > 0);
        }
        let token = match &self.credentials {
            Some(c) => match c.access_token_at(now) {
                Some(t) => t.clone(),
                None => {
                    return CyclePlan::PublishAuthError;
                },
            },
            None => {
                proof {
                    assert(false);
                }
                return CyclePlan::Stop;
            },
        };
        CyclePlan::Fetch { symbols: batch, access_token: token }
    }

    /// Broadcasts one cycle's outcome: every subscriber of the cycle draws
    /// the same value from the channel.
    pub fn publish(&mut self, outcome: QuoteOutcome)
        ensures
            final(self).poller.history@ == old(self).poller.history@.push(outcome),
            final(self).poller == (Poller {
                history: final(self).poller.history,
                ..old(self).poller
            }),
            final(self).credentials == old(self).credentials,
    {
        self.poller.broadcast(outcome);
    }

    /// Broadcasts the empty success that an empty batch short-circuits to:
    /// the serialized form of a response with no quotes.
    pub fn publish_empty_success(&mut self)
        ensures
            final(self).poller.history@.len() == old(self).poller.history@.len() + 1,
            final(self).poller.history@.last() matches Ok(p) && p.body@ == "{}"@,
            final(self).poller == (Poller {
                history: final(self).poller.history,
                ..old(self).poller
            }),
            final(self).credentials == old(self).credentials,
    {
        let mut body = String::new();
        body.append("{}");
        self.publish(Ok(QuotePayload { body }));
    }

    /// Broadcasts the authentication failure of a cycle whose credential
    /// had expired.
    pub fn publish_auth_error(&mut self)
        ensures
            final(self).poller.history@.len() == old(self).poller.history@.len() + 1,
            final(self).poller.history@.last() matches Err(e) && e is MissingAuthentication,
            final(self).poller == (Poller {
                history: final(self).poller.history,
                ..old(self).poller
            }),
            final(self).credentials == old(self).credentials,
    {
        self.publish(Err(ApplicationError::MissingAuthentication));
    }
}

} // verus!
