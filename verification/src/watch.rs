use vstd::prelude::*;
use vstd::string::StringExecFns;

use crate::errors::ApplicationError;
use crate::errors::RecvError;
use crate::frames::{
    err_frame_text, ok_frame_text, quote_frame_text, spec_parse_client_msg, subscribed_frame_text,
    ClientMsg, ClientMsgSpec,
};
use crate::oauth::Credentials;
use crate::poller::{extend_unique_seq, recv_spec, Poller, Subscription};
use crate::quotes::QuotesState;
use crate::text::clone_strings;

verus! {

/// Where a connection stands in the watch protocol.
pub enum ConnState {
    /// Opened, not yet authenticated.
    Connecting,
    /// Authenticated, racing inbound frames against broadcast results.
    Looping,
    /// Done; its subscription is gone.
    Closed,
}

/// What `cur` becomes when every entry of `rem` is subtracted.
pub open spec fn remove_all_seq(cur: Seq<Seq<char>>, rem: Seq<Seq<char>>) -> Seq<Seq<char>>
    decreases cur.len(),
{
    if cur.len() == 0 {
        Seq::empty()
    } else {
        let rest = remove_all_seq(cur.drop_last(), rem);
        if rem.contains(cur.last()) {
            rest
        } else {
            rest.push(cur.last())
        }
    }
}

/// What the connection must do after a control frame.
pub enum FrameAction {
    /// Answer a ping at the transport level with the same payload; the
    /// watch-list is untouched and no acknowledgement frame is sent.
    Pong(Vec<u8>),
    /// Send this acknowledgement frame echoing the accepted message.
    Ack(String),
    /// Send this structured error frame; the loop continues.
    Error(String),
}

/// What the connection must do on connect.
pub enum ConnectDecision {
    /// No credential: send this error frame and close without entering the
    /// loop.
    Reject { frame: String },
    /// The credential expired: refresh it with this token first.
    NeedsRefresh { refresh_token: String },
    /// The credential is valid: install it and attach.
    Ready,
}

/// One watch-protocol connection: its state, its private watch-list, and
/// its attachment to the shared service.
pub struct WatchConn {
    pub state: ConnState,
    /// The symbols this connection wants, kept unique and in arrival order.
    pub tickers: Vec<String>,
    pub sub: Option<Subscription>,
}

impl WatchConn {
    /// The watch-list as plain character sequences.
    pub open spec fn tickers_view(self) -> Seq<Seq<char>> {
        self.tickers.deep_view()
    }

    /// A fresh connection: not yet authenticated, wanting nothing.
    pub fn new() -> (r: Self)
        ensures
            r.state is Connecting,
            r.tickers_view() == Seq::<Seq<char>>::empty(),
            r.sub is None,
    {
        let r = WatchConn { state: ConnState::Connecting, tickers: Vec::new(), sub: None };
        proof {
            assert(r.tickers.deep_view() =~= Seq::<Seq<char>>::empty());
        }
        r
    }

    /// Decides the connect step: a missing credential is rejected with
    /// exactly one authentication error frame and the connection closes
    /// before the loop is ever entered; an expired credential must be
    /// refreshed; a valid one proceeds.
    pub fn on_connect(&mut self, cred: &Option<Credentials>, now: i64) -> (r: ConnectDecision)
        requires
            old(self).state is Connecting,
        ensures
            final(self).tickers == old(self).tickers,
            final(self).sub == old(self).sub,
            (match cred {
                None => {
                    &&& r matches ConnectDecision::Reject { frame } && frame@ == err_frame_text(
                        ApplicationError::MissingAuthentication.spec_kind(),
                        ApplicationError::MissingAuthentication.spec_message(),
                    )
                    &&& final(self).state is Closed
                },
                Some(c) => {
                    &&& (c.spec_expired(now as int) ==> (r matches ConnectDecision::NeedsRefresh {
                        refresh_token,
                    } && refresh_token@ == c.refresh_token@) && final(self).state is Connecting)
                    &&& (!c.spec_expired(now as int) ==> r is Ready
                        && final(self).state is Connecting)
                },
            }),
    {
        match cred {
            None => {
                self.state = ConnState::Closed;
                let frame = crate::frames::ws_err(&ApplicationError::MissingAuthentication);
                ConnectDecision::Reject { frame }
            },
            Some(c) => {
                if c.is_expired(now) {
                    ConnectDecision::NeedsRefresh { refresh_token: c.refresh_token().clone() }
                } else {
                    ConnectDecision::Ready
                }
            },
        }
    }

    /// Records a failed credential refresh: fatal, the connection closes
    /// with one structured error frame naming the exchange's failure.
    pub fn refresh_failed(&mut self, message: String) -> (frame: String)
        ensures
            final(self).state is Closed,
            final(self).tickers == old(self).tickers,
            final(self).sub == old(self).sub,
            frame@ == err_frame_text(
                "InvalidCredentials"@,
                "invalid credentials string: "@ + ("error in oauth flow: "@ + message@),
            ),
    {
        self.state = ConnState::Closed;
        let e = ApplicationError::InvalidCredentials(
            crate::errors::CredentialsError::Oauth2(message),
        );
        crate::frames::ws_err(&e)
    }

    /// Attaches the authenticated connection: one fresh subscription to the
    /// shared service, and the greeting frame to send.
    pub fn attach(&mut self, service: &mut QuotesState) -> (greeting: String)
        requires
            old(self).state is Connecting,
            old(self).sub is None,
            old(service).poller.subscribers < usize::MAX,
        ensures
            final(self).state is Looping,
            final(self).tickers == old(self).tickers,
            final(self).sub matches Some(sub) && sub.cursor == old(service).poller.history@.len(),
            greeting@ == subscribed_frame_text(),
            final(service).poller == (Poller {
                subscribers: (old(service).poller.subscribers + 1) as usize,
                running: old(service).poller.running || old(service).poller.subscribers == 0,
                ..old(service).poller
            }),
            final(service).credentials == old(service).credentials,
    {
        let sub = service.subscribe();
        self.sub = Some(sub);
        self.state = ConnState::Looping;
        crate::frames::ws_subscribed()
    }

    /// Handles one inbound text frame while looping: `add` unions into the
    /// watch-list, `remove` subtracts, `subscribe` replaces it wholesale,
    /// and `ping` is answered at the transport level with its own payload
    /// and touches nothing. Every accepted mutation is acknowledged by a
    /// frame echoing the message; a malformed payload draws a structured
    /// error frame and the loop continues. Afterwards the connection's
    /// whole watch-list overwrites the shared pending set.
    pub fn on_text_frame(&mut self, txt: &str, service: &mut QuotesState) -> (r: FrameAction)
        requires
            old(self).state is Looping,
        ensures
            final(self).state is Looping,
            final(self).sub == old(self).sub,
            final(service).credentials == old(service).credentials,
            final(service).poller == (Poller {
                pending: final(service).poller.pending,
                ..old(service).poller
            }),
            final(service).poller.pending_view() == final(self).tickers_view(),
            (match spec_parse_client_msg(txt@) {
                None => {
                    &&& r matches FrameAction::Error(f) && f@ == err_frame_text(
                        ApplicationError::InvalidWebSocketPayload.spec_kind(),
                        ApplicationError::InvalidWebSocketPayload.spec_message(),
                    )
                    &&& final(self).tickers == old(self).tickers
                },
                Some(m) => match m {
                    ClientMsgSpec::Ping(data) => {
                        &&& r matches FrameAction::Pong(p) && p@ == data
                        &&& final(self).tickers == old(self).tickers
                    },
                    ClientMsgSpec::Add(ss) => {
                        &&& r matches FrameAction::Ack(f) && f@ == ok_frame_text(
                            ClientMsgSpec::Add(ss),
                        )
                        &&& final(self).tickers_view() == extend_unique_seq(
                            old(self).tickers_view(),
                            ss,
                        )
                    },
                    ClientMsgSpec::Remove(ss) => {
                        &&& r matches FrameAction::Ack(f) && f@ == ok_frame_text(
                            ClientMsgSpec::Remove(ss),
                        )
                        &&& final(self).tickers_view() == remove_all_seq(
                            old(self).tickers_view(),
                            ss,
                        )
                    },
                    ClientMsgSpec::Subscribe(ss) => {
                        &&& r matches FrameAction::Ack(f) && f@ == ok_frame_text(
                            ClientMsgSpec::Subscribe(ss),
                        )
                        &&& final(self).tickers_view() == extend_unique_seq(
                            Seq::<Seq<char>>::empty(),
                            ss,
                        )
                    },
                },
            }),
    {
        let action = match crate::frames::parse_client_msg(txt) {
            Err(e) => FrameAction::Error(crate::frames::ws_err(&e)),
            Ok(ClientMsg::Ping(data)) => FrameAction::Pong(data),
            Ok(msg) => {
                let ack = crate::frames::ws_ok(&msg);
                match msg {
                    ClientMsg::Add { symbols } => {
                        self.extend_tickers(symbols);
                    },
                    ClientMsg::Remove { symbols } => {
                        self.remove_tickers(&symbols);
                    },
                    ClientMsg::Subscribe { symbols } => {
                        self.tickers = Vec::new();
                        proof {
                            assert(self.tickers.deep_view() =~= Seq::<Seq<char>>::empty());
                        }
                        self.extend_tickers(symbols);
                    },
                    ClientMsg::Ping(_) => {},
                }
                FrameAction::Ack(ack)
            },
        };
        let push = clone_strings(&self.tickers);
        proof {
            assert(push.deep_view() =~= self.tickers.deep_view());
        }
        service.set_quotes(push);
        action
    }

    /// Unions `add` into the watch-list, keeping it duplicate-free.
    fn extend_tickers(&mut self, add: Vec<String>)
        ensures
            final(self).tickers.deep_view() == extend_unique_seq(
                old(self).tickers.deep_view(),
                add.deep_view(),
            ),
            final(self).state == old(self).state,
            final(self).sub == old(self).sub,
    {
        crate::poller::extend_unique_strings(&mut self.tickers, add);
    }

    /// Subtracts `rem` from the watch-list.
    fn remove_tickers(&mut self, rem: &Vec<String>)
        ensures
            final(self).tickers.deep_view() == remove_all_seq(
                old(self).tickers.deep_view(),
                rem.deep_view(),
            ),
            final(self).state == old(self).state,
            final(self).sub == old(self).sub,
    {
        let ghost orig = self.tickers.deep_view();
        let ghost rems = rem.deep_view();
        let mut out: Vec<String> = Vec::new();
        let mut i: usize = 0;
        while i < self.tickers.len()
            invariant
                i <= self.tickers@.len(),
                orig == self.tickers.deep_view(),
                rems == rem.deep_view(),
                out.deep_view() == remove_all_seq(orig.take(i as int), rems),
            decreases self.tickers@.len() - i,
        {
            let mut found = false;
            let mut j: usize = 0;
            while j < rem.len()
                invariant
                    j <= rem@.len(),
                    rems == rem.deep_view(),
                    orig == self.tickers.deep_view(),
                    i < self.tickers@.len(),
                    found <==> exists|k: int| 0 <= k < j && rems[k] == orig[i as int],
                decreases rem@.len() - j,
            {
                if rem[j] == self.tickers[i] {
                    proof {
                        assert(rems[j as int] == rem@[j as int]@);
                        assert(orig[i as int] == self.tickers@[i as int]@);
                    }
                    found = true;
                }
                j += 1;
            }
            proof {
                assert(found <==> rems.contains(orig[i as int])) by {
                    if rems.contains(orig[i as int]) {
                        let k = choose|k: int|
                            0 <= k < rems.len() && rems[k] == orig[i as int];
                        assert(0 <= k < rem@.len());
                    }
                }
                assert(orig.take(i as int + 1).drop_last() =~= orig.take(i as int));
                assert(orig.take(i as int + 1).last() == orig[i as int]);
            }
            if !found {
                let ghost prev = out.deep_view();
                let s = self.tickers[i].clone();
                out.push(s);
                proof {
                    assert(out.deep_view() =~= prev.push(orig[i as int]));
                }
            }
            i += 1;
        }
        proof {
            assert(orig.take(self.tickers@.len() as int) =~= orig);
        }
        self.tickers = out;
    }

    /// Forwards one broadcast value: a success becomes a quote frame around
    /// the shared payload, a cycle failure becomes a structured error frame
    /// carrying the shared failure's message — the identical value every
    /// other subscriber of the cycle observes. Afterwards the watch-list is
    /// pushed into the shared pending set again, re-asserting this
    /// connection's demand. A channel failure (lagging too far, or a closed
    /// channel) ends the connection: the caller must close it.
    pub fn on_broadcast(&mut self, service: &mut QuotesState) -> (r: Result<String, RecvError>)
        requires
            old(self).state is Looping,
            old(self).sub matches Some(sub) && sub.wf(old(service).poller) && sub.spec_ready(
                old(service).poller,
            ),
        ensures
            final(self).state is Looping,
            final(self).tickers == old(self).tickers,
            final(service).credentials == old(service).credentials,
            ({
                let (res, cursor2) = recv_spec(old(service).poller, old(self).sub->0.cursor as int);
                &&& final(self).sub matches Some(sub2) && sub2.cursor as int == cursor2
                &&& (match res {
                    Ok(outcome) => {
                        &&& final(service).poller == (Poller {
                            pending: final(service).poller.pending,
                            ..old(service).poller
                        })
                        &&& final(service).poller.pending_view() == final(self).tickers_view()
                        &&& (match outcome {
                            Ok(payload) => r matches Ok(f) && f@ == quote_frame_text(
                                payload.body@,
                            ),
                            Err(e) => r matches Ok(f) && f@ == err_frame_text(
                                "Polling"@,
                                "shared error in polling: "@ + e.spec_message(),
                            ),
                        })
                    },
                    Err(e) => r == Result::<String, RecvError>::Err(e) && final(service).poller
                        == old(service).poller,
                })
            }),
    {
        let mut sub = match self.sub.take() {
            Some(s) => s,
            None => {
                proof {
                    assert(false);
                }
                return Err(RecvError::Closed);
            },
        };
        let outcome = sub.recv(&service.poller);
        self.sub = Some(sub);
        let frame = match outcome {
            Ok(Ok(payload)) => crate::frames::ws_quote(&payload.body),
            Ok(Err(e)) => {
                let mut msg = String::new();
                msg.append("shared error in polling: ");
                let inner = e.message();
                msg.append(inner.as_str());
                let mut kind = String::new();
                kind.append("Polling");
                crate::frames::ws_err_parts(kind, msg)
            },
            Err(e) => {
                return Err(e);
            },
        };
        let push = clone_strings(&self.tickers);
        proof {
            assert(push.deep_view() =~= self.tickers.deep_view());
        }
        service.set_quotes(push);
        Ok(frame)
    }

    /// Closes the connection: the subscription is dropped, decrementing the
    /// shared subscriber count — when it was the last one, the shared loop
    /// stops and the shared pending set empties.
    pub fn close(&mut self, service: &mut QuotesState)
        requires
            old(self).sub is Some ==> old(service).poller.subscribers >= 1,
        ensures
            final(self).state is Closed,
            final(self).sub is None,
            final(self).tickers == old(self).tickers,
            final(service).credentials == old(service).credentials,
            old(self).sub is None ==> *final(service) == *old(service),
            old(self).sub is Some ==> {
                &&& final(service).poller.subscribers == old(service).poller.subscribers - 1
                &&& (old(service).poller.subscribers == 1 ==> !final(service).poller.running
                    && final(service).poller.pending_view() == Seq::<Seq<char>>::empty())
            },
    {
        self.state = ConnState::Closed;
        match self.sub.take() {
            Some(sub) => {
                service.unsubscribe(sub);
            },
            None => {},
        }
    }
}

} // verus!
