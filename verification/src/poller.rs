use vstd::prelude::*;

use crate::errors::RecvError;

verus! {

/// What a pending-set entry must be; symbols are plain strings here.
pub trait StateLike {

}

impl StateLike for String {

}

/// Appends to `cur` each entry of `add` that is not already present, keeping
/// order and never introducing a duplicate of anything in `cur`.
pub open spec fn extend_unique_seq(cur: Seq<Seq<char>>, add: Seq<Seq<char>>) -> Seq<Seq<char>>
    decreases add.len(),
{
    if add.len() == 0 {
        cur
    } else {
        let step = if cur.contains(add.first()) {
            cur
        } else {
            cur.push(add.first())
        };
        extend_unique_seq(step, add.drop_first())
    }
}

/// Whether `s` holds no entry twice.
pub open spec fn no_dups(s: Seq<Seq<char>>) -> bool {
    forall|i: int, j: int| 0 <= i < j < s.len() ==> s[i] != s[j]
}

proof fn lemma_push_contains(s: Seq<Seq<char>>, y: Seq<char>, x: Seq<char>)
    ensures
        s.push(y).contains(x) <==> s.contains(x) || x == y,
{
    if s.push(y).contains(x) {
        let i = choose|i: int| 0 <= i < s.push(y).len() && s.push(y)[i] == x;
        if i < s.len() {
            assert(s[i] == x);
        }
    }
    if s.contains(x) {
        let i = choose|i: int| 0 <= i < s.len() && s[i] == x;
        assert(s.push(y)[i] == x);
    }
    if x == y {
        assert(s.push(y)[s.len() as int] == x);
    }
}

proof fn lemma_first_rest_contains(s: Seq<Seq<char>>, x: Seq<char>)
    requires
        s.len() > 0,
    ensures
        s.contains(x) <==> x == s.first() || s.drop_first().contains(x),
{
    if s.contains(x) {
        let i = choose|i: int| 0 <= i < s.len() && s[i] == x;
        if i > 0 {
            assert(s.drop_first()[i - 1] == x);
        }
    }
    if s.drop_first().contains(x) {
        let i = choose|i: int| 0 <= i < s.drop_first().len() && s.drop_first()[i] == x;
        assert(s[i + 1] == x);
    }
    if x == s.first() {
        assert(s[0] == x);
    }
}

/// What the extended list holds: exactly what either input held.
pub proof fn lemma_extend_unique_contains(cur: Seq<Seq<char>>, add: Seq<Seq<char>>, x: Seq<char>)
    ensures
        extend_unique_seq(cur, add).contains(x) <==> cur.contains(x) || add.contains(x),
    decreases add.len(),
{
    if add.len() == 0 {
        assert(!add.contains(x));
    } else {
        let step = if cur.contains(add.first()) {
            cur
        } else {
            cur.push(add.first())
        };
        lemma_extend_unique_contains(step, add.drop_first(), x);
        lemma_push_contains(cur, add.first(), x);
        lemma_first_rest_contains(add, x);
    }
}

/// Extending a duplicate-free list keeps it duplicate-free: repeated calls
/// with overlapping content never produce a duplicate.
pub proof fn lemma_extend_unique_no_dups(cur: Seq<Seq<char>>, add: Seq<Seq<char>>)
    requires
        no_dups(cur),
    ensures
        no_dups(extend_unique_seq(cur, add)),
    decreases add.len(),
{
    if add.len() > 0 {
        let step = if cur.contains(add.first()) {
            cur
        } else {
            cur.push(add.first())
        };
        assert forall|i: int, j: int| 0 <= i < j < step.len() implies step[i] != step[j] by {
            if j == step.len() - 1 && step.len() > cur.len() {
                assert(step[j] == add.first());
                assert(!cur.contains(add.first()));
                assert(step[i] == cur[i]);
                assert(cur.contains(cur[i]));
            }
        }
        lemma_extend_unique_no_dups(step, add.drop_first());
    }
}

proof fn lemma_extend_unique_push(cur: Seq<Seq<char>>, add: Seq<Seq<char>>, x: Seq<char>)
    ensures
        extend_unique_seq(cur, add.push(x)) == (if extend_unique_seq(cur, add).contains(x) {
            extend_unique_seq(cur, add)
        } else {
            extend_unique_seq(cur, add).push(x)
        }),
    decreases add.len(),
{
    if add.len() == 0 {
        let one = add.push(x);
        assert(one.first() == x);
        assert(one.drop_first() =~= Seq::<Seq<char>>::empty());
        let step = if cur.contains(x) {
            cur
        } else {
            cur.push(x)
        };
        assert(extend_unique_seq(cur, one) == extend_unique_seq(step, one.drop_first()));
        assert(extend_unique_seq(step, Seq::<Seq<char>>::empty()) == step);
        assert(extend_unique_seq(cur, add) == cur);
    } else {
        let step = if cur.contains(add.first()) {
            cur
        } else {
            cur.push(add.first())
        };
        assert(add.push(x).first() == add.first());
        assert(add.push(x).drop_first() =~= add.drop_first().push(x));
        assert(extend_unique_seq(cur, add.push(x)) == extend_unique_seq(
            step,
            add.drop_first().push(x),
        ));
        assert(extend_unique_seq(cur, add) == extend_unique_seq(step, add.drop_first()));
        lemma_extend_unique_push(step, add.drop_first(), x);
    }
}

/// Appends to `cur` each entry of `states` that `cur` does not already
/// hold, in order.
pub fn extend_unique_strings(cur: &mut Vec<String>, states: Vec<String>)
    ensures
        final(cur).deep_view() == extend_unique_seq(old(cur).deep_view(), states.deep_view()),
{
    let ghost orig: Seq<Seq<char>> = cur.deep_view();
    let ghost adds: Seq<Seq<char>> = states.deep_view();
    let mut i: usize = 0;
    while i < states.len()
        invariant
            i <= states.len(),
            cur.deep_view() == extend_unique_seq(orig, adds.take(i as int)),
            adds == states.deep_view(),
        decreases states.len() - i,
    {
        let mut found = false;
        let mut j: usize = 0;
        while j < cur.len()
            invariant
                j <= cur.len(),
                adds == states.deep_view(),
                i < states.len(),
                found <==> exists|k: int| 0 <= k < j && cur.deep_view()[k] == adds[i as int],
            decreases cur.len() - j,
        {
            if cur[j] == states[i] {
                proof {
                    assert(cur.deep_view()[j as int] == cur@[j as int]@);
                    assert(adds[i as int] == states@[i as int]@);
                }
                found = true;
            }
            j += 1;
        }
        proof {
            assert(found <==> cur.deep_view().contains(adds[i as int])) by {
                if cur.deep_view().contains(adds[i as int]) {
                    let k = choose|k: int|
                        0 <= k < cur.deep_view().len() && cur.deep_view()[k] == adds[i as int];
                    assert(0 <= k < cur.len());
                }
            }
        }
        if !found {
            let s = states[i].clone();
            cur.push(s);
            proof {
                assert(cur.deep_view() =~= extend_unique_seq(orig, adds.take(i as int)).push(
                    adds[i as int],
                ));
            }
        }
        proof {
            lemma_extend_unique_push(orig, adds.take(i as int), adds[i as int]);
            assert(adds.take(i as int).push(adds[i as int]) =~= adds.take(i as int + 1));
        }
        i += 1;
    }
    proof {
        assert(adds.take(states.len() as int) =~= adds);
    }
}

/// The debounced broadcast poller, modelled as one sequential state machine:
/// the pending parameter set, the subscriber count, the loop's liveness, and
/// the broadcast channel (every value sent so far; the live window is the
/// last `buffer` of them). The driver loop itself — fetch, sleep, await —
/// runs outside; each of its decisions is a method here.
pub struct Poller<T> {
    /// Every value broadcast so far, oldest first.
    pub history: Vec<T>,
    /// Channel capacity: how many values a receiver may fall behind.
    pub buffer: usize,
    /// Fixed delay between poll cycles, in milliseconds; read by the driver.
    pub delay_ms: u64,
    /// Number of live subscriptions.
    pub subscribers: usize,
    /// Whether the poll-loop task is live.
    pub running: bool,
    /// Whether the sender half is gone.
    pub closed: bool,
    /// The pending parameter set, consumed once per poll cycle.
    pub pending: Vec<String>,
    /// How many poll cycles have invoked the fetch operation.
    pub cycles: u64,
}

/// One attachment to a poller: a broadcast receiver position.
pub struct Subscription {
    /// Index into the poller's history of the next value to receive.
    pub cursor: usize,
}

/// The oldest history index still inside the channel window.
pub open spec fn spec_oldest<T>(p: Poller<T>) -> int {
    if p.history@.len() > p.buffer {
        p.history@.len() - p.buffer
    } else {
        0
    }
}

/// What one receive at `cursor` yields, and the cursor after it: a lagged
/// receiver is told how much it missed and jumps to the oldest retained
/// value; otherwise the next value is handed out; a drained, closed channel
/// reports `Closed`.
pub open spec fn recv_spec<T>(p: Poller<T>, cursor: int) -> (Result<T, RecvError>, int) {
    let oldest = spec_oldest(p);
    if cursor < oldest {
        (Result::Err(RecvError::Lagged((oldest - cursor) as u64)), oldest)
    } else if cursor < p.history@.len() {
        (Result::Ok(p.history@[cursor]), cursor + 1)
    } else {
        (Result::Err(RecvError::Closed), cursor)
    }
}

impl Subscription {
    /// Whether this subscription's position lies inside `p`'s history.
    pub open spec fn wf<T>(self, p: Poller<T>) -> bool {
        self.cursor <= p.history@.len()
    }

    /// Whether a receive would complete now instead of awaiting.
    pub open spec fn spec_ready<T>(self, p: Poller<T>) -> bool {
        self.cursor < p.history@.len() || p.closed
    }

    pub fn ready<T>(&self, poller: &Poller<T>) -> (r: bool)
        ensures
            r == self.spec_ready(*poller),
    {
        self.cursor < poller.history.len() || poller.closed
    }

    /// Awaits the next broadcast value. A receiver that fell more than the
    /// channel buffer behind gets exactly one `Lagged` failure and resumes
    /// from the oldest retained value; a drained, closed channel yields
    /// `Closed`.
    pub fn recv<'a, T>(&mut self, poller: &'a Poller<T>) -> (r: Result<&'a T, RecvError>)
        requires
            old(self).wf(*poller),
            old(self).spec_ready(*poller),
        ensures
            final(self).wf(*poller),
            (match r {
                Ok(v) => Result::<T, RecvError>::Ok(*v),
                Err(e) => Result::<T, RecvError>::Err(e),
            }, final(self).cursor as int) == recv_spec(*poller, old(self).cursor as int),
    {
        let sent = poller.history.len();
        let oldest = if sent > poller.buffer {
            sent - poller.buffer
        } else {
            0
        };
        if self.cursor < oldest {
            let missed = (oldest - self.cursor) as u64;
            self.cursor = oldest;
            Err(RecvError::Lagged(missed))
        } else if self.cursor < sent {
            let v = &poller.history[self.cursor];
            self.cursor = self.cursor + 1;
            Ok(v)
        } else {
            Err(RecvError::Closed)
        }
    }
}

/// A receiver that fell behind fails once with `Lagged`, and after that one
/// failure each retained value is received normally and in order.
pub proof fn lemma_lagged_once_then_resumes<T>(p: Poller<T>, cursor: int)
    requires
        0 <= cursor,
        cursor + p.buffer < p.history@.len(),
    ensures
        recv_spec(p, cursor).0 == Result::<T, RecvError>::Err(
            RecvError::Lagged((spec_oldest(p) - cursor) as u64),
        ),
        forall|c: int|
            spec_oldest(p) <= c < p.history@.len() ==> #[trigger] recv_spec(p, c) == (
            Result::<T, RecvError>::Ok(p.history@[c]),
            c + 1,
            ),
        recv_spec(p, cursor).1 == spec_oldest(p),
{
}

impl<T> Poller<T> {
    /// The pending symbols as plain character sequences.
    pub open spec fn pending_view(self) -> Seq<Seq<char>> {
        self.pending.deep_view()
    }

    /// Constructs an idle poller: no subscriber, no loop task, an empty
    /// pending set, and nothing broadcast yet.
    pub fn new(buffer: usize, delay_ms: u64) -> (r: Self)
        requires
            buffer >= 1,
        ensures
            r.buffer == buffer,
            r.delay_ms == delay_ms,
            r.subscribers == 0,
            !r.running,
            !r.closed,
            r.pending_view() == Seq::<Seq<char>>::empty(),
            r.history@.len() == 0,
            r.cycles == 0,
    {
        let r = Poller {
            history: Vec::new(),
            buffer,
            delay_ms,
            subscribers: 0,
            running: false,
            closed: false,
            pending: Vec::new(),
            cycles: 0,
        };
        proof {
            assert(r.pending.deep_view() =~= Seq::<Seq<char>>::empty());
        }
        r
    }

    /// Atomically replaces the pending set; nothing is merged with prior
    /// contents.
    pub fn set_state(&mut self, states: Vec<String>)
        ensures
            *final(self) == (Poller { pending: final(self).pending, ..*old(self) }),
            final(self).pending_view() == states.deep_view(),
    {
        self.pending = states;
    }

    /// Appends the entries of `states` that the pending set does not already
    /// hold, in order; repeated calls with overlapping content leave no
    /// duplicate behind.
    pub fn extend_unique(&mut self, states: Vec<String>)
        ensures
            *final(self) == (Poller { pending: final(self).pending, ..*old(self) }),
            final(self).pending_view() == extend_unique_seq(
                old(self).pending_view(),
                states.deep_view(),
            ),
    {
        extend_unique_strings(&mut self.pending, states);
    }

    /// Ensures the loop task is live when anyone is subscribed: a no-op when
    /// the task already runs or when nobody listens, so a concurrent second
    /// attempt changes nothing.
    pub fn spawn_if_needed(&mut self)
        ensures
            *final(self) == (Poller {
                running: old(self).running || old(self).subscribers > 0,
                ..*old(self)
            }),
    {
        if !self.running && self.subscribers > 0 {
            self.running = true;
        }
    }

    /// Attaches one subscriber: a fresh receiver that sees only values
    /// broadcast from now on. The 0 -> 1 transition starts the loop task;
    /// the fetch-invocation count is untouched no matter how many
    /// subscribers attach.
    pub fn subscribe(&mut self) -> (sub: Subscription)
        requires
            old(self).subscribers < usize::MAX,
        ensures
            *final(self) == (Poller {
                subscribers: (old(self).subscribers + 1) as usize,
                running: old(self).running || old(self).subscribers == 0,
                ..*old(self)
            }),
            sub.cursor == old(self).history@.len(),
            sub.wf(*final(self)),
    {
        let prev = self.subscribers;
        self.subscribers = self.subscribers + 1;
        let sub = Subscription { cursor: self.history.len() };
        if prev == 0 {
            self.spawn_if_needed();
        }
        sub
    }

    /// Detaches one subscriber. When the last one leaves, the loop task is
    /// aborted and the pending set cleared.
    pub fn unsubscribe(&mut self, sub: Subscription)
        requires
            old(self).subscribers >= 1,
        ensures
            final(self).subscribers == old(self).subscribers - 1,
            old(self).subscribers == 1 ==> !final(self).running && final(self).pending_view()
                == Seq::<Seq<char>>::empty() && *final(self) == (Poller {
                subscribers: 0,
                running: false,
                pending: final(self).pending,
                ..*old(self)
            }),
            old(self).subscribers > 1 ==> *final(self) == (Poller {
                subscribers: (old(self).subscribers - 1) as usize,
                ..*old(self)
            }),
    {
        let _ = sub;
        let prev = self.subscribers;
        self.subscribers = self.subscribers - 1;
        if prev == 1 {
            self.running = false;
            self.pending = Vec::new();
            proof {
                assert(self.pending.deep_view() =~= Seq::<Seq<char>>::empty());
            }
        }
    }

    /// The loop's guard: with no subscriber left the task terminates;
    /// otherwise the cycle proceeds.
    pub fn poll_gate(&mut self) -> (cont: bool)
        ensures
            cont == (old(self).subscribers > 0),
            cont ==> *final(self) == *old(self),
            !cont ==> *final(self) == (Poller { running: false, ..*old(self) }),
    {
        if self.subscribers == 0 {
            self.running = false;
            false
        } else {
            true
        }
    }

    /// Takes and clears the pending set for one poll cycle; only entries
    /// added after this point are visible to the next cycle. Each call
    /// stands for exactly one invocation of the fetch operation.
    pub fn take_batch(&mut self) -> (batch: Vec<String>)
        requires
            old(self).cycles < u64::MAX,
        ensures
            batch.deep_view() == old(self).pending_view(),
            final(self).pending_view() == Seq::<Seq<char>>::empty(),
            final(self).cycles == old(self).cycles + 1,
            *final(self) == (Poller {
                pending: final(self).pending,
                cycles: (old(self).cycles + 1) as u64,
                ..*old(self)
            }),
    {
        let mut batch: Vec<String> = Vec::new();
        core::mem::swap(&mut self.pending, &mut batch);
        self.cycles = self.cycles + 1;
        proof {
            assert(self.pending.deep_view() =~= Seq::<Seq<char>>::empty());
        }
        batch
    }

    /// Broadcasts one value: it is appended to the history every receiver
    /// draws from; sending with zero live receivers is not an error.
    pub fn broadcast(&mut self, value: T)
        ensures
            final(self).history@ == old(self).history@.push(value),
            *final(self) == (Poller { history: final(self).history, ..*old(self) }),
    {
        self.history.push(value);
    }

    /// Drops the sender half: receivers drain what remains, then see
    /// `Closed`; the loop task is aborted.
    pub fn close(&mut self)
        ensures
            *final(self) == (Poller { closed: true, running: false, ..*old(self) }),
    {
        self.closed = true;
        self.running = false;
    }
}

} // verus!
