//! The reorder queue of one connection.
//!
//! The mixnet reorders datagrams, and frames may arrive before the handshake
//! is complete. The queue holds such frames by nonce and lets them go strictly
//! in nonce order, starting at nonce 0 once the connection is admitted.

use vstd::prelude::*;
use crate::error::Error;
use crate::message::{TransportMessage, TransportMessageView};

verus! {

/// The number of frames that a queue buffers unless told otherwise.
pub const DEFAULT_MAX_QUEUED: usize = 1024;

/// Puts a frame into a sequence ordered by nonce. A frame whose nonce the
/// sequence already holds changes nothing.
pub open spec fn sorted_insert(s: Seq<TransportMessageView>, m: TransportMessageView) -> Seq<
    TransportMessageView,
>
    decreases s.len(),
{
    if s.len() == 0 {
        seq![m]
    } else if m.nonce < s[0].nonce {
        seq![m] + s
    } else if m.nonce == s[0].nonce {
        s
    } else {
        seq![s[0]] + sorted_insert(s.drop_first(), m)
    }
}

/// How many frames at the head of a sequence ordered by nonce have a nonce
/// below `nonce`.
pub open spec fn rank(s: Seq<TransportMessageView>, nonce: u64) -> int
    decreases s.len(),
{
    if s.len() == 0 || s[0].nonce >= nonce {
        0
    } else {
        1 + rank(s.drop_first(), nonce)
    }
}

/// The frames before the rank have lower nonces, the frame at the rank has not.
pub proof fn lemma_rank(s: Seq<TransportMessageView>, nonce: u64)
    ensures
        0 <= rank(s, nonce) <= s.len(),
        forall|j: int| 0 <= j < rank(s, nonce) ==> s[j].nonce < nonce,
        rank(s, nonce) < s.len() ==> s[rank(s, nonce)].nonce >= nonce,
    decreases s.len(),
{
    if s.len() == 0 || s[0].nonce >= nonce {
    } else {
        let t = s.drop_first();
        lemma_rank(t, nonce);
        assert forall|j: int| 0 <= j < rank(s, nonce) implies s[j].nonce < nonce by {
            if j > 0 {
                assert(s[j] == t[j - 1]);
            }
        }
        if rank(s, nonce) < s.len() {
            assert(s[rank(s, nonce)] == t[rank(t, nonce)]);
        }
    }
}

/// The state of a reorder queue.
#[verifier::ext_equal]
pub struct QueueView {
    /// Whether the connection has been admitted, so that frames may leave.
    pub active: bool,
    /// The nonce of the frame that leaves next.
    pub next: int,
    /// The frames held back, by rising nonce.
    pub buffered: Seq<TransportMessageView>,
    /// How many frames may be held back.
    pub capacity: nat,
}

impl QueueView {
    /// The buffered frames rise strictly by nonce.
    pub open spec fn sorted(self) -> bool {
        forall|i: int, j: int|
            0 <= i < j < self.buffered.len() ==> self.buffered[i].nonce < self.buffered[j].nonce
    }

    pub open spec fn wf(self) -> bool {
        &&& self.sorted()
        &&& self.buffered.len() <= self.capacity
        &&& 0 <= self.next <= u64::MAX + 1
    }

    /// A queue that holds nothing and has let nothing go.
    pub open spec fn empty(capacity: nat) -> QueueView {
        QueueView { active: false, next: 0, buffered: Seq::empty(), capacity }
    }

    /// A frame with this nonce would leave at once.
    pub open spec fn expects(self, nonce: u64) -> bool {
        self.active && nonce == self.next
    }

    /// A frame with this nonce is held back.
    pub open spec fn holds(self, nonce: u64) -> bool {
        exists|i: int| 0 <= i < self.buffered.len() && #[trigger] self.buffered[i].nonce == nonce
    }

    /// A frame with this nonce would have to be held back, and there is no room.
    pub open spec fn overflows(self, nonce: u64) -> bool {
        !self.expects(nonce) && !self.holds(nonce) && self.buffered.len() >= self.capacity
    }

    /// The queue once the connection is admitted.
    pub open spec fn activate(self) -> QueueView {
        QueueView { active: true, ..self }
    }

    /// The queue after a frame was offered to it.
    pub open spec fn push(self, m: TransportMessageView) -> QueueView {
        if self.expects(m.nonce) {
            QueueView { next: self.next + 1, ..self }
        } else if self.holds(m.nonce) || self.buffered.len() >= self.capacity {
            self
        } else {
            QueueView { buffered: sorted_insert(self.buffered, m), ..self }
        }
    }

    /// The frame with the lowest nonce is the one that leaves next.
    pub open spec fn can_pop(self) -> bool {
        self.active && self.buffered.len() > 0 && self.buffered[0].nonce == self.next
    }

    /// The queue after its first frame was asked for.
    pub open spec fn pop(self) -> QueueView {
        if self.can_pop() {
            QueueView { next: self.next + 1, buffered: self.buffered.drop_first(), ..self }
        } else {
            self
        }
    }

    /// The frames that leave, in order, when frames are taken until none may leave.
    pub open spec fn ready(self) -> Seq<TransportMessageView>
        decreases self.buffered.len(),
    {
        if self.can_pop() {
            seq![self.buffered[0]] + self.pop().ready()
        } else {
            Seq::empty()
        }
    }

    /// The queue after frames were taken until none may leave.
    pub open spec fn drained(self) -> QueueView
        decreases self.buffered.len(),
    {
        if self.can_pop() {
            self.pop().drained()
        } else {
            self
        }
    }

    /// Inserting at the place where the nonces change from lower to higher is
    /// the ordered insertion, and keeps the order.
    pub proof fn lemma_insert_at(self, m: TransportMessageView, pos: int)
        requires
            self.sorted(),
            0 <= pos <= self.buffered.len(),
            forall|j: int| 0 <= j < pos ==> self.buffered[j].nonce < m.nonce,
            pos < self.buffered.len() ==> m.nonce < self.buffered[pos].nonce,
        ensures
            !self.holds(m.nonce),
            sorted_insert(self.buffered, m) == self.buffered.insert(pos, m),
            (QueueView { buffered: sorted_insert(self.buffered, m), ..self }).sorted(),
        decreases self.buffered.len(),
    {
        let s = self.buffered;
        let t = s.insert(pos, m);
        assert forall|i: int, j: int| 0 <= i < j < t.len() implies t[i].nonce < t[j].nonce by {
            if j > pos && i < pos {
                assert(s[i].nonce < m.nonce);
                if pos < s.len() {
                    assert(t[j] == s[j - 1]);
                }
            }
        }
        if pos == 0 {
            assert(sorted_insert(s, m) =~= t);
        } else {
            let rest = QueueView { buffered: s.drop_first(), ..self };
            assert(s[0].nonce < m.nonce);
            assert forall|j: int| 0 <= j < pos - 1 implies rest.buffered[j].nonce < m.nonce by {
                assert(rest.buffered[j] == s[j + 1]);
            }
            rest.lemma_insert_at(m, pos - 1);
            assert(seq![s[0]] + s.drop_first().insert(pos - 1, m) =~= t);
        }
    }

    /// Offering a frame keeps the queue well-formed.
    pub proof fn lemma_push_wf(self, m: TransportMessageView)
        requires
            self.wf(),
        ensures
            self.push(m).wf(),
            self.push(m).active == self.active,
            self.push(m).capacity == self.capacity,
            !self.expects(m.nonce) ==> self.push(m).next == self.next,
    {
        if self.expects(m.nonce) {
        } else if self.holds(m.nonce) || self.buffered.len() >= self.capacity {
        } else {
            let pos = rank(self.buffered, m.nonce);
            lemma_rank(self.buffered, m.nonce);
            if pos < self.buffered.len() {
                assert(self.buffered[pos].nonce != m.nonce);
            }
            self.lemma_insert_at(m, pos);
        }
    }

    /// Every frame that leaves carries the nonce that the queue expected, and
    /// the frames that a drain lets go carry consecutive nonces.
    pub proof fn lemma_ready_in_order(self)
        requires
            self.wf(),
        ensures
            forall|i: int|
                0 <= i < self.ready().len() ==> (#[trigger] self.ready()[i]).nonce == self.next + i,
            self.drained().next == self.next + self.ready().len(),
            self.drained().active == self.active,
            self.drained().capacity == self.capacity,
            self.drained().wf(),
            !self.drained().can_pop(),
            self.drained().buffered == self.buffered.skip(self.ready().len() as int),
            self.ready() == self.buffered.take(self.ready().len() as int),
            self.ready().len() <= self.buffered.len(),
        decreases self.buffered.len(),
    {
        if self.can_pop() {
            let p = self.pop();
            assert(p.sorted()) by {
                assert forall|i: int, j: int| 0 <= i < j < p.buffered.len() implies p.buffered[i].nonce
                    < p.buffered[j].nonce by {
                    assert(p.buffered[i] == self.buffered[i + 1]);
                    assert(p.buffered[j] == self.buffered[j + 1]);
                }
            }
            p.lemma_ready_in_order();
            let r = self.ready();
            assert(r == seq![self.buffered[0]] + p.ready());
            assert forall|i: int| 0 <= i < r.len() implies (#[trigger] r[i]).nonce == self.next
                + i by {
                if i > 0 {
                    assert(r[i] == p.ready()[i - 1]);
                }
            }
            assert(self.drained().buffered =~= self.buffered.skip(r.len() as int));
            assert(r =~= self.buffered.take(r.len() as int));
        } else {
            assert(self.buffered.skip(0) =~= self.buffered);
            assert(self.ready() =~= self.buffered.take(0));
        }
    }
}

/// The reorder queue of one connection.
#[derive(Debug)]
pub struct MessageQueue {
    next_expected_nonce: u64,
    exhausted: bool,
    active: bool,
    capacity: usize,
    queue: Vec<TransportMessage>,
}

impl View for MessageQueue {
    type V = QueueView;

    closed spec fn view(&self) -> QueueView {
        QueueView {
            active: self.active,
            next: if self.exhausted {
                u64::MAX + 1
            } else {
                self.next_expected_nonce as int
            },
            buffered: self.queue@.map_values(|m: TransportMessage| m@),
            capacity: self.capacity as nat,
        }
    }
}

impl MessageQueue {
    /// An empty queue with the default cap, not yet letting frames go.
    pub fn new() -> (q: MessageQueue)
        ensures
            q@ == QueueView::empty(DEFAULT_MAX_QUEUED as nat),
            q@.wf(),
    {
        MessageQueue::with_capacity(DEFAULT_MAX_QUEUED)
    }

    /// An empty queue that holds back at most `capacity` frames.
    pub fn with_capacity(capacity: usize) -> (q: MessageQueue)
        ensures
            q@ == QueueView::empty(capacity as nat),
            q@.wf(),
    {
        let q = MessageQueue {
            next_expected_nonce: 0,
            exhausted: false,
            active: false,
            capacity,
            queue: Vec::new(),
        };
        assert(q@.buffered =~= Seq::empty());
        q
    }

    /// Admits the connection: from now on frames leave, starting at the
    /// nonce that the queue expects.
    pub fn set_connection_message_received(&mut self)
        ensures
            final(self)@ == old(self)@.activate(),
    {
        self.active = true;
    }

    /// Whether the connection has been admitted.
    pub fn is_active(&self) -> (r: bool)
        ensures
            r == self@.active,
    {
        self.active
    }

    /// The number of frames held back.
    pub fn len(&self) -> (r: usize)
        ensures
            r == self@.buffered.len(),
    {
        self.queue.len()
    }

    /// The nonce of the frame that leaves next, unless every nonce is used up.
    pub fn next_expected(&self) -> (r: Option<u64>)
        ensures
            match r {
                Some(n) => n == self@.next,
                None => self@.next == u64::MAX + 1,
            },
    {
        if self.exhausted {
            None
        } else {
            Some(self.next_expected_nonce)
        }
    }

    /// The nonces of the frames held back, in rising order.
    pub fn nonces(&self) -> (r: Vec<u64>)
        ensures
            r@ == self@.buffered.map_values(|m: TransportMessageView| m.nonce),
    {
        let mut out: Vec<u64> = Vec::new();
        let mut i: usize = 0;
        while i < self.queue.len()
            invariant
                i <= self.queue.len(),
                out@ == self@.buffered.take(i as int).map_values(|m: TransportMessageView| m.nonce),
            decreases self.queue.len() - i,
        {
            out.push(self.queue[i].nonce);
            i = i + 1;
            assert(out@ =~= self@.buffered.take(i as int).map_values(
                |m: TransportMessageView| m.nonce,
            ));
        }
        assert(self@.buffered.take(i as int) =~= self@.buffered);
        out
    }

    fn advance(&mut self)
        requires
            !old(self).exhausted,
        ensures
            final(self)@ == (QueueView { next: old(self)@.next + 1, ..old(self)@ }),
            final(self).queue == old(self).queue,
    {
        if self.next_expected_nonce == u64::MAX {
            self.exhausted = true;
        } else {
            self.next_expected_nonce = self.next_expected_nonce + 1;
        }
    }

    /// Offers a frame to the queue. The frame that the queue expects comes
    /// straight back, and the queue expects the next one. Any other frame is
    /// held back, unless a frame with its nonce is held already. Where there is
    /// no room to hold it, the queue is left as it was and reports the overflow.
    pub fn try_push(&mut self, msg: TransportMessage) -> (r: Result<
        Option<TransportMessage>,
        Error,
    >)
        requires
            old(self)@.wf(),
        ensures
            final(self)@.wf(),
            final(self)@ == old(self)@.push(msg@),
            match r {
                Ok(Some(m)) => old(self)@.expects(msg@.nonce) && m@ == msg@,
                Ok(None) => !old(self)@.expects(msg@.nonce) && !old(self)@.overflows(msg@.nonce),
                Err(e) => e == Error::QueueOverflow && old(self)@.overflows(msg@.nonce),
            },
    {
        if self.active && !self.exhausted && msg.nonce == self.next_expected_nonce {
            self.advance();
            return Ok(Some(msg));
        }
        let n = self.queue.len();
        let mut pos: usize = 0;
        while pos < n && self.queue[pos].nonce < msg.nonce
            invariant
                n == self.queue.len(),
                pos <= n,
                forall|j: int| 0 <= j < pos ==> self.queue[j].nonce < msg.nonce,
            decreases n - pos,
        {
            pos = pos + 1;
        }
        if pos < n && self.queue[pos].nonce == msg.nonce {
            assert(self@.buffered[pos as int].nonce == msg@.nonce);
            return Ok(None);
        }
        proof {
            assert forall|j: int| 0 <= j < pos implies self@.buffered[j].nonce < msg@.nonce by {
                assert(self@.buffered[j] == self.queue[j]@);
            }
            if pos < n {
                assert(self@.buffered[pos as int] == self.queue[pos as int]@);
            }
            self@.lemma_insert_at(msg@, pos as int);
        }
        if n >= self.capacity {
            return Err(Error::QueueOverflow);
        }
        let ghost before = self@;
        let ghost held = msg@;
        self.queue.insert(pos, msg);
        assert(self@.buffered =~= before.buffered.insert(pos as int, held));
        Ok(None)
    }

    /// Takes the frame with the lowest nonce, if it is the one that leaves next.
    pub fn pop(&mut self) -> (r: Option<TransportMessage>)
        requires
            old(self)@.wf(),
        ensures
            final(self)@.wf(),
            final(self)@ == old(self)@.pop(),
            match r {
                Some(m) => old(self)@.can_pop() && m@ == old(self)@.buffered[0],
                None => !old(self)@.can_pop(),
            },
    {
        if self.active && !self.exhausted && self.queue.len() > 0
            && self.queue[0].nonce == self.next_expected_nonce {
            let ghost before = self@;
            assert(before.buffered[0] == self.queue[0]@);
            let m = self.queue.remove(0);
            assert(self@.buffered =~= before.buffered.drop_first());
            self.advance();
            assert(self@.buffered =~= before.buffered.drop_first());
            Some(m)
        } else {
            proof {
                if self.queue.len() > 0 {
                    assert(self@.buffered[0] == self.queue[0]@);
                }
            }
            None
        }
    }

    /// Takes frames until none may leave, and returns them in the order in
    /// which they left.
    pub fn drain(&mut self) -> (r: Vec<TransportMessage>)
        requires
            old(self)@.wf(),
        ensures
            final(self)@.wf(),
            final(self)@ == old(self)@.drained(),
            r@.map_values(|m: TransportMessage| m@) == old(self)@.ready(),
    {
        let mut out: Vec<TransportMessage> = Vec::new();
        loop
            invariant
                self@.wf(),
                old(self)@.drained() == self@.drained(),
                old(self)@.ready() == out@.map_values(|m: TransportMessage| m@) + self@.ready(),
            decreases self@.buffered.len(),
        {
            let ghost before = self@;
            let ghost sofar = out@.map_values(|m: TransportMessage| m@);
            match self.pop() {
                Some(m) => {
                    out.push(m);
                    assert(out@.map_values(|m: TransportMessage| m@) + self@.ready() =~= sofar
                        + before.ready());
                },
                None => {
                    assert(out@.map_values(|m: TransportMessage| m@) + self@.ready() =~= out@.map_values(
                        |m: TransportMessage| m@,
                    ));
                    return out;
                },
            }
        }
    }
}

} // verus!
