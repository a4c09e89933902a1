//! The state of one substream: what has arrived on it and what was read.

use vstd::prelude::*;

verus! {

/// Where a substream stands in its life.
#[derive(Debug, Clone, Copy, PartialEq, Eq, Structural)]
pub enum SubstreamState {
    /// Opened here; the peer has not answered yet.
    HalfOpen,
    /// Open on both sides.
    Open,
    /// Closed, for good.
    Closed,
}

/// The view of a [`Substream`].
pub struct SubstreamView {
    pub state: SubstreamState,
    /// The bytes that arrived and were not read yet.
    pub buffer: Seq<u8>,
    /// Every byte that ever arrived, in order of arrival.
    pub received: Seq<u8>,
    /// Every byte that was ever read, in the order in which it was read.
    pub consumed: Seq<u8>,
}

impl SubstreamView {
    /// What was read, followed by what waits to be read, is what arrived.
    pub open spec fn wf(self) -> bool {
        self.consumed + self.buffer == self.received
    }

    /// A substream on which nothing has arrived.
    pub open spec fn fresh(state: SubstreamState) -> SubstreamView {
        SubstreamView { state, buffer: Seq::empty(), received: Seq::empty(), consumed: Seq::empty() }
    }

    /// The substream after a payload arrived.
    pub open spec fn accept(self, data: Seq<u8>) -> SubstreamView {
        SubstreamView { buffer: self.buffer + data, received: self.received + data, ..self }
    }

    /// The number of bytes that a read of at most `max` bytes returns.
    pub open spec fn read_len(self, max: nat) -> nat {
        if max < self.buffer.len() {
            max
        } else {
            self.buffer.len()
        }
    }

    /// The substream after a read of at most `max` bytes.
    pub open spec fn read(self, max: nat) -> SubstreamView {
        let n = self.read_len(max) as int;
        SubstreamView {
            buffer: self.buffer.skip(n),
            consumed: self.consumed + self.buffer.take(n),
            ..self
        }
    }

    /// The stream has ended: the substream is closed and nothing waits to be read.
    pub open spec fn at_end(self) -> bool {
        self.state == SubstreamState::Closed && self.buffer.len() == 0
    }

    /// The substream once it is closed.
    pub open spec fn close(self) -> SubstreamView {
        SubstreamView { state: SubstreamState::Closed, ..self }
    }

    /// What was read is always the beginning of what arrived.
    pub proof fn lemma_read_is_prefix(self)
        requires
            self.wf(),
        ensures
            self.consumed.is_prefix_of(self.received),
    {
        assert(self.received.subrange(0, self.consumed.len() as int) =~= self.consumed);
    }

    /// Reading and the arrival of data keep the substream well-formed.
    pub proof fn lemma_steps_keep_wf(self, data: Seq<u8>, max: nat)
        requires
            self.wf(),
        ensures
            self.accept(data).wf(),
            self.read(max).wf(),
            self.close().wf(),
            self.read(max).received == self.received,
    {
        assert(self.consumed + (self.buffer + data) =~= (self.consumed + self.buffer) + data);
        let n = self.read_len(max) as int;
        assert((self.consumed + self.buffer.take(n)) + self.buffer.skip(n) =~= self.consumed
            + self.buffer);
    }
}

/// One substream of a connection.
pub struct Substream {
    state: SubstreamState,
    buffer: Vec<u8>,
    received: Ghost<Seq<u8>>,
    consumed: Ghost<Seq<u8>>,
}

impl View for Substream {
    type V = SubstreamView;

    closed spec fn view(&self) -> SubstreamView {
        SubstreamView {
            state: self.state,
            buffer: self.buffer@,
            received: self.received@,
            consumed: self.consumed@,
        }
    }
}

impl Substream {
    /// A substream in the given state, on which nothing has arrived.
    pub fn new(state: SubstreamState) -> (s: Substream)
        ensures
            s@ == SubstreamView::fresh(state),
    {
        Substream {
            state,
            buffer: Vec::new(),
            received: Ghost(Seq::empty()),
            consumed: Ghost(Seq::empty()),
        }
    }

    /// Where the substream stands.
    pub fn state(&self) -> (r: SubstreamState)
        ensures
            r == self@.state,
    {
        self.state
    }

    /// How many bytes wait to be read.
    pub fn buffered(&self) -> (r: usize)
        ensures
            r == self@.buffer.len(),
    {
        self.buffer.len()
    }

    /// Moves the substream to another state.
    pub(crate) fn set_state(&mut self, state: SubstreamState)
        ensures
            final(self)@ == (SubstreamView { state, ..old(self)@ }),
    {
        self.state = state;
    }

    /// Takes in a payload that arrived.
    pub fn accept(&mut self, data: &Vec<u8>)
        ensures
            final(self)@ == old(self)@.accept(data@),
    {
        let mut i: usize = 0;
        while i < data.len()
            invariant
                i <= data.len(),
                self.state == old(self).state,
                self.received == old(self).received,
                self.consumed == old(self).consumed,
                self.buffer@ == old(self).buffer@ + data@.take(i as int),
            decreases data.len() - i,
        {
            self.buffer.push(data[i]);
            i = i + 1;
            assert(self.buffer@ =~= old(self).buffer@ + data@.take(i as int));
        }
        assert(data@.take(i as int) =~= data@);
        self.received = Ghost(self.received@ + data@);
    }

    /// Hands out the bytes that wait, at most `max` of them, oldest first.
    pub fn read(&mut self, max: usize) -> (r: Vec<u8>)
        ensures
            final(self)@ == old(self)@.read(max as nat),
            r@ == old(self)@.buffer.take(old(self)@.read_len(max as nat) as int),
    {
        let n = if max < self.buffer.len() {
            max
        } else {
            self.buffer.len()
        };
        let rest = self.buffer.split_off(n);
        let mut out = rest;
        std::mem::swap(&mut out, &mut self.buffer);
        assert(out@ =~= old(self)@.buffer.take(n as int));
        assert(self.buffer@ =~= old(self)@.buffer.skip(n as int));
        self.consumed = Ghost(self.consumed@ + out@);
        out
    }
}

} // verus!
