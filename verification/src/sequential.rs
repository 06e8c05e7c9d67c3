//! Ordered use of one stream by many readers and writers.
//!
//! Each response gets a writer slot. The slots go out in the order in which
//! they were made, and what is written to a later slot waits until every
//! slot before it is closed. Each request gets reader slots in the same way:
//! a slot gets bytes only once every slot before it is released, and then it
//! gets the bytes that come next in the stream.

use vstd::prelude::*;
use crate::text::push_all;

verus! {

/// One slot, as the contracts see it.
pub struct SlotView {
    /// All that was written to the slot so far.
    pub written: Seq<u8>,
    /// Whether the slot was closed.
    pub closed: bool,
}

/// The number of closed slots at the front: the position of the slot whose
/// bytes go out as they are written.
pub open spec fn live(slots: Seq<SlotView>) -> int
    decreases slots.len(),
{
    if slots.len() == 0 || !slots[0].closed {
        0
    } else {
        1 + live(slots.skip(1))
    }
}

/// What was written to the first `n` slots, slot after slot.
pub open spec fn joined(slots: Seq<SlotView>, n: int) -> Seq<u8>
    decreases n,
{
    if n <= 0 {
        Seq::empty()
    } else {
        joined(slots, n - 1) + slots[n - 1].written
    }
}

/// The bytes that have gone to the stream: all of every closed slot at the
/// front, then what was written so far to the slot behind them.
pub open spec fn released(slots: Seq<SlotView>) -> Seq<u8> {
    if live(slots) < slots.len() {
        joined(slots, live(slots) + 1)
    } else {
        joined(slots, slots.len() as int)
    }
}

/// Whether every slot is closed.
pub open spec fn all_closed(slots: Seq<SlotView>) -> bool {
    forall|k: int| 0 <= k < slots.len() ==> (#[trigger] slots[k]).closed
}

/// The live position lies within the slots, every slot before it is closed,
/// and the slot at it is open.
pub proof fn lemma_live(slots: Seq<SlotView>)
    ensures
        0 <= live(slots) <= slots.len(),
        forall|k: int| 0 <= k < live(slots) ==> (#[trigger] slots[k]).closed,
        live(slots) < slots.len() ==> !slots[live(slots)].closed,
    decreases slots.len(),
{
    if slots.len() > 0 && slots[0].closed {
        let rest = slots.skip(1);
        lemma_live(rest);
        assert forall|k: int| 0 <= k < live(slots) implies (#[trigger] slots[k]).closed by {
            if k > 0 {
                assert(slots[k] == rest[k - 1]);
            }
        }
        if live(slots) < slots.len() {
            assert(slots[live(slots)] == rest[live(rest)]);
        }
    }
}

/// A position is the live one where all before it are closed and it is the
/// end or open.
pub proof fn lemma_live_is(slots: Seq<SlotView>, n: int)
    requires
        0 <= n <= slots.len(),
        forall|k: int| 0 <= k < n ==> (#[trigger] slots[k]).closed,
        n < slots.len() ==> !slots[n].closed,
    ensures
        live(slots) == n,
    decreases slots.len(),
{
    if n > 0 {
        let rest = slots.skip(1);
        assert(slots[0].closed);
        assert forall|k: int| 0 <= k < n - 1 implies (#[trigger] rest[k]).closed by {
            assert(rest[k] == slots[k + 1]);
        }
        if n < slots.len() {
            assert(rest[n - 1] == slots[n]);
        }
        lemma_live_is(rest, n - 1);
    }
}

/// What the first `n` slots hold does not depend on the slots behind them.
pub proof fn lemma_joined_prefix(a: Seq<SlotView>, b: Seq<SlotView>, n: int)
    requires
        n <= a.len(),
        n <= b.len(),
        forall|k: int| 0 <= k < n ==> (#[trigger] a[k]).written == b[k].written,
    ensures
        joined(a, n) == joined(b, n),
    decreases n,
{
    if n > 0 {
        lemma_joined_prefix(a, b, n - 1);
    }
}

/// Once every slot is closed, the stream holds what was written to the
/// slots, slot after slot in the order in which the slots were made:
/// nothing is missing, nothing is mixed, and the order in which the writes
/// and the closings came plays no part.
pub proof fn lemma_closed_chain_is_in_order(slots: Seq<SlotView>)
    requires
        all_closed(slots),
    ensures
        released(slots) == joined(slots, slots.len() as int),
{
    lemma_live_is(slots, slots.len() as int);
}

/// A chain of writer slots over one stream.
pub struct WriterChain {
    // what waits in each slot to go out
    pending: Vec<Vec<u8>>,
    // which slots are closed
    closed: Vec<bool>,
    // the first slot that is not closed
    live: usize,
    // what has gone out and was not fetched yet
    out: Vec<u8>,
    // all that was written to each slot
    written: Ghost<Seq<Seq<u8>>>,
    // what has gone out and was fetched
    fetched: Ghost<Seq<u8>>,
}

impl WriterChain {
    /// The slots of the chain.
    pub closed spec fn slots(&self) -> Seq<SlotView> {
        Seq::new(
            self.closed@.len(),
            |k: int| SlotView { written: self.written@[k], closed: self.closed@[k] },
        )
    }

    /// The bytes that the chain has let go to the stream, fetched or not.
    pub closed spec fn stream(&self) -> Seq<u8> {
        self.fetched@ + self.out@
    }

    /// The bytes that wait to be fetched.
    pub closed spec fn ready(&self) -> Seq<u8> {
        self.out@
    }

    /// What holds of every chain: the stream holds what the slots have
    /// released.
    pub closed spec fn wf(&self) -> bool {
        &&& self.pending@.len() == self.closed@.len()
        &&& self.written@.len() == self.closed@.len()
        &&& self.live <= self.closed@.len()
        &&& self.live as int == live(self.slots())
        &&& forall|k: int|
            0 <= k < self.closed@.len() ==> (#[trigger] self.pending@[k])@ == if k <= self.live {
                Seq::<u8>::empty()
            } else {
                self.written@[k]
            }
        &&& self.stream() == released(self.slots())
    }

    /// In a well-formed chain the stream holds what the slots have released.
    pub proof fn lemma_stream(&self)
        requires
            self.wf(),
        ensures
            self.stream() == released(self.slots()),
    {
    }

    /// A chain without slots, over a stream to which nothing was written.
    pub fn new() -> (r: WriterChain)
        ensures
            r.wf(),
            r.slots().len() == 0,
            r.stream() == Seq::<u8>::empty(),
    {
        let r = WriterChain {
            pending: Vec::new(),
            closed: Vec::new(),
            live: 0,
            out: Vec::new(),
            written: Ghost(Seq::empty()),
            fetched: Ghost(Seq::empty()),
        };
        assert(r.slots() =~= Seq::<SlotView>::empty());
        assert(r.stream() =~= Seq::<u8>::empty());
        r
    }

    /// The number of slots that were made.
    pub fn len(&self) -> (r: usize)
        requires
            self.wf(),
        ensures
            r == self.slots().len(),
    {
        self.closed.len()
    }

    /// Makes the next slot, which is open and empty, and gives its number.
    pub fn next(&mut self) -> (r: usize)
        requires
            old(self).wf(),
        ensures
            final(self).wf(),
            r == old(self).slots().len(),
            final(self).slots() == old(self).slots().push(
                SlotView { written: Seq::empty(), closed: false },
            ),
            final(self).stream() == old(self).stream(),
    {
        let id = self.closed.len();
        let ghost before = self.slots();
        self.pending.push(Vec::new());
        self.closed.push(false);
        proof {
            self.written@ = self.written@.push(Seq::empty());
            let after = self.slots();
            assert(after =~= before.push(SlotView { written: Seq::empty(), closed: false }));
            lemma_live(before);
            assert forall|k: int| 0 <= k < live(before) implies (#[trigger] after[k]).closed by {
                assert(after[k] == before[k]);
            }
            if live(before) < before.len() {
                assert(after[live(before)] == before[live(before)]);
            }
            lemma_live_is(after, live(before));
            if live(before) < before.len() {
                lemma_joined_prefix(before, after, live(before) + 1);
            } else {
                lemma_joined_prefix(before, after, before.len() as int);
                assert(joined(after, after.len() as int) =~= joined(after, before.len() as int));
            }
        }
        id
    }

    /// Writes `data` to the slot `slot`. The bytes go to the stream at once
    /// where every slot before this one is closed, and wait otherwise. A slot
    /// that does not exist or is closed takes nothing, and the answer is
    /// `false`.
    pub fn write(&mut self, slot: usize, data: &[u8]) -> (r: bool)
        requires
            old(self).wf(),
        ensures
            final(self).wf(),
            r == (slot < old(self).slots().len() && !old(self).slots()[slot as int].closed),
            r ==> final(self).slots() == old(self).slots().update(
                slot as int,
                SlotView {
                    written: old(self).slots()[slot as int].written + data@,
                    closed: false,
                },
            ),
            !r ==> final(self).slots() == old(self).slots(),
            !r ==> final(self).stream() == old(self).stream(),
    {
        if slot >= self.closed.len() || self.closed[slot] {
            return false;
        }
        let ghost before = self.slots();
        proof {
            lemma_live(before);
        }
        if slot == self.live {
            push_all(&mut self.out, data);
        } else {
            let mut buffer: Vec<u8> = Vec::new();
            self.pending.set_and_swap(slot, &mut buffer);
            push_all(&mut buffer, data);
            self.pending.set_and_swap(slot, &mut buffer);
        }
        proof {
            self.written@ = self.written@.update(slot as int, self.written@[slot as int] + data@);
            let after = self.slots();
            assert(after =~= before.update(
                slot as int,
                SlotView { written: before[slot as int].written + data@, closed: false },
            ));
            assert forall|k: int| 0 <= k < live(before) implies (#[trigger] after[k]).closed by {
                assert(after[k].closed == before[k].closed);
            }
            lemma_live_is(after, live(before));
            let n = live(before);
            lemma_joined_prefix(before, after, n);
            if slot == n {
                assert(joined(after, n + 1) =~= joined(before, n + 1) + data@);
                assert(self.stream() =~= old(self).stream() + data@);
            } else {
                lemma_joined_prefix(before, after, n + 1);
            }
        }
        true
    }

    /// Closes the slot `slot`: nothing more is written to it. Where every
    /// slot before it is closed, what waits in the slots behind it goes to
    /// the stream, up to and with the first slot that is still open. A slot
    /// that does not exist or is closed already is left as it is.
    pub fn close(&mut self, slot: usize)
        requires
            old(self).wf(),
        ensures
            final(self).wf(),
            final(self).stream() == released(final(self).slots()),
            if slot < old(self).slots().len() {
                final(self).slots() == old(self).slots().update(
                    slot as int,
                    SlotView { written: old(self).slots()[slot as int].written, closed: true },
                )
            } else {
                final(self).slots() == old(self).slots()
            },
    {
        if slot >= self.closed.len() {
            return ;
        }
        if self.closed[slot] {
            assert(self.slots() =~= self.slots().update(
                slot as int,
                SlotView { written: self.slots()[slot as int].written, closed: true },
            ));
            return ;
        }
        let ghost before = self.slots();
        proof {
            lemma_live(before);
        }
        self.closed.set(slot, true);
        let ghost after = self.slots();
        assert(after =~= before.update(
            slot as int,
            SlotView { written: before[slot as int].written, closed: true },
        ));
        if slot != self.live {
            proof {
                assert forall|k: int| 0 <= k < live(before) implies (#[trigger] after[k]).closed by {
                    assert(after[k].closed == before[k].closed);
                }
                assert(after[live(before)].closed == before[live(before)].closed);
                lemma_live_is(after, live(before));
                lemma_joined_prefix(before, after, live(before) + 1);
            }
            return ;
        }
        // the slots behind the closed one go out, up to the first open one
        self.live = self.live + 1;
        proof {
            lemma_joined_prefix(before, after, slot + 1);
        }
        while self.live < self.closed.len()
            invariant_except_break
                forall|k: int|
                    0 <= k < self.closed@.len() ==> (#[trigger] self.pending@[k])@ == if k
                        < self.live {
                        Seq::<u8>::empty()
                    } else {
                        self.written@[k]
                    },
                self.stream() == joined(after, self.live as int),
            invariant
                slot < self.live <= self.closed@.len(),
                self.slots() == after,
                self.pending@.len() == self.closed@.len(),
                self.written@.len() == self.closed@.len(),
                forall|k: int| 0 <= k < self.live ==> (#[trigger] after[k]).closed,
            ensures
                self.live <= self.closed@.len(),
                self.slots() == after,
                self.pending@.len() == self.closed@.len(),
                self.written@.len() == self.closed@.len(),
                forall|k: int| 0 <= k < self.live ==> (#[trigger] after[k]).closed,
                self.live < self.closed@.len() ==> !after[self.live as int].closed,
                forall|k: int|
                    0 <= k < self.closed@.len() ==> (#[trigger] self.pending@[k])@ == if k
                        <= self.live {
                        Seq::<u8>::empty()
                    } else {
                        self.written@[k]
                    },
                self.live < self.closed@.len() ==> self.stream() == joined(after, self.live + 1),
                self.live == self.closed@.len() ==> self.stream() == joined(
                    after,
                    self.live as int,
                ),
            decreases self.closed@.len() - self.live,
        {
            let mut buffer: Vec<u8> = Vec::new();
            self.pending.set_and_swap(self.live, &mut buffer);
            push_all(&mut self.out, buffer.as_slice());
            assert(buffer@ == after[self.live as int].written);
            assert(self.stream() =~= joined(after, self.live + 1));
            if !self.closed[self.live] {
                break ;
            }
            self.live = self.live + 1;
        }
        proof {
            if self.live < self.closed@.len() {
                lemma_live_is(after, self.live as int);
            } else {
                lemma_live_is(after, after.len() as int);
            }
        }
    }

    /// Fetches the bytes that have gone to the stream since the last time,
    /// for sending.
    pub fn take_output(&mut self) -> (r: Vec<u8>)
        requires
            old(self).wf(),
        ensures
            final(self).wf(),
            r@ == old(self).ready(),
            final(self).ready() == Seq::<u8>::empty(),
            final(self).slots() == old(self).slots(),
            final(self).stream() == old(self).stream(),
    {
        let mut taken: Vec<u8> = Vec::new();
        std::mem::swap(&mut self.out, &mut taken);
        proof {
            self.fetched@ = self.fetched@ + taken@;
            assert(self.stream() =~= old(self).stream());
            assert(self.slots() =~= old(self).slots());
        }
        taken
    }
}

/// A chain of reader slots over the bytes that arrive on one stream.
pub struct ReaderChain {
    // what has arrived and was not read yet
    buffer: Vec<u8>,
    // which slots are released
    released: Vec<bool>,
    // the first slot that is not released
    live: usize,
    // all that each slot has read
    taken: Ghost<Seq<Seq<u8>>>,
    // all that has arrived
    fed: Ghost<Seq<u8>>,
}

impl ReaderChain {
    /// The slots of the chain: what each has read and whether it is
    /// released.
    pub closed spec fn slots(&self) -> Seq<SlotView> {
        Seq::new(
            self.released@.len(),
            |k: int| SlotView { written: self.taken@[k], closed: self.released@[k] },
        )
    }

    /// All the bytes that have arrived.
    pub closed spec fn arrived(&self) -> Seq<u8> {
        self.fed@
    }

    /// The bytes that have arrived and were not read yet.
    pub closed spec fn unread(&self) -> Seq<u8> {
        self.buffer@
    }

    /// What holds of every chain: what the slots have read, slot after slot,
    /// and then what is unread, is what has arrived; and no slot behind the
    /// live one has read anything.
    pub closed spec fn wf(&self) -> bool {
        &&& self.taken@.len() == self.released@.len()
        &&& self.live as int == live(self.slots())
        &&& forall|k: int| self.live < k < self.released@.len() ==> (#[trigger] self.taken@[k]).len() == 0
        &&& joined(self.slots(), self.released@.len() as int) + self.buffer@ == self.fed@
    }

    /// In a well-formed chain the slots have read the stream in their order,
    /// each where the one before it stopped, and only the live slot and
    /// those before it have read at all.
    pub proof fn lemma_order(&self)
        requires
            self.wf(),
        ensures
            joined(self.slots(), self.slots().len() as int) + self.unread() == self.arrived(),
            forall|k: int|
                live(self.slots()) < k < self.slots().len() ==> (#[trigger] self.slots()[k]).written.len()
                    == 0,
    {
    }

    /// A chain without slots, to which nothing has arrived.
    pub fn new() -> (r: ReaderChain)
        ensures
            r.wf(),
            r.slots().len() == 0,
            r.arrived() == Seq::<u8>::empty(),
            r.unread() == Seq::<u8>::empty(),
    {
        let r = ReaderChain {
            buffer: Vec::new(),
            released: Vec::new(),
            live: 0,
            taken: Ghost(Seq::empty()),
            fed: Ghost(Seq::empty()),
        };
        assert(r.slots() =~= Seq::<SlotView>::empty());
        assert(joined(r.slots(), 0) + r.buffer@ =~= r.fed@);
        r
    }

    /// Takes in bytes that have arrived on the stream.
    pub fn feed(&mut self, data: &[u8])
        requires
            old(self).wf(),
        ensures
            final(self).wf(),
            final(self).slots() == old(self).slots(),
            final(self).arrived() == old(self).arrived() + data@,
            final(self).unread() == old(self).unread() + data@,
    {
        let ghost before = joined(self.slots(), self.released@.len() as int);
        push_all(&mut self.buffer, data);
        proof {
            self.fed@ = self.fed@ + data@;
            assert(self.slots() =~= old(self).slots());
            assert(before + self.buffer@ =~= self.fed@);
        }
    }

    /// Makes the next slot, which has read nothing, and gives its number.
    pub fn next(&mut self) -> (r: usize)
        requires
            old(self).wf(),
        ensures
            final(self).wf(),
            r == old(self).slots().len(),
            final(self).slots() == old(self).slots().push(
                SlotView { written: Seq::empty(), closed: false },
            ),
            final(self).arrived() == old(self).arrived(),
            final(self).unread() == old(self).unread(),
    {
        let id = self.released.len();
        let ghost before = self.slots();
        self.released.push(false);
        proof {
            self.taken@ = self.taken@.push(Seq::empty());
            let after = self.slots();
            assert(after =~= before.push(SlotView { written: Seq::empty(), closed: false }));
            lemma_live(before);
            assert forall|k: int| 0 <= k < live(before) implies (#[trigger] after[k]).closed by {
                assert(after[k] == before[k]);
            }
            if live(before) < before.len() {
                assert(after[live(before)] == before[live(before)]);
            }
            lemma_live_is(after, live(before));
            lemma_joined_prefix(before, after, before.len() as int);
            assert(joined(after, after.len() as int) =~= joined(before, before.len() as int));
        }
        id
    }

    /// Reads up to `max` bytes for the slot `slot`: the bytes that come next
    /// in the stream, as far as they have arrived. A slot that is not the
    /// live one gets `None`: it has to wait until every slot before it is
    /// released, and a released slot reads no more.
    pub fn read(&mut self, slot: usize, max: usize) -> (r: Option<Vec<u8>>)
        requires
            old(self).wf(),
        ensures
            final(self).wf(),
            final(self).arrived() == old(self).arrived(),
            r.is_some() == (slot < old(self).slots().len() && slot == live(old(self).slots())),
            match r {
                Some(bytes) => {
                    &&& bytes@.len() == if max <= old(self).unread().len() {
                        max as int
                    } else {
                        old(self).unread().len() as int
                    }
                    &&& bytes@ + final(self).unread() == old(self).unread()
                    &&& final(self).slots() == old(self).slots().update(
                        slot as int,
                        SlotView {
                            written: old(self).slots()[slot as int].written + bytes@,
                            closed: false,
                        },
                    )
                },
                None => final(self).slots() == old(self).slots() && final(self).unread() == old(
                    self,
                ).unread(),
            },
    {
        let ghost before = self.slots();
        proof {
            lemma_live(before);
        }
        if slot >= self.released.len() || slot != self.live {
            return None;
        }
        let count = if max <= self.buffer.len() {
            max
        } else {
            self.buffer.len()
        };
        let rest = self.buffer.split_off(count);
        let mut bytes = rest;
        std::mem::swap(&mut self.buffer, &mut bytes);
        proof {
            self.taken@ = self.taken@.update(slot as int, self.taken@[slot as int] + bytes@);
            let after = self.slots();
            assert(bytes@ + self.buffer@ =~= old(self).unread());
            assert(after =~= before.update(
                slot as int,
                SlotView { written: before[slot as int].written + bytes@, closed: false },
            ));
            assert forall|k: int| 0 <= k < live(before) implies (#[trigger] after[k]).closed by {
                assert(after[k].closed == before[k].closed);
            }
            lemma_live_is(after, live(before));
            let n = live(before);
            lemma_joined_prefix(before, after, n);
            lemma_tail_is_empty(before, n + 1, before.len() as int);
            lemma_tail_is_empty(after, n + 1, after.len() as int);
            assert(joined(after, n + 1) =~= joined(before, n + 1) + bytes@);
            assert(joined(after, after.len() as int) + self.buffer@ =~= self.fed@);
        }
        Some(bytes)
    }

    /// Releases the slot `slot`: it reads no more, and once every slot
    /// before it is released the slot behind it may read. A slot that does
    /// not exist is left out.
    pub fn release(&mut self, slot: usize)
        requires
            old(self).wf(),
        ensures
            final(self).wf(),
            final(self).arrived() == old(self).arrived(),
            final(self).unread() == old(self).unread(),
            if slot < old(self).slots().len() {
                final(self).slots() == old(self).slots().update(
                    slot as int,
                    SlotView { written: old(self).slots()[slot as int].written, closed: true },
                )
            } else {
                final(self).slots() == old(self).slots()
            },
    {
        if slot >= self.released.len() {
            return ;
        }
        let ghost before = self.slots();
        proof {
            lemma_live(before);
        }
        self.released.set(slot, true);
        let ghost after = self.slots();
        assert(after =~= before.update(
            slot as int,
            SlotView { written: before[slot as int].written, closed: true },
        ));
        proof {
            lemma_joined_prefix(before, after, before.len() as int);
        }
        while self.live < self.released.len() && self.released[self.live]
            invariant
                self.live <= self.released@.len(),
                self.slots() == after,
                self.fed@ == old(self).fed@,
                self.buffer@ == old(self).buffer@,
                self.taken@ == old(self).taken@,
                self.taken@.len() == self.released@.len(),
                live(before) <= self.live,
                forall|k: int| 0 <= k < self.live ==> (#[trigger] after[k]).closed,
            decreases self.released@.len() - self.live,
        {
            self.live = self.live + 1;
        }
        proof {
            lemma_live_is(after, self.live as int);
        }
    }
}

/// Slots that have read or written nothing add nothing.
pub proof fn lemma_tail_is_empty(slots: Seq<SlotView>, from: int, to: int)
    requires
        0 <= from <= to <= slots.len(),
        forall|k: int| from <= k < to ==> (#[trigger] slots[k]).written.len() == 0,
    ensures
        joined(slots, to) == joined(slots, from),
    decreases to - from,
{
    if from < to {
        lemma_tail_is_empty(slots, from, to - 1);
        assert(slots[to - 1].written =~= Seq::<u8>::empty());
        assert(joined(slots, to) =~= joined(slots, to - 1));
    }
}

} // verus!
