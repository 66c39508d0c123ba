//! A three-slot buffer that hands the latest published value from a writer
//! to a reader: the writer fills its slot, the swapper publishes it, and the
//! reader always sees the most recently published slot.
//!
//! The slots and the state word live in one `TripleBuffer`; the three roles
//! are separate handles, each of which acts on the buffer it is given.

use vstd::prelude::*;
use core::marker::PhantomData;

verus! {

/// Index of the slot the writer fills, as held in bits 0-1 of the state word.
pub open spec fn write_slot_of(state: u64) -> int {
    (state & 3u64) as int
}

/// Index of the last published slot, as held in bits 2-3 of the state word.
pub open spec fn fresh_slot_of(state: u64) -> int {
    ((state >> 2u64) & 3u64) as int
}

/// A state word names two distinct slots out of three, and nothing else.
pub open spec fn state_wf(state: u64) -> bool {
    &&& state < 16
    &&& write_slot_of(state) < 3
    &&& fresh_slot_of(state) < 3
    &&& write_slot_of(state) != fresh_slot_of(state)
}

/// The word that names `write` as the write slot and `fresh` as the fresh one.
pub open spec fn encode_state(write: u64, fresh: u64) -> u64 {
    write | (fresh << 2u64)
}

/// Bits 0-1 and 2-3 of an encoded word give back the two indices.
pub proof fn lemma_encode_state(write: u64, fresh: u64)
    requires
        write < 4,
        fresh < 4,
    ensures
        write_slot_of(encode_state(write, fresh)) == write,
        fresh_slot_of(encode_state(write, fresh)) == fresh,
        encode_state(write, fresh) < 16,
{
    assert((write | (fresh << 2u64)) & 3u64 == write) by (bit_vector)
        requires
            write < 4,
            fresh < 4,
    ;
    assert(((write | (fresh << 2u64)) >> 2u64) & 3u64 == fresh) by (bit_vector)
        requires
            write < 4,
            fresh < 4,
    ;
    assert((write | (fresh << 2u64)) < 16) by (bit_vector)
        requires
            write < 4,
            fresh < 4,
    ;
}

/// The mathematical content of a triple buffer: three slots, the slot the
/// writer fills, the slot the reader sees, and which buffer it is.
pub struct TripleView<T> {
    pub slots: Seq<T>,
    pub write: int,
    pub fresh: int,
    pub id: int,
}

impl<T> TripleView<T> {
    /// Three slots; the write and fresh slots are two distinct ones of them.
    pub open spec fn wf(self) -> bool {
        &&& self.slots.len() == 3
        &&& 0 <= self.write < 3
        &&& 0 <= self.fresh < 3
        &&& self.write != self.fresh
    }

    /// The slot that is neither written nor published.
    pub open spec fn spare(self) -> int {
        3 - self.write - self.fresh
    }

    /// What the reader sees.
    pub open spec fn read(self) -> T {
        self.slots[self.fresh]
    }

    /// The current content of the write slot.
    pub open spec fn read_write_slot(self) -> T {
        self.slots[self.write]
    }

    /// The buffer after the writer stored `value` in its slot.
    pub open spec fn written(self, value: T) -> Self {
        TripleView { slots: self.slots.update(self.write, value), ..self }
    }

    /// The buffer after a swap: the write slot is published, the spare slot
    /// becomes the write slot, and the old fresh slot becomes the spare.
    pub open spec fn swapped(self) -> Self {
        TripleView { slots: self.slots, write: self.spare(), fresh: self.write, id: self.id }
    }
}

pub struct TripleBuffer<T> {
    bufs: [T; 3],
    state: u64,
    id: Ghost<int>,
}

impl<T> View for TripleBuffer<T> {
    type V = TripleView<T>;

    closed spec fn view(&self) -> TripleView<T> {
        TripleView {
            slots: self.bufs@,
            write: write_slot_of(self.state),
            fresh: fresh_slot_of(self.state),
            id: self.id@,
        }
    }
}

/// The role that fills the write slot of the buffer it was made with.
pub struct TripleBufWriter<T> {
    role: PhantomData<T>,
    id: Ghost<int>,
}

/// The role that reads the last published slot of the buffer it was made
/// with.
pub struct TripleBufReader<T> {
    role: PhantomData<T>,
    id: Ghost<int>,
}

/// The role that publishes the write slot of the buffer it was made with.
pub struct TripleBufSwapper<T> {
    role: PhantomData<T>,
    id: Ghost<int>,
}

impl<T> TripleBufWriter<T> {
    /// The id of the buffer this handle was made with.
    pub closed spec fn id(&self) -> int {
        self.id@
    }
}

impl<T> TripleBufReader<T> {
    /// The id of the buffer this handle was made with.
    pub closed spec fn id(&self) -> int {
        self.id@
    }
}

impl<T> TripleBufSwapper<T> {
    /// The id of the buffer this handle was made with.
    pub closed spec fn id(&self) -> int {
        self.id@
    }
}

/// A value that can be emptied in place, so a slot can be reused.
pub trait Clearable: Sized {
    /// Whether `self` is what clearing `before` leaves.
    spec fn cleared_from(self, before: Self) -> bool;

    fn clear(&mut self)
        ensures
            final(self).cleared_from(*old(self)),
    ;
}

impl<T> Clearable for Vec<T> {
    /// A cleared vector is empty.
    open spec fn cleared_from(self, before: Self) -> bool {
        self@.len() == 0
    }

    fn clear(&mut self) {
        Vec::clear(self);
    }
}

/// The simulation's output: when it was taken, and the objects it places.
pub struct SimOut<S, O> {
    pub timestamp: S,
    pub objects: Vec<O>,
}

impl<S, O> Clearable for SimOut<S, O> {
    /// Clearing drops the objects and keeps the timestamp.
    open spec fn cleared_from(self, before: Self) -> bool {
        self.objects@.len() == 0 && self.timestamp == before.timestamp
    }

    fn clear(&mut self) {
        self.objects.clear();
    }
}

impl<T> TripleBuffer<T> {
    pub closed spec fn wf(&self) -> bool {
        state_wf(self.state)
    }

    /// Which buffer this is: the handles made with it carry the same id.
    pub closed spec fn id(&self) -> int {
        self@.id
    }

    /// A well-formed state word decodes to a well-formed view, the form that
    /// the laws below take.
    pub proof fn lemma_wf(&self)
        requires
            self.wf(),
        ensures
            self@.wf(),
    {
    }

    /// Builds a buffer over the three given slots, with slot 0 as the write
    /// slot and slot 1 as the published one, and the three role handles,
    /// which carry the buffer's id. Nothing is promised of how the ids of
    /// buffers from different calls compare, so verified code can pair a
    /// handle only with the buffer that came with it.
    pub fn new(bufs: [T; 3]) -> (r: (TripleBuffer<T>, TripleBufReader<T>, TripleBufWriter<T>, TripleBufSwapper<T>))
        ensures
            r.0.wf(),
            r.1.id() == r.0.id(),
            r.2.id() == r.0.id(),
            r.3.id() == r.0.id(),
            r.0@.slots == bufs@,
            r.0@.write == 0,
            r.0@.fresh == 1,
    {
        proof {
            lemma_encode_state(0, 1);
        }
        let id: Ghost<int> = Ghost(arbitrary());
        (
            TripleBuffer { bufs, state: 0u64 | (1u64 << 2u64), id },
            TripleBufReader { role: PhantomData, id },
            TripleBufWriter { role: PhantomData, id },
            TripleBufSwapper { role: PhantomData, id },
        )
    }
}

impl<T> TripleBufWriter<T> {
    /// The write slot of `buffer`, to be filled in place.
    pub fn write<'a>(&mut self, buffer: &'a mut TripleBuffer<T>) -> (slot: &'a mut T)
        requires
            old(buffer).wf(),
            old(buffer).id() == self.id(),
        ensures
            *final(self) == *old(self),
            *slot == old(buffer)@.read_write_slot(),
            final(buffer).wf(),
            final(buffer).id() == old(buffer).id(),
            final(buffer)@ == old(buffer)@.written(*final(slot)),
    {
        let i = (buffer.state & 3u64) as usize;
        &mut buffer.bufs[i]
    }
}

impl<T> TripleBufReader<T> {
    /// The last published slot of `buffer`.
    pub fn read<'a>(&self, buffer: &'a TripleBuffer<T>) -> (slot: &'a T)
        requires
            buffer.wf(),
            buffer.id() == self.id(),
        ensures
            *slot == buffer@.read(),
    {
        let i = ((buffer.state >> 2u64) & 3u64) as usize;
        &buffer.bufs[i]
    }
}

impl<T> TripleBufSwapper<T> {
    /// Publishes the write slot: it becomes the slot the reader sees, and the
    /// spare slot becomes the new write slot.
    pub fn swap(&self, buffer: &mut TripleBuffer<T>)
        requires
            old(buffer).wf(),
            old(buffer).id() == self.id(),
        ensures
            final(buffer).wf(),
            final(buffer).id() == old(buffer).id(),
            final(buffer)@ == old(buffer)@.swapped(),
    {
        let state = buffer.state;
        let write_idx = state & 3u64;
        let fresh_idx = (state >> 2u64) & 3u64;
        let spare_idx = 3 - write_idx - fresh_idx;
        proof {
            lemma_encode_state(spare_idx, write_idx);
        }
        buffer.state = spare_idx | (write_idx << 2u64);
    }

    /// Publishes the write slot, then empties the new write slot, which is
    /// the old spare slot.
    pub fn swap_and_clear(&self, buffer: &mut TripleBuffer<T>)
        where T: Clearable,
        requires
            old(buffer).wf(),
            old(buffer).id() == self.id(),
        ensures
            final(buffer).wf(),
            final(buffer).id() == old(buffer).id(),
            final(buffer)@.write == old(buffer)@.swapped().write,
            final(buffer)@.fresh == old(buffer)@.swapped().fresh,
            final(buffer)@.slots.len() == 3,
            final(buffer)@.read_write_slot().cleared_from(old(buffer)@.slots[old(buffer)@.spare()]),
            final(buffer)@.read() == old(buffer)@.read_write_slot(),
            forall|i: int|
                0 <= i < 3 && i != final(buffer)@.write ==> final(buffer)@.slots[i] == old(buffer)@.slots[i],
    {
        self.swap(buffer);
        let write_idx = (buffer.state & 3u64) as usize;
        buffer.bufs[write_idx].clear();
    }
}

/// The simulation's ends of its two buffers: it reads the user inputs and
/// publishes them, and it writes and publishes its output.
pub struct SimIoBuf<I, O> {
    pub userin_r: TripleBufReader<I>,
    pub userin_swap: TripleBufSwapper<I>,
    pub simout_w: TripleBufWriter<O>,
    pub simout_swap: TripleBufSwapper<O>,
}

impl<I: Clearable, O: Clearable> SimIoBuf<I, O> {
    /// Starts over: the user inputs gathered so far are published and a
    /// cleared slot (the old spare one) is given to their writer; `init` is
    /// published as the simulation's output, and its old spare slot, cleared,
    /// is given to the simulation. The slot published before becomes the
    /// spare, unchanged.
    pub fn clear_and_init(&mut self, userin: &mut TripleBuffer<I>, simout: &mut TripleBuffer<O>, init: O)
        requires
            old(userin).wf(),
            old(simout).wf(),
            old(self).userin_swap.id() == old(userin).id(),
            old(self).simout_w.id() == old(simout).id(),
            old(self).simout_swap.id() == old(simout).id(),
        ensures
            *final(self) == *old(self),
            final(userin).wf(),
            final(simout).wf(),
            final(userin).id() == old(userin).id(),
            final(simout).id() == old(simout).id(),
            final(userin)@.write == old(userin)@.swapped().write,
            final(userin)@.fresh == old(userin)@.swapped().fresh,
            final(userin)@.read() == old(userin)@.read_write_slot(),
            final(userin)@.read_write_slot().cleared_from(old(userin)@.slots[old(userin)@.spare()]),
            final(simout)@.write == old(simout)@.swapped().write,
            final(simout)@.fresh == old(simout)@.swapped().fresh,
            final(simout)@.read() == init,
            final(simout)@.read_write_slot().cleared_from(old(simout)@.slots[old(simout)@.spare()]),
            final(userin)@.slots[final(userin)@.spare()] == old(userin)@.slots[old(userin)@.fresh],
            final(simout)@.slots[final(simout)@.spare()] == old(simout)@.slots[old(simout)@.fresh],
    {
        self.userin_swap.swap_and_clear(userin);
        let slot = self.simout_w.write(simout);
        *slot = init;
        self.simout_swap.swap_and_clear(simout);
    }
}

/// A swap keeps the buffer well formed, and three swaps in a row bring the
/// roles back to where they were: the slots rotate through write, fresh and
/// spare.
pub proof fn lemma_swap_cycles<T>(v: TripleView<T>)
    requires
        v.wf(),
    ensures
        v.swapped().wf(),
        v.swapped().slots == v.slots,
        v.swapped().swapped().swapped() == v,
{
}

/// What the writer stores and the swapper then publishes is what the reader
/// reads next.
pub proof fn lemma_read_after_publish<T>(v: TripleView<T>, value: T)
    requires
        v.wf(),
    ensures
        v.written(value).swapped().read() == value,
{
}

/// Writing never changes what the reader sees until the next swap: the write
/// slot and the fresh slot are always different slots.
pub proof fn lemma_write_hidden_until_swap<T>(v: TripleView<T>, value: T)
    requires
        v.wf(),
    ensures
        v.write != v.fresh,
        v.written(value).read() == v.read(),
        v.written(value).wf(),
{
}

/// After a swap the writer's new slot is neither the slot just published nor
/// the slot that was published before, so what the writer does next cannot
/// disturb the reader.
pub proof fn lemma_new_write_slot_is_old_spare<T>(v: TripleView<T>)
    requires
        v.wf(),
    ensures
        v.swapped().write == v.spare(),
        v.swapped().write != v.write,
        v.swapped().write != v.fresh,
{
}

} // verus!
