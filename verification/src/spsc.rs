//! Bounded single-producer/single-consumer FIFO channel.
//!
//! The channel is a ring of `capacity + 1` slots addressed by two wrapping
//! cursors. The write cursor is advanced only by sending, the read cursor only
//! by receiving. One slot always stays free, so that equal cursors mean
//! "empty" and nothing else.

use crate::sync::guarded;
use crate::sync::lock;
use crate::sync::share;
use crate::sync::strong_count;
use std::sync::Arc;
use std::sync::Mutex;
use vstd::prelude::*;

verus! {

/// Number of occupied slots of a ring of `size` slots with the given cursors:
/// `(write - read) mod size`.
pub open spec fn occupancy(write_index: usize, read_index: usize, size: usize) -> int {
    (write_index - read_index) % (size as int)
}

/// Number of values that can still be stored: one slot always stays free.
pub open spec fn free_space(write_index: usize, read_index: usize, size: usize) -> int {
    size - 1 - occupancy(write_index, read_index, size)
}

/// The slot that holds the `offset`-th pending value, counted from the read cursor.
pub open spec fn slot_at(read_index: usize, offset: int, size: usize) -> int {
    (read_index + offset) % (size as int)
}

/// The cursor that follows `index` in a ring of `size` slots.
pub open spec fn next_index(index: usize, size: usize) -> int {
    (index + 1) % (size as int)
}

/// Occupancy without the modulo: the distance from the read cursor forward to the
/// write cursor.
pub proof fn lemma_occupancy(write_index: usize, read_index: usize, size: usize)
    requires
        write_index < size,
        read_index < size,
    ensures
        0 <= occupancy(write_index, read_index, size) < size,
        write_index >= read_index ==> occupancy(write_index, read_index, size) == write_index
            - read_index,
        write_index < read_index ==> occupancy(write_index, read_index, size) == write_index + size
            - read_index,
{
    let m = size as int;
    let d = write_index - read_index;
    if d >= 0 {
        assert(d % m == d) by (nonlinear_arith)
            requires
                0 <= d < m,
        ;
    } else {
        assert(d % m == d + m) by (nonlinear_arith)
            requires
                -m < d < 0,
        ;
    }
}

/// The slot of a pending value without the modulo.
pub proof fn lemma_slot_at(read_index: usize, offset: int, size: usize)
    requires
        read_index < size,
        0 <= offset < size,
    ensures
        0 <= slot_at(read_index, offset, size) < size,
        read_index + offset < size ==> slot_at(read_index, offset, size) == read_index + offset,
        read_index + offset >= size ==> slot_at(read_index, offset, size) == read_index + offset
            - size,
{
    let m = size as int;
    let x = read_index + offset;
    if x < m {
        assert(x % m == x) by (nonlinear_arith)
            requires
                0 <= x < m,
        ;
    } else {
        assert(x % m == x - m) by (nonlinear_arith)
            requires
                m <= x < 2 * m,
        ;
    }
}

/// The next cursor without the modulo: one further, and back to zero at the end.
pub proof fn lemma_next_index(index: usize, size: usize)
    requires
        index < size,
    ensures
        index + 1 < size ==> next_index(index, size) == index + 1,
        index + 1 == size ==> next_index(index, size) == 0,
{
    let m = size as int;
    let x = index + 1;
    if x < m {
        assert(x % m == x) by (nonlinear_arith)
            requires
                0 <= x < m,
        ;
    } else {
        assert(x % m == 0) by (nonlinear_arith)
            requires
                x == m,
                m > 0,
        ;
    }
}

/// Number of values that can be read, for cursors in `[0, size)`.
pub fn available_read(write_index: usize, read_index: usize, size: usize) -> (occupied: usize)
    requires
        write_index < size,
        read_index < size,
    ensures
        occupied == occupancy(write_index, read_index, size),
{
    proof {
        lemma_occupancy(write_index, read_index, size);
    }
    if write_index >= read_index {
        write_index - read_index
    } else {
        size - read_index + write_index
    }
}

/// Number of values that can be written, for cursors in `[0, size)`.
pub fn available_write(write_index: usize, read_index: usize, size: usize) -> (free: usize)
    requires
        write_index < size,
        read_index < size,
    ensures
        free == free_space(write_index, read_index, size),
{
    proof {
        lemma_occupancy(write_index, read_index, size);
    }
    if write_index >= read_index {
        size - write_index + read_index - 1
    } else {
        read_index - write_index - 1
    }
}

/// The channel as a mathematical value: the values sent and not yet received, oldest
/// first, and the number of values that fit.
pub struct Fifo<T> {
    pub pending: Seq<T>,
    pub capacity: nat,
}

impl<T> Fifo<T> {
    /// The channel of the given capacity that holds nothing.
    pub open spec fn empty(capacity: nat) -> Self {
        Fifo { pending: Seq::empty(), capacity }
    }

    /// A channel never holds more than its capacity.
    pub open spec fn wf(self) -> bool {
        self.pending.len() <= self.capacity
    }

    /// Whether a send succeeds: there is free space.
    pub open spec fn accepts(self) -> bool {
        self.pending.len() < self.capacity
    }

    /// The channel after an attempt to send `value`: a full channel stays as it is and
    /// the value is lost.
    pub open spec fn send(self, value: T) -> Self {
        if self.accepts() {
            Fifo { pending: self.pending.push(value), capacity: self.capacity }
        } else {
            self
        }
    }

    /// What a receive returns: the oldest pending value, if there is one.
    pub open spec fn front(self) -> Option<T> {
        if self.pending.len() > 0 {
            Some(self.pending[0])
        } else {
            None
        }
    }

    /// The channel after a receive: the oldest pending value is gone.
    pub open spec fn receive(self) -> Self {
        if self.pending.len() > 0 {
            Fifo { pending: self.pending.skip(1), capacity: self.capacity }
        } else {
            self
        }
    }

    /// The channel after an attempt to send each of `values`, first to last.
    pub open spec fn send_all(self, values: Seq<T>) -> Self
        decreases values.len(),
    {
        if values.len() == 0 {
            self
        } else {
            self.send_all(values.drop_last()).send(values.last())
        }
    }

    /// The channel after `count` receives.
    pub open spec fn receive_n(self, count: nat) -> Self
        decreases count,
    {
        if count == 0 {
            self
        } else {
            self.receive_n((count - 1) as nat).receive()
        }
    }

    /// The channel after each of `values`, first to last, was sent and then received
    /// before the next was sent.
    pub open spec fn exchange_all(self, values: Seq<T>) -> Self
        decreases values.len(),
    {
        if values.len() == 0 {
            self
        } else {
            self.exchange_all(values.drop_last()).send(values.last()).receive()
        }
    }

    /// Sends that fit append their values in order.
    pub proof fn lemma_send_all(self, values: Seq<T>)
        requires
            self.pending.len() + values.len() <= self.capacity,
        ensures
            self.send_all(values) == (Fifo {
                pending: self.pending + values,
                capacity: self.capacity,
            }),
        decreases values.len(),
    {
        if values.len() == 0 {
            assert(self.pending + values =~= self.pending);
        } else {
            self.lemma_send_all(values.drop_last());
            assert((self.pending + values.drop_last()).push(values.last()) =~= self.pending
                + values);
        }
    }

    /// Receives take the pending values off the front, as many as there are.
    pub proof fn lemma_receive_n(self, count: nat)
        ensures
            count <= self.pending.len() ==> self.receive_n(count) == (Fifo {
                pending: self.pending.skip(count as int),
                capacity: self.capacity,
            }),
            count >= self.pending.len() ==> self.receive_n(count) == Fifo::<T>::empty(
                self.capacity,
            ),
        decreases count,
    {
        if count == 0 {
            assert(self.pending.skip(0) =~= self.pending);
            if self.pending.len() == 0 {
                assert(self.pending =~= Seq::<T>::empty());
            }
        } else {
            let before = self.receive_n((count - 1) as nat);
            self.lemma_receive_n((count - 1) as nat);
            if count <= self.pending.len() {
                assert(self.pending.skip(count - 1).skip(1) =~= self.pending.skip(count as int));
            }
            if count >= self.pending.len() {
                assert(before.receive().pending =~= Seq::<T>::empty());
            }
        }
    }

    /// First in, first out: after sends that all fit and no receive in between, the
    /// receives return what was pending before and then the values sent, each once and
    /// in the order of sending, and then nothing.
    pub proof fn lemma_fifo_order(self, values: Seq<T>)
        requires
            self.pending.len() + values.len() <= self.capacity,
        ensures
            forall|k: int|
                0 <= k < values.len() ==> (#[trigger] self.send_all(values.take(k))).accepts(),
            forall|k: int|
                0 <= k < self.pending.len() + values.len() ==> (#[trigger] self.send_all(
                    values,
                ).receive_n(k as nat)).front() == Some((self.pending + values)[k]),
            self.send_all(values).receive_n(self.pending.len() + values.len()).front() is None,
    {
        let sent = self.send_all(values);
        self.lemma_send_all(values);
        assert forall|k: int| 0 <= k < values.len() implies (#[trigger] self.send_all(
            values.take(k),
        )).accepts() by {
            self.lemma_send_all(values.take(k));
        }
        assert forall|k: int| 0 <= k < self.pending.len() + values.len() implies (
        #[trigger] sent.receive_n(k as nat)).front() == Some((self.pending + values)[k]) by {
            sent.lemma_receive_n(k as nat);
        }
        sent.lemma_receive_n(self.pending.len() + values.len());
    }

    /// The capacity is the boundary: of `capacity + 1` sends into an empty channel the
    /// first `capacity` succeed and the last fails and changes nothing; after as many
    /// receives as sends succeeded, a further receive returns nothing.
    pub proof fn lemma_capacity_boundary(capacity: nat, values: Seq<T>)
        requires
            values.len() == capacity + 1,
        ensures
            forall|k: int|
                0 <= k < capacity ==> (#[trigger] Self::empty(capacity).send_all(
                    values.take(k),
                )).accepts(),
            !Self::empty(capacity).send_all(values.take(capacity as int)).accepts(),
            Self::empty(capacity).send_all(values) == Self::empty(capacity).send_all(
                values.take(capacity as int),
            ),
            Self::empty(capacity).send_all(values).pending == values.take(capacity as int),
            Self::empty(capacity).send_all(values).receive_n(capacity).front() is None,
    {
        let start = Self::empty(capacity);
        let fitting = values.take(capacity as int);
        start.lemma_send_all(fitting);
        assert(start.pending + fitting =~= fitting);
        assert(values.drop_last() =~= fitting);
        assert forall|k: int| 0 <= k < capacity implies (#[trigger] start.send_all(
            values.take(k),
        )).accepts() by {
            start.lemma_send_all(values.take(k));
        }
        start.send_all(values).lemma_receive_n(capacity);
    }

    /// Sends and receives that take turns always succeed and keep the order: on a
    /// channel that is empty and holds at least one value, each value is accepted and is
    /// the next one received, and the channel is empty again after it.
    pub proof fn lemma_interleaving(capacity: nat, values: Seq<T>)
        requires
            capacity >= 1,
        ensures
            forall|k: int|
                0 <= k <= values.len() ==> #[trigger] Self::empty(capacity).exchange_all(
                    values.take(k),
                ) == Self::empty(capacity),
            forall|k: int|
                0 <= k < values.len() ==> {
                    let before = #[trigger] Self::empty(capacity).exchange_all(values.take(k));
                    &&& before.accepts()
                    &&& before.send(values[k]).front() == Some(values[k])
                },
    {
        let start = Self::empty(capacity);
        assert forall|k: int| 0 <= k <= values.len() implies #[trigger] start.exchange_all(
            values.take(k),
        ) == start by {
            Self::lemma_exchange_all(capacity, values.take(k));
        }
    }

    /// A channel that is empty is empty again after any number of turns of one send and
    /// one receive.
    pub proof fn lemma_exchange_all(capacity: nat, values: Seq<T>)
        requires
            capacity >= 1,
        ensures
            Self::empty(capacity).exchange_all(values) == Self::empty(capacity),
        decreases values.len(),
    {
        if values.len() > 0 {
            Self::lemma_exchange_all(capacity, values.drop_last());
            let start = Self::empty(capacity);
            assert(start.send(values.last()).receive().pending =~= Seq::<T>::empty());
        }
    }
}

/// `core::mem::forget`: takes the value and never runs its destructor. Nothing is
/// returned and nothing is claimed.
pub assume_specification<T>[ core::mem::forget::<T> ](value: T)
;

/// Sets both cursors to zero in one step.
fn reset_cursors(write_index: &mut usize, read_index: &mut usize)
    ensures
        *final(write_index) == 0,
        *final(read_index) == 0,
    no_unwind
{
    *write_index = 0;
    *read_index = 0;
}

/// Puts `value` into the slot at the write cursor and moves the cursor to `next`, in one
/// step.
fn store_and_advance<T>(
    entries: &mut Vec<Option<T>>,
    write_index: &mut usize,
    next: usize,
    value: T,
)
    requires
        *old(write_index) < old(entries)@.len(),
    ensures
        final(entries)@ == old(entries)@.update(*old(write_index) as int, Some(value)),
        *final(write_index) == next,
    no_unwind
{
    entries[*write_index] = Some(value);
    *write_index = next;
}

/// Takes what the slot at the read cursor holds, leaves the slot empty and moves the
/// cursor to `next`, in one step.
fn take_and_advance<T>(entries: &mut Vec<Option<T>>, read_index: &mut usize, next: usize) -> (taken:
    Option<T>)
    requires
        *old(read_index) < old(entries)@.len(),
    ensures
        taken == old(entries)@[*old(read_index) as int],
        final(entries)@ == old(entries)@.update(*old(read_index) as int, None),
        *final(read_index) == next,
    no_unwind
{
    let mut taken: Option<T> = None;
    core::mem::swap(&mut entries[*read_index], &mut taken);
    *read_index = next;
    taken
}

/// Every slot is some offset away from the read cursor: the offset is the occupancy
/// that the ring would have with the write cursor on that slot.
pub proof fn lemma_slot_offset(slot: usize, read_index: usize, size: usize)
    requires
        slot < size,
        read_index < size,
    ensures
        0 <= occupancy(slot, read_index, size) < size,
        slot_at(read_index, occupancy(slot, read_index, size), size) == slot,
{
    lemma_occupancy(slot, read_index, size);
    lemma_slot_at(read_index, occupancy(slot, read_index, size), size);
}

/// Ring storage of `capacity + 1` slots with a write cursor and a read cursor.
///
/// The slots from the read cursor up to, not including, the write cursor hold the
/// pending values, wrapping at the end of the storage. Every other slot is empty.
pub struct RingBuffer<T> {
    entries: Vec<Option<T>>,
    size: usize,
    write_index: usize,
    read_index: usize,
}

impl<T> View for RingBuffer<T> {
    type V = Fifo<T>;

    closed spec fn view(&self) -> Fifo<T> {
        Fifo {
            pending: Seq::new(
                occupancy(self.write_index, self.read_index, self.size) as nat,
                |i: int| self.entries@[slot_at(self.read_index, i, self.size)].unwrap(),
            ),
            capacity: (self.size - 1) as nat,
        }
    }
}

impl<T> RingBuffer<T> {
    /// Both cursors are inside the storage, every slot between them is occupied and
    /// every other slot is empty.
    #[verifier::type_invariant]
    closed spec fn inv(&self) -> bool {
        &&& self.entries@.len() == self.size
        &&& self.size >= 2
        &&& self.write_index < self.size
        &&& self.read_index < self.size
        &&& forall|i: int|
            0 <= i < occupancy(self.write_index, self.read_index, self.size)
                ==> self.entries@[#[trigger] slot_at(self.read_index, i, self.size)] is Some
        &&& forall|i: int|
            occupancy(self.write_index, self.read_index, self.size) <= i < self.size
                ==> self.entries@[#[trigger] slot_at(self.read_index, i, self.size)] is None
    }

    /// An empty ring that holds up to `size` values.
    pub fn new(size: usize) -> (ring: Self)
        requires
            0 < size < usize::MAX,
        ensures
            ring@ == Fifo::<T>::empty(size as nat),
    {
        let mut entries: Vec<Option<T>> = Vec::with_capacity(size + 1);
        let mut i: usize = 0;
        while i < size + 1
            invariant
                i <= size + 1,
                size < usize::MAX,
                entries@.len() == i,
                forall|j: int| 0 <= j < i ==> entries@[j] is None,
            decreases size + 1 - i,
        {
            entries.push(None);
            i = i + 1;
        }
        proof {
            lemma_occupancy(0, 0, (size + 1) as usize);
            assert forall|k: int| 0 <= k < size + 1 implies 0 <= #[trigger] slot_at(
                0,
                k,
                (size + 1) as usize,
            ) < size + 1 by {
                lemma_slot_at(0, k, (size + 1) as usize);
            }
        }
        let ring = RingBuffer { entries, size: size + 1, write_index: 0, read_index: 0 };
        assert(ring@.pending =~= Seq::<T>::empty());
        ring
    }

    /// Stores `value` behind the pending values if a slot is free; otherwise hands it
    /// back and leaves the ring as it is.
    pub fn try_put(&mut self, value: T) -> (rejected: Option<T>)
        ensures
            rejected is None <==> old(self)@.accepts(),
            rejected is Some ==> rejected == Some(value),
            final(self)@ == old(self)@.send(value),
    {
        proof {
            use_type_invariant(&*self);
            lemma_occupancy(self.write_index, self.read_index, self.size);
        }
        let write_index = self.write_index;
        let read_index = self.read_index;
        let size = self.size;
        if available_write(write_index, read_index, size) == 0 {
            return Some(value);
        }
        let next = (write_index + 1) % size;
        let ghost occupied = occupancy(write_index, read_index, size);
        proof {
            lemma_next_index(write_index, size);
            lemma_occupancy(next, read_index, size);
            assert(occupancy(next, read_index, size) == occupied + 1);
            assert forall|i: int| 0 <= i < size && i != occupied implies #[trigger] slot_at(
                read_index,
                i,
                size,
            ) != write_index by {
                lemma_slot_at(read_index, i, size);
            }
            lemma_slot_at(read_index, occupied, size);
            assert(slot_at(read_index, occupied, size) == write_index);
        }
        store_and_advance(&mut self.entries, &mut self.write_index, next, value);
        proof {
            assert(self@.pending =~= old(self)@.pending.push(value));
        }
        None
    }

    /// Stores `value` behind the pending values if a slot is free; otherwise drops it.
    pub fn try_write(&mut self, value: T) -> (sent: bool)
        ensures
            sent == old(self)@.accepts(),
            final(self)@ == old(self)@.send(value),
    {
        self.try_put(value).is_none()
    }

    /// Takes the oldest pending value out of its slot, if there is one.
    pub fn try_read(&mut self) -> (got: Option<T>)
        ensures
            got == old(self)@.front(),
            final(self)@ == old(self)@.receive(),
    {
        proof {
            use_type_invariant(&*self);
            lemma_occupancy(self.write_index, self.read_index, self.size);
        }
        let write_index = self.write_index;
        let read_index = self.read_index;
        let size = self.size;
        if available_read(write_index, read_index, size) == 0 {
            return None;
        }
        let next = (read_index + 1) % size;
        let ghost occupied = occupancy(write_index, read_index, size);
        proof {
            lemma_next_index(read_index, size);
            lemma_occupancy(write_index, next, size);
            assert(occupancy(write_index, next, size) == occupied - 1);
            lemma_slot_at(read_index, 0, size);
            assert forall|i: int| 0 <= i < size - 1 implies {
                &&& #[trigger] slot_at(next, i, size) == slot_at(read_index, i + 1, size)
                &&& slot_at(next, i, size) != read_index
            } by {
                lemma_slot_at(next, i, size);
                lemma_slot_at(read_index, i + 1, size);
            }
            lemma_slot_at(next, size - 1, size);
            assert(slot_at(next, size - 1, size) == read_index);
        }
        let got = take_and_advance(&mut self.entries, &mut self.read_index, next);
        proof {
            assert(self@.pending =~= old(self)@.pending.skip(1));
        }
        got
    }

    /// Empties the ring and resets both cursors to zero. The values that were pending
    /// are forgotten, not dropped: they are never finalized.
    pub fn clear(&mut self)
        ensures
            final(self)@ == Fifo::<T>::empty(old(self)@.capacity),
    {
        let mut pending = self.available_read();
        while pending > 0
            invariant
                pending == self@.pending.len(),
                self@.capacity == old(self)@.capacity,
            decreases pending,
        {
            if let Some(value) = self.try_read() {
                core::mem::forget(value);
            }
            pending = pending - 1;
        }
        proof {
            use_type_invariant(&*self);
            lemma_occupancy(0, 0, self.size);
            assert forall|i: int| 0 <= i < self.size implies self.entries@[#[trigger] slot_at(
                0,
                i,
                self.size,
            )] is None by {
                lemma_slot_at(0, i, self.size);
                lemma_slot_offset(i as usize, self.read_index, self.size);
            }
        }
        reset_cursors(&mut self.write_index, &mut self.read_index);
        proof {
            assert(self@.pending =~= Seq::<T>::empty());
        }
    }

    /// Number of values that can be written before the ring is full.
    pub fn available_write(&self) -> (free: usize)
        ensures
            free == self@.capacity - self@.pending.len(),
            self@.wf(),
    {
        proof {
            use_type_invariant(self);
            lemma_occupancy(self.write_index, self.read_index, self.size);
        }
        available_write(self.write_index, self.read_index, self.size)
    }

    /// Number of pending values.
    pub fn available_read(&self) -> (occupied: usize)
        ensures
            occupied == self@.pending.len(),
            self@.wf(),
    {
        proof {
            use_type_invariant(self);
            lemma_occupancy(self.write_index, self.read_index, self.size);
        }
        available_read(self.write_index, self.read_index, self.size)
    }
}

/// The sending half of a channel.
#[verifier::reject_recursive_types(T)]
pub struct Sender<T> {
    buffer: Arc<Mutex<RingBuffer<T>>>,
}

/// The receiving half of a channel.
#[verifier::reject_recursive_types(T)]
pub struct Receiver<T> {
    buffer: Arc<Mutex<RingBuffer<T>>>,
}

/// Whether the other handle of a channel exists, given how many handles share its
/// ring. A channel has two handles, so the other one exists if and only if the count is
/// exactly two.
pub fn is_counterpart_active(handles: usize) -> (active: bool)
    ensures
        active == (handles == 2),
{
    handles == 2
}

impl<T> Sender<T> {
    /// Whether `receiver` is the other half of this sender's channel: both handles hold
    /// the same shared ring.
    pub closed spec fn paired_with(&self, receiver: &Receiver<T>) -> bool {
        self.buffer == receiver.buffer
    }

    /// Sends `value` if the channel has free space and says whether it did. The call is
    /// one [`RingBuffer::try_put`] on the shared ring. A value that does not fit is
    /// dropped once the ring is released.
    pub fn try_send(&self, value: T) -> (sent: bool) {
        let rejected = {
            let mut guard = lock(&self.buffer);
            let ring = guarded(&mut guard);
            ring.try_put(value)
        };
        rejected.is_none()
    }

    /// Empties the channel without finalizing what was pending. The call is one
    /// [`RingBuffer::clear`] on the shared ring.
    pub fn clear(&self) {
        let mut guard = lock(&self.buffer);
        let ring = guarded(&mut guard);
        ring.clear()
    }

    /// Number of values that can be sent before the channel is full, at the moment of
    /// the call.
    pub fn size(&self) -> (free: usize) {
        let mut guard = lock(&self.buffer);
        let ring = guarded(&mut guard);
        ring.available_write()
    }

    /// Whether the receiver still exists: exactly two handles share the ring. The answer
    /// is [`is_counterpart_active`] of the number of handles at the moment of the call.
    pub fn is_receiver_active(&self) -> (active: bool) {
        is_counterpart_active(strong_count(&self.buffer))
    }
}

impl<T> Receiver<T> {
    /// Receives the oldest pending value, if there is one. The call is one
    /// [`RingBuffer::try_read`] on the shared ring.
    pub fn try_recv(&self) -> (got: Option<T>) {
        let mut guard = lock(&self.buffer);
        let ring = guarded(&mut guard);
        ring.try_read()
    }

    /// Number of pending values at the moment of the call.
    pub fn size(&self) -> (occupied: usize) {
        let mut guard = lock(&self.buffer);
        let ring = guarded(&mut guard);
        ring.available_read()
    }

    /// Whether the sender still exists: exactly two handles share the ring. The answer is
    /// [`is_counterpart_active`] of the number of handles at the moment of the call.
    pub fn is_sender_active(&self) -> (active: bool) {
        is_counterpart_active(strong_count(&self.buffer))
    }
}

/// A channel that holds up to `size` values, as its two handles. Both handles hold the
/// same shared ring, which starts as [`RingBuffer::new`] builds it.
pub fn channel<T>(size: usize) -> (handles: (Sender<T>, Receiver<T>))
    requires
        0 < size < usize::MAX,
    ensures
        handles.0.paired_with(&handles.1),
{
    let buffer = Arc::new(Mutex::new(RingBuffer::new(size)));
    let sender = Sender { buffer: share(&buffer) };
    let receiver = Receiver { buffer };
    (sender, receiver)
}

} // verus!
