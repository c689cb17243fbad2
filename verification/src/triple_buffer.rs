//! Triple buffer: a "latest value" exchange cell for one writer and one reader.
//!
//! Three slots, numbered 0, 1 and 2, each hold one value at all times. At every
//! moment one slot is private to the writer, one is private to the reader and one
//! is committed: it is the hand-off point between the two. A write fills the
//! writer's slot and exchanges it with the committed one; a read exchanges the
//! reader's slot with the committed one if that holds a value the reader has not
//! seen. Each role owns the contents of its private slot, so no slot is ever
//! reachable from two roles.

use crate::sync::guarded;
use crate::sync::lock;
use crate::sync::share;
use std::sync::Arc;
use std::sync::Mutex;
use vstd::prelude::*;

verus! {

/// The bits of the state word that name the committed slot.
pub const INDEX_MASK: usize = 0b0011;

/// The bit of the state word that is set while the committed slot is unread.
pub const COMMIT_BIT: usize = 0b0100;

/// The slot that a state word names.
pub open spec fn word_index(word: usize) -> usize {
    word & INDEX_MASK
}

/// Whether a state word says that the reader has not yet claimed the committed slot.
pub open spec fn word_unread(word: usize) -> bool {
    word & COMMIT_BIT != 0
}

/// The state word that a write leaves: slot `index`, unread.
pub open spec fn commit_word(index: usize) -> usize {
    index | COMMIT_BIT
}

/// A state word built from a slot number gives that number back, unread if and only if
/// it was committed by a write.
pub proof fn lemma_state_word(index: usize)
    requires
        index < 3,
    ensures
        word_index(commit_word(index)) == index,
        word_unread(commit_word(index)),
        word_index(index) == index,
        !word_unread(index),
{
    assert((index | 0b0100usize) & 0b0011usize == index) by (bit_vector)
        requires
            index < 3,
    ;
    assert((index | 0b0100usize) & 0b0100usize != 0) by (bit_vector);
    assert(index & 0b0011usize == index) by (bit_vector)
        requires
            index < 3,
    ;
    assert(index & 0b0100usize == 0) by (bit_vector)
        requires
            index < 3,
    ;
}

/// The number of one of the three slots.
#[derive(Clone, Copy)]
pub struct SlotIndex {
    index: usize,
}

impl View for SlotIndex {
    type V = usize;

    closed spec fn view(&self) -> usize {
        self.index
    }
}

impl SlotIndex {
    /// There are three slots.
    #[verifier::type_invariant]
    closed spec fn inv(&self) -> bool {
        self.index < 3
    }

    /// The slot with the given number, if there is one.
    pub fn new(index: usize) -> (slot: Option<SlotIndex>)
        ensures
            index < 3 ==> slot is Some && slot->0@ == index,
            index >= 3 ==> slot is None,
    {
        if index < 3 {
            Some(SlotIndex { index })
        } else {
            None
        }
    }

    /// The slot's number.
    pub fn get(&self) -> (index: usize)
        ensures
            index == self@,
            index < 3,
        opens_invariants none
        no_unwind
    {
        proof {
            use_type_invariant(self);
        }
        self.index
    }
}

/// A slot as the role that owns it sees it: which of the three it is, and what it holds.
pub struct Slot<T> {
    pub index: usize,
    pub value: T,
}

/// The hand-off point as a value: the state word and what the committed slot holds.
pub struct Committed<T> {
    pub word: usize,
    pub value: T,
}

impl<T> Committed<T> {
    /// The commit exchange of a write: `mine` becomes the committed slot, unread, and
    /// the slot that was committed becomes the writer's.
    pub open spec fn commit(self, mine: Slot<T>) -> (Committed<T>, Slot<T>) {
        (
            Committed { word: commit_word(mine.index), value: mine.value },
            Slot { index: word_index(self.word), value: self.value },
        )
    }

    /// The exchange of a read: if the committed slot is unread, it becomes the reader's
    /// and `mine` takes its place, marked as read; otherwise nothing changes.
    pub open spec fn claim(self, mine: Slot<T>) -> (Committed<T>, Slot<T>) {
        if word_unread(self.word) {
            (
                Committed { word: mine.index, value: mine.value },
                Slot { index: word_index(self.word), value: self.value },
            )
        } else {
            (self, mine)
        }
    }
}

/// A triple buffer as a mathematical value: the writer's slot, the committed slot with
/// the state word, and the reader's slot.
pub struct TripleBuffer<T> {
    pub writer: Slot<T>,
    pub shared: Committed<T>,
    pub reader: Slot<T>,
}

impl<T> TripleBuffer<T> {
    /// The triple buffer that a constructor builds from three values: the reader on
    /// slot 0, slot 1 committed and marked as read, the writer on slot 2.
    pub open spec fn initial(values: (T, T, T)) -> Self {
        TripleBuffer {
            writer: Slot { index: 2, value: values.2 },
            shared: Committed { word: 1, value: values.1 },
            reader: Slot { index: 0, value: values.0 },
        }
    }

    /// The three roles hold the three slots: each number below 3, no two alike.
    pub open spec fn partitioned(self) -> bool {
        let w = self.writer.index;
        let c = word_index(self.shared.word);
        let r = self.reader.index;
        &&& w < 3 && c < 3 && r < 3
        &&& w != c && c != r && w != r
        &&& self.shared.word == c || self.shared.word == commit_word(c)
    }

    /// The triple buffer after a write of `value`: the writer's slot takes the value
    /// and is committed.
    pub open spec fn write(self, value: T) -> Self {
        let (shared, writer) = self.shared.commit(Slot { index: self.writer.index, value });
        TripleBuffer { writer, shared, reader: self.reader }
    }

    /// The triple buffer after a read.
    pub open spec fn read(self) -> Self {
        let (shared, reader) = self.shared.claim(self.reader);
        TripleBuffer { writer: self.writer, shared, reader }
    }

    /// The value that a read has returned, once it is done.
    pub open spec fn seen(self) -> T {
        self.reader.value
    }

    /// A new triple buffer has its three slots in three roles, and a read of it returns
    /// the first of the initial values.
    pub proof fn lemma_initial(values: (T, T, T))
        ensures
            Self::initial(values).partitioned(),
            Self::initial(values).read().seen() == values.0,
    {
        lemma_state_word(1);
    }

    /// No write and no read ever brings one slot into two roles.
    pub proof fn lemma_partition_kept(self, value: T)
        requires
            self.partitioned(),
        ensures
            self.write(value).partitioned(),
            self.read().partitioned(),
    {
        lemma_state_word(self.writer.index);
        lemma_state_word(self.reader.index);
        lemma_state_word(word_index(self.shared.word));
    }

    /// A read after a write returns the value written.
    pub proof fn lemma_read_after_write(self, value: T)
        requires
            self.partitioned(),
        ensures
            self.write(value).read().seen() == value,
    {
        lemma_state_word(self.writer.index);
    }

    /// The latest write wins: after two writes with no read in between, a read returns
    /// the second value, and the first is in no slot that the reader will ever be given
    /// before it is overwritten: it is back in the writer's slot.
    pub proof fn lemma_latest_wins(self, first: T, second: T)
        requires
            self.partitioned(),
        ensures
            self.write(first).write(second).read().seen() == second,
            self.write(first).write(second).read().writer.value == first,
    {
        lemma_state_word(self.writer.index);
        lemma_state_word(word_index(self.shared.word));
        self.lemma_partition_kept(first);
    }

    /// A read is idempotent: with no write in between, a second read changes nothing and
    /// returns what the first returned.
    pub proof fn lemma_read_idempotent(self)
        requires
            self.partitioned(),
        ensures
            self.read().read() == self.read(),
            self.read().read().seen() == self.read().seen(),
    {
        lemma_state_word(self.reader.index);
        lemma_state_word(word_index(self.shared.word));
    }
}

/// The part of a triple buffer that both handles share: the state word and the
/// contents of the committed slot.
pub struct Internal<T> {
    buffer: T,
    committed: usize,
}

impl<T> View for Internal<T> {
    type V = Committed<T>;

    closed spec fn view(&self) -> Committed<T> {
        Committed { word: self.committed, value: self.buffer }
    }
}

impl<T> Internal<T> {
    /// The state word names one of the three slots.
    #[verifier::type_invariant]
    closed spec fn inv(&self) -> bool {
        word_index(self.committed) < 3
    }

    /// The hand-off point of a new triple buffer: slot 1 with `value`, nothing unread.
    pub fn new(value: T) -> (internal: Self)
        ensures
            internal@ == (Committed { word: 1, value }),
    {
        proof {
            lemma_state_word(1);
        }
        Internal { buffer: value, committed: 1 }
    }

    /// The commit exchange of a write: the slot `index` with the contents `*buffer`
    /// becomes the committed one, unread. The caller gets the slot that was committed:
    /// its number as the result, its contents in `*buffer`.
    pub fn commit(&mut self, index: SlotIndex, buffer: &mut T) -> (previous: SlotIndex)
        ensures
            final(self)@ == old(self)@.commit(Slot { index: index@, value: *old(buffer) }).0,
            (Slot { index: previous@, value: *final(buffer) }) == old(self)@.commit(
                Slot { index: index@, value: *old(buffer) },
            ).1,
        opens_invariants none
        no_unwind
    {
        let index = index.get();
        proof {
            use_type_invariant(&*self);
            lemma_state_word(index);
        }
        let last_committed = self.committed;
        core::mem::swap(&mut self.buffer, buffer);
        self.committed = index | COMMIT_BIT;
        SlotIndex { index: last_committed & INDEX_MASK }
    }

    /// The exchange of a read: if the committed slot is unread, the caller gets it, its
    /// number as the result and its contents in `*buffer`, and the slot `index` with
    /// what `*buffer` held takes its place, marked as read. Otherwise nothing changes
    /// and the result is `index`.
    pub fn claim(&mut self, index: SlotIndex, buffer: &mut T) -> (current: SlotIndex)
        ensures
            final(self)@ == old(self)@.claim(Slot { index: index@, value: *old(buffer) }).0,
            (Slot { index: current@, value: *final(buffer) }) == old(self)@.claim(
                Slot { index: index@, value: *old(buffer) },
            ).1,
        opens_invariants none
        no_unwind
    {
        proof {
            use_type_invariant(&*self);
            use_type_invariant(&index);
            lemma_state_word(index@);
        }
        if self.committed & COMMIT_BIT != 0 {
            let last_committed = self.committed;
            core::mem::swap(&mut self.buffer, buffer);
            self.committed = index.get();
            SlotIndex { index: last_committed & INDEX_MASK }
        } else {
            index
        }
    }
}

/// The writing half of a triple buffer. It owns the contents of the writer's slot:
/// when the writer is dropped, what its slot holds at that moment is dropped with it,
/// whether or not the reader still exists. The committed slot is dropped with the last
/// of the two handles.
#[verifier::reject_recursive_types(T)]
pub struct Writer<T> {
    internal: Arc<Mutex<Internal<T>>>,
    write_index: SlotIndex,
    buffer: T,
}

/// Access to the contents of the writer's slot for a change in place. When the guard
/// goes out of scope, the slot is committed as by a write.
#[verifier::reject_recursive_types(T)]
pub struct WriteGuard<'a, T> {
    internal: &'a Arc<Mutex<Internal<T>>>,
    write_index: &'a mut SlotIndex,
    buffer: &'a mut T,
}

/// The reading half of a triple buffer. It owns the contents of the reader's slot:
/// when the reader is dropped, what its slot holds at that moment is dropped with it,
/// whether or not the writer still exists. The committed slot is dropped with the last
/// of the two handles.
#[verifier::reject_recursive_types(T)]
pub struct Reader<T> {
    internal: Arc<Mutex<Internal<T>>>,
    read_index: SlotIndex,
    buffer: T,
}

impl<T> View for Writer<T> {
    type V = Slot<T>;

    /// The writer's slot.
    closed spec fn view(&self) -> Slot<T> {
        Slot { index: self.write_index@, value: self.buffer }
    }
}

impl<T> View for Reader<T> {
    type V = Slot<T>;

    /// The reader's slot.
    closed spec fn view(&self) -> Slot<T> {
        Slot { index: self.read_index@, value: self.buffer }
    }
}

impl<'a, T> View for WriteGuard<'a, T> {
    type V = T;

    /// The contents of the writer's slot.
    closed spec fn view(&self) -> T {
        *self.buffer
    }
}

impl<'a, T> WriteGuard<'a, T> {
    /// The writer's slot behind the guard: its number and its contents.
    pub closed spec fn slot(&self) -> Slot<T> {
        Slot { index: (*self.write_index)@, value: *self.buffer }
    }

    /// Whether `reader` is the other half of the triple buffer of the guard's writer.
    pub closed spec fn paired_with(&self, reader: &Reader<T>) -> bool {
        *self.internal == reader.internal
    }
}

impl<T> Writer<T> {
    /// Whether `reader` is the other half of this writer's triple buffer: both handles
    /// hold the same shared state.
    pub closed spec fn paired_with(&self, reader: &Reader<T>) -> bool {
        self.internal == reader.internal
    }

    /// A whole write on the shared state `internal`, for the writer whose slot is
    /// `*index` with the contents `*buffer`: the slot takes `value` and is committed,
    /// and the writer goes on with the slot that was committed before. The result is
    /// what the writer's slot held.
    pub fn write_step(
        internal: &mut Internal<T>,
        index: &mut SlotIndex,
        buffer: &mut T,
        value: T,
    ) -> (replaced: T)
        ensures
            replaced == *old(buffer),
            final(internal)@ == old(internal)@.commit(Slot { index: old(index)@, value }).0,
            (Slot { index: final(index)@, value: *final(buffer) }) == old(internal)@.commit(
                Slot { index: old(index)@, value },
            ).1,
    {
        let mut replaced = value;
        core::mem::swap(buffer, &mut replaced);
        let previous = internal.commit(*index, buffer);
        *index = previous;
        replaced
    }

    /// Replaces the contents of the writer's slot by `value` and commits the slot: one
    /// [`Writer::write_step`] on the shared state. What the slot held is dropped once
    /// the shared state is released.
    pub fn write(&mut self, value: T)
        ensures
            final(self)@.index < 3,
            forall|reader: Reader<T>|
                #![trigger old(self).paired_with(&reader)]
                #![trigger final(self).paired_with(&reader)]
                old(self).paired_with(&reader) == final(self).paired_with(&reader),
    {
        let _replaced = {
            let mut guard = lock(&self.internal);
            let internal = guarded(&mut guard);
            Self::write_step(internal, &mut self.write_index, &mut self.buffer, value)
        };
        proof {
            use_type_invariant(&self.write_index);
        }
    }

    /// A guard through which the contents of the writer's slot can be changed in place.
    /// The slot is committed when the guard goes out of scope, on the shared state that
    /// the writer holds, and the writer keeps that shared state.
    pub fn get_mut(&mut self) -> (guard: WriteGuard<'_, T>)
        ensures
            guard@ == old(self)@.value,
            guard.slot() == old(self)@,
            forall|reader: Reader<T>|
                #![trigger guard.paired_with(&reader)]
                #![trigger old(self).paired_with(&reader)]
                guard.paired_with(&reader) == old(self).paired_with(&reader),
            forall|reader: Reader<T>|
                #![trigger final(self).paired_with(&reader)]
                old(self).paired_with(&reader) == final(self).paired_with(&reader),
    {
        WriteGuard {
            internal: &self.internal,
            write_index: &mut self.write_index,
            buffer: &mut self.buffer,
        }
    }

    /// Commits the slot behind `guard` on the shared state `internal`: the slot becomes
    /// the committed one, unread, and the guard's writer goes on with the slot that was
    /// committed before.
    fn commit_write_guard<'a>(guard: &mut WriteGuard<'a, T>, internal: &mut Internal<T>)
        ensures
            final(internal)@ == old(internal)@.commit(old(guard).slot()).0,
            final(guard).slot() == old(internal)@.commit(old(guard).slot()).1,
            forall|reader: Reader<T>|
                #![trigger old(guard).paired_with(&reader)]
                #![trigger final(guard).paired_with(&reader)]
                old(guard).paired_with(&reader) == final(guard).paired_with(&reader),
        opens_invariants none
        no_unwind
    {
        let previous = internal.commit(*guard.write_index, guard.buffer);
        *guard.write_index = previous;
    }
}

impl<'a, T> std::ops::Deref for WriteGuard<'a, T> {
    type Target = T;

    fn deref(&self) -> (value: &T)
        ensures
            *value == self@,
    {
        &*self.buffer
    }
}

impl<'a, T> std::ops::DerefMut for WriteGuard<'a, T> {
    fn deref_mut(&mut self) -> (value: &mut T)
        ensures
            *value == old(self)@,
            final(self)@ == *final(value),
    {
        &mut *self.buffer
    }
}

impl<'a, T> Drop for WriteGuard<'a, T> {
    fn drop(&mut self)
        opens_invariants none
        no_unwind
    {
        let shared = self.internal;
        let mut locked = lock(shared);
        let internal = guarded(&mut locked);
        Writer::commit_write_guard(self, internal)
    }
}

impl<T> Reader<T> {
    /// A whole read on the shared state `internal`, for the reader whose slot is
    /// `*index` with the contents `*buffer`: if the committed slot is unread, the reader
    /// takes it and gives its own in exchange; otherwise nothing changes.
    pub fn read_step(internal: &mut Internal<T>, index: &mut SlotIndex, buffer: &mut T)
        ensures
            final(internal)@ == old(internal)@.claim(
                Slot { index: old(index)@, value: *old(buffer) },
            ).0,
            (Slot { index: final(index)@, value: *final(buffer) }) == old(internal)@.claim(
                Slot { index: old(index)@, value: *old(buffer) },
            ).1,
    {
        let current = internal.claim(*index, buffer);
        *index = current;
    }

    /// The latest committed value. If a write was committed since the last call, the
    /// reader takes that slot and gives its own in exchange; otherwise the reader keeps
    /// its slot and returns the value it returned before. The call is one
    /// [`Reader::read_step`] on the shared state.
    pub fn read(&mut self) -> (value: &T)
        ensures
            *value == final(self)@.value,
            final(self)@.index < 3,
            forall|writer: Writer<T>|
                #![trigger writer.paired_with(old(self))]
                #![trigger writer.paired_with(final(self))]
                writer.paired_with(old(self)) == writer.paired_with(final(self)),
    {
        {
            let mut guard = lock(&self.internal);
            let internal = guarded(&mut guard);
            Self::read_step(internal, &mut self.read_index, &mut self.buffer);
        }
        proof {
            use_type_invariant(&self.read_index);
        }
        &self.buffer
    }
}

/// A triple buffer with three given initial values, as its two handles. The reader
/// starts on slot 0 with the first value, slot 1 with the second value is committed and
/// marked as read, and the writer starts on slot 2 with the third value. Both handles
/// hold the same shared state, which starts as [`Internal::new`] builds it.
pub fn triple_buffer_explicit<T>(initial_values: (T, T, T)) -> (handles: (Writer<T>, Reader<T>))
    ensures
        handles.0@ == (Slot { index: 2, value: initial_values.2 }),
        handles.1@ == (Slot { index: 0, value: initial_values.0 }),
        handles.0.paired_with(&handles.1),
{
    let internal = Arc::new(Mutex::new(Internal::new(initial_values.1)));
    let writer = Writer {
        internal: share(&internal),
        write_index: SlotIndex { index: 2 },
        buffer: initial_values.2,
    };
    let reader = Reader { internal, read_index: SlotIndex { index: 0 }, buffer: initial_values.0 };
    (writer, reader)
}

/// A triple buffer whose three slots start with `initial_value` and two clones of it.
pub fn triple_buffer<T: Clone>(initial_value: T) -> (handles: (Writer<T>, Reader<T>))
    ensures
        handles.0@ == (Slot { index: 2, value: initial_value }),
        handles.1@.index == 0,
        cloned(initial_value, handles.1@.value),
        handles.0.paired_with(&handles.1),
{
    triple_buffer_explicit((initial_value.clone(), initial_value.clone(), initial_value))
}

} // verus!
