//! A triple buffer: a writer and a reader exchange values through three
//! slots, so that neither ever waits for the other.
//!
//! The reader owns one slot, the writer another, and the third, the back
//! slot, passes between them. A state word holds the index of the back slot
//! in its high half and, in its low half, whether the back slot holds a value
//! that the reader has not taken yet.
use vstd::prelude::*;

verus! {

pub struct TripleBuffer<T> {
    buffers: [T; 3],
    state: u32,
    read_index: u32,
    write_index: u32,
}

/// The state word for back slot `back_buffer_index`, flagged as new or not.
pub open spec fn spec_make_state(back_buffer_index: u32, is_write: bool) -> u32 {
    (back_buffer_index << 16u32) | if is_write {
        1u32
    } else {
        0u32
    }
}

/// Whether the state word flags a new value.
pub open spec fn spec_is_new_write(state: u32) -> bool {
    (state & 0x0000FFFFu32) != 0
}

/// The back slot of a state word.
pub open spec fn spec_back_index(state: u32) -> u32 {
    state >> 16u32
}

/// A state word gives back the slot and the flag it was made from.
pub proof fn lemma_state_fields(back_buffer_index: u32, is_write: bool)
    requires
        back_buffer_index < 3,
    ensures
        spec_back_index(spec_make_state(back_buffer_index, is_write)) == back_buffer_index,
        spec_is_new_write(spec_make_state(back_buffer_index, is_write)) == is_write,
{
    let w: u32 = if is_write {
        1
    } else {
        0
    };
    assert(((back_buffer_index << 16u32) | w) >> 16u32 == back_buffer_index) by (bit_vector)
        requires
            back_buffer_index < 3,
            w <= 1,
    ;
    assert((((back_buffer_index << 16u32) | w) & 0x0000FFFFu32) == w) by (bit_vector)
        requires
            back_buffer_index < 3,
            w <= 1,
    ;
}

impl<T> TripleBuffer<T> {
    /// The three slots are distinct and the state word is well formed.
    pub closed spec fn wf(self) -> bool {
        &&& self.read_index < 3
        &&& self.write_index < 3
        &&& spec_back_index(self.state) < 3
        &&& self.read_index != self.write_index
        &&& self.read_index != spec_back_index(self.state)
        &&& self.write_index != spec_back_index(self.state)
        &&& self.state == spec_make_state(
            spec_back_index(self.state),
            spec_is_new_write(self.state),
        )
    }

    /// Whether a value was written that the reader has not taken.
    pub closed spec fn pending(self) -> bool {
        spec_is_new_write(self.state)
    }

    /// The value that the next read gives: the newest written one.
    pub closed spec fn latest(self) -> T {
        if self.pending() {
            self.buffers@[spec_back_index(self.state) as int]
        } else {
            self.buffers@[self.read_index as int]
        }
    }

    /// The buffer after the reader takes the back slot, if it holds a new value.
    pub closed spec fn spec_load(self) -> Self {
        if self.pending() {
            TripleBuffer {
                buffers: self.buffers,
                state: spec_make_state(self.read_index, false),
                read_index: spec_back_index(self.state),
                write_index: self.write_index,
            }
        } else {
            self
        }
    }

    /// The buffer after the writer stores `value` and hands its slot over.
    pub closed spec fn spec_write(self, value: T) -> Self {
        TripleBuffer {
            buffers: vstd::array::spec_array_update(self.buffers, self.write_index as int, value),
            state: spec_make_state(self.write_index, true),
            read_index: self.read_index,
            write_index: spec_back_index(self.state),
        }
    }
}

impl<T: Clone + Default> TripleBuffer<T> {
    /// A buffer whose three slots hold default values, with nothing pending.
    pub fn new() -> (b: Self)
        ensures
            b.wf(),
            !b.pending(),
    {
        let buffers = [T::default(), T::default(), T::default()];
        proof {
            lemma_state_fields(1, false);
        }
        Self { buffers, state: Self::make_state(1, false), read_index: 0, write_index: 2 }
    }

    /// A buffer whose slots hold `initial` (or clones of it), with nothing
    /// pending: a read gives `initial` back.
    pub fn new_with_initial(initial: T) -> (b: Self)
        ensures
            b.wf(),
            !b.pending(),
            cloned(initial, b.latest()),
    {
        let a = initial.clone();
        let b = initial.clone();
        let buffers = [a, b, initial];
        proof {
            lemma_state_fields(1, false);
        }
        Self { buffers, state: Self::make_state(1, false), read_index: 0, write_index: 2 }
    }

    /// The newest value (a clone of it), taking the back slot if it is new.
    pub fn read(&mut self) -> (r: T)
        requires
            old(self).wf(),
        ensures
            *final(self) == old(self).spec_load(),
            cloned(old(self).latest(), r),
    {
        self.load_read_buffer();
        self.buffers[self.read_index as usize].clone()
    }

    /// The newest value (a clone of it) if it has not been read yet.
    pub fn read_new(&mut self) -> (r: Option<T>)
        requires
            old(self).wf(),
        ensures
            *final(self) == old(self).spec_load(),
            old(self).pending() ==> (r matches Some(v) && cloned(old(self).latest(), v)),
            !old(self).pending() ==> r is None,
    {
        if self.load_read_buffer() {
            Some(self.buffers[self.read_index as usize].clone())
        } else {
            None
        }
    }

    /// Stores `value` as the newest value.
    pub fn write(&mut self, value: T)
        requires
            old(self).wf(),
        ensures
            *final(self) == old(self).spec_write(value),
    {
        let w = self.write_index;
        self.buffers[w as usize] = value;
        let prev_state = self.state;
        proof {
            lemma_state_fields(w, true);
        }
        self.state = Self::make_state(w, true);
        self.write_index = Self::back_index(prev_state);
    }

    /// Takes the back slot if it holds a new value; says whether it did.
    fn load_read_buffer(&mut self) -> (is_new: bool)
        requires
            old(self).wf(),
        ensures
            *final(self) == old(self).spec_load(),
            is_new == old(self).pending(),
            final(self).wf(),
    {
        let state = self.state;
        let is_new = Self::is_new_write(state);
        if is_new {
            let r = self.read_index;
            proof {
                lemma_state_fields(r, false);
            }
            self.state = Self::make_state(r, false);
            self.read_index = Self::back_index(state);
        }
        is_new
    }

    fn is_new_write(state: u32) -> (r: bool)
        ensures
            r == spec_is_new_write(state),
    {
        (state & 0x0000FFFF) != 0
    }

    fn back_index(state: u32) -> (r: u32)
        ensures
            r == spec_back_index(state),
    {
        state >> 16
    }

    fn make_state(back_buffer_index: u32, is_write: bool) -> (r: u32)
        ensures
            r == spec_make_state(back_buffer_index, is_write),
    {
        (back_buffer_index << 16) | if is_write {
            1
        } else {
            0
        }
    }
}

/// Every operation keeps the buffer well formed.
pub proof fn lemma_operations_keep_wf<T>(b: TripleBuffer<T>, value: T)
    requires
        b.wf(),
    ensures
        b.spec_load().wf(),
        b.spec_write(value).wf(),
{
    lemma_state_fields(b.read_index, false);
    lemma_state_fields(b.write_index, true);
}

/// A read after a write gives the written value and leaves nothing pending;
/// a second read gives it again.
pub proof fn lemma_read_after_write<T>(b: TripleBuffer<T>, value: T)
    requires
        b.wf(),
    ensures
        b.spec_write(value).pending(),
        b.spec_write(value).latest() == value,
        !b.spec_write(value).spec_load().pending(),
        b.spec_write(value).spec_load().latest() == value,
        b.spec_write(value).spec_load().spec_load() == b.spec_write(value).spec_load(),
{
    lemma_state_fields(b.write_index, true);
    let w = b.spec_write(value);
    lemma_state_fields(w.read_index, false);
    assert(w.buffers@[b.write_index as int] == value);
}

/// Reading never changes which value is newest, and a read leaves nothing
/// pending.
pub proof fn lemma_read_keeps_latest<T>(b: TripleBuffer<T>)
    requires
        b.wf(),
    ensures
        b.spec_load().latest() == b.latest(),
        !b.spec_load().pending(),
{
    lemma_state_fields(b.read_index, false);
}

/// Of two writes with no read between them, the second is what a read gives.
pub proof fn lemma_last_write_wins<T>(b: TripleBuffer<T>, v1: T, v2: T)
    requires
        b.wf(),
    ensures
        b.spec_write(v1).spec_write(v2).latest() == v2,
{
    lemma_operations_keep_wf(b, v1);
    lemma_read_after_write(b.spec_write(v1), v2);
}

impl<T: Clone + Default> Default for TripleBuffer<T> {
    fn default() -> (b: Self)
        ensures
            b.wf(),
            !b.pending(),
    {
        Self::new()
    }
}

} // verus!
