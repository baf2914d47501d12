//! A single-producer / single-consumer queue of pre-allocated audio slots.
//!
//! A fixed pool of slots travels between a writer and a reader through two
//! bounded channels: the writer retains a free slot, fills it and releases
//! it to the reader; the reader retains it, consumes it and releases it back
//! into the free pool. The writer keeps the slots that were never used and
//! hands them out before any that came back, as they were first in the
//! pool. Neither side allocates while audio is flowing.
//!
//! The channels are shared by the two halves, so what a half finds in them
//! depends on what the other half did: the contracts below say what holds
//! whatever a channel hands out.
use vstd::prelude::*;

use tokio::sync::mpsc::error::TrySendError;
use tokio::sync::mpsc::Receiver as MpscReceiver;
use tokio::sync::mpsc::Sender as MpscSender;

verus! {

#[verifier::external_type_specification]
#[verifier::external_body]
#[verifier::reject_recursive_types(T)]
pub struct ExChannelSender<T>(MpscSender<T>);

#[verifier::external_type_specification]
#[verifier::external_body]
#[verifier::reject_recursive_types(T)]
pub struct ExChannelReceiver<T>(MpscReceiver<T>);

/// The largest capacity that a bounded channel accepts: `usize::MAX >> 3`.
pub open spec fn max_channel_capacity() -> int {
    usize::MAX as int / 8
}

/// Calls `tokio::sync::mpsc::channel`, which creates a bounded channel of
/// the given capacity; it panics on a capacity of zero or one above
/// `usize::MAX >> 3`, which `requires` leaves out. Nothing is stated of the
/// halves it returns: they are opaque here.
#[verifier::external_body]
fn bounded_channel<T>(capacity: usize) -> (MpscSender<T>, MpscReceiver<T>)
    requires
        0 < capacity <= max_channel_capacity(),
{
    tokio::sync::mpsc::channel(capacity)
}

/// Calls `Receiver::try_recv`: the next value in the channel, or `None`
/// when the channel is empty or closed. What the channel holds is shared
/// with its senders, so nothing is stated of the result.
#[verifier::external_body]
fn receive_now<T>(receiver: &mut MpscReceiver<T>) -> Option<T> {
    receiver.try_recv().ok()
}

/// Calls `Sender::try_send`: whether the value was accepted. A full or
/// closed channel refuses it and the value is dropped. Nothing is stated
/// of the result: it depends on the channel's shared state.
#[verifier::external_body]
fn send_now<T>(sender: &MpscSender<T>, value: T) -> bool {
    match sender.try_send(value) {
        Ok(()) => true,
        Err(TrySendError::Full(_)) => false,
        Err(TrySendError::Closed(_)) => false,
    }
}

/// The producing half of the queue. The slots that were never used wait
/// in `fresh`, ahead of those that the reader returns to the free pool.
#[verifier::reject_recursive_types(T)]
pub struct Writer<T> {
    fresh: Vec<T>,
    free_rx: MpscReceiver<T>,
    filled_tx: MpscSender<T>,
    current: Option<T>,
    num_slots: usize,
}

/// The consuming half of the queue.
#[verifier::reject_recursive_types(T)]
pub struct Reader<T> {
    filled_rx: MpscReceiver<T>,
    free_tx: MpscSender<T>,
    current: Option<T>,
    num_slots: usize,
}

/// The number of slots of a queue asked for with `num_slots`: at least one.
pub open spec fn pool_size(num_slots: usize) -> usize {
    if num_slots == 0 {
        1
    } else {
        num_slots
    }
}

/// Creates a queue with `num_slots` pre-allocated slots (at least one),
/// each a clone of `value`. Neither half starts out holding a slot, and all
/// of them are free: the writer can retain and release that many in a row
/// whatever the reader does.
pub fn queue<T: Clone>(num_slots: usize, value: T) -> (q: (Writer<T>, Reader<T>))
    requires
        num_slots <= max_channel_capacity(),
    ensures
        q.0.fresh_slots() == pool_size(num_slots),
        q.0.retained() is None,
        q.1.retained() is None,
        q.0.slots() == pool_size(num_slots),
        q.1.slots() == pool_size(num_slots),
{
    let num_slots = if num_slots == 0 {
        1
    } else {
        num_slots
    };
    let (free_tx, free_rx) = bounded_channel(num_slots);
    let (filled_tx, filled_rx) = bounded_channel(num_slots);
    let mut fresh: Vec<T> = Vec::new();
    let mut i: usize = 0;
    while i < num_slots
        invariant
            i <= num_slots,
            fresh@.len() == i,
        decreases num_slots - i,
    {
        fresh.push(value.clone());
        i = i + 1;
    }
    (
        Writer { fresh, free_rx, filled_tx, current: None, num_slots },
        Reader { filled_rx, free_tx, current: None, num_slots },
    )
}

impl<T> Writer<T> {
    /// The slot the writer holds, if any.
    pub closed spec fn retained(&self) -> Option<T> {
        self.current
    }

    /// How many slots were never used yet: they are free whatever the
    /// reader does.
    pub closed spec fn fresh_slots(&self) -> nat {
        self.fresh@.len()
    }

    /// The number of slots in the pool.
    pub closed spec fn slots(&self) -> usize {
        self.num_slots
    }

    /// Takes a free slot, a never used one first. Returns `false`, holding
    /// what it held, when a slot is already retained or no free slot is
    /// available (the reader has not kept up); on `true` the writer holds a
    /// slot. Without a retained slot, a never used slot is always available.
    pub fn retain_slot(&mut self) -> (r: bool)
        ensures
            final(self).slots() == old(self).slots(),
            old(self).retained() is Some ==> !r,
            r ==> final(self).retained() is Some,
            !r ==> final(self).retained() == old(self).retained(),
            old(self).retained() is None && old(self).fresh_slots() > 0 ==> r && final(self).fresh_slots()
                == old(self).fresh_slots() - 1,
            !(old(self).retained() is None && old(self).fresh_slots() > 0) ==> final(self).fresh_slots()
                == old(self).fresh_slots(),
    {
        if self.current.is_some() {
            return false;
        }
        if let Some(slot) = self.fresh.pop() {
            self.current = Some(slot);
            return true;
        }
        match receive_now(&mut self.free_rx) {
            Some(slot) => {
                self.current = Some(slot);
                true
            },
            None => false,
        }
    }

    /// Hands the retained slot to the reader; without one, does nothing.
    /// Afterwards the writer holds no slot.
    pub fn release_slot(&mut self)
        ensures
            final(self).slots() == old(self).slots(),
            final(self).fresh_slots() == old(self).fresh_slots(),
            final(self).retained() is None,
    {
        if let Some(slot) = self.current.take() {
            // A full or closed channel drops the slot: the pool shrinks for
            // the lifetime of this queue.
            let _ = send_now(&self.filled_tx, slot);
        }
    }

    /// The retained slot, to be written into, if any.
    pub fn slot_mut(&mut self) -> (r: Option<&mut T>)
        ensures
            final(self).slots() == old(self).slots(),
            final(self).fresh_slots() == old(self).fresh_slots(),
            match old(self).retained() {
                None => r is None && final(self).retained() is None,
                Some(v) => r is Some && *r.unwrap() == v && final(self).retained() == Some(
                    *final(r.unwrap()),
                ),
            },
    {
        self.current.as_mut()
    }

    /// How many slots the writer holds: one or none.
    pub fn num_retained_slots(&self) -> (n: usize)
        ensures
            n == (if self.retained() is Some {
                1usize
            } else {
                0usize
            }),
    {
        if self.current.is_some() {
            1
        } else {
            0
        }
    }

    /// The number of slots in the pool.
    pub fn num_slots(&self) -> (n: usize)
        ensures
            n == self.slots(),
    {
        self.num_slots
    }
}

impl<T> Reader<T> {
    /// The slot the reader holds, if any.
    pub closed spec fn retained(&self) -> Option<T> {
        self.current
    }

    /// The number of slots in the pool.
    pub closed spec fn slots(&self) -> usize {
        self.num_slots
    }

    /// Takes the next slot that the writer handed over. Returns `false`,
    /// holding what it held, when a slot is already retained or none is
    /// waiting; on `true` the reader holds a slot.
    pub fn retain_slot(&mut self) -> (r: bool)
        ensures
            final(self).slots() == old(self).slots(),
            old(self).retained() is Some ==> !r,
            r ==> final(self).retained() is Some,
            !r ==> final(self).retained() == old(self).retained(),
    {
        if self.current.is_some() {
            return false;
        }
        match receive_now(&mut self.filled_rx) {
            Some(slot) => {
                self.current = Some(slot);
                true
            },
            None => false,
        }
    }

    /// Returns the retained slot to the free pool; without one, does
    /// nothing. Afterwards the reader holds no slot.
    pub fn release_slot(&mut self)
        ensures
            final(self).slots() == old(self).slots(),
            final(self).retained() is None,
    {
        if let Some(slot) = self.current.take() {
            let _ = send_now(&self.free_tx, slot);
        }
    }

    /// The retained slot, to be read from, if any.
    pub fn slot_mut(&mut self) -> (r: Option<&mut T>)
        ensures
            final(self).slots() == old(self).slots(),
            match old(self).retained() {
                None => r is None && final(self).retained() is None,
                Some(v) => r is Some && *r.unwrap() == v && final(self).retained() == Some(
                    *final(r.unwrap()),
                ),
            },
    {
        self.current.as_mut()
    }

    /// How many slots the reader holds: one or none.
    pub fn num_retained_slots(&self) -> (n: usize)
        ensures
            n == (if self.retained() is Some {
                1usize
            } else {
                0usize
            }),
    {
        if self.current.is_some() {
            1
        } else {
            0
        }
    }

    /// The number of slots in the pool.
    pub fn num_slots(&self) -> (n: usize)
        ensures
            n == self.slots(),
    {
        self.num_slots
    }
}

} // verus!
