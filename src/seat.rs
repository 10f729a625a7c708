use vstd::prelude::*;

use crate::model::SlotModel;

verus! {

/// What a producer writes into a slot: the value and how many consumers must read it.
pub struct SeatState<T> {
    pub(crate) required_reads: usize,
    pub(crate) val: Option<T>,
}

/// One cell of the ring: a broadcast value and the count of reads it has had.
pub(crate) struct Seat<T> {
    pub(crate) num_reads: usize,
    pub(crate) state: SeatState<T>,
}

impl<T> View for Seat<T> {
    type V = SlotModel<T>;

    closed spec fn view(&self) -> SlotModel<T> {
        SlotModel {
            reads: self.num_reads as nat,
            required: self.state.required_reads as nat,
            val: self.state.val,
        }
    }
}

impl<T: Clone> Seat<T> {
    /// An empty, clear slot.
    pub fn empty() -> (s: Self)
        ensures
            s@ == (SlotModel::<T> { reads: 0, required: 0, val: None }),
    {
        Seat { num_reads: 0, state: SeatState { required_reads: 0, val: None } }
    }

    pub fn reads(&self) -> (r: usize)
        ensures
            r == self@.reads,
    {
        self.num_reads
    }

    pub fn required_reads(&self) -> (r: usize)
        ensures
            r == self@.required,
    {
        self.state.required_reads
    }

    pub fn has_value(&self) -> (r: bool)
        ensures
            r == self@.val is Some,
    {
        self.state.val.is_some()
    }

    /// All required reads have happened: the slot may be overwritten.
    pub fn is_clear(&self) -> (r: bool)
        ensures
            r == self@.is_clear(),
    {
        self.num_reads >= self.state.required_reads
    }

    /// Publishes `value` for `readers` consumers.
    pub fn write(&mut self, value: T, readers: usize)
        ensures
            final(self)@ == (SlotModel { reads: 0, required: readers as nat, val: Some(value) }),
    {
        self.state.val = Some(value);
        self.state.required_reads = readers;
        self.num_reads = 0;
    }

    /// Reads the value for one consumer: the last of the required reads moves it out,
    /// every earlier one takes a clone.
    pub fn take(&mut self) -> (r: T)
        requires
            old(self)@.reads < old(self)@.required,
            old(self)@.val is Some,
        ensures
            cloned(old(self)@.val->0, r),
            final(self)@.reads == old(self)@.reads + 1,
            final(self)@.required == old(self)@.required,
            final(self)@.val == if old(self)@.reads + 1 == old(self)@.required {
                None
            } else {
                old(self)@.val
            },
    {
        let num_reads = self.num_reads;
        let value = if num_reads + 1 == self.state.required_reads {
            self.state.val.take().unwrap()
        } else {
            self.state.val.as_ref().unwrap().clone()
        };
        self.num_reads = num_reads + 1;
        value
    }

    /// Counts one read on behalf of a consumer that leaves without reading.
    pub fn skip(&mut self)
        requires
            old(self)@.reads < old(self)@.required,
        ensures
            final(self)@ == (SlotModel { reads: old(self)@.reads + 1, ..old(self)@ }),
    {
        self.num_reads = self.num_reads + 1;
    }
}

} // verus!
