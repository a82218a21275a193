//! The state of one guest execution, made explicit: the context it reads
//! from, the cursor over its input segments, and the journal it writes.
//!
//! Input segments are read once each, in the order in which the context
//! holds them. Reading when none is left is a fault. The journal only
//! grows.

use vstd::prelude::*;
use crate::context::ExecutionContext;
use crate::journal::encode_values;
use crate::journal::word_values;
use crate::journal::CommittedValue;
use crate::journal::Journal;
use crate::wire::be_bytes_u32;
use crate::wire::be_bytes_u64;

verus! {

/// A violation of the virtual machine's rules by the guest. It ends the
/// execution, and nothing that was committed before it is handed out.
#[derive(Clone, Copy, Debug, PartialEq, Eq)]
pub enum GuestExecutionFault {
    /// The guest read an input segment when none was left.
    ReadPastInput,
}

/// One guest execution in progress.
pub struct Guest<'a> {
    context: &'a ExecutionContext,
    cursor: usize,
    journal: Journal,
}

impl<'a> Guest<'a> {
    /// The input segments of the execution.
    pub closed spec fn inputs(&self) -> Seq<Seq<u8>> {
        self.context@
    }

    /// The number of input segments read so far.
    pub closed spec fn cursor(&self) -> nat {
        self.cursor as nat
    }

    /// The bytes committed so far.
    pub closed spec fn journal(&self) -> Seq<u8> {
        self.journal@
    }

    /// Starts an execution on a context: nothing read, nothing committed.
    pub fn new(context: &'a ExecutionContext) -> (guest: Guest<'a>)
        ensures
            guest.inputs() == context@,
            guest.cursor() == 0,
            guest.journal() == Seq::<u8>::empty(),
    {
        Guest { context, cursor: 0, journal: Journal::new() }
    }

    /// Reads the next input segment and moves past it. Where every segment
    /// has been read already, this is a fault and nothing changes.
    pub fn read(&mut self) -> (result: Result<&'a [u8], GuestExecutionFault>)
        ensures
            final(self).inputs() == old(self).inputs(),
            final(self).journal() == old(self).journal(),
            old(self).cursor() < old(self).inputs().len() ==> (result matches Ok(segment)
                && segment@ == old(self).inputs()[old(self).cursor() as int])
                && final(self).cursor() == old(self).cursor() + 1,
            old(self).cursor() >= old(self).inputs().len() ==> result == Err::<
                &[u8],
                GuestExecutionFault,
            >(GuestExecutionFault::ReadPastInput) && final(self).cursor() == old(self).cursor(),
    {
        match self.context.segment(self.cursor) {
            Some(segment) => {
                self.cursor = self.cursor + 1;
                Ok(segment)
            },
            None => Err(GuestExecutionFault::ReadPastInput),
        }
    }

    /// Commits a 32-bit word.
    pub fn commit_u32(&mut self, x: u32)
        ensures
            final(self).inputs() == old(self).inputs(),
            final(self).cursor() == old(self).cursor(),
            final(self).journal() == old(self).journal() + be_bytes_u32(x),
    {
        self.journal.commit_u32(x);
    }

    /// Commits a 64-bit word.
    pub fn commit_u64(&mut self, x: u64)
        ensures
            final(self).inputs() == old(self).inputs(),
            final(self).cursor() == old(self).cursor(),
            final(self).journal() == old(self).journal() + be_bytes_u64(x),
    {
        self.journal.commit_u64(x);
    }

    /// Commits a byte array.
    pub fn commit_bytes(&mut self, bytes: &[u8])
        ensures
            final(self).inputs() == old(self).inputs(),
            final(self).cursor() == old(self).cursor(),
            final(self).journal() == old(self).journal() + bytes@,
    {
        self.journal.commit_bytes(bytes);
    }

    /// Commits a run of 32-bit words, in order.
    pub fn commit_words(&mut self, words: &[u32])
        ensures
            final(self).inputs() == old(self).inputs(),
            final(self).cursor() == old(self).cursor(),
            final(self).journal() == old(self).journal() + encode_values(word_values(words@)),
    {
        self.journal.commit_words(words);
    }

    /// Commits one value.
    pub fn commit(&mut self, value: &CommittedValue)
        ensures
            final(self).inputs() == old(self).inputs(),
            final(self).cursor() == old(self).cursor(),
            final(self).journal() == old(self).journal() + value@.encoding(),
    {
        self.journal.commit(value);
    }

    /// Ends the execution and hands out the bytes of its journal. Nothing
    /// can be committed to them any more.
    pub fn finish(self) -> (journal: Vec<u8>)
        ensures
            journal@ == self.journal(),
    {
        self.journal.into_bytes()
    }
}

} // verus!
