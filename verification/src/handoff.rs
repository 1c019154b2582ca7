//! The cross-thread handoff: a freshly built table is published by the
//! control thread and picked up by the audio thread once per block,
//! through a triple buffer.  Neither side ever blocks on the other, and
//! the reader always sees a complete table: the slot exchange is a single
//! atomic swap, so a table is either the one before a publish or the one
//! after it, never a mixture.
//!
//! Nothing here is proved about timing: which published table a read
//! returns depends on the interleaving of the two threads.  What the rest
//! of the library needs — that any table out of the handoff is well
//! formed — travels with the `Shaper` type itself, whose invariant every
//! constructor establishes.

use vstd::prelude::*;

use crate::shaper::Shaper;

verus! {

#[verifier::external_type_specification]
#[verifier::external_body]
#[verifier::reject_recursive_types(T)]
pub struct ExInput<T: Send>(triple_buffer::Input<T>);

#[verifier::external_type_specification]
#[verifier::external_body]
#[verifier::reject_recursive_types(T)]
pub struct ExOutput<T: Send>(triple_buffer::Output<T>);

/// The producer half: owned by the control context.
pub struct TablePublisher {
    input: triple_buffer::Input<Shaper>,
}

/// The consumer half: owned by the realtime context.
pub struct TableReader {
    output: triple_buffer::Output<Shaper>,
}

/// Relies on triple_buffer::triple_buffer: builds a single-producer
/// single-consumer triple buffer whose three slots start as clones of
/// `initial`, and returns its two halves.
#[verifier::external_body]
pub fn table_handoff(initial: &Shaper) -> (pair: (TablePublisher, TableReader)) {
    let (input, output) = triple_buffer::triple_buffer(initial);
    (TablePublisher { input }, TableReader { output })
}

impl TablePublisher {
    /// Relies on triple_buffer::Input::write: moves the table into the
    /// producer's private slot and swaps that slot into the shared one
    /// with a single atomic exchange; never blocks or waits on the
    /// reader.  A publish the reader never picked up is superseded: at
    /// most one unread table is in flight, the latest.
    #[verifier::external_body]
    pub fn publish(&mut self, table: Shaper) {
        self.input.write(table);
    }
}

impl TableReader {
    /// Relies on triple_buffer::Output::read: takes the shared slot if
    /// the producer has published since the last read, with a single
    /// atomic exchange, and otherwise keeps the slot it already holds;
    /// never blocks and never allocates.  The result is whichever
    /// complete `Shaper` was published most recently before the swap.
    #[verifier::external_body]
    pub fn latest(&mut self) -> &Shaper {
        self.output.read()
    }
}

} // verus!
