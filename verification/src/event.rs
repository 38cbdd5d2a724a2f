use vstd::prelude::*;

verus! {

/// One item of the merged event stream that drives the control loop:
/// either a user input or the periodic timer tick.
///
/// The two producers push into a single ordered channel, so the consumer
/// applies transitions one event at a time and no tick is ever dropped.
pub enum Event<I> {
    /// A user input, such as a key press.
    Input(I),
    /// One period of the fixed-interval timer elapsed.
    Tick,
}

} // verus!
