use vstd::prelude::*;

verus! {

/// How the wave of a source moves: a travelling wave shifts its shape in
/// time, a standing wave keeps its shape in place and scales it in time.
#[derive(Clone, Copy, PartialEq, Eq, Debug)]
pub enum PropagationMode {
    Traveling,
    Standing,
}

} // verus!
