use vstd::prelude::*;

use crate::errors::ProcessError;
use crate::types::ListenStatus;

verus! {

/// A blocking wait for a signal on some target process. The engine's
/// listener supplies the bounded pieces of such a wait; a driver that owns
/// the unbounded observation loop implements the trait itself.
pub trait Listen {
    /// Block until the listened-for signal is observed on the target.
    fn listen(&self) -> Result<ListenStatus, ProcessError>;
}

} // verus!
