//! What messages travel over.

use vstd::prelude::*;

verus! {

/// Something that messages travel over, and that can be handed to another thread.
pub trait Transport: Send {

}

} // verus!
