use vstd::prelude::*;
use rand::Rng;

verus! {

/// Relies on rand's `Rng::gen_range` over `thread_rng()`: for the range
/// `0..len` it returns a value below `len`; it panics only on an empty range,
/// which `requires` leaves out. Which value comes back is left to chance.
#[verifier::external_body]
pub(crate) fn random_index(len: usize) -> (r: usize)
    requires
        len > 0,
    ensures
        r < len,
{
    rand::thread_rng().gen_range(0..len)
}

} // verus!
