//! The source of chance for a random reset, and what a draw decides.

use vstd::prelude::*;
use rand::Rng;

verus! {

/// The draws run over `0..DRAW_LIMIT`.
pub const DRAW_LIMIT: i32 = 100;

/// A cell comes to life on a draw above this mark.
pub const LIFE_MARK: i32 = 50;

/// One draw from the thread-local generator of the `rand` crate:
/// `rand::thread_rng()` followed by `Rng::gen_range` with the bounds `low`
/// and `high`. The crate documents the result as lying in the half-open
/// range from `low` to `high` and the call as panicking unless `low` is below
/// `high`; nothing more is claimed of it here: which number comes is left
/// open, and two draws may differ. The generator is seeded by the operating
/// system on its first use in a thread and panics if that fails.
#[verifier::external_body]
pub(crate) fn draw_between(low: i32, high: i32) -> (n: i32)
    requires
        low < high,
    ensures
        low <= n < high,
{
    rand::thread_rng().gen_range(low, high)
}

/// The state that a draw gives a cell: live above the mark, dead at the mark
/// and below. Of the hundred draws the 49 from 51 to 99 give life, so a cell
/// is a little less likely to live than to die.
pub fn state_for_draw(n: i32) -> (state: u8)
    ensures
        state == if n > LIFE_MARK {
            1u8
        } else {
            0u8
        },
{
    if n > LIFE_MARK {
        1
    } else {
        0
    }
}

} // verus!
