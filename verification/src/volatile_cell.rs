//! The trusted boundary around the `volatile` crate.
//!
//! The display grid is made of `volatile::Volatile<ScreenChar>` cells, so that
//! every read and write of a cell is a volatile access: the hardware that shows
//! the grid is invisible to the compiler's data-flow analysis, and a plain load
//! or store could be reordered or eliminated. The wrappers here are the only
//! places that touch the cells; everything above them is verified against their
//! contracts.

use vstd::prelude::*;
use crate::vga_buffer::ScreenChar;

verus! {

#[verifier::external_type_specification]
#[verifier::external_body]
#[verifier::reject_recursive_types(T)]
pub struct ExVolatile<T: Copy>(volatile::Volatile<T>);

/// The value a volatile cell holds: what `volatile::Volatile::read` returns and
/// the last `volatile::Volatile::write` (or the construction) stored.
pub uninterp spec fn cell_value(cell: volatile::Volatile<ScreenChar>) -> ScreenChar;

/// Relies on volatile::Volatile::new: wraps the given value, which becomes the
/// cell's contents.
#[verifier::external_body]
pub(crate) fn vol_new(value: ScreenChar) -> (cell: volatile::Volatile<ScreenChar>)
    ensures
        cell_value(cell) == value,
{
    volatile::Volatile::new(value)
}

/// Relies on volatile::Volatile::read: a volatile load that returns a copy of
/// the cell's contents.
#[verifier::external_body]
pub(crate) fn vol_read(cells: &Vec<volatile::Volatile<ScreenChar>>, i: usize) -> (r: ScreenChar)
    requires
        i < cells@.len(),
    ensures
        r == cell_value(cells@[i as int]),
{
    cells[i].read()
}

/// Relies on volatile::Volatile::write: a volatile store that replaces the
/// cell's contents with the given value and touches no other cell.
#[verifier::external_body]
pub(crate) fn vol_write(cells: &mut Vec<volatile::Volatile<ScreenChar>>, i: usize, value: ScreenChar)
    requires
        i < old(cells)@.len(),
    ensures
        final(cells)@.len() == old(cells)@.len(),
        cell_value(final(cells)@[i as int]) == value,
        forall|j: int|
            0 <= j < old(cells)@.len() && j != i ==> final(cells)@[j] == old(cells)@[j],
{
    cells[i].write(value)
}

} // verus!
