use vstd::prelude::*;

verus! {

/// One compiled operation of the instruction set.
///
/// `MovePointer` and `AddToCell` carry a fused, signed magnitude; `Jump`
/// carries a relative offset whose sign tells its role: positive offsets sit
/// at a loop entry (skip forward when the cell is zero), negative offsets sit
/// at a loop exit (jump back when the cell is nonzero).  Offset `0` is a
/// transient placeholder for a not-yet-matched loop entry and never survives
/// in a finished program.
#[derive(Clone, Copy, Debug, PartialEq, Eq, Structural)]
pub enum Instruction {
    /// Shift the tape pointer by the given signed amount.
    MovePointer(isize),
    /// Add the given signed amount to the current cell, modulo the cell width.
    AddToCell(isize),
    /// Set the current cell to zero.
    ClearCell,
    /// Append the current cell's byte to the output.
    Print,
    /// Store the next input byte into the current cell.
    Read,
    /// Conditionally transfer control by the given relative offset.
    Jump(isize),
}

/// An unmatched loop entry, as it stands while the scan is still running.
pub open spec fn is_open_placeholder(ins: Instruction) -> bool {
    ins == Instruction::Jump(0isize)
}

/// Some placeholder survives in `code`.
pub open spec fn has_placeholder(code: Seq<Instruction>) -> bool {
    exists|i: int| 0 <= i < code.len() && is_open_placeholder(code[i])
}

/// The jump at position `i`, if it is matched (offset nonzero), points at a
/// partner jump carrying the negated offset.
pub open spec fn jump_ok(code: Seq<Instruction>, i: int) -> bool {
    match code[i] {
        Instruction::Jump(k) => k != 0 ==> {
            &&& 0 <= i + (k as int)
            &&& i + (k as int) < code.len()
            &&& code[i + (k as int)] matches Instruction::Jump(k2) && k2 as int == -(k as int)
        },
        _ => true,
    }
}

/// Every matched jump points at its partner; placeholders are unconstrained.
pub open spec fn jumps_paired(code: Seq<Instruction>) -> bool {
    forall|i: int| 0 <= i < code.len() ==> #[trigger] jump_ok(code, i)
}

/// What the compiler guarantees of a finished program: a sequence short
/// enough for its offsets to be representable, with no placeholder left and
/// every jump matched to its partner.
pub open spec fn program_wf(code: Seq<Instruction>) -> bool {
    &&& code.len() <= isize::MAX as int
    &&& !has_placeholder(code)
    &&& jumps_paired(code)
}

} // verus!
