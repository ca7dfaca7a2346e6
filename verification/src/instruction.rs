//! The flat virtual-machine instruction set produced by code generation.

use vstd::prelude::*;

verus! {

/// One virtual-machine instruction.
///
/// Addresses are indices into the instruction program, origin 0.
/// `Char` consumes one input symbol if it is equal to the stored symbol,
/// `Match` accepts, `Jump` transfers control, and `Split` tries its first
/// target and falls back to the second from the same input position.
#[derive(Debug, Clone, Copy, PartialEq, Eq)]
pub enum Instruction {
    Char(char),
    Match,
    Jump(usize),
    Split(usize, usize),
}

/// Every address stored in `i` lies in the half-open range `lo..=hi`.
pub open spec fn targets_within(i: Instruction, lo: int, hi: int) -> bool {
    match i {
        Instruction::Char(_) => true,
        Instruction::Match => true,
        Instruction::Jump(a) => lo <= a <= hi,
        Instruction::Split(a1, a2) => lo <= a1 <= hi && lo <= a2 <= hi,
    }
}

/// Every address referenced by any instruction of `p` is a valid index
/// into `p` itself: the program has no dangling jump or split target.
pub open spec fn program_targets_valid(p: Seq<Instruction>) -> bool {
    forall|j: int| 0 <= j < p.len() ==> targets_within(#[trigger] p[j], 0, p.len() - 1)
}

} // verus!
