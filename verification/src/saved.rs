//! Bookkeeping of an assembler context: which registers are saved, and where.
use vstd::prelude::*;

verus! {

/// A kind of value that an assembler context keeps in registers.
pub trait AsmValue {

}

/// An assembler context over an instruction writer.
pub struct Asm<'a, Context, T: ?Sized> {
    pub arch: &'a mut T,
    pub context: &'a mut Context,
    /// How far below the frame each register is saved, zero where it is not.
    pub used_regs: [u32; 32],
    /// How far the stack pointer is below the frame.
    pub offset: u32,
}

/// Make room for a pair of registers: where the two are saved. The stack
/// pointer stays a multiple of sixteen.
pub fn reserve_pair(offset: &mut u32) -> (r: (u32, u32))
    requires
        *old(offset) + 16 <= u32::MAX,
    ensures
        *final(offset) == *old(offset) + 16,
        r == ((*old(offset) + 8) as u32, (*old(offset) + 16) as u32),
{
    *offset = *offset + 16;
    (*offset - 8, *offset)
}

/// Remember where a register is saved.
pub fn note_saved(used_regs: &mut [u32; 32], register: u8, place: u32)
    requires
        register < 32,
    ensures
        final(used_regs)@ == old(used_regs)@.update(register as int, place),
{
    used_regs[register as usize] = place;
}

/// What saving a pair of registers leaves behind, where both instructions
/// were written: the second is remembered last.
pub fn save_pair(used_regs: &mut [u32; 32], offset: &mut u32, first: u8, second: u8)
    requires
        first < 32,
        second < 32,
        *old(offset) + 16 <= u32::MAX,
    ensures
        *final(offset) == *old(offset) + 16,
        final(used_regs)@ == old(used_regs)@.update(
            first as int,
            (*old(offset) + 8) as u32,
        ).update(second as int, (*old(offset) + 16) as u32),
{
    let (low, high) = reserve_pair(offset);
    note_saved(used_regs, first, low);
    note_saved(used_regs, second, high);
}

} // verus!
