//! Decoding of the audited A64 forms.
//!
//! Instruction field definitions follow Arm A-profile Architecture Reference
//! Manual DDI0487 A64 encoding tables: B/BL (`C4.1.4`), B.cond (`C4.1.5`),
//! CBZ/CBNZ (`C4.1.6`), TBZ/TBNZ (`C4.1.7`), BR/BLR/RET (`C4.1.8`), and SVC
//! (`C4.1.9`). The raw masks below are the support authority; `disarm64`
//! protects this hand-extracted subset against accepting an undecodable word.
use vstd::prelude::*;

verus! {

/// A supported, audited A64 instruction form.
#[derive(Clone, Copy, Debug, Eq, PartialEq, Structural)]
pub enum Instruction {
    /// `B imm26`; target is `pc + sign_extend(imm26 << 2)`.
    Branch {
        /// Destination fetch address.
        target: u64,
    },
    /// `BL imm26`; target is `pc + sign_extend(imm26 << 2)`.
    BranchLink {
        /// Destination fetch address.
        target: u64,
    },
    /// `B.cond imm19`; true branches to `target`, false falls through four bytes.
    ConditionalBranch {
        /// Arm NZCV condition code.
        condition: u8,
        /// Destination fetch address when true.
        target: u64,
    },
    /// `CBZ`/`CBNZ` over a 32- or 64-bit register.
    CompareBranch {
        /// Tested register, with 31 meaning the architectural zero register.
        register: u8,
        /// Whether this is CBNZ rather than CBZ.
        nonzero: bool,
        /// Whether the register is 64-bit (`Xn`) rather than 32-bit (`Wn`).
        width64: bool,
        /// Destination fetch address when the condition holds.
        target: u64,
    },
    /// `MOVZ` or `MOVK` immediate. `MOVN` remains unsupported.
    MoveWide {
        /// Destination `Wd`/`Xd`, restricted to 0 through 30.
        dest: u8,
        /// 16-bit immediate payload.
        immediate: u64,
        /// Bit position of the immediate payload (a multiple of 16).
        shift: u32,
        /// Whether this is MOVK (keep other bits) rather than MOVZ.
        keep: bool,
        /// Whether this is the 64-bit X-register form.
        width64: bool,
    },
    /// `ADD`/`SUB` immediate without flags. Register 31 forms are rejected
    /// because the encoding uses SP rather than XZR there.
    AddImmediate {
        /// Destination `Wd`/`Xd`, restricted to 0 through 30.
        dest: u8,
        /// Source `Wn`/`Xn`, restricted to 0 through 30.
        source: u8,
        /// Zero-extended immediate after its optional 12-bit shift.
        immediate: u64,
        /// Whether this is subtraction rather than addition.
        subtract: bool,
        /// Whether this is the 64-bit X-register form.
        width64: bool,
    },
    /// `TBZ`/`TBNZ`.
    TestBranch {
        /// Tested register, with 31 meaning the architectural zero register.
        register: u8,
        /// Bit number (0 through 63).
        bit: u8,
        /// Whether this is TBNZ rather than TBZ.
        nonzero: bool,
        /// Destination fetch address when the test holds.
        target: u64,
    },
    /// `BR Xn`.
    BranchRegister {
        /// Source register. Register 31 is rejected by the decoder.
        register: u8,
    },
    /// `BLR Xn`.
    BranchLinkRegister {
        /// Source register. Register 31 is rejected by the decoder.
        register: u8,
    },
    /// Canonical `RET X30` only.
    Return,
    /// `SVC #0`, reserved for the bare-metal ABI.
    SupervisorCall,
}

/// A word was not an audited A64 form, or could not be fetched.
#[derive(Clone, Copy, Debug, Eq, PartialEq, Structural)]
pub enum DecodeError {
    /// `disarm64` rejected the instruction word.
    Invalid(u32),
    /// The decoder recognized it, but there is no audited semantic support.
    Unsupported(u32),
    /// A near-match used a reserved register, immediate, or exception form.
    Malformed(u32),
    /// No instruction is mapped at this address.
    Memory(u64),
}

/// Whether `disarm64` decodes a word.
pub uninterp spec fn recognized(raw: u32) -> bool;

/// Ask `disarm64::decoder::decode` whether it decodes a word. The decoder is
/// a table lookup on the word alone; the contract gives its answer a name and
/// says nothing else of it.
#[verifier::external_body]
pub(crate) fn recognize(raw: u32) -> (r: bool)
    ensures
        r == recognized(raw),
{
    disarm64::decoder::decode(raw).is_some()
}

/// The bits of a word under a mask are these.
pub open spec fn fits(raw: u32, mask: u32, value: u32) -> bool {
    raw & mask == value
}

/// The `width` bits of a word from bit `low` on.
pub open spec fn field(raw: u32, low: u32, width: nat) -> u32 {
    ((raw as nat / vstd::arithmetic::power2::pow2(low as nat)) % vstd::arithmetic::power2::pow2(
        width,
    )) as u32
}

/// A field as a signed number.
pub open spec fn signed_field(raw: u32, low: u32, width: nat) -> int {
    let value = field(raw, low, width) as int;
    if value < vstd::arithmetic::power2::pow2((width - 1) as nat) {
        value
    } else {
        value - vstd::arithmetic::power2::pow2(width)
    }
}

/// An address at a distance, modulo the address space.
pub open spec fn at_distance(pc: u64, offset: int) -> u64 {
    ((pc + offset) % 0x1_0000_0000_0000_0000) as u64
}

/// The target of a PC-relative branch whose word offset is a signed field.
pub open spec fn relative(pc: u64, raw: u32, low: u32, width: nat) -> u64 {
    at_distance(pc, 4 * signed_field(raw, low, width))
}

/// `MOVZ` and `MOVK`.
pub open spec fn move_wide(raw: u32) -> Result<Instruction, DecodeError> {
    let dest = field(raw, 0, 5);
    let width64 = field(raw, 31, 1) == 1;
    let shift = 16 * field(raw, 21, 2);
    if dest == 31 || (!width64 && shift >= 32) {
        Err(DecodeError::Unsupported(raw))
    } else {
        Ok(
            Instruction::MoveWide {
                dest: dest as u8,
                immediate: field(raw, 5, 16) as u64,
                shift: shift as u32,
                keep: fits(raw, 0x7f80_0000, 0x7280_0000),
                width64,
            },
        )
    }
}

/// `ADD` and `SUB` immediate. Flag-setting forms need NZCV state and
/// register-31 forms mean SP.
pub open spec fn add_immediate(raw: u32) -> Result<Instruction, DecodeError> {
    let dest = field(raw, 0, 5);
    let source = field(raw, 5, 5);
    if field(raw, 29, 1) == 1 || dest == 31 || source == 31 {
        Err(DecodeError::Unsupported(raw))
    } else {
        Ok(
            Instruction::AddImmediate {
                dest: dest as u8,
                source: source as u8,
                immediate: (field(raw, 10, 12) * if field(raw, 22, 1) == 1 {
                    4096int
                } else {
                    1int
                }) as u64,
                subtract: field(raw, 30, 1) == 1,
                width64: field(raw, 31, 1) == 1,
            },
        )
    }
}

/// A branch to a register, of which 31 is none.
pub open spec fn register_form(raw: u32, link: bool) -> Result<Instruction, DecodeError> {
    let register = field(raw, 5, 5);
    if register == 31 {
        Err(DecodeError::Malformed(raw))
    } else if link {
        Ok(Instruction::BranchLinkRegister { register: register as u8 })
    } else {
        Ok(Instruction::BranchRegister { register: register as u8 })
    }
}

/// The audited form of a word, whatever else it may be.
pub open spec fn audited(pc: u64, raw: u32) -> Result<Instruction, DecodeError> {
    if fits(raw, 0x7f80_0000, 0x5280_0000) || fits(raw, 0x7f80_0000, 0x7280_0000) {
        move_wide(raw)
    } else if fits(raw, 0x1f00_0000, 0x1100_0000) {
        add_immediate(raw)
    } else if fits(raw, 0x7c00_0000, 0x1400_0000) {
        let target = relative(pc, raw, 0, 26);
        if field(raw, 31, 1) == 0 {
            Ok(Instruction::Branch { target })
        } else {
            Ok(Instruction::BranchLink { target })
        }
    } else if fits(raw, 0xff00_0010, 0x5400_0000) {
        let condition = field(raw, 0, 4);
        if condition >= 14 {
            Err(DecodeError::Malformed(raw))
        } else {
            Ok(
                Instruction::ConditionalBranch {
                    condition: condition as u8,
                    target: relative(pc, raw, 5, 19),
                },
            )
        }
    } else if fits(raw, 0x7e00_0000, 0x3400_0000) {
        Ok(
            Instruction::CompareBranch {
                register: field(raw, 0, 5) as u8,
                nonzero: field(raw, 24, 1) == 1,
                width64: field(raw, 31, 1) == 1,
                target: relative(pc, raw, 5, 19),
            },
        )
    } else if fits(raw, 0x7e00_0000, 0x3600_0000) {
        Ok(
            Instruction::TestBranch {
                register: field(raw, 0, 5) as u8,
                bit: (32 * field(raw, 31, 1) + field(raw, 19, 5)) as u8,
                nonzero: field(raw, 24, 1) == 1,
                target: relative(pc, raw, 5, 14),
            },
        )
    } else if fits(raw, 0xffff_fc1f, 0xd61f_0000) {
        register_form(raw, false)
    } else if fits(raw, 0xffff_fc1f, 0xd63f_0000) {
        register_form(raw, true)
    } else if fits(raw, 0xffff_fc1f, 0xd65f_0000) && field(raw, 5, 5) == 30 {
        Ok(Instruction::Return)
    } else if fits(raw, 0xffe0_001f, 0xd400_0001) && field(raw, 5, 16) == 0 {
        Ok(Instruction::SupervisorCall)
    } else {
        Err(DecodeError::Unsupported(raw))
    }
}

/// The decoding of a word that `disarm64` recognizes, or does not.
pub open spec fn decoded(pc: u64, raw: u32, recognized: bool) -> Result<Instruction, DecodeError> {
    if pc % 4 != 0 {
        Err(DecodeError::Malformed(raw))
    } else if !recognized {
        Err(DecodeError::Invalid(raw))
    } else {
        audited(pc, raw)
    }
}

/// A field, by shift and remainder.
pub(crate) fn extract(raw: u32, low: u32, width: u32) -> (r: u32)
    requires
        low < 32,
        0 < width < 32,
    ensures
        r == field(raw, low, width as nat),
        (r as int) < vstd::arithmetic::power2::pow2(width as nat),
{
    proof {
        vstd::arithmetic::power2::lemma2_to64();
        vstd::arithmetic::power2::lemma_pow2_pos(width as nat);
        vstd::arithmetic::power2::lemma_pow2_strictly_increases(width as nat, 32);
        vstd::bits::lemma_u32_shr_is_div(raw, low);
        vstd::bits::lemma_u32_shl_is_mul(1, width);
    }
    let size: u32 = 1u32 << width;
    let shifted: u32 = raw >> low;
    proof {
        assert(size == vstd::arithmetic::power2::pow2(width as nat));
        assert(shifted == raw as nat / vstd::arithmetic::power2::pow2(low as nat));
    }
    shifted % size
}

/// A signed field.
fn sign_extend(raw: u32, low: u32, width: u32) -> (r: i64)
    requires
        low < 32,
        0 < width < 32,
    ensures
        r == signed_field(raw, low, width as nat),
        -0x8000_0000 <= r < 0x8000_0000,
{
    let value: u32 = extract(raw, low, width);
    proof {
        vstd::arithmetic::power2::lemma2_to64();
        vstd::arithmetic::power2::lemma_pow2_unfold(width as nat);
        vstd::arithmetic::power2::lemma_pow2_strictly_increases(width as nat, 32);
        vstd::bits::lemma_u32_shl_is_mul(1, width);
        vstd::bits::lemma_u32_shl_is_mul(1, (width - 1) as u32);
    }
    let half: u32 = 1u32 << (width - 1);
    if value < half {
        value as i64
    } else {
        value as i64 - (1u32 << width) as i64
    }
}

/// An address at a signed distance.
fn displaced(pc: u64, words: i64) -> (r: u64)
    requires
        -0x8000_0000 <= words < 0x8000_0000,
    ensures
        r == at_distance(pc, 4 * words),
{
    pc.wrapping_add_signed(words * 4)
}

/// The byte offset of a `CBZ`, `CBNZ` or `B.cond`.
pub fn compare_branch_offset(raw: u32) -> (r: i64)
    ensures
        r == 4 * signed_field(raw, 5, 19),
        -0x2_0000_0000 <= r < 0x2_0000_0000,
{
    sign_extend(raw, 5, 19) * 4
}

/// The byte offset of a `TBZ` or `TBNZ`.
pub fn test_branch_offset(raw: u32) -> (r: i64)
    ensures
        r == 4 * signed_field(raw, 5, 14),
        -0x2_0000_0000 <= r < 0x2_0000_0000,
{
    sign_extend(raw, 5, 14) * 4
}

/// The byte offset of a `B` or `BL`.
pub fn branch_offset(raw: u32) -> (r: i64)
    ensures
        r == 4 * signed_field(raw, 0, 26),
        -0x2_0000_0000 <= r < 0x2_0000_0000,
{
    sign_extend(raw, 0, 26) * 4
}

fn decode_move_wide(raw: u32) -> (r: Result<Instruction, DecodeError>)
    ensures
        r == move_wide(raw),
{
    proof {
        vstd::arithmetic::power2::lemma2_to64();
    }
    let dest: u32 = extract(raw, 0, 5);
    let width64 = extract(raw, 31, 1) == 1;
    let shift: u32 = extract(raw, 21, 2) * 16;
    if dest == 31 || (!width64 && shift >= 32) {
        return Err(DecodeError::Unsupported(raw));
    }
    Ok(
        Instruction::MoveWide {
            dest: dest as u8,
            immediate: extract(raw, 5, 16) as u64,
            shift,
            keep: raw & 0x7f80_0000 == 0x7280_0000,
            width64,
        },
    )
}

fn decode_add_immediate(raw: u32) -> (r: Result<Instruction, DecodeError>)
    ensures
        r == add_immediate(raw),
{
    proof {
        vstd::arithmetic::power2::lemma2_to64();
    }
    let dest: u32 = extract(raw, 0, 5);
    let source: u32 = extract(raw, 5, 5);
    if extract(raw, 29, 1) == 1 || dest == 31 || source == 31 {
        return Err(DecodeError::Unsupported(raw));
    }
    let payload: u64 = extract(raw, 10, 12) as u64;
    let immediate: u64 = if extract(raw, 22, 1) == 1 {
        payload * 4096
    } else {
        payload
    };
    Ok(
        Instruction::AddImmediate {
            dest: dest as u8,
            source: source as u8,
            immediate,
            subtract: extract(raw, 30, 1) == 1,
            width64: extract(raw, 31, 1) == 1,
        },
    )
}

fn register_branch(raw: u32, link: bool) -> (r: Result<Instruction, DecodeError>)
    ensures
        r == register_form(raw, link),
{
    proof {
        vstd::arithmetic::power2::lemma2_to64();
    }
    let register: u32 = extract(raw, 5, 5);
    if register == 31 {
        Err(DecodeError::Malformed(raw))
    } else if link {
        Ok(Instruction::BranchLinkRegister { register: register as u8 })
    } else {
        Ok(Instruction::BranchRegister { register: register as u8 })
    }
}

/// Decode one A64 word at `pc`, given whether `disarm64` decodes it.
pub fn decode_recognized(pc: u64, raw: u32, recognized: bool) -> (r: Result<
    Instruction,
    DecodeError,
>)
    ensures
        r == decoded(pc, raw, recognized),
{
    proof {
        vstd::arithmetic::power2::lemma2_to64();
    }
    if pc % 4 != 0 {
        return Err(DecodeError::Malformed(raw));
    }
    if !recognized {
        return Err(DecodeError::Invalid(raw));
    }
    if raw & 0x7f80_0000 == 0x5280_0000 || raw & 0x7f80_0000 == 0x7280_0000 {
        return decode_move_wide(raw);
    }
    if raw & 0x1f00_0000 == 0x1100_0000 {
        return decode_add_immediate(raw);
    }
    if raw & 0x7c00_0000 == 0x1400_0000 {
        let target: u64 = displaced(pc, sign_extend(raw, 0, 26));
        return if extract(raw, 31, 1) == 0 {
            Ok(Instruction::Branch { target })
        } else {
            Ok(Instruction::BranchLink { target })
        };
    }
    if raw & 0xff00_0010 == 0x5400_0000 {
        let condition: u32 = extract(raw, 0, 4);
        if condition >= 14 {
            return Err(DecodeError::Malformed(raw));
        }
        let target: u64 = displaced(pc, sign_extend(raw, 5, 19));
        return Ok(Instruction::ConditionalBranch { condition: condition as u8, target });
    }
    if raw & 0x7e00_0000 == 0x3400_0000 {
        return Ok(
            Instruction::CompareBranch {
                register: extract(raw, 0, 5) as u8,
                nonzero: extract(raw, 24, 1) == 1,
                width64: extract(raw, 31, 1) == 1,
                target: displaced(pc, sign_extend(raw, 5, 19)),
            },
        );
    }
    if raw & 0x7e00_0000 == 0x3600_0000 {
        return Ok(
            Instruction::TestBranch {
                register: extract(raw, 0, 5) as u8,
                bit: (extract(raw, 31, 1) * 32 + extract(raw, 19, 5)) as u8,
                nonzero: extract(raw, 24, 1) == 1,
                target: displaced(pc, sign_extend(raw, 5, 14)),
            },
        );
    }
    if raw & 0xffff_fc1f == 0xd61f_0000 {
        return register_branch(raw, false);
    }
    if raw & 0xffff_fc1f == 0xd63f_0000 {
        return register_branch(raw, true);
    }
    if raw & 0xffff_fc1f == 0xd65f_0000 && extract(raw, 5, 5) == 30 {
        return Ok(Instruction::Return);
    }
    if raw & 0xffe0_001f == 0xd400_0001 && extract(raw, 5, 16) == 0 {
        return Ok(Instruction::SupervisorCall);
    }
    Err(DecodeError::Unsupported(raw))
}

/// Decode one A64 instruction at `pc`.
///
/// The PC must be four-byte aligned. Every accepted form is independently
/// masked and decoded after `disarm64` accepts it, so changing the dependency
/// cannot silently change what is supported.
pub fn decode(pc: u64, raw: u32) -> (r: Result<Instruction, DecodeError>)
    ensures
        r == decoded(pc, raw, recognized(raw)),
{
    decode_recognized(pc, raw, recognize(raw))
}

} // verus!
