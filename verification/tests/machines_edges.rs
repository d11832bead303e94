use cirrus::a64::body::{execute_body, Aarch64Boundary};
use cirrus::a64::decode::{decode, DecodeError as A64Error, Instruction};
use cirrus::a64::generation::{capture, initial_step, restore};
use cirrus::a64::program::{Aarch64IndirectTargets, Aarch64LoopedProgram, Aarch64ReturnTargets};
use cirrus::a64::state::{initial_state, initial_state_with_arguments, step, Flow};
use cirrus::context::{
    ContextWithBitAnd, ContextWithBitOr, ContextWithBitXor, ContextWithStorage, ContextWithValue,
    HasError, StorageAddressBit,
};
use cirrus::memory::RawMemory;
use cirrus::rv::abi::ert64_func;
use cirrus::rv::emulator::looped_ert_func;
use cirrus::rv::handler::RvDefaultHandler;
use cirrus::rv::machine::ErtError as RvError;
use cirrus::rv::program::{IndirectTargets, LoopedProgram, ProgramError};
use cirrus::rv::rv32;
use cirrus::thumb::entry::{ert_emit, ert_func};
use cirrus::thumb::handler::{
    ArmCallAction, ArmCallEvent, ArmDefaultHandler, DefaultHandler, SecurityAttribute,
    SecurityState,
};
use cirrus::thumb::hooks::{apply_replacement, ArmCallRegistry, ArmCallReplacement};
use cirrus::thumb::machine::ErtError;
use cirrus::thumb::op::DecodeError;
use rv_asm::{Imm, Inst, Reg, Xlen};
use std::array;
use std::convert::Infallible;

fn word(value: u32) -> [bool; 32] {
    array::from_fn(|bit| (value >> bit) & 1 != 0)
}

fn value(word: &[bool]) -> u64 {
    word.iter()
        .enumerate()
        .fold(0, |value, (bit, set)| value | ((*set as u64) << bit))
}

fn encode(instructions: &[Inst], xlen: Xlen) -> Vec<u8> {
    instructions
        .iter()
        .flat_map(|instruction| instruction.encode_normal(xlen).to_le_bytes())
        .collect()
}

fn image(words: &[u16]) -> Vec<u8> {
    words.iter().flat_map(|word| word.to_le_bytes()).collect()
}

#[test]
fn rv_stack_memory_keeps_width_and_extension() {
    let mut regs = [[false; 32]; 32];
    let mut constants = [None; 32];
    regs[Reg::T0.0 as usize] = word(0x8001_80ff);
    regs[Reg::A0.0 as usize] = word(u32::MAX);
    constants[Reg::A0.0 as usize] = Some(u32::MAX);
    let load = |offset: i32, dest: Reg, kind: u8| {
        let (offset, base) = (Imm::new_i32(offset), Reg::SP);
        match kind {
            0 => Inst::Lb { offset, dest, base },
            1 => Inst::Lbu { offset, dest, base },
            2 => Inst::Lh { offset, dest, base },
            3 => Inst::Lhu { offset, dest, base },
            _ => Inst::Lw { offset, dest, base },
        }
    };
    let mem = encode(
        &[
            Inst::Addi { imm: Imm::new_i32(-256), dest: Reg::SP, src1: Reg::SP },
            Inst::Sb { offset: Imm::ZERO, src: Reg::T0, base: Reg::SP },
            Inst::Sh { offset: Imm::new_i32(4), src: Reg::T0, base: Reg::SP },
            Inst::Sw { offset: Imm::new_i32(8), src: Reg::T0, base: Reg::SP },
            load(0, Reg::T1, 0),
            load(0, Reg::T2, 1),
            load(4, Reg::T3, 2),
            load(4, Reg::T4, 3),
            load(8, Reg::T5, 4),
            Inst::Addi { imm: Imm::new_i32(256), dest: Reg::SP, src1: Reg::SP },
            Inst::Ecall,
        ],
        Xlen::Rv32,
    );
    let mut rstack = [0; 8];
    let mut vstack = [false; 2048];
    let mut no_hash = |_: &[[bool; 32]]| -> Result<[u8; 32], Infallible> { Ok([0; 32]) };
    assert!(rv32::ert_emit(
        &mut (),
        &mut no_hash,
        &mem,
        &mut rstack,
        &mut vstack,
        0,
        &mut regs,
        &mut constants,
        false,
        true,
    )
    .is_ok());
    assert_eq!(value(&regs[Reg::T1.0 as usize]), 0xffff_ffff);
    assert_eq!(value(&regs[Reg::T2.0 as usize]), 0xff);
    assert_eq!(value(&regs[Reg::T3.0 as usize]), 0xffff_80ff);
    assert_eq!(value(&regs[Reg::T4.0 as usize]), 0x80ff);
    assert_eq!(value(&regs[Reg::T5.0 as usize]), 0x8001_80ff);
    assert!(constants[Reg::T1.0 as usize].is_none());
    assert_eq!(&vstack[..8], &word(0x8001_80ff)[..8]);
}

type Handler64 =
    RvDefaultHandler<DefaultHandler<(), fn(&mut (), &[[bool; 64]]) -> Result<[u8; 32], Infallible>>>;

fn digest64(_: &mut (), words: &[[bool; 64]]) -> Result<[u8; 32], Infallible> {
    // The low byte of each double word, then its number.
    Ok(array::from_fn(|i| if i % 8 == 0 { value(&words[i / 8]) as u8 + 1 } else { i as u8 }))
}

#[test]
fn rv64_functions_hash_and_return() {
    let mem = encode(
        &[
            Inst::Ecall,
            Inst::Addi { imm: Imm::new_i32(-1), dest: Reg::A0, src1: Reg::ZERO },
            Inst::Ecall,
        ],
        Xlen::Rv64,
    );
    let mut handler: Handler64 = RvDefaultHandler {
        inner: DefaultHandler { context: (), hash: digest64 },
    };
    let mut regs = [[false; 64]; 32];
    let mut constants = [None; 32];
    let mut vstack = [false; 512];
    let mut rstack = [0u64; 4];
    let args: [([bool; 64], Option<u64>); 5] = array::from_fn(|i| {
        let constant = if i == 0 { 0 } else { 16 * i as u64 };
        (array::from_fn(|bit| (constant >> bit) & 1 != 0), Some(constant))
    });
    let results = ert64_func::<_, _, 5, 5, _>(
        &mut handler,
        &mut vstack[..],
        512,
        RawMemory::from(&mem[..]),
        &mut rstack,
        0,
        &mut regs,
        &mut constants,
        false,
        true,
        args,
    );
    let results = match results {
        Ok(results) => results,
        Err(_) => panic!("the workload exits"),
    };
    assert_eq!(results[0].1, Some(u64::MAX));
    assert_eq!(results[1].1, Some(0x0706_0504_0302_0111));
    assert_eq!(results[4].1, Some(0x1f1e_1d1c_1b1a_1941));
    assert_eq!(value(&results[1].0), 0x0706_0504_0302_0111);
}

#[test]
fn rv_programs_are_compiled_or_refused() {
    let branch = encode(
        &[
            Inst::Jalr { offset: Imm::ZERO, base: Reg::T0, dest: Reg::ZERO },
            Inst::Ecall,
        ],
        Xlen::Rv64,
    );
    let memory = RawMemory::from(&branch[..]);
    assert!(matches!(
        LoopedProgram::compile(&memory, 0, &[], 8),
        Err(ProgramError::Unexpected)
    ));
    let sites = [IndirectTargets { pc: 0, targets: &[4] }];
    let program = LoopedProgram::compile(&memory, 0, &sites, 8).unwrap();
    assert!(program.boundaries().is_empty());
    assert!(program.confirms_indirect(0));
    let zeros = [0u8; 4];
    assert!(matches!(
        LoopedProgram::compile(&RawMemory::from(&zeros[..]), 0, &[], 8),
        Err(ProgramError::Decode(_))
    ));
}

#[test]
fn rv32_looped_functions_return_their_results() {
    let mem = encode(
        &[
            Inst::Addi { imm: Imm::ZERO, dest: Reg::A1, src1: Reg::ZERO },
            Inst::Addi { imm: Imm::new_i32(1), dest: Reg::A1, src1: Reg::A1 },
            Inst::Blt { offset: Imm::new_i32(-4), src1: Reg::A1, src2: Reg::A0 },
            Inst::Addi { imm: Imm::new_i32(-1), dest: Reg::A0, src1: Reg::ZERO },
            Inst::Ecall,
        ],
        Xlen::Rv32,
    );
    let mut handler = RvDefaultHandler {
        inner: DefaultHandler {
            context: (),
            hash: |_: &mut (), _: &[[bool; 32]]| -> Result<[u8; 32], Infallible> { Ok([0; 32]) },
        },
    };
    let mut vstack = [false; 1024];
    let mut rstack = [0u32; 8];
    let mut candidates = [0u64; 16];
    let results = looped_ert_func::<_, _, 1, 2, _, _>(
        &mut handler,
        &mut vstack[..],
        1024,
        RawMemory::from(&mem[..]),
        &mut rstack,
        0,
        [(word(6), None)],
        &mut candidates,
        &[],
        false,
        true,
        100,
        |wire: &bool| *wire,
    );
    match results {
        Ok(results) => assert_eq!(value(&results[1].0), 6),
        Err(_) => panic!("the loop ends"),
    }
}

#[derive(Debug, PartialEq)]
struct Refused;

/// A context whose gates all fail.
struct Failing;

impl HasError for Failing {
    type Error = Refused;
}

impl ContextWithValue<bool> for Failing {
    type Wrapped = bool;
}

impl ContextWithBitAnd<bool> for Failing {
    fn bitand(&mut self, _: bool, _: bool) -> Result<bool, Refused> {
        Err(Refused)
    }

    fn bitand_assign(&mut self, _: &mut bool, _: bool) -> Result<(), Refused> {
        Err(Refused)
    }
}

impl ContextWithBitOr<bool> for Failing {
    fn bitor(&mut self, _: bool, _: bool) -> Result<bool, Refused> {
        Err(Refused)
    }

    fn bitor_assign(&mut self, _: &mut bool, _: bool) -> Result<(), Refused> {
        Err(Refused)
    }
}

impl ContextWithBitXor<bool> for Failing {
    fn bitxor(&mut self, _: bool, _: bool) -> Result<bool, Refused> {
        Err(Refused)
    }

    fn bitxor_assign(&mut self, _: &mut bool, _: bool) -> Result<(), Refused> {
        Err(Refused)
    }
}

impl ContextWithStorage<bool> for Failing {
    type Storage = [bool];

    fn storage_read(
        &mut self,
        _: &mut [bool],
        _: &[StorageAddressBit<bool>],
    ) -> Result<bool, Refused> {
        Err(Refused)
    }

    fn storage_write(
        &mut self,
        _: &mut [bool],
        _: &[StorageAddressBit<bool>],
        _: bool,
    ) -> Result<(), Refused> {
        Err(Refused)
    }
}

fn thumb_failing(code: &[u16], pc: u32) -> Result<(), ErtError<Refused>> {
    let mut handler = ArmDefaultHandler {
        inner: DefaultHandler {
            context: Failing,
            hash: |_: &mut Failing, _: &[[bool; 32]]| -> Result<[u8; 32], Refused> { Err(Refused) },
        },
        svc_permitted: |_: &mut _, _: SecurityState| true,
        security_attribute: |_: &mut _, _: u32| SecurityAttribute::Secure,
    };
    let image = image(code);
    let mut regs = [[false; 32]; 16];
    let mut constants = [None; 16];
    let mut rstack = [0; 4];
    let mut vstack = [false; 64];
    ert_emit(
        &mut handler,
        &mut vstack[..],
        64,
        RawMemory::from(&image[..]),
        &mut rstack,
        pc,
        &mut regs,
        &mut constants,
        false,
        true,
    )
}

#[test]
fn thumb_errors_are_told_apart() {
    // adds r0, r1, r2 on symbolic registers emits gates.
    assert!(matches!(thumb_failing(&[0x1888], 1), Err(ErtError::Emitted(Refused))));
    // The first half of a wide instruction at the end of the image.
    assert!(matches!(
        thumb_failing(&[0xf000], 1),
        Err(ErtError::Decode(DecodeError::Truncated))
    ));
    // bkpt is not supported.
    assert!(matches!(
        thumb_failing(&[0xbe00], 1),
        Err(ErtError::Decode(DecodeError::Unsupported(0xbe00)))
    ));
    // Nothing is mapped, and an even entry would not be Thumb.
    assert!(matches!(thumb_failing(&[], 1), Err(ErtError::Unexpected)));
    assert!(thumb_failing(&[0xbf00], 0).is_err());
}

#[test]
fn thumb_functions_move_register_and_stack_values() {
    let mut handler = ArmDefaultHandler {
        inner: DefaultHandler {
            context: (),
            hash: |_: &mut (), _: &[[bool; 32]]| -> Result<[u8; 32], Infallible> { Ok([0; 32]) },
        },
        svc_permitted: |_: &mut _, _: SecurityState| true,
        security_attribute: |_: &mut _, _: u32| SecurityAttribute::Secure,
    };
    let image = image(&[0xdf00]);
    let mut regs = [[false; 32]; 16];
    let mut constants = [None; 16];
    let mut rstack = [0; 4];
    let mut vstack = [false; 256];
    let args: [([bool; 32], Option<u32>); 6] = array::from_fn(|i| {
        let constant = if i == 0 { u32::MAX } else { i as u32 };
        (word(constant), Some(constant))
    });
    let results = ert_func::<_, _, 6, 6, _>(
        &mut handler,
        &mut vstack[..],
        256,
        RawMemory::from(&image[..]),
        &mut rstack,
        1,
        &mut regs,
        &mut constants,
        false,
        true,
        args,
    );
    let results = match results {
        Ok(results) => results,
        Err(_) => panic!("the workload exits"),
    };
    assert_eq!(results[0].1, Some(u32::MAX));
    assert_eq!(results[3].1, Some(3));
    assert_eq!(value(&results[4].0), 4);
    assert_eq!(value(&results[5].0), 5);
    assert!(results[5].1.is_none());
}

#[test]
fn replacements_match_direct_calls_only() {
    let mut registry = ArmCallRegistry::new();
    let constants_of = ArmCallReplacement::ReturnConstants { r0: 1, r1: 2, r2: 3, r3: 4 };
    assert_eq!(registry.insert(8, ArmCallReplacement::NoOp), None);
    assert_eq!(registry.insert(8, constants_of), Some(ArmCallReplacement::NoOp));
    let direct = |target| ArmCallEvent::DirectCall { caller_pc: 0, target, return_pc: 4 };
    assert_eq!(registry.lookup(&direct(8)), Some(constants_of));
    assert_eq!(registry.lookup(&direct(10)), None);
    let register = ArmCallEvent::RegisterCall {
        caller_pc: 0,
        register: 3,
        target: Some(8),
        return_pc: 2,
    };
    assert_eq!(registry.lookup(&register), None);
    let mut regs = [[false; 32]; 16];
    let mut constants = [None; 16];
    let mut offsets = [Some(0i32); 16];
    let action = apply_replacement(
        constants_of,
        &mut regs,
        &mut constants,
        &mut offsets,
        &false,
        &true,
    );
    assert_eq!(action, ArmCallAction::ReturnNow);
    assert_eq!(&constants[..5], &[Some(1), Some(2), Some(3), Some(4), None]);
    assert_eq!(value(&regs[3]), 4);
    assert_eq!(&offsets[..5], &[None, None, None, None, Some(0)]);
}

#[test]
fn a64_words_are_decoded_or_refused() {
    assert_eq!(decode(0, 0xffff_ffff), Err(A64Error::Invalid(0xffff_ffff)));
    assert_eq!(
        decode(0x1000, 0x3728_0041),
        Ok(Instruction::TestBranch { register: 1, bit: 5, nonzero: true, target: 0x1008 })
    );
    assert_eq!(decode(1, 0xd400_0001), Err(A64Error::Malformed(0xd400_0001)));
}

#[test]
fn a64_arguments_are_registers_and_the_stack_is_aligned() {
    let state = initial_state_with_arguments(false, &true, 64, &[Some(7), None]).unwrap();
    assert_eq!(state.constants[0], Some(7));
    assert_eq!(value(&state.regs[0]), 7);
    assert_eq!(state.constants[1], None);
    assert_eq!(state.sp, Some(64));
    assert!(initial_state_with_arguments(false, &true, 8, &[]).is_err());
    assert!(initial_state_with_arguments(false, &true, 64, &[None; 9]).is_err());
    assert!(initial_step(initial_state(false), 2, &false, &true).is_err());
}

#[test]
fn a64_snapshots_restore_what_they_captured() {
    let state = initial_state_with_arguments(false, &true, 32, &[Some(5)]).unwrap();
    let snapshot = capture(&state, 12);
    let mut other = initial_state(true);
    restore(&snapshot, &mut other);
    assert_eq!(snapshot.pc, 12);
    assert_eq!(other.regs, state.regs);
    assert_eq!(other.constants, state.constants);
    assert_eq!(other.sp, state.sp);
}

#[test]
fn a64_wide_moves_keep_or_clear_the_rest() {
    let mut state = initial_state(false);
    // movz w0, #0x1234, lsl #16; movk w0, #0x5678; movk x0, #0x9abc, lsl #48
    for (pc, raw) in [(0, 0x52a2_4680), (4, 0x728a_cf00), (8, 0xf2f3_5780)] {
        assert!(matches!(
            step(&mut (), &mut state, pc, raw, &false, &true),
            Ok(Flow::Next(_))
        ));
    }
    assert_eq!(state.constants[0], Some(0x9abc_0000_1234_5678));
    assert_eq!(value(&state.regs[0]), 0x9abc_0000_1234_5678);
}

#[test]
fn a64_bodies_end_at_branches_and_exits() {
    // movz x0, #0x1234; cbnz x1, +8
    let bytes: Vec<u8> = [0xd282_4680u32, 0xb500_0041]
        .iter()
        .flat_map(|word| word.to_le_bytes())
        .collect();
    let mut state = initial_state(false);
    let boundary = execute_body(
        &mut (),
        &mut state,
        0,
        RawMemory::from_slice(&bytes),
        &false,
        &true,
    );
    match boundary {
        Ok(Aarch64Boundary::SymbolicBranch { next, taken, fallthrough }) => {
            assert_eq!((taken, fallthrough), (12, 8));
            assert_eq!(value(&next), 8);
        }
        _ => panic!("the register is symbolic"),
    }
    assert_eq!(state.constants[0], Some(0x1234));
}

#[test]
fn a64_programs_follow_declared_targets() {
    // br x1; ret; svc #0
    let bytes: Vec<u8> = [0xd61f_0020u32, 0xd65f_03c0, 0xd400_0001]
        .iter()
        .flat_map(|word| word.to_le_bytes())
        .collect();
    let memory = RawMemory::from_slice(&bytes);
    let indirect = [Aarch64IndirectTargets { pc: 0, targets: &[4] }];
    let returns = [Aarch64ReturnTargets { pc: 4, targets: &[8] }];
    let program = Aarch64LoopedProgram::compile(&memory, 0, &indirect, &returns, 8).unwrap();
    assert_eq!(program.indirect_sites(), &[0]);
    assert_eq!(program.return_sites(), &[4]);
    // An undeclared return ends its body; a declaration may not be empty.
    let program = Aarch64LoopedProgram::compile(&memory, 0, &indirect, &[], 8).unwrap();
    assert!(program.return_sites().is_empty());
    let nowhere = [Aarch64ReturnTargets { pc: 4, targets: &[] }];
    assert_eq!(
        Aarch64LoopedProgram::compile(&memory, 0, &indirect, &nowhere, 8).unwrap_err(),
        A64Error::Unsupported(0xd65f_03c0)
    );
    assert_eq!(
        Aarch64LoopedProgram::compile(&RawMemory::from_slice(&[]), 0, &[], &[], 8).unwrap_err(),
        A64Error::Memory(0)
    );
}

#[test]
fn rv_errors_are_told_apart() {
    let run = |mem: &[u8]| {
        let mut no_hash = |_: &[[bool; 32]]| -> Result<[u8; 32], Refused> { Err(Refused) };
        let mut regs = [[false; 32]; 32];
        let mut constants = [None; 32];
        rv32::ert_emit(
            &mut Failing,
            &mut no_hash,
            mem,
            &mut [0; 4],
            &mut [false; 64],
            0,
            &mut regs,
            &mut constants,
            false,
            true,
        )
    };
    let add = encode(
        &[Inst::Add { dest: Reg::T0, src1: Reg::T1, src2: Reg::T2 }],
        Xlen::Rv32,
    );
    assert!(matches!(run(&add), Err(RvError::Emitted(Refused))));
    assert!(matches!(run(&[]), Err(RvError::Unexpected)));
    assert!(matches!(run(&[0xff; 4]), Err(RvError::Decode(_))));
}
