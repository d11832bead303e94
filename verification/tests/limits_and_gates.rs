use cirrus::a64::program::Aarch64LoopedProgram;
use cirrus::a64::state::{initial_state, step};
use cirrus::callback::{Checked, CheckedPolicy, CheckedWords};
use cirrus::compare::zero_word;
use cirrus::context::{
    ContextWithBitAnd, ContextWithBitOr, ContextWithBitXor, ContextWithValue, HasError,
};
use cirrus::handler::EcallOutcome;
use cirrus::memory::RawMemory;
use cirrus::rv::control::{ecall_flow, hooked_target as rv_hooked_target};
use cirrus::rv::emulator::LoopedMachine;
use cirrus::rv::handler::{CallAction, RvDefaultHandler};
use cirrus::rv::looped::Step;
use cirrus::rv::machine::{ErtError as RvError, Flow as RvFlow};
use cirrus::rv::program::{LoopedProgram, ProgramError};
use cirrus::rv::rv32;
use cirrus::table::{CandidateTable, TableError};
use cirrus::thumb::control::{hooked_target, svc_flow};
use cirrus::thumb::decode::decode32;
use cirrus::thumb::entry::ert_emit;
use cirrus::thumb::handler::{
    ArmCallAction, ArmCallEvent, ArmDefaultHandler, DefaultHandler, SecurityAttribute, SecurityState,
};
use cirrus::thumb::hooks::{ArmCallRegistry, ArmCallReplacement};
use cirrus::thumb::machine::{ErtError, Flag, FlagWire, Flow, Machine};
use cirrus::thumb::op::{Arithmetic, Op, Operand};
use cirrus::thumb::snapshot::{fold_flags, select_wire, ThumbSnapshot};
use cirrus::word::{partial_and_not_word, partial_bitwise_word, BitOp};
use rv_asm::{Imm, Inst, Reg, Xlen};
use std::array;
use std::convert::Infallible;

fn word<const N: usize>(value: u64) -> [bool; N] {
    array::from_fn(|bit| (value >> bit) & 1 != 0)
}

fn encode(instructions: &[Inst], xlen: Xlen) -> Vec<u8> {
    instructions
        .iter()
        .flat_map(|instruction| instruction.encode_normal(xlen).to_le_bytes())
        .collect()
}

/// A plaintext context that keeps its gates.
struct Logging(Vec<(BitOp, bool, bool)>);

impl HasError for Logging {
    type Error = Infallible;
}

impl ContextWithValue<bool> for Logging {
    type Wrapped = bool;
}

impl ContextWithBitAnd<bool> for Logging {
    fn bitand(&mut self, a: bool, b: bool) -> Result<bool, Infallible> {
        self.0.push((BitOp::And, a, b));
        Ok(a & b)
    }

    fn bitand_assign(&mut self, a: &mut bool, b: bool) -> Result<(), Infallible> {
        *a = self.bitand(*a, b)?;
        Ok(())
    }
}

impl ContextWithBitOr<bool> for Logging {
    fn bitor(&mut self, a: bool, b: bool) -> Result<bool, Infallible> {
        self.0.push((BitOp::Or, a, b));
        Ok(a | b)
    }

    fn bitor_assign(&mut self, a: &mut bool, b: bool) -> Result<(), Infallible> {
        *a = self.bitor(*a, b)?;
        Ok(())
    }
}

impl ContextWithBitXor<bool> for Logging {
    fn bitxor(&mut self, a: bool, b: bool) -> Result<bool, Infallible> {
        self.0.push((BitOp::Xor, a, b));
        Ok(a ^ b)
    }

    fn bitxor_assign(&mut self, a: &mut bool, b: bool) -> Result<(), Infallible> {
        *a = self.bitxor(*a, b)?;
        Ok(())
    }
}

#[test]
fn gates_are_asked_for_as_the_docs_say() {
    let mut log = Logging(Vec::new());
    assert_eq!(zero_word(&mut log, &word::<4>(0), &true), Ok(true));
    let kinds: Vec<BitOp> = log.0.iter().map(|gate| gate.0).collect();
    assert_eq!(kinds, [BitOp::Or, BitOp::Or, BitOp::Or, BitOp::Xor]);

    log.0.clear();
    let x = word::<8>(0b0110_0011);
    let r = partial_bitwise_word(&mut log, 0b0101_0001, &x, &false, &true, BitOp::Xor);
    assert_eq!(r, Ok(word::<8>(0b0011_0010)));
    assert_eq!(log.0.len(), 3);
    assert!(log.0.iter().all(|gate| gate.0 == BitOp::Xor));

    log.0.clear();
    let r = partial_and_not_word(&mut log, 0b0101_0001, &x, &false, &true);
    assert_eq!(r, Ok(word::<8>(0b0001_0000)));
    assert_eq!(log.0.len(), 3);
    assert!(log.0.iter().all(|gate| gate.0 == BitOp::Xor));

    log.0.clear();
    assert_eq!(select_wire(&mut log, true, false, true), Ok(false));
    assert_eq!(
        log.0,
        [(BitOp::Xor, false, true), (BitOp::And, true, true), (BitOp::Xor, true, true)]
    );
}

#[test]
fn a_gathered_candidate_needs_no_slot() {
    let mut backing = [0; 2];
    let mut table = CandidateTable::new(&mut backing, 1).unwrap();
    let mut next = table.next().unwrap();
    assert_eq!(next.push(2), Ok(()));
    assert_eq!(next.push(2), Ok(()));
    assert_eq!(next.push(3), Err(TableError::Capacity));
    assert_eq!(next.extend(&[2, 2]), Ok(()));
    assert_eq!(next.extend(&[2, 4]), Err(TableError::Capacity));
    assert_eq!(next.finish(), 1);
    assert_eq!(table.current(), &[2]);
}

fn snapshot(flags: [Flag<bool>; 5]) -> ThumbSnapshot<bool, 2> {
    ThumbSnapshot {
        regs: [[false; 32]; 16],
        constants: [None; 16],
        offsets: [None; 16],
        flags,
        pc: 0x20,
        sp: 0x40,
        stack_top: 0x80,
        rsp: 1,
        rstack: [0x10, 0],
        itstate: 0,
        security_state: SecurityState::Secure,
    }
}

fn direct(wire: bool) -> Flag<bool> {
    Flag { wire: FlagWire::Direct(wire), value: None }
}

fn wire(flag: &Flag<bool>) -> Option<bool> {
    match flag.wire {
        FlagWire::Direct(wire) => Some(wire),
        _ => None,
    }
}

#[test]
fn lazy_flags_are_folded_too() {
    let zero_of = |value: u64| Flag { wire: FlagWire::Zero(word(value)), value: None };
    let overflow = Flag {
        wire: FlagWire::AddOverflow { left: true, right: true, result: false },
        value: None,
    };
    for active in [false, true] {
        let candidate = snapshot([
            direct(true),
            zero_of(0),
            Flag { wire: FlagWire::Direct(true), value: Some(true) },
            overflow.clone(),
            direct(false),
        ]);
        let mut accumulator = snapshot([
            direct(false),
            zero_of(5),
            Flag { wire: FlagWire::Direct(true), value: Some(true) },
            direct(false),
            zero_of(0),
        ]);
        fold_flags(&mut (), active, &candidate, &mut accumulator, &false, &true).unwrap();
        let expected = if active {
            [true, true, true, true, false]
        } else {
            [false, false, true, false, true]
        };
        let folded: Vec<Option<bool>> = accumulator.flags.iter().map(wire).collect();
        assert_eq!(folded, expected.map(Some));
        assert_eq!(accumulator.flags[2].value, Some(true));
        assert_eq!(accumulator.flags[3].value, None);
    }
}

#[test]
fn a_snapshot_comes_back() {
    let mut given = snapshot([direct(true), direct(false), direct(true), direct(true), direct(false)]);
    given.constants[3] = Some(7);
    given.regs[3] = word(7);
    given.offsets[4] = Some(-8);
    given.itstate = 0x48;
    let mut machine = Machine::new::<()>(
        RawMemory::from_slice(&[]),
        vec![0, 0xaa, 0xbb],
        64,
        0,
        [[false; 32]; 16],
        [None; 16],
        false,
        true,
        8,
    );
    assert!(given.restore::<()>(&mut machine).is_ok());
    assert_eq!(machine.rstack, [0x10, 0xaa, 0xbb]);
    let back = ThumbSnapshot::<bool, 2>::capture::<()>(&machine).ok().unwrap();
    assert_eq!(back.regs, given.regs);
    assert_eq!(back.constants, given.constants);
    assert_eq!(back.offsets, given.offsets);
    assert_eq!((back.pc, back.sp, back.stack_top), (0x20, 0x40, 0x80));
    assert_eq!((back.rsp, back.rstack, back.itstate), (1, [0x10, 0], 0x48));
    let wires: Vec<Option<bool>> = back.flags.iter().map(wire).collect();
    assert_eq!(wires, [true, false, true, true, false].map(Some));
    let mut small = Machine::new::<()>(
        RawMemory::from_slice(&[]),
        vec![],
        64,
        4,
        [[false; 32]; 16],
        [None; 16],
        false,
        true,
        8,
    );
    assert!(given.restore::<()>(&mut small).is_err());
    assert_eq!(small.pc, 4);
}

#[test]
fn wide_adds_and_wide_branches_are_decoded() {
    let add = decode32(0, 0xf201, 0x0204).unwrap();
    assert_eq!(
        add.operation,
        Op::Arithmetic {
            kind: Arithmetic::Add,
            dest: 2,
            left: Operand::Register(1),
            right: Operand::Immediate(4),
            set_flags: false,
        }
    );
    assert_eq!(add.len, 4);
    let branch = decode32(0x100, 0xf000, 0xb800).unwrap();
    assert_eq!(branch.operation, Op::Branch { target: 0x104, condition: None });
}

#[test]
fn an_a64_walk_goes_to_its_end() {
    // Straight-line code past four kilobytes, then cbz x0 to its start.
    let mut code = vec![0xd503_201fu32; 1100];
    code.push(0xb400_0000 | (((-1100i32 as u32) & 0x7ffff) << 5));
    code.push(0xd400_0001);
    let bytes: Vec<u8> = code.iter().flat_map(|word| word.to_le_bytes()).collect();
    let memory = RawMemory::from_slice(&bytes);
    let program = Aarch64LoopedProgram::compile(&memory, 0, &[], &[], 1).unwrap();
    assert_eq!(program.boundaries().len(), 1);
    assert!(Aarch64LoopedProgram::compile(&memory, 0, &[], &[], 0).is_err());
}

#[test]
fn a_failed_a64_step_changes_nothing() {
    let mut state = initial_state(false);
    let given = state.clone();
    // ret needs declared targets.
    assert!(step(&mut (), &mut state, 0, 0xd65f_03c0, &false, &true).is_err());
    assert_eq!(state.regs, given.regs);
    assert_eq!(state.constants, given.constants);
    assert_eq!((state.sp, state.done), (given.sp, given.done));
}

#[test]
fn a_full_map_takes_its_own_branches_again() {
    // A loop: the walk meets the branch at 4 from its start and from its end.
    let code = encode(
        &[
            Inst::Addi { imm: Imm::new_i32(1), dest: Reg::A1, src1: Reg::A1 },
            Inst::Blt { offset: Imm::new_i32(-4), src1: Reg::A1, src2: Reg::A0 },
            Inst::Jal { offset: Imm::new_i32(-8), dest: Reg::ZERO },
        ],
        Xlen::Rv64,
    );
    let memory = RawMemory::from(&code[..]);
    let program = LoopedProgram::compile(&memory, 0, &[], 1).unwrap();
    assert_eq!(program.boundaries().len(), 1);
    let unsupported = encode(&[Inst::Ebreak, Inst::Ecall], Xlen::Rv64);
    assert!(matches!(
        LoopedProgram::compile(&RawMemory::from(&unsupported[..]), 0, &[], 8),
        Err(ProgramError::Unexpected)
    ));
}

type Plain = RvDefaultHandler<
    DefaultHandler<(), fn(&mut (), &[[bool; 64]]) -> Result<[u8; 32], Infallible>>,
>;

fn plain() -> Plain {
    RvDefaultHandler { inner: DefaultHandler { context: (), hash: |_, _| Ok([0; 32]) } }
}

#[test]
fn a_step_is_the_last_when_every_path_exits() {
    // Two paths of a symbolic branch, each to an exit of its own.
    let code = encode(
        &[
            Inst::Addi { imm: Imm::new_i32(-1), dest: Reg::A0, src1: Reg::ZERO },
            Inst::Beq { offset: Imm::new_i32(8), src1: Reg::A1, src2: Reg::ZERO },
            Inst::Ecall,
            Inst::Ecall,
        ],
        Xlen::Rv64,
    );
    let mut handler = plain();
    let mut vstack = [false; 128];
    let mut rstack = [0u64; 2];
    let mut candidates = [0u64; 8];
    let mut machine = LoopedMachine::<_, bool, Infallible, 64, u64>::new(
        &mut handler,
        &mut vstack,
        128,
        RawMemory::from(&code[..]),
        &mut rstack,
        0,
        [],
        &mut candidates,
        &[],
        false,
        true,
    )
    .ok()
    .unwrap();
    machine.set_register(Reg::A1, word(3), None);
    assert!(matches!(machine.step(), Ok(Step::Continue)));
    assert_eq!(machine.candidate_count(), 2);
    assert!(matches!(machine.step(), Ok(Step::Done)));
    assert_eq!(machine.candidate_count(), 0);
    assert!(*machine.done_wire());
}

#[test]
fn a_budget_that_runs_out_asked_after_every_step() {
    // A symbolic loop that never ends.
    let code = encode(
        &[
            Inst::Addi { imm: Imm::new_i32(1), dest: Reg::A1, src1: Reg::A1 },
            Inst::Bne { offset: Imm::new_i32(-4), src1: Reg::A2, src2: Reg::A1 },
            Inst::Jal { offset: Imm::new_i32(-8), dest: Reg::ZERO },
        ],
        Xlen::Rv64,
    );
    let mut handler = plain();
    let mut vstack = [false; 128];
    let mut rstack = [0u64; 2];
    let mut candidates = [0u64; 8];
    let mut machine = LoopedMachine::<_, bool, Infallible, 64, u64>::new(
        &mut handler,
        &mut vstack,
        128,
        RawMemory::from(&code[..]),
        &mut rstack,
        0,
        [],
        &mut candidates,
        &[],
        false,
        true,
    )
    .ok()
    .unwrap();
    machine.set_register(Reg::A2, word(9), None);
    let asked = std::cell::Cell::new(0);
    let ran = machine.run(3, |done: &bool| {
        asked.set(asked.get() + 1);
        *done
    });
    assert!(matches!(ran, Ok(false)));
    assert_eq!(asked.get(), 3);
}

fn run32(mem: &mut [u8], pc: u32, known: &[(Reg, u32)]) -> (Result<(), RvError<Infallible>>, [Option<u32>; 32]) {
    let mut regs = [[false; 32]; 32];
    let mut constants = [None; 32];
    for (register, value) in known {
        regs[register.0 as usize] = word(*value as u64);
        constants[register.0 as usize] = Some(*value);
    }
    let mut rstack = [0u32; 4];
    let mut vstack = [false; 64];
    let mut hash = |_: &[[bool; 32]]| Ok::<[u8; 32], Infallible>([0; 32]);
    let r = rv32::ert_emit(
        &mut (),
        &mut hash,
        mem,
        &mut rstack,
        &mut vstack,
        pc,
        &mut regs,
        &mut constants,
        false,
        true,
    );
    (r, constants)
}

#[test]
fn the_rv32_facade_takes_plain_programs_only() {
    let exit = [
        Inst::Addi { imm: Imm::new_i32(5), dest: Reg::T0, src1: Reg::ZERO },
        Inst::Ecall,
    ];
    let mut code = encode(&exit, Xlen::Rv32);
    // A program counter is cut to a multiple of four.
    for pc in 0..4 {
        let (r, constants) = run32(&mut code, pc, &[(Reg::A0, u32::MAX)]);
        assert!(r.is_ok());
        assert_eq!(constants[Reg::T0.0 as usize], Some(5));
    }
    // A compressed move is outside the subset, though it decodes.
    let mut compressed = vec![0x95, 0x42, 0x01, 0x00];
    compressed.extend(encode(&[Inst::Ecall], Xlen::Rv32));
    let (r, _) = run32(&mut compressed, 0, &[(Reg::A0, u32::MAX)]);
    assert!(matches!(r, Err(RvError::Unexpected)));
    // So is a jump through a register that is no return.
    let mut jump = encode(
        &[Inst::Jalr { offset: Imm::ZERO, base: Reg::T1, dest: Reg::ZERO }, Inst::Ecall],
        Xlen::Rv32,
    );
    let (r, _) = run32(&mut jump, 0, &[(Reg::A0, u32::MAX), (Reg::T1, 4)]);
    assert!(matches!(r, Err(RvError::Unexpected)));
    // Only known all ones exit.
    let mut bare = encode(&[Inst::Ecall], Xlen::Rv32);
    assert!(matches!(run32(&mut bare, 0, &[(Reg::A0, 1)]).0, Err(RvError::Unexpected)));
    assert!(matches!(run32(&mut bare, 0, &[]).0, Err(RvError::Unexpected)));
}

#[test]
fn the_rv32_facade_needs_no_storage_of_its_context() {
    let mem = encode(
        &[
            Inst::Sw { offset: Imm::new_i32(-4), src: Reg::T0, base: Reg::SP },
            Inst::Lbu { offset: Imm::new_i32(-3), dest: Reg::T1, base: Reg::SP },
            Inst::Ecall,
        ],
        Xlen::Rv32,
    );
    let mut regs = [[false; 32]; 32];
    let mut constants = [None; 32];
    regs[Reg::T0.0 as usize] = word(0x1234_5678);
    constants[Reg::A0.0 as usize] = Some(u32::MAX);
    let mut vstack = [false; 64];
    let mut log = Logging(Vec::new());
    let mut hash = |_: &[[bool; 32]]| Ok::<[u8; 32], Infallible>([0; 32]);
    let r = rv32::ert_emit(
        &mut log,
        &mut hash,
        &mem,
        &mut [0u32; 4],
        &mut vstack,
        0,
        &mut regs,
        &mut constants,
        false,
        true,
    );
    assert!(r.is_ok());
    assert_eq!(regs[Reg::T1.0 as usize], word(0x56));
    assert_eq!(vstack[32..], word::<32>(0x1234_5678));
    assert!(log.0.is_empty());
}

#[test]
fn host_answers_decide_where_a_call_leads() {
    let next = 0x14;
    let flow = |permit, outcome, sp| svc_flow::<Infallible>(permit, outcome, sp, 0x40, next);
    assert!(matches!(flow(true, EcallOutcome::Continue, 0), Ok(Flow::Next(0x14))));
    assert!(matches!(flow(true, EcallOutcome::Exit, 0x40), Ok(Flow::Exit)));
    assert!(matches!(flow(true, EcallOutcome::Exit, 0x3c), Err(ErtError::Unexpected)));
    assert!(matches!(flow(true, EcallOutcome::Unexpected, 0x40), Err(ErtError::Unexpected)));
    assert!(matches!(flow(false, EcallOutcome::Exit, 0x40), Err(ErtError::Unexpected)));
    assert_eq!(hooked_target(ArmCallAction::ReturnNow, Some(8), 4), Some((4, false)));
    assert_eq!(hooked_target(ArmCallAction::Continue, Some(8), 4), Some((8, true)));
    assert_eq!(hooked_target(ArmCallAction::Continue, None, 4), None);
    assert_eq!(hooked_target(ArmCallAction::Divert(6), None, 4), Some((6, true)));
    assert_eq!(hooked_target(ArmCallAction::Divert(7), None, 4), None);

    let flow = |outcome, sp| ecall_flow::<Infallible>(outcome, sp, 0x40, 0x14);
    assert!(matches!(flow(EcallOutcome::Continue, 0), Ok(RvFlow::Next(0x14))));
    assert!(matches!(flow(EcallOutcome::Exit, 0x40), Ok(RvFlow::Exit)));
    assert!(matches!(flow(EcallOutcome::Exit, 0), Err(RvError::Unexpected)));
    assert!(matches!(flow(EcallOutcome::Unexpected, 0x40), Err(RvError::Unexpected)));
    assert_eq!(rv_hooked_target(CallAction::ReturnNow, Some(8), 4), Some((4, false)));
    assert_eq!(rv_hooked_target(CallAction::Continue, None, 4), None);
    assert_eq!(rv_hooked_target(CallAction::Divert(7), None, 4), Some((7, true)));
}

#[test]
fn a_registry_can_be_cloned() {
    let mut registry = ArmCallRegistry::new();
    registry.insert(8, ArmCallReplacement::NoOp);
    let copy = registry.clone();
    registry.insert(8, ArmCallReplacement::ReturnConstants { r0: 1, r1: 2, r2: 3, r3: 4 });
    let event = ArmCallEvent::DirectCall { caller_pc: 0, target: 8, return_pc: 4 };
    assert_eq!(copy.lookup(&event), Some(ArmCallReplacement::NoOp));
}

#[test]
fn checked_callbacks_serve_handlers() {
    let mut hash = CheckedWords::new(|words: &[[bool; 32]]| {
        let mut digest = [0u8; 32];
        digest[0] = words.len() as u8;
        digest[8] = words[0][0] as u8;
        Ok::<[u8; 32], Infallible>(digest)
    });
    let mut code = encode(
        &[
            Inst::Addi { imm: Imm::ZERO, dest: Reg::A0, src1: Reg::ZERO },
            Inst::Ecall,
            Inst::Addi { imm: Imm::new_i32(-1), dest: Reg::A0, src1: Reg::ZERO },
            Inst::Ecall,
        ],
        Xlen::Rv32,
    );
    let mut regs = [[false; 32]; 32];
    let mut constants = [None; 32];
    regs[Reg::A1.0 as usize] = word(1);
    let r = rv32::ert_emit(
        &mut (),
        &mut hash,
        &mut code,
        &mut [0u32; 2],
        &mut [false; 64],
        0,
        &mut regs,
        &mut constants,
        false,
        true,
    );
    assert!(r.is_ok());
    assert_eq!(constants[Reg::A1.0 as usize], Some(8));
    assert_eq!(constants[Reg::A2.0 as usize], Some(1));

    // movs r0, #0; subs r0, #1; svc #0
    let image: Vec<u8> = [0x2000u16, 0x3801, 0xdf00].iter().flat_map(|h| h.to_le_bytes()).collect();
    for permit in [true, false] {
        let inner = DefaultHandler::new(
            (),
            Checked::<(), bool, Infallible, _, 32>::new(|_: &mut (), _: &[[bool; 32]]| Ok([0u8; 32])),
        );
        let mut handler = ArmDefaultHandler::new(
            inner,
            CheckedPolicy::new(move |_: &mut _, _: SecurityState| permit),
            CheckedPolicy::new(|_: &mut _, _: u32| SecurityAttribute::NonSecure),
        );
        let r = ert_emit(
            &mut handler,
            &mut [false; 64][..],
            64,
            RawMemory::from_slice(&image),
            &mut [0u32; 2],
            1,
            &mut [[false; 32]; 16],
            &mut [None; 16],
            false,
            true,
        );
        assert_eq!(r.is_ok(), permit);
    }
}
