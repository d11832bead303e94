use cirrus::compare::{compare_word, ComparePredicate};
use cirrus::context::{
    concrete_storage_index, ContextWithBitAnd, ContextWithBitOr, ContextWithBitXor,
    ContextWithStorage, ContextWithValue, HasError, StorageAddressBit,
};
use cirrus::memory::RawMemory;
use cirrus::runtime::hash_many;
use cirrus::rv::abi::ert64_func;
use cirrus::rv::emulator::LoopedMachine;
use cirrus::rv::handler::RvDefaultHandler;
use cirrus::rv::looped::Step;
use cirrus::rv::machine::ErtError as RvError;
use cirrus::rv::rv32;
use cirrus::table::{append_unique, CandidateTable};
use cirrus::thumb::decode::{decode16, decode32};
use cirrus::thumb::entry::{ert_emit, ert_func};
use cirrus::thumb::handler::{ArmDefaultHandler, DefaultHandler, SecurityAttribute, SecurityState};
use cirrus::thumb::machine::ErtError;
use cirrus::thumb::op::{Arithmetic, DecodeError, LoadKind, Op, Operand, ShiftAmount};
use cirrus::word::{add_word, partial_bitwise_word, select_word, BitOp, Shift};
use rv_asm::{Imm, Inst, Reg, Xlen};
use std::array;
use std::convert::Infallible;

fn word<const N: usize>(value: u64) -> [bool; N] {
    array::from_fn(|bit| (value >> bit) & 1 != 0)
}

fn encode(instructions: &[Inst], xlen: Xlen) -> Vec<u8> {
    instructions
        .iter()
        .flat_map(|instruction| instruction.encode_normal(xlen).to_le_bytes())
        .collect()
}

fn image(words: &[u16]) -> Vec<u8> {
    words.iter().flat_map(|word| word.to_le_bytes()).collect()
}

/// A plaintext context with a store that keeps its gates.
#[derive(Default)]
struct Tally(Vec<(BitOp, bool, bool)>);

impl HasError for Tally {
    type Error = Infallible;
}

impl ContextWithValue<bool> for Tally {
    type Wrapped = bool;
}

impl ContextWithBitAnd<bool> for Tally {
    fn bitand(&mut self, a: bool, b: bool) -> Result<bool, Infallible> {
        self.0.push((BitOp::And, a, b));
        Ok(a & b)
    }

    fn bitand_assign(&mut self, a: &mut bool, b: bool) -> Result<(), Infallible> {
        *a = self.bitand(*a, b)?;
        Ok(())
    }
}

impl ContextWithBitOr<bool> for Tally {
    fn bitor(&mut self, a: bool, b: bool) -> Result<bool, Infallible> {
        self.0.push((BitOp::Or, a, b));
        Ok(a | b)
    }

    fn bitor_assign(&mut self, a: &mut bool, b: bool) -> Result<(), Infallible> {
        *a = self.bitor(*a, b)?;
        Ok(())
    }
}

impl ContextWithBitXor<bool> for Tally {
    fn bitxor(&mut self, a: bool, b: bool) -> Result<bool, Infallible> {
        self.0.push((BitOp::Xor, a, b));
        Ok(a ^ b)
    }

    fn bitxor_assign(&mut self, a: &mut bool, b: bool) -> Result<(), Infallible> {
        *a = self.bitxor(*a, b)?;
        Ok(())
    }
}

impl ContextWithStorage<bool> for Tally {
    type Storage = [bool];

    fn storage_read(
        &mut self,
        storage: &mut [bool],
        address: &[StorageAddressBit<bool>],
    ) -> Result<bool, Infallible> {
        Ok(storage[concrete_storage_index(address)])
    }

    fn storage_write(
        &mut self,
        storage: &mut [bool],
        address: &[StorageAddressBit<bool>],
        value: bool,
    ) -> Result<(), Infallible> {
        storage[concrete_storage_index(address)] = value;
        Ok(())
    }
}

#[test]
fn a_known_operand_fixes_the_operands_of_the_gates() {
    let mut log = Tally::default();
    let x = word::<8>(0b0110_0011);
    let r = partial_bitwise_word(&mut log, 0b0101_0001, &x, &false, &true, BitOp::And);
    assert_eq!(r, Ok(word::<8>(0b0100_0001)));
    let r = partial_bitwise_word(&mut log, 0b0101_0001, &x, &false, &true, BitOp::Or);
    assert_eq!(r, Ok(word::<8>(0b0111_0011)));
    assert!(log.0.is_empty());
    let r = partial_bitwise_word(&mut log, 0b0101_0001, &x, &false, &true, BitOp::Xor);
    assert_eq!(r, Ok(word::<8>(0b0011_0010)));
    // Bits 0, 4 and 6 of the word, each against one.
    assert_eq!(
        log.0,
        [(BitOp::Xor, true, true), (BitOp::Xor, false, true), (BitOp::Xor, true, true)]
    );
}

#[test]
fn comparisons_selects_and_sums_take_their_gates() {
    let mut log = Tally::default();
    let kinds = |log: &mut Tally| -> Vec<BitOp> {
        let kinds = log.0.iter().map(|gate| gate.0).collect();
        log.0.clear();
        kinds
    };
    let (a, b) = (word::<2>(1), word::<2>(2));
    let r = compare_word(&mut log, &a, &b, ComparePredicate::Eq, &true);
    assert_eq!(r, Ok(false));
    assert_eq!(kinds(&mut log), [BitOp::Xor, BitOp::Xor, BitOp::Or, BitOp::Xor]);
    assert_eq!(select_word(&mut log, true, &a, &b), Ok(a));
    assert_eq!(
        kinds(&mut log),
        [BitOp::Xor, BitOp::And, BitOp::Xor, BitOp::Xor, BitOp::And, BitOp::Xor]
    );
    assert_eq!(add_word(&mut log, &a, &b, false), Ok(word::<2>(3)));
    let adder =
        [BitOp::Xor, BitOp::Xor, BitOp::And, BitOp::And, BitOp::And, BitOp::Or, BitOp::Or];
    assert_eq!(kinds(&mut log), [adder, adder].concat());
    let r = compare_word(&mut log, &a, &b, ComparePredicate::LtS, &true);
    // One is not less than minus two.
    assert_eq!(r, Ok(false));
    assert_eq!(log.0.len(), 2 + 14 + 4);
}

fn gates_of(code: &[u16], known: &[(usize, u32)]) -> usize {
    let image = image(code);
    let mut handler = ArmDefaultHandler {
        inner: DefaultHandler {
            context: Tally::default(),
            hash: |_: &mut Tally, _: &[[bool; 32]]| -> Result<[u8; 32], Infallible> { Ok([0; 32]) },
        },
        svc_permitted: |_: &mut _, _: SecurityState| true,
        security_attribute: |_: &mut _, _: u32| SecurityAttribute::Secure,
    };
    let mut regs = [[false; 32]; 16];
    let mut constants = [None; 16];
    for (register, value) in known {
        regs[*register] = word(*value as u64);
        constants[*register] = Some(*value);
    }
    let mut rstack = [0; 4];
    let mut vstack = [false; 128];
    let r = ert_emit(
        &mut handler,
        &mut vstack[..],
        128,
        RawMemory::from(&image[..]),
        &mut rstack,
        1,
        &mut regs,
        &mut constants,
        false,
        true,
    );
    assert!(r.is_ok());
    handler.inner.context.0.len()
}

#[test]
fn a_flag_takes_gates_only_once_it_is_read() {
    let exit = [0x2000, 0x3801, 0xdf00];
    let gates = |code: &[u16]| gates_of(&[code, &exit].concat(), &[]);
    // add.w r1, r2, r3 and adds r1, r2, r3: an adder each.
    assert_eq!(gates(&[0xeb02, 0x0103]), 32 * 7);
    assert_eq!(gates(&[0x18d1]), 32 * 7);
    // cmp r1, r2: an inverted operand and an adder.
    assert_eq!(gates(&[0x4291]), 32 + 32 * 7);
    // ands r1, r2, tst r1, r2 and movs.w r1, #4.
    assert_eq!(gates(&[0x4011]), 32);
    assert_eq!(gates(&[0x4211]), 32);
    assert_eq!(gates(&[0xf05f, 0x0104]), 0);
    // Once read, the zero flag takes its own: mrs r4, apsr.
    assert!(gates(&[0x4211, 0xf3ef, 0x8400]) > 32);
}

#[test]
fn register_offset_forms_are_decoded() {
    let store = |width| Op::StoreIndexed { source: 1, base: 2, index: 5, shift: 0, width };
    let load = |kind| Op::LoadIndexed { dest: 1, base: 2, index: 5, shift: 0, kind };
    for (instruction, operation) in [
        (0x5151, store(32)),
        (0x5351, store(16)),
        (0x5551, store(8)),
        (0x5751, load(LoadKind::ByteSigned)),
        (0x5951, load(LoadKind::Word)),
        (0x5b51, load(LoadKind::HalfUnsigned)),
        (0x5d51, load(LoadKind::ByteUnsigned)),
        (0x5f51, load(LoadKind::HalfSigned)),
    ] {
        assert_eq!(decode16(0, instruction).unwrap().operation, operation);
    }
}

#[test]
fn flag_setting_wide_forms_are_decoded() {
    let op = |first, second| decode32(0, first, second).unwrap().operation;
    let refused = |first: u16, second: u16| {
        let full = ((first as u32) << 16) | second as u32;
        assert_eq!(decode32(0, first, second), Err(DecodeError::Unsupported(full)));
    };
    let left = Operand::Register(1);
    let right = Operand::Immediate(4);
    for set_flags in [false, true] {
        let s = if set_flags { 0x10 } else { 0 };
        assert_eq!(
            op(0xf101 | s, 0x0204),
            Op::Arithmetic { kind: Arithmetic::Add, dest: 2, left, right, set_flags }
        );
        assert_eq!(
            op(0xf1a1 | s, 0x0204),
            Op::Arithmetic { kind: Arithmetic::Sub, dest: 2, left, right, set_flags }
        );
        assert_eq!(
            op(0xf001 | s, 0x0204),
            Op::Bitwise { kind: BitOp::And, dest: 2, left, right, set_flags }
        );
        assert_eq!(op(0xf021 | s, 0x0204), Op::BitClear { dest: 2, left, right, set_flags });
        assert_eq!(op(0xf04f | s, 0x0204), Op::Move { dest: 2, source: right, set_flags });
        let shifted = Operand::Shifted {
            register: 3,
            shift: Shift::Left,
            amount: ShiftAmount::Immediate(0),
        };
        assert_eq!(
            op(0xeb01 | s, 0x0203),
            Op::Arithmetic { kind: Arithmetic::Add, dest: 2, left, right: shifted, set_flags }
        );
    }
    // Without a destination they compare and test.
    assert_eq!(op(0xf111, 0x0f04), Op::Compare { left, right, add: true });
    assert_eq!(op(0xf1b1, 0x0f04), Op::Compare { left, right, add: false });
    assert_eq!(op(0xf011, 0x0f04), Op::Test { left, right });
    refused(0xf1a1, 0x0f04);
    refused(0xf091, 0x0f04);
    // A rotated immediate would set the carry.
    assert!(decode32(0, 0xf001, 0x4200).is_ok());
    refused(0xf011, 0x4200);
    // A right shift by nothing is one by 32, and a rotation by nothing is none.
    assert_eq!(
        op(0xeb01, 0x0213),
        Op::Arithmetic {
            kind: Arithmetic::Add,
            dest: 2,
            left,
            right: Operand::Shifted {
                register: 3,
                shift: Shift::LogicalRight,
                amount: ShiftAmount::Immediate(32),
            },
            set_flags: false,
        }
    );
    refused(0xeb01, 0x0233);
}

#[test]
fn only_the_indexed_wide_loads_and_stores_are_decoded() {
    assert_eq!(
        decode32(0, 0xf852, 0x1023).unwrap().operation,
        Op::LoadIndexed { dest: 1, base: 2, index: 3, shift: 2, kind: LoadKind::Word }
    );
    assert_eq!(
        decode32(0, 0xf842, 0x1023).unwrap().operation,
        Op::StoreIndexed { source: 1, base: 2, index: 3, shift: 2, width: 32 }
    );
    // A negative offset, a written-back one, and a literal below.
    for (first, second) in [(0xf852, 0x1c04), (0xf842, 0x1b04), (0xf85f, 0x1004)] {
        let full = ((first as u32) << 16) | second as u32;
        assert_eq!(decode32(0, first, second), Err(DecodeError::Unsupported(full)));
    }
}

#[test]
fn a_wide_flag_setting_sum_decides_a_branch() {
    // adds.w r1, r2, #0; beq past a bkpt; exit.
    let code = [0xf112, 0x0100, 0xd000, 0xbe00, 0x2000, 0x3801, 0xdf00];
    assert_eq!(gates_of(&code, &[(2, 0)]), 0);
}

#[derive(Debug, PartialEq)]
struct Refused;

/// A plaintext context with an error of its own.
struct Fallible;

impl HasError for Fallible {
    type Error = Refused;
}

impl ContextWithValue<bool> for Fallible {
    type Wrapped = bool;
}

impl ContextWithBitAnd<bool> for Fallible {
    fn bitand(&mut self, a: bool, b: bool) -> Result<bool, Refused> {
        Ok(a & b)
    }

    fn bitand_assign(&mut self, a: &mut bool, b: bool) -> Result<(), Refused> {
        *a &= b;
        Ok(())
    }
}

impl ContextWithBitOr<bool> for Fallible {
    fn bitor(&mut self, a: bool, b: bool) -> Result<bool, Refused> {
        Ok(a | b)
    }

    fn bitor_assign(&mut self, a: &mut bool, b: bool) -> Result<(), Refused> {
        *a |= b;
        Ok(())
    }
}

impl ContextWithBitXor<bool> for Fallible {
    fn bitxor(&mut self, a: bool, b: bool) -> Result<bool, Refused> {
        Ok(a ^ b)
    }

    fn bitxor_assign(&mut self, a: &mut bool, b: bool) -> Result<(), Refused> {
        *a ^= b;
        Ok(())
    }
}

impl ContextWithStorage<bool> for Fallible {
    type Storage = [bool];

    fn storage_read(
        &mut self,
        storage: &mut [bool],
        address: &[StorageAddressBit<bool>],
    ) -> Result<bool, Refused> {
        Ok(storage[concrete_storage_index(address)])
    }

    fn storage_write(
        &mut self,
        storage: &mut [bool],
        address: &[StorageAddressBit<bool>],
        value: bool,
    ) -> Result<(), Refused> {
        storage[concrete_storage_index(address)] = value;
        Ok(())
    }
}

#[test]
fn a_refused_call_is_unexpected_and_a_failed_one_is_not() {
    let call = |permit: bool, r0: u32| {
        let image = image(&[0xdf00]);
        let mut handler = ArmDefaultHandler {
            inner: DefaultHandler {
                context: Fallible,
                hash: |_: &mut Fallible, _: &[[bool; 32]]| -> Result<[u8; 32], Refused> {
                    Err(Refused)
                },
            },
            svc_permitted: move |_: &mut _, _: SecurityState| permit,
            security_attribute: |_: &mut _, _: u32| SecurityAttribute::Secure,
        };
        let mut regs = [[false; 32]; 16];
        let mut constants = [None; 16];
        regs[0] = word(r0 as u64);
        constants[0] = Some(r0);
        ert_emit(
            &mut handler,
            &mut [false; 64][..],
            64,
            RawMemory::from(&image[..]),
            &mut [0; 4],
            1,
            &mut regs,
            &mut constants,
            false,
            true,
        )
    };
    assert!(matches!(call(true, 0), Err(ErtError::Emitted(Refused))));
    assert!(matches!(call(false, 0), Err(ErtError::Unexpected)));
    assert!(matches!(call(false, u32::MAX), Err(ErtError::Unexpected)));
    assert!(call(true, u32::MAX).is_ok());
}

#[test]
fn a_failed_environment_call_gives_its_error() {
    let mem = encode(&[Inst::Ecall], Xlen::Rv32);
    let mut hash = |_: &[[bool; 32]]| -> Result<[u8; 32], Refused> { Err(Refused) };
    let mut constants = [None; 32];
    constants[10] = Some(0);
    let r = rv32::ert_emit(
        &mut Fallible,
        &mut hash,
        &mem,
        &mut [0; 4],
        &mut [false; 64],
        0,
        &mut [[false; 32]; 32],
        &mut constants,
        false,
        true,
    );
    assert!(matches!(r, Err(RvError::Emitted(Refused))));
    let r = rv32::ert_emit(
        &mut Fallible,
        &mut hash,
        &[0xff; 4],
        &mut [0; 4],
        &mut [false; 64],
        0,
        &mut [[false; 32]; 32],
        &mut constants,
        false,
        true,
    );
    match r {
        Err(RvError::Decode(error)) => {
            assert_eq!(error.instruction, u32::MAX);
            let decoded = Inst::decode(u32::MAX, Xlen::Rv32).unwrap_err();
            assert_eq!(error.unexpected_field, decoded.unexpected_field);
        }
        _ => panic!("four bytes of ones are no instruction"),
    }
}

fn run32(instructions: &[Inst]) -> (Result<(), RvError<Infallible>>, [Option<u32>; 32]) {
    let mut code = instructions.to_vec();
    code.push(Inst::Ecall);
    let mem = encode(&code, Xlen::Rv32);
    let mut regs = [[false; 32]; 32];
    let mut constants = [None; 32];
    regs[10] = [true; 32];
    constants[10] = Some(u32::MAX);
    let mut hash = |_: &[[bool; 32]]| Ok::<[u8; 32], Infallible>([0; 32]);
    let r = rv32::ert_emit(
        &mut (),
        &mut hash,
        &mem,
        &mut [0; 4],
        &mut [false; 256],
        0,
        &mut regs,
        &mut constants,
        false,
        true,
    );
    (r, constants)
}

#[test]
fn only_addi_moves_the_stack_pointer() {
    let addi = |dest, src1, imm| Inst::Addi { imm: Imm::new_i32(imm), dest, src1 };
    // Other writes pass, and the next instruction sees the stack pointer again.
    assert!(run32(&[Inst::Add { dest: Reg::SP, src1: Reg::T0, src2: Reg::T1 }]).0.is_ok());
    assert!(run32(&[Inst::Lui { uimm: Imm::new_i32(0x1000), dest: Reg::SP }]).0.is_ok());
    let (r, _) = run32(&[
        Inst::Xori { imm: Imm::new_i32(5), dest: Reg::SP, src1: Reg::T0 },
        addi(Reg::T1, Reg::ZERO, 7),
        Inst::Sw { offset: Imm::new_i32(-8), src: Reg::T1, base: Reg::SP },
        Inst::Lw { offset: Imm::new_i32(-8), dest: Reg::T2, base: Reg::SP },
    ]);
    assert!(r.is_ok());
    // An addition of an immediate moves it, whatever it adds to.
    for source in [Reg::SP, Reg::T0, Reg::ZERO] {
        let r = run32(&[addi(Reg::SP, source, -8)]).0;
        assert!(matches!(r, Err(RvError::Unexpected)));
        assert!(run32(&[addi(Reg::SP, source, -8), addi(Reg::SP, Reg::SP, 8)]).0.is_ok());
    }
}

fn steps_to_a_load(moved: i32) -> Result<Step, RvError<Infallible>> {
    let addi = |dest, src1, imm| Inst::Addi { imm: Imm::new_i32(imm), dest, src1 };
    let mem = encode(
        &[
            addi(Reg::S0, Reg::SP, -16),
            // Both ways of the branch meet at 12.
            Inst::Beq { offset: Imm::new_i32(8), src1: Reg::A1, src2: Reg::A2 },
            addi(Reg::T0, Reg::ZERO, 1),
            addi(Reg::SP, Reg::SP, moved),
            Inst::Beq { offset: Imm::new_i32(4), src1: Reg::A1, src2: Reg::A2 },
            Inst::Ld { offset: Imm::ZERO, dest: Reg::T1, base: Reg::S0 },
            Inst::Beq { offset: Imm::new_i32(4), src1: Reg::A1, src2: Reg::A2 },
        ],
        Xlen::Rv64,
    );
    let mut handler = RvDefaultHandler {
        inner: DefaultHandler {
            context: (),
            hash: |_: &mut (), _: &[[bool; 64]]| -> Result<[u8; 32], Infallible> { Ok([0; 32]) },
        },
    };
    let mut vstack = [false; 1024];
    let mut rstack = [0u64; 4];
    let mut candidates = [0u64; 8];
    let mut machine = LoopedMachine::new(
        &mut handler,
        &mut vstack[..],
        1024,
        RawMemory::from(&mem[..]),
        &mut rstack,
        0,
        [],
        &mut candidates,
        &[],
        false,
        true,
    )?;
    assert_eq!(machine.step()?, Step::Continue);
    assert_eq!(machine.candidate_count(), 2);
    assert_eq!(machine.step()?, Step::Continue);
    assert_eq!(machine.candidate_count(), 1);
    machine.step()
}

#[test]
fn stack_distances_are_forgotten_where_a_body_moved_the_stack() {
    assert!(matches!(steps_to_a_load(0), Ok(Step::Continue)));
    assert!(matches!(steps_to_a_load(-16), Err(RvError::Unexpected)));
}

#[test]
fn a_single_candidate_is_not_dispatched() {
    let mem = encode(
        &[Inst::Bltu { offset: Imm::new_i32(8), src1: Reg::A1, src2: Reg::A2 }],
        Xlen::Rv64,
    );
    let mut handler = RvDefaultHandler {
        inner: DefaultHandler {
            context: Tally::default(),
            hash: |_: &mut Tally, _: &[[bool; 64]]| -> Result<[u8; 32], Infallible> { Ok([0; 32]) },
        },
    };
    let mut vstack = [false; 64];
    let mut rstack = [0u64; 4];
    let mut candidates = [0u64; 8];
    let mut machine = LoopedMachine::new(
        &mut handler,
        &mut vstack[..],
        64,
        RawMemory::from(&mem[..]),
        &mut rstack,
        0,
        [],
        &mut candidates,
        &[],
        false,
        true,
    )
    .unwrap_or_else(|_| panic!("the stack is whole bytes"));
    assert!(machine.step().is_ok());
    // A subtraction, an inversion and one select.
    assert_eq!(handler.inner.context.0.len(), 64 + 64 * 7 + 1 + 64 * 3);
}

#[test]
fn called_functions_leave_their_exit_state() {
    let mut handler = ArmDefaultHandler {
        inner: DefaultHandler {
            context: (),
            hash: |_: &mut (), _: &[[bool; 32]]| -> Result<[u8; 32], Infallible> { Ok([0; 32]) },
        },
        svc_permitted: |_: &mut _, _: SecurityState| true,
        security_attribute: |_: &mut _, _: u32| SecurityAttribute::Secure,
    };
    // movs r5, #9; movs r0, #0; subs r0, #1; svc #0
    let code = image(&[0x2509, 0x2000, 0x3801, 0xdf00]);
    let mut regs = [[false; 32]; 16];
    let mut constants = [None; 16];
    let results = ert_func::<_, _, 1, 1, _>(
        &mut handler,
        &mut [false; 64][..],
        64,
        RawMemory::from(&code[..]),
        &mut [0; 4],
        1,
        &mut regs,
        &mut constants,
        false,
        true,
        [(word(3), None)],
    );
    assert!(matches!(results, Ok([(_, Some(u32::MAX))])));
    assert_eq!(constants[5], Some(9));
    assert_eq!(regs[5], word(9));
    assert_eq!(constants[0], Some(u32::MAX));

    let mem = encode(
        &[
            Inst::Addi { imm: Imm::new_i32(9), dest: Reg::T0, src1: Reg::ZERO },
            Inst::Addi { imm: Imm::new_i32(-1), dest: Reg::A0, src1: Reg::ZERO },
            Inst::Ecall,
        ],
        Xlen::Rv64,
    );
    let mut handler = RvDefaultHandler {
        inner: DefaultHandler {
            context: (),
            hash: |_: &mut (), _: &[[bool; 64]]| -> Result<[u8; 32], Infallible> { Ok([0; 32]) },
        },
    };
    let mut regs = [[false; 64]; 32];
    let mut constants = [None; 32];
    let results = ert64_func::<_, _, 1, 1, _>(
        &mut handler,
        &mut [false; 64][..],
        64,
        RawMemory::from(&mem[..]),
        &mut [0u64; 4],
        0,
        &mut regs,
        &mut constants,
        false,
        true,
        [(word(3), None)],
    );
    assert!(matches!(results, Ok([(_, Some(u64::MAX))])));
    assert_eq!(constants[5], Some(9));
    assert_eq!(regs[5], word(9));

    let mem = encode(
        &[
            Inst::Addi { imm: Imm::new_i32(9), dest: Reg::T0, src1: Reg::ZERO },
            Inst::Addi { imm: Imm::new_i32(-1), dest: Reg::A0, src1: Reg::ZERO },
            Inst::Ecall,
        ],
        Xlen::Rv32,
    );
    let mut regs = [[false; 32]; 32];
    let mut constants = [None; 32];
    let mut hash = |_: &[[bool; 32]]| Ok::<[u8; 32], Infallible>([0; 32]);
    let results = rv32::ert_func::<_, _, 1, 1, _, _>(
        &mut (),
        &mut hash,
        &mem,
        &mut [0u32; 4],
        &mut [false; 64],
        0,
        &mut regs,
        &mut constants,
        false,
        true,
        [(word(3), None)],
    );
    assert!(matches!(results, Ok([(_, Some(u32::MAX))])));
    assert_eq!(constants[5], Some(9));
    assert_eq!(regs[5], word(9));
}

#[test]
fn a_copy_of_a_stream_goes_on_alike() {
    let exchange = |digest: [u8; 32]| {
        let mut salted = digest;
        salted[3] ^= 0xa5;
        salted
    };
    let mut stream = hash_many(b"a message", &exchange);
    for _ in 0..5 {
        stream.next_byte(&exchange);
    }
    let mut copy = stream.clone();
    let (mut a, mut b) = ([0u8; 40], [0u8; 40]);
    stream.fill_bytes(&mut a, &exchange);
    copy.fill_bytes(&mut b, &exchange);
    assert_eq!(a, b);
    assert_eq!(stream.next_byte(&exchange), copy.next_byte(&exchange));
}

/// Numbers that are equal where they agree modulo ten.
#[derive(Clone, Copy, Debug)]
struct Digit(u8);

impl PartialEq for Digit {
    fn eq(&self, other: &Digit) -> bool {
        self.0 % 10 == other.0 % 10
    }
}

impl Eq for Digit {}

#[test]
fn candidates_are_gathered_by_their_own_equality() {
    let mut backing = [Digit(0); 6];
    let mut table = CandidateTable::new(&mut backing, Digit(1)).unwrap();
    let mut next = table.next().unwrap();
    next.extend(&[Digit(4), Digit(14), Digit(2), Digit(24)]).unwrap();
    assert_eq!(next.finish(), 2);
    assert_eq!(table.current()[0].0, 4);
    assert_eq!(table.current()[1].0, 2);
    let mut slots = [Digit(7), Digit(0)];
    assert_eq!(append_unique(&mut slots, 1, Digit(17)), Ok(1));
    assert_eq!(append_unique(&mut slots, 1, Digit(18)), Ok(2));
    assert_eq!(slots[1].0, 18);
}
