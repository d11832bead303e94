use cirrus::recompile::emit::{compile_prepared_aarch64, Insn, Listing, PinnedAddresses};
use cirrus::recompile::link::{link, patch_adr};
use cirrus::recompile::program::{
    Idx, Invocation, PreparedLoop, PreparedOp, PreparedProgram, PreparedSlot, Statement,
    StatementRange,
};

const PINNED: PinnedAddresses = PinnedAddresses {
    create: 0x1000,
    bitand: 0x2000,
    bitor: 0x3000,
    bitxor: 0x4000,
    mux: 0x5000,
};

fn fixed(index: u32) -> PreparedSlot {
    PreparedSlot::Static(Idx(index))
}

fn table(depth: u16, field: u32) -> PreparedSlot {
    PreparedSlot::Table { depth, field }
}

/// Run a listing: where each call goes and what is in X0 to X5.
fn run(listing: &Listing) -> Vec<(u64, [u64; 6])> {
    let base = |label: usize| 0x10_0000 * (label as u64 + 1);
    let word = |address: u64| -> u64 {
        for table in &listing.tables {
            let start = base(table.table);
            if address >= start && address < start + 4 * table.values.len() as u64 {
                return table.values[((address - start) / 4) as usize] as u64;
            }
        }
        panic!("no table at {address:#x}");
    };
    let find = |label: usize| {
        listing
            .code
            .iter()
            .position(|insn| *insn == Insn::Label(label))
            .unwrap()
    };
    let mut x = [0u64; 31];
    for (register, value) in x.iter_mut().enumerate() {
        *value = 0xdead_0000 + register as u64;
    }
    let saved = x;
    let mut stack: Vec<u64> = vec![7];
    let mut higher = false;
    let mut calls = Vec::new();
    let mut at = 0;
    loop {
        let insn = listing.code[at];
        at += 1;
        match insn {
            Insn::PushPair { first, second } => {
                stack.push(x[second as usize]);
                stack.push(x[first as usize]);
            }
            Insn::PopPair { first, second } => {
                x[first as usize] = stack.pop().unwrap();
                x[second as usize] = stack.pop().unwrap();
            }
            Insn::Move { dest, src } => x[dest as usize] = x[src as usize],
            Insn::MoveImmediate { dest, value } => x[dest as usize] = value,
            Insn::TableAddress { dest, table } => x[dest as usize] = base(table),
            Insn::Add { dest, left, right } => {
                x[dest as usize] = x[left as usize].wrapping_add(x[right as usize]);
            }
            Insn::AddLiteral { dest, left, literal } => {
                x[dest as usize] = x[left as usize].wrapping_add(literal);
            }
            Insn::Multiply { dest, left, right } => {
                x[dest as usize] = x[left as usize].wrapping_mul(x[right as usize]);
            }
            Insn::LoadWord { dest, base, disp } => {
                x[dest as usize] = word(x[base as usize] + disp as u64);
            }
            Insn::LoadStack { dest, disp } => {
                x[dest as usize] = stack[stack.len() - 1 - disp as usize / 8];
            }
            Insn::Label(_) => {}
            Insn::Compare { left, right } => higher = x[left as usize] >= x[right as usize],
            Insn::BranchHigherOrSame(label) => {
                if higher {
                    at = find(label);
                }
            }
            Insn::Branch(label) => at = find(label),
            Insn::Call { target } => {
                calls.push((x[target as usize], std::array::from_fn(|r| x[r])));
                // A callee may leave anything in the registers below X19.
                for (register, value) in x.iter_mut().enumerate() {
                    if register < 19 || register == 30 {
                        *value = 0xbad0_0000 + register as u64;
                    }
                }
            }
            Insn::Return => break,
        }
    }
    assert_eq!(x[19..], saved[19..]);
    assert_eq!(stack, [7]);
    calls
}

const BACKEND: u64 = 0xdead_0000;
const BUF: u64 = 0xdead_0001;

#[test]
fn straight_code_makes_its_calls_in_order() {
    let program = PreparedProgram {
        statements: vec![
            Statement::Op(PreparedOp::Create { value: true, out: fixed(0) }),
            Statement::Op(PreparedOp::Create { value: false, out: fixed(1) }),
            Statement::Op(PreparedOp::BitAnd { a: fixed(0), b: fixed(1), out: fixed(2) }),
            Statement::Op(PreparedOp::BitOr { a: fixed(2), b: fixed(1), out: fixed(3) }),
            Statement::Op(PreparedOp::BitXor { a: fixed(3), b: fixed(0), out: fixed(4) }),
            Statement::Op(PreparedOp::Mux {
                cond: fixed(4),
                then: fixed(3),
                otherwise: fixed(2),
                out: fixed(5),
            }),
        ],
        entry: StatementRange { start: 0, end: 6 },
        inputs: vec![Idx(1)],
    };
    assert!(program.validate());
    let listing = compile_prepared_aarch64(&program, &PINNED);
    assert!(listing.tables.is_empty());
    let calls = run(&listing);
    // The input is filled by the caller: nothing creates it.
    assert_eq!(calls.len(), 5);
    assert_eq!((calls[0].0, &calls[0].1[..4]), (0x1000, &[BACKEND, BUF, 1, 0][..]));
    assert_eq!((calls[1].0, &calls[1].1[..5]), (0x2000, &[BACKEND, BUF, 0, 1, 2][..]));
    assert_eq!((calls[2].0, &calls[2].1[..5]), (0x3000, &[BACKEND, BUF, 2, 1, 3][..]));
    assert_eq!((calls[3].0, &calls[3].1[..5]), (0x4000, &[BACKEND, BUF, 3, 0, 4][..]));
    assert_eq!((calls[4].0, calls[4].1), (0x5000, [BACKEND, BUF, 4, 3, 2, 5]));
}

/// Two outer rows; the inner loop runs twice for the first, once for the
/// second, and reads both tables.
fn nested() -> PreparedProgram {
    PreparedProgram {
        statements: vec![
            Statement::Loop(PreparedLoop {
                body: StatementRange { start: 1, end: 3 },
                table: vec![10, 11, 20, 21],
                fields_per_iteration: 2,
                invocations: vec![Invocation { first_row: 0, iterations: 2 }],
            }),
            Statement::Op(PreparedOp::Create { value: false, out: table(0, 1) }),
            Statement::Loop(PreparedLoop {
                body: StatementRange { start: 3, end: 4 },
                table: vec![100, 101, 102],
                fields_per_iteration: 1,
                invocations: vec![
                    Invocation { first_row: 0, iterations: 2 },
                    Invocation { first_row: 2, iterations: 1 },
                ],
            }),
            Statement::Op(PreparedOp::BitXor { a: table(1, 0), b: table(1, 1), out: table(0, 0) }),
        ],
        entry: StatementRange { start: 0, end: 1 },
        inputs: Vec::new(),
    }
}

#[test]
fn nested_loops_read_every_active_table() {
    let program = nested();
    assert!(program.validate());
    let calls = run(&compile_prepared_aarch64(&program, &PINNED));
    let seen: Vec<(u64, Vec<u64>)> = calls
        .iter()
        .map(|(target, x)| {
            let count = if *target == 0x1000 { 4 } else { 5 };
            (*target, x[2..count].to_vec())
        })
        .collect();
    assert_eq!(
        seen,
        [
            (0x1000, vec![0, 11]),
            (0x4000, vec![10, 11, 100]),
            (0x4000, vec![10, 11, 101]),
            (0x1000, vec![0, 21]),
            (0x4000, vec![20, 21, 102]),
        ]
    );
}

#[test]
fn a_loop_is_one_copy_of_its_body() {
    let repeated = |count: u32| PreparedProgram {
        statements: vec![
            Statement::Loop(PreparedLoop {
                body: StatementRange { start: 1, end: 2 },
                table: (1..=count).collect(),
                fields_per_iteration: 1,
                invocations: vec![Invocation { first_row: 0, iterations: count }],
            }),
            Statement::Op(PreparedOp::BitAnd { a: fixed(0), b: fixed(0), out: table(0, 0) }),
        ],
        entry: StatementRange { start: 0, end: 1 },
        inputs: Vec::new(),
    };
    let listing = compile_prepared_aarch64(&repeated(32), &PINNED);
    assert_eq!(listing.code.len(), compile_prepared_aarch64(&repeated(64), &PINNED).code.len());
    let outs: Vec<u64> = run(&listing).iter().map(|(_, x)| x[4]).collect();
    assert_eq!(outs, (1..=32).collect::<Vec<u64>>());
    assert!(run(&compile_prepared_aarch64(&repeated(0), &PINNED)).is_empty());
}

#[test]
fn malformed_programs_do_not_validate() {
    let mut effect = nested();
    effect.statements[1] = Statement::Op(PreparedOp::External { out: fixed(0) });
    assert!(!effect.validate());
    let mut storage = nested();
    storage.statements[3] = Statement::Op(PreparedOp::Storage { out: fixed(0) });
    assert!(!storage.validate());
    let mut outside = nested();
    outside.statements[3] = Statement::Op(PreparedOp::Create { value: true, out: table(2, 0) });
    assert!(!outside.validate());
    let mut beyond = nested();
    beyond.entry = StatementRange { start: 0, end: 9 };
    assert!(!beyond.validate());
}

#[test]
fn writes_to_inputs_are_found() {
    let mut program = nested();
    program.inputs = vec![Idx(4), Idx(5)];
    let create = |out| PreparedOp::Create { value: true, out };
    assert!(program.writes_input(create(fixed(5))));
    assert!(!program.writes_input(create(fixed(6))));
    assert!(!program.writes_input(create(table(0, 5))));
}

#[test]
fn adr_is_patched_in_place() {
    // adr x21, . and a neighbour on each side.
    let mut bytes = Vec::new();
    for word in [0xd503_201fu32, 0x1000_0015, 0xd503_201f] {
        bytes.extend_from_slice(&word.to_le_bytes());
    }
    patch_adr(&mut bytes, 4, 4 + 0x1_2347);
    let word = |bytes: &[u8], at: usize| {
        u32::from_le_bytes([bytes[at], bytes[at + 1], bytes[at + 2], bytes[at + 3]])
    };
    assert_eq!(word(&bytes, 4), 0x7009_1a35);
    assert_eq!(word(&bytes, 0), 0xd503_201f);
    assert_eq!(word(&bytes, 8), 0xd503_201f);
    // Backwards by one instruction.
    patch_adr(&mut bytes, 4, 0);
    assert_eq!(word(&bytes, 4), 0x10ff_fff5);
}

#[test]
fn linking_keeps_the_rows_in_the_artifact() {
    let listing = compile_prepared_aarch64(&nested(), &PINNED);
    assert_eq!(listing.tables.len(), 4);
    // One instruction a word is enough for where the tables go.
    let code = vec![0u8; 4 * listing.code.len()];
    let asks: Vec<usize> = listing
        .tables
        .iter()
        .map(|table| {
            4 * listing
                .code
                .iter()
                .position(|insn| match insn {
                    Insn::TableAddress { table: asked, .. } => *asked == table.table,
                    _ => false,
                })
                .unwrap()
        })
        .collect();
    let size = code.len();
    let artifact = link(code, &listing.tables, &asks);
    let rows: Vec<u8> = listing
        .tables
        .iter()
        .flat_map(|table| table.values.iter().flat_map(|value| value.to_le_bytes()))
        .collect();
    assert_eq!(&artifact[size..], &rows[..]);
    assert_eq!(listing.tables[0].values, [100, 101, 102]);
    assert_eq!(listing.tables[1].values, [0, 2, 2, 1]);
    assert_eq!(listing.tables[2].values, [10, 11, 20, 21]);
    assert_eq!(listing.tables[3].values, [0, 2]);
}
