use cirrus::a64::body::{Aarch64DriveError, Aarch64FoldError};
use cirrus::a64::generation::{capture, fold_snapshot, initial_step, run_generation, step};
use cirrus::a64::state::{initial_state, initial_state_with_arguments};
use cirrus::memory::RawMemory;
use cirrus::table::{CandidateTable, DriveError};

fn word64(value: u64, zero: &bool, one: &bool) -> [bool; 64] {
    core::array::from_fn(|bit| if (value >> bit) & 1 != 0 { *one } else { *zero })
}

#[test]
fn folding_merges_symbolic_bits_and_forgets_divergent_metadata() {
    let mut accumulated = capture(
        &initial_state_with_arguments(false, &true, 64, &[Some(1)])
            .unwrap(),
        0,
    );
    let mut candidate = accumulated.clone();
    candidate.state.regs[0][0] = true;
    candidate.state.constants[0] = Some(3);
    accumulated.state.constants[0] = Some(1);
    fold_snapshot(&mut (), &true, &candidate, &mut accumulated, &false).unwrap();
    assert_eq!(accumulated.state.regs[0][0], true);
    assert_eq!(accumulated.state.constants[0], None);
    let mut inactive = accumulated.clone();
    inactive.state.constants[1] = Some(7);
    fold_snapshot(&mut (), &false, &inactive, &mut accumulated, &false).unwrap();
    assert_eq!(accumulated.state.regs[0][0], true);
    assert_eq!(accumulated.state.constants[0], None);
}

#[test]
fn generation_runs_concrete_bodies_and_collects_successors() {
    // b +8; nop; nop (the branch body terminates at the symbolic boundary)
    let bytes = [
        0x02, 0x00, 0x00, 0x14, 0x1f, 0x20, 0x03, 0xd5, 0x1f, 0x20, 0x03, 0xd5,
    ];
    let memory = RawMemory::from_slice(&bytes);
    let snapshot = capture(&initial_state(false), 0);
    let mut entries = [0; 4];
    let mut table = CandidateTable::new(&mut entries, 0).unwrap();
    let (folded, next_vip, done, exited) = run_generation(
        &mut (),
        &mut table,
        &snapshot,
        &word64(0, &false, &true),
        memory,
        &false,
        &true,
    )
    .unwrap();
    assert_eq!(folded.pc, 8);
    assert_eq!(next_vip, word64(8, &false, &true));
    assert!(!done);
    assert!(!exited);
    assert_eq!(table.current(), &[8]);
}

#[test]
fn symbolic_compare_branch_selects_virtual_ip_and_successors() {
    let bytes = 0xb500_0041u32.to_le_bytes(); // cbnz x1, +8
    let memory = RawMemory::from_slice(&bytes);
    let mut state = initial_state(false);
    state.regs[1][0] = true;
    let snapshot = capture(&state, 0);
    let mut entries = [0; 8];
    let mut table = CandidateTable::new(&mut entries, 0).unwrap();
    let (folded, next_vip, done, exited) = run_generation(
        &mut (),
        &mut table,
        &snapshot,
        &word64(0, &false, &true),
        memory,
        &false,
        &true,
    )
    .unwrap();
    assert_eq!(folded.pc, 0);
    assert_eq!(next_vip, word64(8, &false, &true));
    assert!(!done);
    assert!(!exited);
    assert_eq!(table.current(), &[8, 4]);
}

#[test]
fn generation_fails_closed_when_all_candidates_exit() {
    let bytes = 0xd400_0001u32.to_le_bytes(); // svc #0
    let memory = RawMemory::from_slice(&bytes);
    let mut state = initial_state(false);
    state.constants[0] = Some(u64::MAX);
    state.regs[0] = core::array::from_fn(|_| true);
    let snapshot = capture(&state, 0);
    let mut entries = [0; 4];
    let mut table = CandidateTable::new(&mut entries, 0).unwrap();
    assert!(matches!(
        run_generation(
            &mut (),
            &mut table,
            &snapshot,
            &word64(0, &false, &true),
            memory,
            &false,
            &true,
        ),
        Err(DriveError::Driver(Aarch64DriveError::NoSurvivingCandidates))
    ));
    assert!(table.is_empty());
}

#[test]
fn symbolic_test_branch_advances_through_public_step_generations() {
    // tbnz x1, #0, +8; movz x0, #0; svc #0; nop; svc #0
    let code = [
        0x3728_0041u32,
        0x5280_0000,
        0xd400_0001,
        0xd503_201f,
        0xd400_0001,
    ];
    let mut state = initial_state(false);
    state.regs[1][0] = true;
    let mut initial = initial_step(state, 0, &false, &true).unwrap();
    initial.snapshot.state.constants[0] = Some(u64::MAX);
    initial.snapshot.state.regs[0] = core::array::from_fn(|_| true);
    // The plaintext host treats symbolic bit 0 of x1 as true, so the
    // generation queues candidates 12 and 8; the 12 body exits through the
    // second SVC, then candidate 8 exits through the first SVC.
    let mut bytes = [0u8; 20];
    for (index, word) in code.into_iter().enumerate() {
        bytes[index * 4..index * 4 + 4].copy_from_slice(&word.to_le_bytes());
    }
    let mut backing = [0u64; 8];
    let mut candidates = CandidateTable::new(&mut backing, 0).unwrap();
    let first = step(
        &mut (),
        &mut candidates,
        initial,
        RawMemory::from_slice(&bytes),
        &false,
        &true,
    )
    .unwrap();
    assert_eq!(candidates.current(), &[12, 8]);
    assert_eq!(first.virtual_ip, word64(4, &false, &true));
    assert!(!first.done);
    assert!(!first.exited);

    let mut first = first;
    first.snapshot.state.constants[0] = Some(u64::MAX);
    first.snapshot.state.regs[0] = core::array::from_fn(|_| true);
    let second = step(
        &mut (),
        &mut candidates,
        first,
        RawMemory::from_slice(&bytes),
        &false,
        &true,
    );
    assert!(matches!(
        second,
        Err(DriveError::Driver(Aarch64DriveError::NoSurvivingCandidates))
    ));
    assert!(candidates.is_empty());
}

#[test]
fn exit_done_is_predicated_by_candidate_activity() {
    let bytes = 0xd400_0001u32.to_le_bytes(); // svc #0
    let memory = RawMemory::from_slice(&bytes);
    let mut state = initial_state(false);
    state.constants[0] = Some(u64::MAX);
    state.regs[0] = core::array::from_fn(|_| true);
    let snapshot = capture(&state, 0);
    let mut entries = [0; 4];
    let mut table = CandidateTable::new(&mut entries, 0).unwrap();
    let result = run_generation(
        &mut (),
        &mut table,
        &snapshot,
        &word64(8, &false, &true),
        memory,
        &false,
        &true,
    );
    assert!(matches!(
        result,
        Err(DriveError::Driver(Aarch64DriveError::NoSurvivingCandidates))
    ));
}

#[test]
fn public_step_carries_done_and_virtual_ip_across_generations() {
    let bytes = 0xd400_0001u32.to_le_bytes(); // svc #0
    let memory = RawMemory::from_slice(&bytes);
    let mut state = initial_state(false);
    state.constants[0] = Some(u64::MAX);
    state.regs[0] = core::array::from_fn(|_| true);
    let initial = initial_step(state, 0, &false, &true).unwrap();
    let mut entries = [0; 4];
    let mut table = CandidateTable::new(&mut entries, 0).unwrap();
    let stepped = step(&mut (), &mut table, initial, memory, &false, &true);
    assert!(matches!(
        stepped,
        Err(DriveError::Driver(Aarch64DriveError::NoSurvivingCandidates))
    ));
    assert!(table.is_empty());
}

#[test]
fn folding_rejects_divergent_sp() {
    let mut accumulated = capture(
        &initial_state_with_arguments(false, &true, 64, &[]).unwrap(),
        0,
    );
    let mut candidate = accumulated.clone();
    candidate.state.sp = Some(128);
    assert_eq!(
        fold_snapshot(&mut (), &true, &candidate, &mut accumulated, &false),
        Err(Aarch64FoldError::ConcreteStateDivergence)
    );
}
