use cirrus::a64::decode::{decode, DecodeError, Instruction};
use cirrus::a64::state::{initial_state, step, Flow};

fn word(value: u64) -> [bool; 64] {
    core::array::from_fn(|bit| (value >> bit) & 1 != 0)
}

#[test]
fn branch_targets_and_link_bit_are_extracted_from_audited_masks() {
    assert_eq!(
        decode(0x1000, 0x1400_0002),
        Ok(Instruction::Branch { target: 0x1008 })
    );
    assert_eq!(
        decode(0x1000, 0x9400_0002),
        Ok(Instruction::BranchLink { target: 0x1008 })
    );
    assert_eq!(
        decode(0x1000, 0x17ff_fffe),
        Ok(Instruction::Branch { target: 0x0ff8 })
    );
}

#[test]
fn conditional_and_test_branches_extract_pc_relative_targets() {
    assert_eq!(
        decode(0x2000, 0x5400_0040),
        Ok(Instruction::ConditionalBranch {
            condition: 0,
            target: 0x2008
        })
    );
    assert_eq!(
        decode(0x2000, 0xb500_0041),
        Ok(Instruction::CompareBranch {
            register: 1,
            nonzero: true,
            width64: true,
            target: 0x2008
        })
    );
}

#[test]
fn register_branches_and_svc_are_narrowly_accepted() {
    assert_eq!(
        decode(0, 0xd61f_0060),
        Ok(Instruction::BranchRegister { register: 3 })
    );
    assert_eq!(decode(0, 0xd65f_03c0), Ok(Instruction::Return));
    assert_eq!(decode(0, 0xd400_0001), Ok(Instruction::SupervisorCall));
    assert_eq!(
        decode(0, 0xd400_0021),
        Err(DecodeError::Unsupported(0xd400_0021))
    );
}

#[test]
fn add_sub_immediate_preserve_x31_xzr_and_w_zero_extension() {
    let mut state = initial_state(false);
    state.regs[1] = word(4);
    state.constants[1] = Some(4);
    assert_eq!(
        decode(0x1000, 0x9100_0420),
        Ok(Instruction::AddImmediate {
            dest: 0,
            source: 1,
            immediate: 1,
            subtract: false,
            width64: true
        })
    );
    assert_eq!(
        step(&mut (), &mut state, 0x1000, 0x9100_0420, &false, &true),
        Ok(Flow::Next(word(0x1004)))
    );
    assert_eq!(state.regs[0], word(5));
    assert_eq!(state.constants[0], Some(5));
    state.regs[1] = word(0x1_0000_0000);
    state.constants[1] = Some(0x1_0000_0000);
    assert_eq!(
        step(&mut (), &mut state, 0x1004, 0x1100_0420, &false, &true),
        Ok(Flow::Next(word(0x1008)))
    );
    assert_eq!(state.regs[0], word(1));
    assert_eq!(state.constants[0], Some(1));
    assert_eq!(
        decode(0, 0x9100_043f),
        Err(DecodeError::Unsupported(0x9100_043f))
    );
}

#[test]
fn movz_movk_decode_and_update_only_the_selected_halfword() {
    let mut state = initial_state(false);
    assert_eq!(
        decode(0, 0xd282_4680),
        Ok(Instruction::MoveWide {
            dest: 0,
            immediate: 0x1234,
            shift: 0,
            keep: false,
            width64: true,
        })
    );
    assert_eq!(
        step(&mut (), &mut state, 0, 0xd282_4680, &false, &true),
        Ok(Flow::Next(word(4)))
    );
    assert_eq!(state.regs[0], word(0x1234));
    assert_eq!(
        step(&mut (), &mut state, 4, 0xf2a2_4680, &false, &true),
        Ok(Flow::Next(word(8)))
    );
    assert_eq!(state.regs[0], word(0x1234_1234));
    assert_eq!(
        decode(0, 0x5280_001f),
        Err(DecodeError::Unsupported(0x5280_001f))
    );
}

#[test]
fn symbolic_cbz_selects_the_audited_target_and_x31_is_xzr() {
    let mut state = initial_state(false);
    state.regs[1] = core::array::from_fn(|bit| bit == 0);
    let flow = step(&mut (), &mut state, 0x2000, 0xb500_0041, &false, &true).unwrap();
    assert_eq!(flow, Flow::Next(word(0x2008)));
    let zero_register = step(&mut (), &mut state, 0x2000, 0xb400_005f, &false, &true).unwrap();
    assert_eq!(zero_register, Flow::Next(word(0x2008)));
    let zero_register_nonzero =
        step(&mut (), &mut state, 0x2000, 0xb500_005f, &false, &true).unwrap();
    assert_eq!(zero_register_nonzero, Flow::Next(word(0x2004)));
}

#[test]
fn alignment_and_recognized_but_unaudited_forms_fail_closed() {
    assert_eq!(
        decode(2, 0x1400_0000),
        Err(DecodeError::Malformed(0x1400_0000))
    );
    assert_eq!(
        decode(0, 0xd503_201f),
        Err(DecodeError::Unsupported(0xd503_201f))
    );
}
