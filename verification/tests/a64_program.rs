use cirrus::a64::decode::DecodeError;
use cirrus::a64::program::Aarch64LoopedProgram;
use cirrus::memory::RawMemory;

#[test]
fn compile_walks_branches_and_declared_returns() {
    // nop; svc #0 (entry at nop)
    let code = [0xd503_201fu32, 0xd400_0001];
    let mut bytes = [0u8; 8];
    for (index, word) in code.into_iter().enumerate() {
        bytes[index * 4..index * 4 + 4].copy_from_slice(&word.to_le_bytes());
    }
    let memory = RawMemory::from_slice(&bytes);
    let program = Aarch64LoopedProgram::compile(&memory, 0, &[], &[], 8).unwrap();
    assert!(program.boundaries().is_empty());
    assert!(program.return_sites().is_empty());
    assert!(program.indirect_sites().is_empty());
}

#[test]
fn compile_rejects_undeclared_indirect_branches() {
    let bytes = 0xd61f_0020u32.to_le_bytes(); // br x1
    assert_eq!(
        Aarch64LoopedProgram::compile(&RawMemory::from_slice(&bytes), 0, &[], &[], 4)
            .unwrap_err(),
        DecodeError::Unsupported(0xd61f_0020)
    );
}
