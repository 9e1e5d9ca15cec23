use static_key::arch::Arch;
use static_key::patch::{
    x86_replacement_plan, riscv_replacement_plan, replacement_plan, replace_instruction,
    PatchError, TextGuard, page_span, page_span_checked, align_down_to, register_code, bytes_equal,
};
use static_key::text::{CodeImage, PatchStep};

fn store(address: usize, bytes: &[u8]) -> (usize, Vec<u8>) {
    (address, bytes.to_vec())
}

fn describe(steps: &[PatchStep]) -> Vec<Option<(usize, Vec<u8>)>> {
    steps
        .iter()
        .map(|s| match s {
            PatchStep::Store { address, bytes } => Some((*address, bytes.clone())),
            PatchStep::SyncCore => None,
        })
        .collect()
}

#[test]
fn x86_single_byte_is_one_store_even_at_quadword_end() {
    let plan = x86_replacement_plan(0x1007, &[0xcc]).unwrap();
    assert_eq!(describe(&plan), vec![Some(store(0x1007, &[0xcc]))]);
}

#[test]
fn x86_within_quadword_is_one_store() {
    let new = [0xe9, 1, 2, 3, 4];
    let plan = x86_replacement_plan(0x1003, &new).unwrap();
    assert_eq!(describe(&plan), vec![Some(store(0x1003, &new))]);
}

#[test]
fn x86_straddling_start_is_refused() {
    assert_eq!(x86_replacement_plan(0x100f, &[1, 2]).unwrap_err(), PatchError::QwordStraddle);
}

#[test]
fn x86_across_quadwords_parks_then_fills_then_unparks() {
    let new = [0xe9, 0x10, 0x20, 0x30, 0x40];
    let plan = x86_replacement_plan(0x1006, &new).unwrap();
    assert_eq!(
        describe(&plan),
        vec![
            Some(store(0x1006, &[0xeb, 0xfe])),
            Some(store(0x1008, &[0x20])),
            Some(store(0x1009, &[0x30])),
            Some(store(0x100a, &[0x40])),
            Some(store(0x1006, &[0xe9, 0x10])),
        ]
    );
}

#[test]
fn riscv_halfword_and_aligned_word_are_one_store() {
    let plan = riscv_replacement_plan(0x2002, &[1, 2]).unwrap();
    assert_eq!(describe(&plan), vec![Some(store(0x2002, &[1, 2]))]);
    let plan = riscv_replacement_plan(0x2004, &[1, 2, 3, 4]).unwrap();
    assert_eq!(describe(&plan), vec![Some(store(0x2004, &[1, 2, 3, 4]))]);
}

#[test]
fn riscv_unaligned_word_parks_with_barriers() {
    let plan = riscv_replacement_plan(0x2002, &[0x6f, 0, 0x80, 0]).unwrap();
    assert_eq!(
        describe(&plan),
        vec![
            Some(store(0x2002, &[0x01, 0xa0])),
            None,
            Some(store(0x2004, &[0x80, 0])),
            None,
            Some(store(0x2002, &[0x6f, 0])),
            None,
        ]
    );
}

#[test]
fn riscv_errors() {
    assert_eq!(riscv_replacement_plan(0x2001, &[1, 2]).unwrap_err(), PatchError::Misaligned);
    assert_eq!(riscv_replacement_plan(0x2000, &[1, 2, 3]).unwrap_err(), PatchError::BadLength);
    assert_eq!(riscv_replacement_plan(0x2001, &[1, 2, 3]).unwrap_err(), PatchError::Misaligned);
    assert_eq!(replacement_plan(Arch::Riscv64, 0x2000, &[1]).unwrap_err(), PatchError::BadLength);
}

#[test]
fn unchanged_instruction_needs_no_store_and_no_sync() {
    let mut guard = TextGuard::new();
    let steps = replace_instruction(&mut guard, &[1, 2, 3, 4, 5], 0x1006, &[1, 2, 3, 4, 5], Arch::X86_64)
        .unwrap();
    assert!(steps.is_empty());
    assert!(!guard.need_sync());
    assert!(!guard.release());
}

#[test]
fn changed_instruction_needs_sync_even_when_refused() {
    let mut guard = TextGuard::new();
    let steps = replace_instruction(&mut guard, &[0, 0], 0x1000, &[1, 2], Arch::X86_64).unwrap();
    assert_eq!(steps.len(), 1);
    assert!(guard.need_sync());

    let mut guard = TextGuard::new();
    let err = replace_instruction(&mut guard, &[0, 0], 0x1007, &[1, 2], Arch::X86_64).unwrap_err();
    assert_eq!(err, PatchError::QwordStraddle);
    assert!(guard.need_sync());
    guard.skip_sync();
    assert!(!guard.release());
}

#[test]
fn image_replacement_installs_new_bytes_only() {
    for insn in 0x1000usize..0x1007 {
        let mut bytes = vec![0xaa; 24];
        bytes[insn - 0x1000..insn - 0x1000 + 5].copy_from_slice(&[0x0f, 0x0b, 0x0f, 0x0b, 0x90]);
        let mut image = CodeImage::new(0x1000, bytes.clone());
        let mut guard = TextGuard::new();
        let new = [0xe9, 0x11, 0x22, 0x33, 0x44];
        image.replace_instruction(&mut guard, insn, &new, Arch::X86_64).unwrap();
        let mut expected = bytes.clone();
        expected[insn - 0x1000..insn - 0x1000 + 5].copy_from_slice(&new);
        assert_eq!(image.bytes(), expected.as_slice());
        assert_eq!(image.read(insn, 5), new.to_vec());
        assert!(guard.need_sync());
    }
}

#[test]
fn image_replacement_riscv_unaligned() {
    let mut image = CodeImage::new(0x4000, vec![0; 12]);
    let mut guard = TextGuard::new();
    image.replace_instruction(&mut guard, 0x4006, &[0x13, 0, 0, 0], Arch::Riscv64).unwrap();
    assert_eq!(image.bytes(), &[0, 0, 0, 0, 0, 0, 0x13, 0, 0, 0, 0, 0]);
    assert_eq!(image.base(), 0x4000);
}

#[test]
fn image_replacement_refused_leaves_image() {
    let mut image = CodeImage::new(0x1000, vec![0; 16]);
    let mut guard = TextGuard::new();
    let err = image.replace_instruction(&mut guard, 0x1007, &[1, 2, 3, 4, 5], Arch::X86_64);
    assert_eq!(err, Err(PatchError::QwordStraddle));
    assert_eq!(image.bytes(), &[0; 16]);
}

#[test]
fn image_apply_all_runs_steps_in_order() {
    let mut image = CodeImage::new(0x10, vec![0; 4]);
    let steps = vec![
        PatchStep::Store { address: 0x11, bytes: vec![1, 2] },
        PatchStep::SyncCore,
        PatchStep::Store { address: 0x12, bytes: vec![3] },
    ];
    image.apply_all(&steps);
    assert_eq!(image.bytes(), &[0, 1, 3, 0]);
}

#[test]
fn page_spans() {
    assert_eq!(align_down_to(0x1234, 0x1000), 0x1000);
    assert_eq!(align_down_to(0x1000, 0x1000), 0x1000);
    let span = page_span(0x1234, 5, 0x1000);
    assert_eq!((span.start, span.len), (0x1000, 0x1000));
    let span = page_span(0x1ffe, 5, 0x1000);
    assert_eq!((span.start, span.len), (0x1000, 0x2000));
    let span = page_span(0x1ffb, 5, 0x1000);
    assert_eq!((span.start, span.len), (0x1000, 0x1000));
}

#[test]
fn page_span_checked_refuses_odd_page_sizes() {
    assert_eq!(page_span_checked(0x1234, 5, 0), None);
    assert_eq!(page_span_checked(0x1234, 5, 3000), None);
    let top = page_span_checked(usize::MAX - 2, 3, 1 << 12).unwrap();
    assert_eq!((top.start, top.len), (usize::MAX - 0xfff, 0x1000));
    let half = 1usize << (usize::BITS - 1);
    assert_eq!(page_span_checked(0, half + 1, half), None);
    let span = page_span_checked(0x1234, 5, 0x4000).unwrap();
    assert_eq!((span.start, span.len), (0, 0x4000));
}

#[test]
fn register_code_covers_the_instruction() {
    let mut guard = TextGuard::new();
    let span = register_code(&mut guard, 0x7ffe, 5, 0x1000).unwrap();
    assert_eq!((span.start, span.len), (0x7000, 0x2000));
    assert!(!guard.need_sync());
    assert_eq!(register_code(&mut guard, 0x7ffe, 5, 0x1800), None);
}

#[test]
fn byte_comparison() {
    assert!(bytes_equal(&[1, 2], &[1, 2]));
    assert!(!bytes_equal(&[1, 2], &[1, 3]));
    assert!(!bytes_equal(&[1, 2], &[1]));
}

fn run_and_check_states(arch: Arch, base: usize, insn: usize, old: &[u8], new: &[u8], park: [u8; 2]) {
    let mut bytes = vec![0x55u8; 32];
    let off = insn - base;
    bytes[off..off + old.len()].copy_from_slice(old);
    let mut image = CodeImage::new(base, bytes.clone());
    let steps = replacement_plan(arch, insn, new).unwrap();
    let mut states = vec![image.bytes().to_vec()];
    for step in &steps {
        if let PatchStep::Store { address, bytes } = step {
            // One atomic access inside the instruction.
            assert!(*address >= insn && *address + bytes.len() <= insn + new.len());
            match arch {
                Arch::X86_64 => assert!(bytes.len() <= 1 || address % 8 + bytes.len() <= 8),
                Arch::Riscv64 => assert!(
                    (bytes.len() == 2 && address % 2 == 0) || (bytes.len() == 4 && address % 4 == 0)
                ),
            }
        }
        image.apply(step);
        states.push(image.bytes().to_vec());
    }
    for state in &states {
        let region = &state[off..off + new.len()];
        assert!(region == old || region == new || region[..2] == park);
        assert_eq!(&state[..off], &bytes[..off]);
        assert_eq!(&state[off + new.len()..], &bytes[off + new.len()..]);
    }
    assert_eq!(&states.last().unwrap()[off..off + new.len()], new);
}

#[test]
fn every_intermediate_state_is_whole_or_parked() {
    let ud2 = [0x0f, 0x0b, 0x0f, 0x0b, 0x90];
    let jmp = [0xe9, 0x10, 0x20, 0x30, 0x40];
    for insn in 0x1000..0x1007 {
        run_and_check_states(Arch::X86_64, 0x1000, insn, &ud2, &jmp, [0xeb, 0xfe]);
    }
    run_and_check_states(Arch::Riscv64, 0x2000, 0x2002, &[0, 0, 0, 0], &[0x6f, 0, 0x80, 0], [0x01, 0xa0]);
    run_and_check_states(Arch::Riscv64, 0x2000, 0x2004, &[0, 0, 0, 0], &[0x6f, 0, 0x80, 0], [0x01, 0xa0]);
}

#[test]
fn image_replacement_of_installed_instruction_succeeds_anywhere() {
    let mut bytes = vec![0u8; 16];
    bytes[7..9].copy_from_slice(&[1, 2]);
    let mut image = CodeImage::new(0x1000, bytes.clone());
    let mut guard = TextGuard::new();
    assert_eq!(image.replace_instruction(&mut guard, 0x1007, &[1, 2], Arch::X86_64), Ok(()));
    assert_eq!(image.bytes(), bytes.as_slice());
    assert!(!guard.need_sync());
}
