use static_key::arch::{Arch, FALLTHROUGH, x86_patch, riscv_patch};

#[test]
fn x86_fallthrough_is_five_byte_nop() {
    assert_eq!(x86_patch(FALLTHROUGH, &[7, 9]), vec![0x0f, 0x1f, 0x44, 0x00, 0x00]);
}

#[test]
fn x86_jump_encodes_label_offset_little_endian() {
    assert_eq!(x86_patch(1, &[7, 0x1234_5678]), vec![0xe9, 0x78, 0x56, 0x34, 0x12]);
    assert_eq!(x86_patch(0, &[0xffff_fffb]), vec![0xe9, 0xfb, 0xff, 0xff, 0xff]);
}

#[test]
fn riscv_fallthrough_is_addi_nop() {
    assert_eq!(riscv_patch(FALLTHROUGH, &[]), 0x0000_0013);
    assert_eq!(Arch::Riscv64.patch(FALLTHROUGH, &[]), vec![0x13, 0x00, 0x00, 0x00]);
}

#[test]
fn riscv_jump_is_jal_x0() {
    assert_eq!(riscv_patch(0, &[8]), 0x0080_006f);
    // jal x0, -4
    assert_eq!(riscv_patch(0, &[0xffff_fffc]), 0xffdf_f06f);
    assert_eq!(riscv_patch(1, &[0, 0x800]), 0x0010_006f);
    assert_eq!(riscv_patch(0, &[0x7fffe]), 0x7ff7_f06f);
    assert_eq!(Arch::Riscv64.patch(0, &[0xffff_fffc]), vec![0x6f, 0xf0, 0xdf, 0xff]);
}

#[test]
fn arch_patch_lengths() {
    assert_eq!(Arch::X86_64.insn_len(), 5);
    assert_eq!(Arch::Riscv64.insn_len(), 4);
    assert_eq!(Arch::X86_64.patch(0, &[3]).len(), 5);
    assert_eq!(Arch::Riscv64.patch(0, &[4]).len(), 4);
}

#[test]
fn target_arch_names() {
    assert_eq!(Arch::from_target_arch("x86_64"), Some(Arch::X86_64));
    assert_eq!(Arch::from_target_arch("riscv64"), Some(Arch::Riscv64));
    assert_eq!(Arch::from_target_arch("aarch64"), None);
    assert_eq!(Arch::from_target_arch("x86"), None);
    assert_eq!(Arch::from_target_arch(""), None);
}

fn x86_target(address: i64, code: &[u8]) -> Option<i64> {
    if code.len() == 5 && code[0] == 0xe9 {
        Some(address + 5 + i32::from_le_bytes([code[1], code[2], code[3], code[4]]) as i64)
    } else {
        None
    }
}

fn riscv_target(address: i64, code: &[u8]) -> Option<i64> {
    let w = u32::from_le_bytes([code[0], code[1], code[2], code[3]]);
    if w & 0x7f != 0x6f || (w >> 7) & 0x1f != 0 {
        return None;
    }
    let imm = ((w >> 31) & 1) << 20 | ((w >> 12) & 0xff) << 12 | ((w >> 20) & 1) << 11 | ((w >> 21) & 0x3ff) << 1;
    let signed = if imm & 0x10_0000 != 0 { imm as i64 - 0x20_0000 } else { imm as i64 };
    Some(address + signed)
}

#[test]
fn patches_jump_to_the_selected_label() {
    let labels = [0x40u32, (-0x30i32) as u32, 0x7fffe, (-0x10_0000i32) as u32];
    for (callee, &offset) in labels.iter().enumerate() {
        let x86 = Arch::X86_64.patch(callee, &labels);
        assert_eq!(x86_target(0x4000, &x86), Some(0x4000 + 5 + offset as i32 as i64));
        let rv = Arch::Riscv64.patch(callee, &labels);
        assert_eq!(riscv_target(0x4000, &rv), Some(0x4000 + offset as i32 as i64));
    }
    assert_eq!(x86_target(0x4000, &Arch::X86_64.patch(FALLTHROUGH, &labels)), None);
    assert_eq!(riscv_target(0x4000, &Arch::Riscv64.patch(FALLTHROUGH, &labels)), None);
}
