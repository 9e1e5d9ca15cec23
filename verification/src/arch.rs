use vstd::prelude::*;
use vstd::string::StringSliceAdditionalSpecFns;
use vstd::bytes::{spec_u32_to_le_bytes, spec_u32_from_le_bytes, u32_to_le_bytes, lemma_auto_spec_u32_to_from_le_bytes};

verus! {

/// The instruction-set architectures whose call sites can be patched.
#[derive(Clone, Copy, Debug, PartialEq, Eq, Structural)]
pub enum Arch {
    X86_64,
    Riscv64,
}

/// The matcher result that selects the fallthrough (likely) arm.
pub const FALLTHROUGH: usize = usize::MAX;

/// x86-64 five-byte nop: `nop dword ptr [rax + rax*1 + 0x0]`.
pub open spec fn x86_nop5() -> Seq<u8> {
    seq![0x0fu8, 0x1fu8, 0x44u8, 0x00u8, 0x00u8]
}

/// x86-64 `jmp rel32` with the given displacement.
pub open spec fn x86_jmp_rel32(offset: u32) -> Seq<u8> {
    seq![0xe9u8] + spec_u32_to_le_bytes(offset)
}

/// RISC-V `addi x0, x0, 0`, the canonical uncompressed nop.
pub open spec fn riscv_nop() -> u32 {
    0x0000_0013
}

/// RISC-V `jal x0, offset`, built from the bits of `offset` as the J-type
/// immediate layout requires: imm[20|10:1|11|19:12], rd = x0, opcode 0x6f.
pub open spec fn riscv_jal_x0(offset: u32) -> u32 {
    ((offset >> 20) & 1) << 31 | ((offset >> 1) & 0x3ff) << 21 | ((offset >> 11) & 1) << 20 | ((
    offset >> 12) & 0xff) << 12 | 0x6f
}

/// The instruction word a RISC-V call site holds for a matcher result.
pub open spec fn riscv_word(callee: usize, labels: Seq<u32>) -> u32 {
    if callee == FALLTHROUGH {
        riscv_nop()
    } else {
        riscv_jal_x0(labels[callee as int])
    }
}

/// The bytes a call site holds for a matcher result: the nop when the
/// fallthrough arm is selected, otherwise a jump by the selected label offset.
pub open spec fn patch_for(arch: Arch, callee: usize, labels: Seq<u32>) -> Seq<u8> {
    match arch {
        Arch::X86_64 => if callee == FALLTHROUGH {
            x86_nop5()
        } else {
            x86_jmp_rel32(labels[callee as int])
        },
        Arch::Riscv64 => spec_u32_to_le_bytes(riscv_word(callee, labels)),
    }
}

/// A matcher result that a call site with these labels can encode.
pub open spec fn callee_in_range(callee: usize, labels: Seq<u32>) -> bool {
    callee == FALLTHROUGH || callee < labels.len()
}

/// The bytes of the name `x86_64`.
pub open spec fn x86_64_name() -> Seq<u8> {
    seq![0x78u8, 0x38u8, 0x36u8, 0x5fu8, 0x36u8, 0x34u8]
}

/// The bytes of the name `riscv64`.
pub open spec fn riscv64_name() -> Seq<u8> {
    seq![0x72u8, 0x69u8, 0x73u8, 0x63u8, 0x76u8, 0x36u8, 0x34u8]
}

impl Arch {
    /// Length in bytes of the patchable instruction at a call site.
    pub open spec fn spec_insn_len(self) -> nat {
        match self {
            Arch::X86_64 => 5,
            Arch::Riscv64 => 4,
        }
    }

    /// Alignment that the call-site assembly guarantees: on x86-64 the start
    /// never sits on the last byte of a quadword, on RISC-V it is word aligned.
    pub open spec fn site_aligned(self, address: int) -> bool {
        match self {
            Arch::X86_64 => address % 8 != 7,
            Arch::Riscv64 => address % 4 == 0,
        }
    }

    /// The architecture named by a Rust `target_arch` value, if it is one
    /// whose call sites can be patched.
    pub fn from_target_arch(name: &str) -> (r: Option<Arch>)
        ensures
            r == (if name.spec_bytes() == x86_64_name() {
                Some(Arch::X86_64)
            } else if name.spec_bytes() == riscv64_name() {
                Some(Arch::Riscv64)
            } else {
                None
            }),
    {
        let bytes = name.as_bytes();
        let x86: Vec<u8> = vec![0x78u8, 0x38u8, 0x36u8, 0x5fu8, 0x36u8, 0x34u8];
        let riscv: Vec<u8> = vec![0x72u8, 0x69u8, 0x73u8, 0x63u8, 0x76u8, 0x36u8, 0x34u8];
        assert(x86@ =~= x86_64_name());
        assert(riscv@ =~= riscv64_name());
        if crate::patch::bytes_equal(bytes, x86.as_slice()) {
            Some(Arch::X86_64)
        } else if crate::patch::bytes_equal(bytes, riscv.as_slice()) {
            Some(Arch::Riscv64)
        } else {
            None
        }
    }

    pub fn insn_len(&self) -> (r: usize)
        ensures
            r == self.spec_insn_len(),
    {
        match self {
            Arch::X86_64 => 5,
            Arch::Riscv64 => 4,
        }
    }

    /// The bytes to install at a call site whose matcher returned `callee`.
    pub fn patch(&self, callee: usize, labels: &[u32]) -> (r: Vec<u8>)
        requires
            callee_in_range(callee, labels@),
        ensures
            r@ == patch_for(*self, callee, labels@),
            r@.len() == self.spec_insn_len(),
            callee == FALLTHROUGH ==> r@ == match *self {
                Arch::X86_64 => seq![0x0fu8, 0x1fu8, 0x44u8, 0x00u8, 0x00u8],
                Arch::Riscv64 => spec_u32_to_le_bytes(0x0000_0013),
            },
    {
        proof {
            lemma_fallthrough_is_nop(*self, labels@);
        }
        match self {
            Arch::X86_64 => x86_patch(callee, labels),
            Arch::Riscv64 => {
                let word = riscv_patch(callee, labels);
                u32_to_le_bytes(word)
            },
        }
    }
}

/// The x86-64 patch for a matcher result.
pub fn x86_patch(callee: usize, labels: &[u32]) -> (r: Vec<u8>)
    requires
        callee_in_range(callee, labels@),
    ensures
        r@ == patch_for(Arch::X86_64, callee, labels@),
        r@.len() == 5,
        callee == FALLTHROUGH ==> r@ == seq![0x0fu8, 0x1fu8, 0x44u8, 0x00u8, 0x00u8],
{
    let mut patch: Vec<u8> = Vec::new();
    if callee == FALLTHROUGH {
        patch.push(0x0f);
        patch.push(0x1f);
        patch.push(0x44);
        patch.push(0x00);
        patch.push(0x00);
        assert(patch@ =~= x86_nop5());
    } else {
        let offset = labels[callee];
        let rel = u32_to_le_bytes(offset);
        patch.push(0xe9);
        patch.push(rel[0]);
        patch.push(rel[1]);
        patch.push(rel[2]);
        patch.push(rel[3]);
        assert(patch@ =~= x86_jmp_rel32(offset));
    }
    patch
}

/// The RISC-V instruction word for a matcher result.
pub fn riscv_patch(callee: usize, labels: &[u32]) -> (r: u32)
    requires
        callee_in_range(callee, labels@),
    ensures
        r == riscv_word(callee, labels@),
        callee == FALLTHROUGH ==> r == 0x0000_0013,
{
    if callee == FALLTHROUGH {
        0x0000_0013
    } else {
        let offset = labels[callee];
        ((offset >> 20) & 1) << 31 | ((offset >> 1) & 0x3ff) << 21 | ((offset >> 11) & 1) << 20 | ((
        offset >> 12) & 0xff) << 12 | 0x6f
    }
}

/// A 32-bit two's-complement value as a mathematical integer.
pub open spec fn signed32(x: u32) -> int {
    if x < 0x8000_0000 {
        x as int
    } else {
        x - 0x1_0000_0000
    }
}

/// Where an x86-64 instruction at `address` transfers control when it is a
/// `jmp rel32`: `None` for any other instruction, which falls through.
pub open spec fn x86_jump_target(address: int, code: Seq<u8>) -> Option<int> {
    if code.len() == 5 && code[0] == 0xe9u8 {
        Some(address + 5 + signed32(spec_u32_from_le_bytes(code.subrange(1, 5))))
    } else {
        None
    }
}

/// The immediate field of a RISC-V J-type instruction, reassembled from
/// imm[20|10:1|11|19:12] into bits 20..1.
pub open spec fn riscv_j_imm(word: u32) -> u32 {
    ((word >> 31) & 1) << 20 | ((word >> 12) & 0xff) << 12 | ((word >> 20) & 1) << 11 | ((word
        >> 21) & 0x3ff) << 1
}

/// A 21-bit two's-complement immediate as a mathematical integer.
pub open spec fn signed21(x: u32) -> int {
    if x & 0x10_0000 == 0 {
        x as int
    } else {
        x - 0x20_0000
    }
}

/// Where a RISC-V instruction at `address` transfers control when it is a
/// `jal x0` (a plain jump): `None` for any other instruction.
pub open spec fn riscv_jump_target(address: int, code: Seq<u8>) -> Option<int> {
    let word = spec_u32_from_le_bytes(code);
    if code.len() == 4 && word & 0x7f == 0x6f && (word >> 7) & 0x1f == 0 {
        Some(address + signed21(riscv_j_imm(word)))
    } else {
        None
    }
}

/// An offset that a `jal` can reach: even and within +-1 MiB.
pub open spec fn riscv_jal_reachable(offset: u32) -> bool {
    offset % 2 == 0 && (offset < 0x10_0000 || offset >= 0xfff0_0000)
}

/// Where the call-site instruction transfers control.
pub open spec fn jump_target(arch: Arch, address: int, code: Seq<u8>) -> Option<int> {
    match arch {
        Arch::X86_64 => x86_jump_target(address, code),
        Arch::Riscv64 => riscv_jump_target(address, code),
    }
}

/// The base that a label offset is measured from: the end of the five-byte
/// x86-64 instruction, the start of the RISC-V instruction.
pub open spec fn label_base(arch: Arch, address: int) -> int {
    match arch {
        Arch::X86_64 => address + 5,
        Arch::Riscv64 => address,
    }
}

/// Every patch is exactly one call-site instruction long.
pub proof fn lemma_patch_len(arch: Arch, callee: usize, labels: Seq<u32>)
    ensures
        patch_for(arch, callee, labels).len() == arch.spec_insn_len(),
{
    lemma_auto_spec_u32_to_from_le_bytes();
}

proof fn lemma_riscv_jal_fields(offset: u32)
    ensures
        riscv_jal_x0(offset) & 0x7f == 0x6f,
        (riscv_jal_x0(offset) >> 7) & 0x1f == 0,
        riscv_j_imm(riscv_jal_x0(offset)) == offset & 0x1f_fffe,
{
    assert(riscv_jal_x0(offset) & 0x7f == 0x6f) by (bit_vector);
    assert((riscv_jal_x0(offset) >> 7) & 0x1f == 0) by (bit_vector);
    assert(riscv_j_imm(riscv_jal_x0(offset)) == offset & 0x1f_fffe) by (bit_vector);
}

proof fn lemma_riscv_reachable_immediate(offset: u32)
    requires
        riscv_jal_reachable(offset),
    ensures
        signed21(offset & 0x1f_fffe) == signed32(offset),
{
    if offset < 0x10_0000 {
        assert(offset % 2 == 0 && offset < 0x10_0000 ==> offset & 0x1f_fffe == offset
            && offset & 0x10_0000 == 0) by (bit_vector);
    } else {
        assert(offset % 2 == 0 && offset >= 0xfff0_0000 ==> offset & 0x1f_fffe == offset
            - 0xffe0_0000 && (offset & 0x1f_fffe) & 0x10_0000 != 0) by (bit_vector);
    }
}

/// The instruction installed for a matcher result sends control where the
/// jump table says: with the fallthrough result it is no jump at all (the
/// likely arm runs inline), otherwise it jumps to the label offset of the
/// selected arm, measured from the architecture's label base. On RISC-V this
/// holds for every offset that `jal` can reach.
pub proof fn lemma_patch_jumps_to_label(arch: Arch, address: int, callee: usize, labels: Seq<u32>)
    requires
        callee_in_range(callee, labels),
        arch == Arch::Riscv64 && callee != FALLTHROUGH ==> riscv_jal_reachable(
            labels[callee as int],
        ),
    ensures
        jump_target(arch, address, patch_for(arch, callee, labels)) == if callee == FALLTHROUGH {
            None::<int>
        } else {
            Some(label_base(arch, address) + signed32(labels[callee as int]))
        },
{
    lemma_auto_spec_u32_to_from_le_bytes();
    match arch {
        Arch::X86_64 => {
            if callee != FALLTHROUGH {
                let off = labels[callee as int];
                let code = x86_jmp_rel32(off);
                assert(code.subrange(1, 5) =~= spec_u32_to_le_bytes(off));
            }
        },
        Arch::Riscv64 => {
            let word = riscv_word(callee, labels);
            assert(spec_u32_from_le_bytes(spec_u32_to_le_bytes(word)) == word);
            if callee == FALLTHROUGH {
                assert(0x13u32 & 0x7f == 0x13) by (bit_vector);
            } else {
                lemma_riscv_jal_fields(labels[callee as int]);
                lemma_riscv_reachable_immediate(labels[callee as int]);
            }
        },
    }
}

/// Whatever the labels, the fallthrough result installs the architecture's
/// plain nop, so control runs on into the likely arm: on x86-64 the five
/// bytes `0f 1f 44 00 00`, on RISC-V the word `0x00000013` (`addi x0, x0, 0`)
/// stored little-endian.
pub proof fn lemma_fallthrough_is_nop(arch: Arch, labels: Seq<u32>)
    ensures
        riscv_word(FALLTHROUGH, labels) == 0x0000_0013,
        patch_for(arch, FALLTHROUGH, labels) == match arch {
            Arch::X86_64 => seq![0x0fu8, 0x1fu8, 0x44u8, 0x00u8, 0x00u8],
            Arch::Riscv64 => spec_u32_to_le_bytes(0x0000_0013),
        },
{
}

/// Any other result installs a jump by the selected label: on x86-64 the
/// opcode `e9` followed by the four bytes that read back, little-endian, as
/// the label offset; on RISC-V a `jal` (opcode `0x6f`) that writes no
/// register (`rd = x0`) and whose immediate, reassembled from its scattered
/// bits, is the label offset with bit 0 cleared, to 21 bits.
pub proof fn lemma_jump_encodes_label(callee: usize, labels: Seq<u32>)
    requires
        callee != FALLTHROUGH,
        callee < labels.len(),
    ensures
        ({
            let off = labels[callee as int];
            let x = patch_for(Arch::X86_64, callee, labels);
            let w = riscv_word(callee, labels);
            &&& x.len() == 5
            &&& x[0] == 0xe9u8
            &&& spec_u32_from_le_bytes(x.subrange(1, 5)) == off
            &&& w & 0x7f == 0x6f
            &&& (w >> 7) & 0x1f == 0
            &&& ((w >> 31) & 1) << 20 | ((w >> 12) & 0xff) << 12 | ((w >> 20) & 1) << 11 | ((w >> 21)
                & 0x3ff) << 1 == off & 0x1f_fffe
        }),
{
    let off = labels[callee as int];
    lemma_auto_spec_u32_to_from_le_bytes();
    assert(patch_for(Arch::X86_64, callee, labels).subrange(1, 5) =~= spec_u32_to_le_bytes(off));
    lemma_riscv_jal_fields(off);
}

} // verus!
