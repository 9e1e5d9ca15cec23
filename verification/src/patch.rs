use vstd::prelude::*;
use crate::arch::Arch;
use vstd::slice::slice_to_vec;
use vstd::arithmetic::power2::{pow2, lemma2_to64, lemma2_to64_rest, lemma_pow2_unfold, lemma_pow2_strictly_increases};
use vstd::bits::lemma_usize_low_bits_mask_is_mod;
use crate::text::{
    PatchStep, StepView, step_views, lemma_step_views_push, written, apply_step, run, region, step_within, CodeImage,
};

verus! {

/// Why an instruction cannot be replaced safely.
#[derive(Clone, Copy, Debug, PartialEq, Eq, Structural)]
pub enum PatchError {
    /// x86-64: a multi-byte instruction starts on the last byte of a
    /// quadword, so its first two bytes cannot be replaced in one store.
    QwordStraddle,
    /// RISC-V: the instruction is not aligned to two bytes.
    Misaligned,
    /// RISC-V: the instruction is neither two nor four bytes long.
    BadLength,
}

/// x86-64 `jmp $-2` (`EB FE`): parks a core on the instruction while the
/// rest of it is rewritten.
pub open spec fn x86_park() -> Seq<u8> {
    seq![0xebu8, 0xfeu8]
}

/// RISC-V `c.j 0` (`0xA001`, stored little-endian): parks a core the same way.
pub open spec fn riscv_park() -> Seq<u8> {
    seq![0x01u8, 0xa0u8]
}

pub open spec fn park(arch: Arch) -> Seq<u8> {
    match arch {
        Arch::X86_64 => x86_park(),
        Arch::Riscv64 => riscv_park(),
    }
}

/// The single-byte stores that fill in bytes `2..` of `new` at `insn`.
pub open spec fn x86_tail_stores(insn: int, new: Seq<u8>) -> Seq<StepView> {
    Seq::new(
        (new.len() - 2) as nat,
        |j: int| StepView::Store { address: insn + 2 + j, bytes: seq![new[j + 2]] },
    )
}

/// How x86-64 replaces `new.len()` bytes at `insn`. When they lie in one
/// aligned quadword a single store does it. Otherwise the first two bytes
/// become a self-jump, the remaining bytes are stored one at a time, and the
/// first two bytes are stored last.
pub open spec fn x86_plan(insn: int, new: Seq<u8>) -> Seq<StepView> {
    if insn % 8 + new.len() <= 8 {
        seq![StepView::Store { address: insn, bytes: new }]
    } else {
        seq![StepView::Store { address: insn, bytes: x86_park() }] + x86_tail_stores(insn, new)
            + seq![StepView::Store { address: insn, bytes: new.subrange(0, 2) }]
    }
}

/// How RISC-V replaces a two- or four-byte instruction at `insn`: a single
/// store when it is a halfword or an aligned word; otherwise park the first
/// halfword, store the second halfword, then the first, each followed by a
/// barrier.
pub open spec fn riscv_plan(insn: int, new: Seq<u8>) -> Seq<StepView> {
    if new.len() == 2 || insn % 4 == 0 {
        seq![StepView::Store { address: insn, bytes: new }]
    } else {
        seq![
            StepView::Store { address: insn, bytes: riscv_park() },
            StepView::SyncCore,
            StepView::Store { address: insn + 2, bytes: new.subrange(2, 4) },
            StepView::SyncCore,
            StepView::Store { address: insn, bytes: new.subrange(0, 2) },
            StepView::SyncCore,
        ]
    }
}

pub open spec fn plan(arch: Arch, insn: int, new: Seq<u8>) -> Seq<StepView> {
    match arch {
        Arch::X86_64 => x86_plan(insn, new),
        Arch::Riscv64 => riscv_plan(insn, new),
    }
}

/// The error refusing a replacement, if any.
pub open spec fn plan_error(arch: Arch, insn: int, new: Seq<u8>) -> Option<PatchError> {
    match arch {
        Arch::X86_64 => if new.len() != 1 && insn % 8 == 7 {
            Some(PatchError::QwordStraddle)
        } else {
            None
        },
        Arch::Riscv64 => if insn % 2 != 0 {
            Some(PatchError::Misaligned)
        } else if new.len() != 2 && new.len() != 4 {
            Some(PatchError::BadLength)
        } else {
            None
        },
    }
}

/// A store the hardware performs as one atomic access: on x86-64 a byte or
/// bytes within one aligned quadword, on RISC-V an aligned halfword or word.
pub open spec fn atomic_store(arch: Arch, address: int, len: int) -> bool {
    match arch {
        Arch::X86_64 => len <= 1 || address % 8 + len <= 8,
        Arch::Riscv64 => (len == 2 && address % 2 == 0) || (len == 4 && address % 4 == 0),
    }
}

/// What a core fetching at `insn` may see: the old instruction whole, the
/// new instruction whole, or the parking self-jump in the first two bytes.
pub open spec fn whole_or_parked(
    arch: Arch,
    now: Seq<u8>,
    before: Seq<u8>,
    base: int,
    insn: int,
    new: Seq<u8>,
) -> bool {
    ||| region(now, base, insn, new.len() as int) == region(before, base, insn, new.len() as int)
    ||| region(now, base, insn, new.len() as int) == new
    ||| region(now, base, insn, 2) == park(arch)
}

/// The instruction `[insn, insn + len)` lies in the text `mem` at `base`.
pub open spec fn in_text(mem: Seq<u8>, base: int, insn: int, len: int) -> bool {
    base <= insn && insn + len <= base + mem.len()
}

proof fn lemma_run_take(mem: Seq<u8>, base: int, s: Seq<StepView>, k: int)
    requires
        0 <= k < s.len(),
    ensures
        run(mem, base, s.take(k + 1)) == apply_step(run(mem, base, s.take(k)), base, s[k]),
{
    assert(s.take(k + 1).drop_last() =~= s.take(k));
}

proof fn lemma_run_all(mem: Seq<u8>, base: int, s: Seq<StepView>)
    ensures
        run(mem, base, s.take(s.len() as int)) == run(mem, base, s),
{
    assert(s.take(s.len() as int) =~= s);
}

proof fn lemma_write_region(mem: Seq<u8>, base: int, insn: int, new: Seq<u8>)
    requires
        in_text(mem, base, insn, new.len() as int),
    ensures
        region(written(mem, base, insn, new), base, insn, new.len() as int) == new,
        written(mem, base, insn, new).len() == mem.len(),
{
    assert(region(written(mem, base, insn, new), base, insn, new.len() as int) =~= new);
}

/// The text after the park and the first `k - 1` tail stores.
spec fn x86_partial(mem: Seq<u8>, base: int, insn: int, new: Seq<u8>, k: int) -> Seq<u8> {
    written(written(mem, base, insn, x86_park()), base, insn + 2, new.subrange(2, k + 1))
}

proof fn lemma_x86_partial(mem: Seq<u8>, base: int, insn: int, new: Seq<u8>, k: int)
    requires
        in_text(mem, base, insn, new.len() as int),
        insn % 8 + new.len() > 8,
        1 <= k <= new.len() - 1,
    ensures
        run(mem, base, x86_plan(insn, new).take(k)) == x86_partial(mem, base, insn, new, k),
    decreases k,
{
    let p = x86_plan(insn, new);
    if k == 1 {
        lemma_run_take(mem, base, p, 0);
        assert(p.take(0) =~= Seq::<StepView>::empty());
        assert(x86_partial(mem, base, insn, new, 1) =~= written(mem, base, insn, x86_park()));
    } else {
        lemma_x86_partial(mem, base, insn, new, k - 1);
        lemma_run_take(mem, base, p, k - 1);
        assert(p[k - 1] == StepView::Store { address: insn + 2 + (k - 2), bytes: seq![new[k]] });
        assert(x86_partial(mem, base, insn, new, k) =~= written(
            x86_partial(mem, base, insn, new, k - 1),
            base,
            insn + k,
            seq![new[k]],
        ));
    }
}

/// Carrying out the whole plan writes exactly the new instruction: the text
/// afterwards is the text before with `new` stored at `insn`.
pub proof fn lemma_plan_installs(arch: Arch, mem: Seq<u8>, base: int, insn: int, new: Seq<u8>)
    requires
        plan_error(arch, insn, new) is None,
        in_text(mem, base, insn, new.len() as int),
    ensures
        run(mem, base, plan(arch, insn, new)) == written(mem, base, insn, new),
{
    let p = plan(arch, insn, new);
    lemma_run_all(mem, base, p);
    if p.len() == 1 {
        lemma_run_take(mem, base, p, 0);
        assert(p.take(0) =~= Seq::<StepView>::empty());
    } else {
        match arch {
            Arch::X86_64 => {
                let n = new.len() as int;
                lemma_x86_partial(mem, base, insn, new, n - 1);
                lemma_run_take(mem, base, p, n - 1);
                assert(written(x86_partial(mem, base, insn, new, n - 1), base, insn, new.subrange(0, 2))
                    =~= written(mem, base, insn, new));
            },
            Arch::Riscv64 => {
                lemma_riscv_states(mem, base, insn, new);
                assert(written(
                    written(written(mem, base, insn, riscv_park()), base, insn + 2, new.subrange(2, 4)),
                    base,
                    insn,
                    new.subrange(0, 2),
                ) =~= written(mem, base, insn, new));
            },
        }
    }
}

proof fn lemma_riscv_states(mem: Seq<u8>, base: int, insn: int, new: Seq<u8>)
    requires
        new.len() == 4,
        insn % 4 != 0,
    ensures
        ({
            let p = riscv_plan(insn, new);
            let m1 = written(mem, base, insn, riscv_park());
            let m3 = written(m1, base, insn + 2, new.subrange(2, 4));
            let m5 = written(m3, base, insn, new.subrange(0, 2));
            &&& run(mem, base, p.take(0)) == mem
            &&& run(mem, base, p.take(1)) == m1
            &&& run(mem, base, p.take(2)) == m1
            &&& run(mem, base, p.take(3)) == m3
            &&& run(mem, base, p.take(4)) == m3
            &&& run(mem, base, p.take(5)) == m5
            &&& run(mem, base, p.take(6)) == m5
        }),
{
    let p = riscv_plan(insn, new);
    assert(p.take(0) =~= Seq::<StepView>::empty());
    lemma_run_take(mem, base, p, 0);
    lemma_run_take(mem, base, p, 1);
    lemma_run_take(mem, base, p, 2);
    lemma_run_take(mem, base, p, 3);
    lemma_run_take(mem, base, p, 4);
    lemma_run_take(mem, base, p, 5);
}

/// Text that differs from `mem` at most inside `[insn, insn + len)`.
pub open spec fn same_outside(now: Seq<u8>, mem: Seq<u8>, base: int, insn: int, len: int) -> bool {
    &&& now.len() == mem.len()
    &&& forall|i: int|
        0 <= i < mem.len() && !(insn <= base + i < insn + len) ==> #[trigger] now[i] == mem[i]
}

/// Every state that the plan passes through, from before its first step to
/// after its last, is safe for a core executing the instruction concurrently:
/// the instruction is the old one whole, the new one whole, or parked on its
/// self-jump; and no byte outside the instruction changes. A plan of one
/// store (on x86-64, an instruction inside one aligned quadword) never parks:
/// every state is the old instruction or the new one.
pub proof fn lemma_plan_states_whole_or_parked(
    arch: Arch,
    mem: Seq<u8>,
    base: int,
    insn: int,
    new: Seq<u8>,
    k: int,
)
    requires
        plan_error(arch, insn, new) is None,
        in_text(mem, base, insn, new.len() as int),
        0 <= k <= plan(arch, insn, new).len(),
    ensures
        same_outside(run(mem, base, plan(arch, insn, new).take(k)), mem, base, insn, new.len() as int),
        whole_or_parked(arch, run(mem, base, plan(arch, insn, new).take(k)), mem, base, insn, new),
        plan(arch, insn, new).len() == 1 ==> {
            let now = run(mem, base, plan(arch, insn, new).take(k));
            ||| region(now, base, insn, new.len() as int) == region(mem, base, insn, new.len() as int)
            ||| region(now, base, insn, new.len() as int) == new
        },
{
    let p = plan(arch, insn, new);
    let n = new.len() as int;
    let now = run(mem, base, p.take(k));
    if k == 0 {
        assert(p.take(0) =~= Seq::<StepView>::empty());
        assert(now == mem);
    } else if p.len() == 1 {
        lemma_run_take(mem, base, p, 0);
        assert(p.take(0) =~= Seq::<StepView>::empty());
        lemma_write_region(mem, base, insn, new);
    } else {
        match arch {
            Arch::X86_64 => {
                if k == n {
                    lemma_plan_installs(arch, mem, base, insn, new);
                    lemma_run_all(mem, base, p);
                    lemma_write_region(mem, base, insn, new);
                } else {
                    lemma_x86_partial(mem, base, insn, new, k);
                    let m1 = written(mem, base, insn, x86_park());
                    assert(region(now, base, insn, 2) =~= x86_park());
                }
            },
            Arch::Riscv64 => {
                lemma_riscv_states(mem, base, insn, new);
                let m1 = written(mem, base, insn, riscv_park());
                let m3 = written(m1, base, insn + 2, new.subrange(2, 4));
                let m5 = written(m3, base, insn, new.subrange(0, 2));
                if k <= 4 {
                    assert(region(m1, base, insn, 2) =~= riscv_park());
                    assert(region(m3, base, insn, 2) =~= riscv_park());
                } else {
                    assert(region(m5, base, insn, 4) =~= new);
                }
            },
        }
    }
}

/// Every store in the plan is one atomic access by the hardware and lies
/// inside the instruction being replaced.
pub proof fn lemma_plan_stores_atomic(arch: Arch, insn: int, new: Seq<u8>)
    requires
        plan_error(arch, insn, new) is None,
    ensures
        forall|k: int|
            0 <= k < plan(arch, insn, new).len() ==> match #[trigger] plan(arch, insn, new)[k] {
                StepView::Store { address, bytes } => {
                    &&& atomic_store(arch, address, bytes.len() as int)
                    &&& insn <= address
                    &&& address + bytes.len() <= insn + new.len()
                },
                StepView::SyncCore => true,
            },
{
    let p = plan(arch, insn, new);
    assert forall|k: int| 0 <= k < p.len() implies match #[trigger] p[k] {
        StepView::Store { address, bytes } => {
            &&& atomic_store(arch, address, bytes.len() as int)
            &&& insn <= address
            &&& address + bytes.len() <= insn + new.len()
        },
        StepView::SyncCore => true,
    } by {
        if arch == Arch::X86_64 && p.len() > 1 {
            let n = new.len() as int;
            if 1 <= k < n - 1 {
                assert(p[k] == x86_tail_stores(insn, new)[k - 1]);
            }
        }
    }
}

/// The x86-64 steps that replace the bytes at `insn` with `new_insn`.
pub fn x86_replacement_plan(insn: usize, new_insn: &[u8]) -> (r: Result<Vec<PatchStep>, PatchError>)
    requires
        insn + new_insn@.len() <= usize::MAX,
    ensures
        match r {
            Ok(steps) => plan_error(Arch::X86_64, insn as int, new_insn@) is None && step_views(
                steps@,
            ) == x86_plan(insn as int, new_insn@),
            Err(e) => plan_error(Arch::X86_64, insn as int, new_insn@) == Some(e),
        },
{
    let len = new_insn.len();
    let mut steps: Vec<PatchStep> = Vec::new();
    // A single byte is always one atomic store.
    if len == 1 {
        steps.push(PatchStep::Store { address: insn, bytes: slice_to_vec(new_insn) });
        assert(step_views(steps@) =~= x86_plan(insn as int, new_insn@));
        return Ok(steps);
    }
    // The first two bytes must be replaceable by one store inside a quadword.
    if insn % 8 == 7 {
        return Err(PatchError::QwordStraddle);
    }
    if insn % 8 + len <= 8 {
        steps.push(PatchStep::Store { address: insn, bytes: slice_to_vec(new_insn) });
        assert(step_views(steps@) =~= x86_plan(insn as int, new_insn@));
        return Ok(steps);
    }
    let ghost tail = x86_tail_stores(insn as int, new_insn@);
    steps.push(PatchStep::Store { address: insn, bytes: vec![0xebu8, 0xfeu8] });
    assert(step_views(steps@) =~= seq![StepView::Store { address: insn as int, bytes: x86_park() }]);
    let mut i: usize = 2;
    while i < len
        invariant
            len == new_insn@.len(),
            insn + len <= usize::MAX,
            2 <= i <= len,
            tail == x86_tail_stores(insn as int, new_insn@),
            step_views(steps@) =~= seq![StepView::Store { address: insn as int, bytes: x86_park() }]
                + tail.take(i - 2),
        decreases len - i,
    {
        let ghost before = steps@;
        let mut byte: Vec<u8> = Vec::new();
        byte.push(new_insn[i]);
        assert(byte@ =~= seq![new_insn@[i as int]]);
        let step = PatchStep::Store { address: insn + i, bytes: byte };
        assert(step@ == tail[i - 2]);
        steps.push(step);
        proof {
            lemma_step_views_push(before, step);
        }
        assert(tail.take(i - 1) =~= tail.take(i - 2).push(tail[i - 2]));
        i = i + 1;
    }
    assert(tail.take(len - 2) =~= tail);
    let ghost before = steps@;
    let last = PatchStep::Store { address: insn, bytes: vec![new_insn[0], new_insn[1]] };
    assert(new_insn@.subrange(0, 2) =~= seq![new_insn@[0], new_insn@[1]]);
    steps.push(last);
    proof {
        lemma_step_views_push(before, last);
    }
    assert(step_views(steps@) =~= x86_plan(insn as int, new_insn@));
    Ok(steps)
}

/// The RISC-V steps that replace the bytes at `insn` with `new_insn`.
pub fn riscv_replacement_plan(insn: usize, new_insn: &[u8]) -> (r: Result<Vec<PatchStep>, PatchError>)
    requires
        insn + new_insn@.len() <= usize::MAX,
    ensures
        match r {
            Ok(steps) => plan_error(Arch::Riscv64, insn as int, new_insn@) is None && step_views(
                steps@,
            ) == riscv_plan(insn as int, new_insn@),
            Err(e) => plan_error(Arch::Riscv64, insn as int, new_insn@) == Some(e),
        },
{
    if insn % 2 != 0 {
        return Err(PatchError::Misaligned);
    }
    let len = new_insn.len();
    if len != 2 && len != 4 {
        return Err(PatchError::BadLength);
    }
    let mut steps: Vec<PatchStep> = Vec::new();
    if len == 2 || insn % 4 == 0 {
        steps.push(PatchStep::Store { address: insn, bytes: slice_to_vec(new_insn) });
        assert(step_views(steps@) =~= riscv_plan(insn as int, new_insn@));
        return Ok(steps);
    }
    steps.push(PatchStep::Store { address: insn, bytes: vec![0x01u8, 0xa0u8] });
    steps.push(PatchStep::SyncCore);
    steps.push(PatchStep::Store { address: insn + 2, bytes: vec![new_insn[2], new_insn[3]] });
    steps.push(PatchStep::SyncCore);
    steps.push(PatchStep::Store { address: insn, bytes: vec![new_insn[0], new_insn[1]] });
    steps.push(PatchStep::SyncCore);
    assert(new_insn@.subrange(2, 4) =~= seq![new_insn@[2], new_insn@[3]]);
    assert(new_insn@.subrange(0, 2) =~= seq![new_insn@[0], new_insn@[1]]);
    assert(step_views(steps@) =~= riscv_plan(insn as int, new_insn@));
    Ok(steps)
}

/// The steps, for the given architecture, that replace the bytes at `insn`
/// with `new_insn` while other cores may be executing them.
pub fn replacement_plan(arch: Arch, insn: usize, new_insn: &[u8]) -> (r: Result<Vec<PatchStep>, PatchError>)
    requires
        insn + new_insn@.len() <= usize::MAX,
    ensures
        match r {
            Ok(steps) => plan_error(arch, insn as int, new_insn@) is None && step_views(steps@)
                == plan(arch, insn as int, new_insn@),
            Err(e) => plan_error(arch, insn as int, new_insn@) == Some(e),
        },
{
    match arch {
        Arch::X86_64 => x86_replacement_plan(insn, new_insn),
        Arch::Riscv64 => riscv_replacement_plan(insn, new_insn),
    }
}

/// Permission to modify text, held while the text lock is held. It records
/// whether text was changed in a way that requires every core to
/// resynchronize its instruction stream when the lock is released, and, as
/// ghost state, the addresses of the call sites rewritten under it, in order.
pub struct TextGuard {
    need_sync: bool,
    updates: Ghost<Seq<int>>,
}

impl TextGuard {
    pub closed spec fn spec_need_sync(&self) -> bool {
        self.need_sync
    }

    /// The call sites rewritten under this guard, oldest first.
    pub closed spec fn spec_updates(&self) -> Seq<int> {
        self.updates@
    }

    /// The guard as the text lock hands it out: nothing changed yet.
    pub fn new() -> (r: Self)
        ensures
            !r.spec_need_sync(),
            r.spec_updates() == Seq::<int>::empty(),
    {
        TextGuard { need_sync: false, updates: Ghost(Seq::empty()) }
    }

    /// Notes that the call site at `address` was rewritten.
    pub(crate) fn record_update(&mut self, address: usize)
        ensures
            final(self).spec_need_sync() == old(self).spec_need_sync(),
            final(self).spec_updates() == old(self).spec_updates().push(address as int),
    {
        proof {
            self.updates@ = self.updates@.push(address as int);
        }
    }

    pub fn need_sync(&self) -> (r: bool)
        ensures
            r == self.spec_need_sync(),
    {
        self.need_sync
    }

    /// Gives up the core synchronization on release; for text that no core
    /// can be executing yet.
    pub fn skip_sync(&mut self)
        ensures
            !final(self).spec_need_sync(),
            final(self).spec_updates() == old(self).spec_updates(),
    {
        self.need_sync = false;
    }

    /// Releases the guard; the result says whether the cores must be
    /// synchronized now.
    pub fn release(self) -> (sync: bool)
        ensures
            sync == self.spec_need_sync(),
    {
        self.need_sync
    }
}

/// Whether two byte strings are equal.
pub fn bytes_equal(a: &[u8], b: &[u8]) -> (r: bool)
    ensures
        r == (a@ == b@),
{
    if a.len() != b.len() {
        return false;
    }
    let mut i: usize = 0;
    while i < a.len()
        invariant
            a@.len() == b@.len(),
            i <= a@.len(),
            forall|j: int| 0 <= j < i ==> a@[j] == b@[j],
        decreases a.len() - i,
    {
        if a[i] != b[i] {
            return false;
        }
        i = i + 1;
    }
    assert(a@ =~= b@);
    true
}

/// Decides how to change the instruction at `insn`, whose bytes are now
/// `current`, into `new_insn`. When they are already equal nothing is done
/// and no core synchronization becomes necessary. Otherwise the guard
/// records that the cores must be synchronized, and the result is the plan
/// of atomic stores for `arch`, or the reason none is safe.
pub fn replace_instruction(
    text_guard: &mut TextGuard,
    current: &[u8],
    insn: usize,
    new_insn: &[u8],
    arch: Arch,
) -> (r: Result<Vec<PatchStep>, PatchError>)
    requires
        current@.len() == new_insn@.len(),
        insn + new_insn@.len() <= usize::MAX,
    ensures
        final(text_guard).spec_updates() == old(text_guard).spec_updates(),
        current@ == new_insn@ ==> {
            &&& r matches Ok(steps) && steps@.len() == 0
            &&& final(text_guard).spec_need_sync() == old(text_guard).spec_need_sync()
        },
        current@ != new_insn@ ==> {
            &&& final(text_guard).spec_need_sync()
            &&& match r {
                Ok(steps) => plan_error(arch, insn as int, new_insn@) is None && step_views(steps@)
                    == plan(arch, insn as int, new_insn@),
                Err(e) => plan_error(arch, insn as int, new_insn@) == Some(e),
            }
        },
{
    // No update needed: skipping avoids a core synchronization.
    if bytes_equal(current, new_insn) {
        return Ok(Vec::new());
    }
    text_guard.need_sync = true;
    replacement_plan(arch, insn, new_insn)
}

pub proof fn lemma_write_same(mem: Seq<u8>, base: int, insn: int, len: int)
    requires
        in_text(mem, base, insn, len),
        0 <= len,
    ensures
        written(mem, base, insn, region(mem, base, insn, len)) == mem,
{
    assert(written(mem, base, insn, region(mem, base, insn, len)) =~= mem);
}

impl CodeImage {
    /// Replaces the instruction at `insn` in this image with `new_insn`,
    /// deciding and carrying out the steps as `replace_instruction` does.
    pub fn replace_instruction(
        &mut self,
        text_guard: &mut TextGuard,
        insn: usize,
        new_insn: &[u8],
        arch: Arch,
    ) -> (r: Result<(), PatchError>)
        requires
            old(self).wf(),
            old(self).covers(insn as int, new_insn@.len() as int),
        ensures
            final(self).wf(),
            final(self).spec_base() == old(self).spec_base(),
            match r {
                Ok(()) => {
                    &&& plan_error(arch, insn as int, new_insn@) is None || old(self).spec_region(
                        insn as int,
                        new_insn@.len() as int,
                    ) == new_insn@
                    &&& final(self).spec_bytes() == written(
                        old(self).spec_bytes(),
                        old(self).spec_base(),
                        insn as int,
                        new_insn@,
                    )
                },
                Err(e) => {
                    &&& plan_error(arch, insn as int, new_insn@) == Some(e)
                    &&& final(self).spec_bytes() == old(self).spec_bytes()
                },
            },
            final(text_guard).spec_need_sync() == (old(text_guard).spec_need_sync()
                || old(self).spec_region(insn as int, new_insn@.len() as int) != new_insn@),
            final(text_guard).spec_updates() == old(text_guard).spec_updates(),
            old(self).spec_region(insn as int, new_insn@.len() as int) == new_insn@ ==> {
                &&& r is Ok
                &&& final(self).spec_bytes() == old(self).spec_bytes()
            },
    {
        let ghost mem = self.spec_bytes();
        let ghost base = self.spec_base();
        let current = self.read(insn, new_insn.len());
        let planned = replace_instruction(text_guard, current.as_slice(), insn, new_insn, arch);
        match planned {
            Ok(steps) => {
                proof {
                    if current@ == new_insn@ {
                        lemma_write_same(mem, base, insn as int, new_insn@.len() as int);
                        assert(step_views(steps@) =~= Seq::<StepView>::empty());
                    } else {
                        lemma_plan_stores_atomic(arch, insn as int, new_insn@);
                        lemma_plan_installs(arch, mem, base, insn as int, new_insn@);
                    }
                    assert forall|k: int| 0 <= k < steps@.len() implies step_within(
                        #[trigger] steps@[k]@,
                        base,
                        mem.len() as int,
                    ) by {
                        assert(step_views(steps@)[k] == steps@[k]@);
                    }
                }
                self.apply_all(steps.as_slice());
                Ok(())
            },
            Err(e) => Err(e),
        }
    }
}

/// When one store can do it atomically (x86-64: the instruction lies in one
/// aligned quadword; RISC-V: a halfword, or a word at a word-aligned
/// address), the plan is exactly that one store of the new bytes at `insn`:
/// no parking and no barrier.
pub proof fn lemma_plan_single_store_when_atomic(arch: Arch, insn: int, new: Seq<u8>)
    requires
        plan_error(arch, insn, new) is None,
        match arch {
            Arch::X86_64 => insn % 8 + new.len() <= 8,
            Arch::Riscv64 => new.len() == 2 || insn % 4 == 0,
        },
    ensures
        plan(arch, insn, new) == seq![StepView::Store { address: insn, bytes: new }],
{
}

/// On RISC-V every store of a plan that parks the instruction is followed at
/// once by a core barrier, so no hart can run a new halfword beside a stale
/// one: between any two stores, and after the last, all harts resynchronize.
pub proof fn lemma_riscv_stores_each_followed_by_barrier(insn: int, new: Seq<u8>)
    requires
        plan_error(Arch::Riscv64, insn, new) is None,
        plan(Arch::Riscv64, insn, new).len() > 1,
    ensures
        forall|k: int|
            0 <= k < plan(Arch::Riscv64, insn, new).len() && #[trigger] plan(
                Arch::Riscv64,
                insn,
                new,
            )[k] is Store ==> k + 1 < plan(Arch::Riscv64, insn, new).len() && plan(
                Arch::Riscv64,
                insn,
                new,
            )[k + 1] is SyncCore,
{
}

/// A power of two, as page sizes are.
pub open spec fn is_power_of_two(x: usize) -> bool {
    x != 0 && x & ((x - 1) as usize) == 0
}

/// The greatest multiple of `size` that is at most `x`.
pub open spec fn align_down(x: int, size: int) -> int {
    x - x % size
}

/// The pages `[start, start + len)` that must be made writable.
#[derive(Clone, Copy, Debug, PartialEq, Eq, Structural)]
pub struct PageSpan {
    pub start: usize,
    pub len: usize,
}

/// The page span that covers `[addr, addr + bytes)` with pages of `page_size`.
pub open spec fn spec_page_span(addr: int, bytes: int, page_size: int) -> (int, int) {
    let start = align_down(addr, page_size);
    (start, align_down(addr + bytes - 1, page_size) - start + page_size)
}

/// The page span fits the address space.
pub open spec fn page_span_fits(addr: int, bytes: int, page_size: int) -> bool {
    spec_page_span(addr, bytes, page_size).1 <= usize::MAX
}

/// A power of two is 2 to the power of some exponent below the word size.
proof fn lemma_power_of_two_exponent(p: usize) -> (n: nat)
    requires
        is_power_of_two(p),
    ensures
        pow2(n) == p,
        n < usize::BITS,
    decreases p,
{
    lemma2_to64();
    lemma2_to64_rest();
    if p == 1 {
        0
    } else {
        assert(p != 0 && p & ((p - 1) as usize) == 0 && p != 1 ==> p % 2 == 0 && p / 2 != 0 && (p
            / 2) & ((p / 2 - 1) as usize) == 0) by (bit_vector);
        let q: usize = p / 2;
        let m = lemma_power_of_two_exponent(q);
        lemma_pow2_unfold(m + 1);
        if m + 1 >= usize::BITS {
            if m + 1 > usize::BITS {
                lemma_pow2_strictly_increases(usize::BITS as nat, m + 1);
            }
        }
        m + 1
    }
}

/// Rounds `x` down to a multiple of `page_size`.
pub fn align_down_to(x: usize, page_size: usize) -> (r: usize)
    requires
        is_power_of_two(page_size),
    ensures
        r == align_down(x as int, page_size as int),
{
    proof {
        let n = lemma_power_of_two_exponent(page_size);
        lemma_usize_low_bits_mask_is_mod(x, n);
        let m = (page_size - 1) as usize;
        assert((x & !m) + (x & m) == x) by (bit_vector);
    }
    x & !(page_size - 1)
}

proof fn lemma_align_down_facts(x: int, y: int, size: int)
    requires
        0 <= x <= y,
        size > 0,
    ensures
        0 <= align_down(x, size) <= x,
        align_down(x, size) <= align_down(y, size),
        align_down(x, size) % size == 0,
        x < align_down(x, size) + size,
{
    vstd::arithmetic::div_mod::lemma_fundamental_div_mod(x, size);
    vstd::arithmetic::div_mod::lemma_fundamental_div_mod(y, size);
    vstd::arithmetic::div_mod::lemma_div_is_ordered(x, y, size);
    vstd::arithmetic::mul::lemma_mul_inequality(x / size, y / size, size);
    vstd::arithmetic::mul::lemma_mul_is_commutative(x / size, size);
    vstd::arithmetic::mul::lemma_mul_is_commutative(y / size, size);
    vstd::arithmetic::div_mod::lemma_mod_multiples_basic(x / size, size);
}

/// The pages to make writable so that `[addr, addr + bytes)` can be patched:
/// from the page holding the first byte through the page holding the last.
pub fn page_span(addr: usize, bytes: usize, page_size: usize) -> (r: PageSpan)
    requires
        is_power_of_two(page_size),
        bytes >= 1,
        addr + bytes - 1 <= usize::MAX,
        page_span_fits(addr as int, bytes as int, page_size as int),
    ensures
        (r.start as int, r.len as int) == spec_page_span(addr as int, bytes as int, page_size as int),
{
    let page_down = align_down_to(addr, page_size);
    let page_up = align_down_to(addr + (bytes - 1), page_size);
    proof {
        lemma_align_down_facts(addr as int, addr + bytes - 1, page_size as int);
    }
    let page_len = page_up - page_down + page_size;
    PageSpan { start: page_down, len: page_len }
}

/// The span covers every byte to patch, starts and ends on page boundaries,
/// and holds no page without a byte to patch.
#[verifier::spinoff_prover]
pub proof fn lemma_page_span_covers(addr: int, bytes: int, page_size: int)
    requires
        addr >= 0,
        bytes >= 1,
        page_size > 0,
    ensures
        ({
            let (start, len) = spec_page_span(addr, bytes, page_size);
            &&& start % page_size == 0
            &&& len % page_size == 0
            &&& start <= addr
            &&& addr + bytes <= start + len
            &&& addr < start + page_size
            &&& addr + bytes - 1 >= start + len - page_size
        }),
{
    let last = addr + bytes - 1;
    lemma_align_down_facts(addr, last, page_size);
    lemma_align_down_facts(last, last, page_size);
    let (start, len) = spec_page_span(addr, bytes, page_size);
    let qa = addr / page_size;
    let ql = last / page_size;
    assert(start == page_size * qa) by {
        vstd::arithmetic::div_mod::lemma_fundamental_div_mod(addr, page_size);
    }
    assert(align_down(last, page_size) == page_size * ql) by {
        vstd::arithmetic::div_mod::lemma_fundamental_div_mod(last, page_size);
    }
    assert(len == page_size * (ql - qa + 1)) by {
        vstd::arithmetic::mul::lemma_mul_is_distributive_sub(page_size, ql + 1, qa);
        vstd::arithmetic::mul::lemma_mul_is_distributive_add(page_size, ql, 1);
    }
    assert(len % page_size == 0) by {
        vstd::arithmetic::mul::lemma_mul_is_commutative(page_size, ql - qa + 1);
        vstd::arithmetic::div_mod::lemma_mod_multiples_basic(ql - qa + 1, page_size);
    }
}

/// Registers `bytes` bytes of code at `insn` as eligible for modification,
/// for pages of `page_size` bytes as the operating system reports them: the
/// result is the page span to make readable, writable and executable. It is
/// `None` exactly when `page_size` is not a power of two or the span does not
/// fit the address space, where no span can be computed.
pub fn register_code(text: &mut TextGuard, insn: usize, bytes: usize, page_size: usize) -> (r: Option<
    PageSpan,
>)
    requires
        bytes >= 1,
        insn + bytes - 1 <= usize::MAX,
    ensures
        *final(text) == *old(text),
        match r {
            Some(span) => {
                &&& is_power_of_two(page_size)
                &&& (span.start as int, span.len as int) == spec_page_span(
                    insn as int,
                    bytes as int,
                    page_size as int,
                )
            },
            None => !is_power_of_two(page_size) || !page_span_fits(
                insn as int,
                bytes as int,
                page_size as int,
            ),
        },
{
    page_span_checked(insn, bytes, page_size)
}

/// `page_span` for a page size that has not been checked: `None` exactly
/// when it is not a power of two or the span does not fit.
pub fn page_span_checked(insn: usize, bytes: usize, page_size: usize) -> (r: Option<PageSpan>)
    requires
        bytes >= 1,
        insn + bytes - 1 <= usize::MAX,
    ensures
        match r {
            Some(span) => {
                &&& is_power_of_two(page_size)
                &&& (span.start as int, span.len as int) == spec_page_span(
                    insn as int,
                    bytes as int,
                    page_size as int,
                )
            },
            None => !is_power_of_two(page_size) || !page_span_fits(
                insn as int,
                bytes as int,
                page_size as int,
            ),
        },
{
    if page_size == 0 || page_size & (page_size - 1) != 0 {
        return None;
    }
    let down = align_down_to(insn, page_size);
    let up = align_down_to(insn + (bytes - 1), page_size);
    proof {
        lemma_align_down_facts(insn as int, insn + bytes - 1, page_size as int);
    }
    if up - down > usize::MAX - page_size {
        return None;
    }
    Some(page_span(insn, bytes, page_size))
}

} // verus!
