use vstd::prelude::*;

verus! {

/// One action in the replacement of an instruction: a single atomic store of
/// `bytes` at `address`, or a barrier that makes every core refetch code.
#[derive(Debug)]
pub enum PatchStep {
    Store { address: usize, bytes: Vec<u8> },
    SyncCore,
}

/// The mathematical meaning of a `PatchStep`.
pub enum StepView {
    Store { address: int, bytes: Seq<u8> },
    SyncCore,
}

impl View for PatchStep {
    type V = StepView;

    open spec fn view(&self) -> StepView {
        match self {
            PatchStep::Store { address, bytes } => StepView::Store {
                address: *address as int,
                bytes: bytes@,
            },
            PatchStep::SyncCore => StepView::SyncCore,
        }
    }
}

/// The meaning of a list of steps.
pub open spec fn step_views(steps: Seq<PatchStep>) -> Seq<StepView> {
    steps.map_values(|s: PatchStep| s@)
}

pub proof fn lemma_step_views_push(steps: Seq<PatchStep>, step: PatchStep)
    ensures
        step_views(steps.push(step)) == step_views(steps).push(step@),
{
    assert(step_views(steps.push(step)) =~= step_views(steps).push(step@));
}

/// The text bytes `mem`, which start at address `base`, after `bytes` were
/// written at `address`. Addresses outside `mem` are not represented.
pub open spec fn written(mem: Seq<u8>, base: int, address: int, bytes: Seq<u8>) -> Seq<u8> {
    Seq::new(
        mem.len(),
        |i: int|
            if address <= base + i < address + bytes.len() {
                bytes[base + i - address]
            } else {
                mem[i]
            },
    )
}

/// The text after one step; a barrier changes no byte.
pub open spec fn apply_step(mem: Seq<u8>, base: int, step: StepView) -> Seq<u8> {
    match step {
        StepView::Store { address, bytes } => written(mem, base, address, bytes),
        StepView::SyncCore => mem,
    }
}

/// The text after the steps, in order.
pub open spec fn run(mem: Seq<u8>, base: int, steps: Seq<StepView>) -> Seq<u8>
    decreases steps.len(),
{
    if steps.len() == 0 {
        mem
    } else {
        apply_step(run(mem, base, steps.drop_last()), base, steps.last())
    }
}

/// The `len` bytes of `mem` (starting at `base`) from `address` on.
pub open spec fn region(mem: Seq<u8>, base: int, address: int, len: int) -> Seq<u8> {
    mem.subrange(address - base, address - base + len)
}

/// A step whose store lies inside the text `[base, base + len)`.
pub open spec fn step_within(step: StepView, base: int, len: int) -> bool {
    match step {
        StepView::Store { address, bytes } => base <= address && address + bytes.len() <= base
            + len,
        StepView::SyncCore => true,
    }
}

/// A copy of a stretch of text starting at a known address, on which
/// replacement plans can be carried out and checked.
pub struct CodeImage {
    base: usize,
    bytes: Vec<u8>,
}

impl CodeImage {
    pub closed spec fn spec_base(&self) -> int {
        self.base as int
    }

    pub closed spec fn spec_bytes(&self) -> Seq<u8> {
        self.bytes@
    }

    /// Every byte of the image has an address that fits in `usize`.
    pub open spec fn wf(&self) -> bool {
        self.spec_base() + self.spec_bytes().len() <= usize::MAX
    }

    /// The `len` bytes of the image from `address` on.
    pub open spec fn spec_region(&self, address: int, len: int) -> Seq<u8> {
        region(self.spec_bytes(), self.spec_base(), address, len)
    }

    /// Whether `[address, address + len)` lies inside the image.
    pub open spec fn covers(&self, address: int, len: int) -> bool {
        self.spec_base() <= address && 0 <= len && address + len <= self.spec_base()
            + self.spec_bytes().len()
    }

    pub fn new(base: usize, bytes: Vec<u8>) -> (r: Self)
        requires
            base + bytes@.len() <= usize::MAX,
        ensures
            r.wf(),
            r.spec_base() == base,
            r.spec_bytes() == bytes@,
    {
        CodeImage { base, bytes }
    }

    pub fn base(&self) -> (r: usize)
        ensures
            r == self.spec_base(),
    {
        self.base
    }

    pub fn bytes(&self) -> (r: &[u8])
        ensures
            r@ == self.spec_bytes(),
    {
        self.bytes.as_slice()
    }

    /// The `len` bytes from `address` on.
    pub fn read(&self, address: usize, len: usize) -> (r: Vec<u8>)
        requires
            self.covers(address as int, len as int),
        ensures
            r@ == self.spec_region(address as int, len as int),
    {
        let start = address - self.base;
        let mut out: Vec<u8> = Vec::new();
        let mut i: usize = 0;
        while i < len
            invariant
                self.covers(address as int, len as int),
                start == address - self.spec_base(),
                start + len <= self.bytes.len(),
                i <= len,
                out@ =~= self.spec_bytes().subrange(start as int, start + i),
            decreases len - i,
        {
            out.push(self.bytes[start + i]);
            i = i + 1;
        }
        out
    }

    /// Carries out one step on the image.
    pub fn apply(&mut self, step: &PatchStep)
        requires
            step_within(step@, old(self).spec_base(), old(self).spec_bytes().len() as int),
        ensures
            final(self).spec_base() == old(self).spec_base(),
            final(self).spec_bytes() == apply_step(
                old(self).spec_bytes(),
                old(self).spec_base(),
                step@,
            ),
    {
        match step {
            PatchStep::Store { address, bytes } => {
                let ghost mem0 = self.bytes@;
                let start = *address - self.base;
                let mut i: usize = 0;
                while i < bytes.len()
                    invariant
                        self.base + start == *address,
                        start + bytes@.len() <= self.bytes.len(),
                        self.bytes@.len() == mem0.len(),
                        i <= bytes@.len(),
                        self.bytes@ =~= written(
                            mem0,
                            self.base as int,
                            *address as int,
                            bytes@.take(i as int),
                        ),
                    decreases bytes.len() - i,
                {
                    self.bytes.set(start + i, bytes[i]);
                    i = i + 1;
                }
                assert(bytes@.take(bytes@.len() as int) =~= bytes@);
            },
            PatchStep::SyncCore => {},
        }
    }

    /// Carries out the steps in order.
    pub fn apply_all(&mut self, steps: &[PatchStep])
        requires
            forall|k: int|
                0 <= k < steps@.len() ==> step_within(
                    #[trigger] steps@[k]@,
                    old(self).spec_base(),
                    old(self).spec_bytes().len() as int,
                ),
        ensures
            final(self).spec_base() == old(self).spec_base(),
            final(self).spec_bytes() == run(
                old(self).spec_bytes(),
                old(self).spec_base(),
                step_views(steps@),
            ),
    {
        let ghost mem0 = self.bytes@;
        let ghost views = step_views(steps@);
        let mut k: usize = 0;
        while k < steps.len()
            invariant
                self.spec_base() == old(self).spec_base(),
                self.spec_bytes().len() == mem0.len(),
                mem0 == old(self).spec_bytes(),
                views == step_views(steps@),
                k <= steps@.len(),
                forall|j: int|
                    0 <= j < steps@.len() ==> step_within(
                        #[trigger] steps@[j]@,
                        old(self).spec_base(),
                        old(self).spec_bytes().len() as int,
                    ),
                self.spec_bytes() == run(mem0, self.spec_base(), views.take(k as int)),
            decreases steps.len() - k,
        {
            self.apply(&steps[k]);
            assert(views.take(k + 1).drop_last() =~= views.take(k as int));
            k = k + 1;
        }
        assert(views.take(steps@.len() as int) =~= views);
    }
}

} // verus!
