use vstd::prelude::*;
use crate::arch::{
    Arch, FALLTHROUGH, patch_for, callee_in_range, lemma_patch_len, jump_target, label_base, signed32,
    riscv_jal_reachable, lemma_patch_jumps_to_label,
};
use crate::text::{CodeImage, region};
use crate::arms::{spec_matcher_value, spec_label_arms, lemma_labels_run_matched_arm};
use crate::patch::{TextGuard, PageSpan, register_code, plan_error, lemma_write_same};

verus! {

/// Individual call site of a static key: a patchable instruction at
/// `address`, the matcher that maps the key's value to an arm, and the label
/// offsets of the arms other than the fallthrough arm.
pub struct CallSite<T, F> {
    address: usize,
    matcher: F,
    labels: Vec<u32>,
    value_type: core::marker::PhantomData<T>,
}

/// A matcher that gives one result per value, as the generated matchers do.
pub open spec fn matcher_deterministic<T, F: Fn(&T) -> usize>(matcher: F) -> bool {
    forall|v: T, a: usize, b: usize|
        #[trigger] call_ensures(matcher, (&v,), a) && #[trigger] call_ensures(matcher, (&v,), b) ==> a == b
}

/// A matcher that accepts every value, gives one result per value, and only
/// returns results that the call site's labels can encode.
pub open spec fn matcher_ok<T, F: Fn(&T) -> usize>(matcher: F, labels: Seq<u32>) -> bool {
    &&& matcher_deterministic(matcher)
    &&& forall|v: T| call_requires(matcher, (&v,))
    &&& forall|v: T, callee: usize|
        #[trigger] call_ensures(matcher, (&v,), callee) ==> callee_in_range(callee, labels)
}

impl<T, F: Fn(&T) -> usize> CallSite<T, F> {
    pub closed spec fn spec_address(&self) -> int {
        self.address as int
    }

    pub closed spec fn spec_matcher(&self) -> F {
        self.matcher
    }

    pub closed spec fn spec_labels(&self) -> Seq<u32> {
        self.labels@
    }

    /// A call site as the `static_match!` expansion lays it out for `arch`.
    pub open spec fn wf(&self, arch: Arch) -> bool {
        &&& matcher_ok(self.spec_matcher(), self.spec_labels())
        &&& arch.site_aligned(self.spec_address())
    }

    /// The instruction of this call site, within `image`, is the one for the
    /// arm that the matcher selects for `value`.
    pub open spec fn installed(&self, value: T, image: CodeImage, arch: Arch) -> bool {
        exists|callee: usize|
            #![trigger patch_for(arch, callee, self.spec_labels())]
            call_ensures(self.spec_matcher(), (&value,), callee) && region(
                image.spec_bytes(),
                image.spec_base(),
                self.spec_address(),
                arch.spec_insn_len() as int,
            ) == patch_for(arch, callee, self.spec_labels())
    }

    /// A label index never equals the fallthrough result: the labels fit in
    /// memory, so there are fewer than `usize::MAX` of them.
    pub proof fn lemma_label_index_not_fallthrough(&self, k: usize)
        requires
            k < self.spec_labels().len(),
        ensures
            k != FALLTHROUGH,
            self.spec_labels().len() <= usize::MAX,
    {
        assert(self.labels.len() == self.labels@.len());
    }

    pub fn new(address: usize, matcher: F, labels: Vec<u32>) -> (r: Self)
        requires
            matcher_ok(matcher, labels@),
        ensures
            r.spec_address() == address,
            r.spec_matcher() == matcher,
            r.spec_labels() == labels@,
    {
        CallSite { address, matcher, labels, value_type: core::marker::PhantomData }
    }

    pub fn address(&self) -> (r: usize)
        ensures
            r == self.spec_address(),
    {
        self.address
    }

    pub fn labels(&self) -> (r: &[u32])
        ensures
            r@ == self.spec_labels(),
    {
        self.labels.as_slice()
    }

    /// Rewrites the call site so that it runs the arm that the matcher
    /// selects for `value`; returns the matcher's result.
    pub fn update(&self, text: &mut TextGuard, image: &mut CodeImage, value: &T, arch: Arch) -> (callee: usize)
        requires
            self.wf(arch),
            old(image).wf(),
            old(image).covers(self.spec_address(), arch.spec_insn_len() as int),
        ensures
            call_ensures(self.spec_matcher(), (value,), callee),
            callee_in_range(callee, self.spec_labels()),
            final(image).wf(),
            final(image).spec_base() == old(image).spec_base(),
            final(image).spec_bytes() == crate::text::written(
                old(image).spec_bytes(),
                old(image).spec_base(),
                self.spec_address(),
                patch_for(arch, callee, self.spec_labels()),
            ),
            final(text).spec_need_sync() == (old(text).spec_need_sync() || old(image).spec_region(
                self.spec_address(),
                arch.spec_insn_len() as int,
            ) != patch_for(arch, callee, self.spec_labels())),
            final(text).spec_updates() == old(text).spec_updates().push(self.spec_address()),
    {
        let callee = (self.matcher)(value);
        let patch = arch.patch(callee, self.labels.as_slice());
        assert(plan_error(arch, self.address as int, patch@) is None);
        // The site is aligned for its architecture, so the replacement is
        // never refused.
        let replaced = image.replace_instruction(text, self.address, patch.as_slice(), arch);
        assert(replaced is Ok);
        text.record_update(self.address);
        callee
    }
}

/// Two instructions of `len` bytes at `a` and `b` share no byte.
pub open spec fn apart(a: int, b: int, len: int) -> bool {
    a + len <= b || b + len <= a
}

/// No call site's instruction of `len` bytes holds the byte at `address`.
pub open spec fn outside_sites<T, F: Fn(&T) -> usize>(
    sites: Seq<CallSite<T, F>>,
    address: int,
    len: int,
) -> bool {
    forall|k: int|
        0 <= k < sites.len() ==> !(#[trigger] sites[k].spec_address() <= address < sites[k].spec_address()
            + len)
}

/// The addresses of the call sites, in list order.
pub open spec fn site_addresses<T, F: Fn(&T) -> usize>(sites: Seq<CallSite<T, F>>) -> Seq<int> {
    sites.map_values(|site: CallSite<T, F>| site.spec_address())
}

/// A static key: a value and the call sites whose code follows it. The most
/// recently registered call site comes first.
pub struct StaticKey<T, F> {
    callsites: Vec<CallSite<T, F>>,
    value: T,
}

impl<T, F: Fn(&T) -> usize> StaticKey<T, F> {
    pub closed spec fn spec_value(&self) -> T {
        self.value
    }

    pub closed spec fn spec_callsites(&self) -> Seq<CallSite<T, F>> {
        self.callsites@
    }

    /// Every call site is well formed, lies in `image`, shares no byte with
    /// another call site, and holds the code for the arm its matcher selects
    /// for the key's value.
    pub open spec fn installed_in(&self, image: CodeImage, arch: Arch) -> bool {
        let sites = self.spec_callsites();
        let len = arch.spec_insn_len() as int;
        &&& image.wf()
        &&& forall|i: int|
            0 <= i < sites.len() ==> {
                &&& (#[trigger] sites[i]).wf(arch)
                &&& image.covers(sites[i].spec_address(), len)
                &&& sites[i].installed(self.spec_value(), image, arch)
            }
        &&& forall|i: int, j: int|
            0 <= i < sites.len() && 0 <= j < sites.len() && i != j ==> apart(
                (#[trigger] sites[i]).spec_address(),
                (#[trigger] sites[j]).spec_address(),
                len,
            )
    }

    /// A key holding `state`, with no call site yet.
    pub fn new(state: T) -> (r: Self)
        ensures
            r.spec_value() == state,
            r.spec_callsites().len() == 0,
    {
        StaticKey { callsites: Vec::new(), value: state }
    }

    /// Calls `callback` on the key's value.
    pub fn with<R, C: FnOnce(&T) -> R>(&self, callback: C) -> (r: R)
        requires
            call_requires(callback, (&self.spec_value(),)),
        ensures
            call_ensures(callback, (&self.spec_value(),), r),
    {
        callback(&self.value)
    }

    /// The key's value.
    pub fn get(&self) -> (r: T) where T: Copy
        ensures
            r == self.spec_value(),
    {
        self.with(|x: &T| -> (y: T) ensures y == *x { *x })
    }

    /// Sets the key's value and rewrites every call site to run the arm that
    /// its matcher selects for the new value.
    pub fn set(&mut self, text: &mut TextGuard, image: &mut CodeImage, value: T, arch: Arch)
        requires
            old(self).installed_in(*old(image), arch),
        ensures
            final(self).spec_value() == value,
            final(self).spec_callsites() == old(self).spec_callsites(),
            final(self).installed_in(*final(image), arch),
            final(image).spec_base() == old(image).spec_base(),
            final(text).spec_need_sync() == (old(text).spec_need_sync() || final(image).spec_bytes()
                != old(image).spec_bytes()),
            final(text).spec_updates() == old(text).spec_updates() + site_addresses(
                old(self).spec_callsites(),
            ),
            final(image).spec_bytes().len() == old(image).spec_bytes().len(),
            forall|i: int|
                0 <= i < old(image).spec_bytes().len() && outside_sites(
                    old(self).spec_callsites(),
                    old(image).spec_base() + i,
                    arch.spec_insn_len() as int,
                ) ==> #[trigger] final(image).spec_bytes()[i] == old(image).spec_bytes()[i],
    {
        let ghost sites = self.callsites@;
        let ghost mem0 = image.spec_bytes();
        let ghost len = arch.spec_insn_len() as int;
        let mut i: usize = 0;
        while i < self.callsites.len()
            invariant
                self.callsites@ == sites,
                old(self).installed_in(*old(image), arch),
                sites == old(self).spec_callsites(),
                mem0 == old(image).spec_bytes(),
                len == arch.spec_insn_len(),
                i <= sites.len(),
                image.wf(),
                image.spec_base() == old(image).spec_base(),
                image.spec_bytes().len() == mem0.len(),
                text.spec_need_sync() == (old(text).spec_need_sync() || image.spec_bytes() != mem0),
                text.spec_updates() == old(text).spec_updates() + site_addresses(sites.take(i as int)),
                forall|j: int| 0 <= j < i ==> (#[trigger] sites[j]).installed(value, *image, arch),
                forall|b: int|
                    0 <= b < mem0.len() && (forall|k: int|
                        0 <= k < i ==> !(#[trigger] sites[k].spec_address() <= image.spec_base() + b
                            < sites[k].spec_address() + len)) ==> image.spec_bytes()[b] == mem0[b],
            decreases sites.len() - i,
        {
            let ghost before = image.spec_bytes();
            let callee = self.callsites[i].update(text, image, &value, arch);
            proof {
                assert(site_addresses(sites.take(i + 1)) =~= site_addresses(sites.take(i as int)).push(
                    sites[i as int].spec_address(),
                ));
                let site = sites[i as int];
                let a = site.spec_address();
                let base = image.spec_base();
                assert(old(self).spec_callsites()[i as int] == site);
                assert(crate::text::region(before, base, a, len) =~= crate::text::region(mem0, base, a, len)) by {
                    assert forall|b: int| a - base <= b < a - base + len implies before[b] == mem0[b] by {
                        assert forall|k: int| 0 <= k < i implies !(#[trigger] sites[k].spec_address() <= base + b
                            < sites[k].spec_address() + len) by {
                            assert(old(self).spec_callsites()[k] == sites[k]);
                            assert(apart(sites[k].spec_address(), a, len));
                        }
                    }
                }
                lemma_patch_len(arch, callee, site.spec_labels());
                if crate::text::region(before, base, a, len) == patch_for(arch, callee, site.spec_labels()) {
                    lemma_write_same(before, base, a, len);
                } else {
                    assert(crate::text::region(image.spec_bytes(), base, a, len) =~= patch_for(
                        arch,
                        callee,
                        site.spec_labels(),
                    ));
                    assert(image.spec_bytes() != mem0);
                }
                assert(crate::text::region(image.spec_bytes(), base, a, len) =~= patch_for(
                    arch,
                    callee,
                    site.spec_labels(),
                ));
                assert forall|j: int| 0 <= j < i + 1 implies (#[trigger] sites[j]).installed(
                    value,
                    *image,
                    arch,
                ) by {
                    if j < i {
                        assert(apart(sites[j].spec_address(), a, len));
                        assert(crate::text::region(
                            image.spec_bytes(),
                            base,
                            sites[j].spec_address(),
                            len,
                        ) =~= crate::text::region(before, base, sites[j].spec_address(), len));
                        let c = choose|c: usize|
                            #![trigger patch_for(arch, c, sites[j].spec_labels())]
                            call_ensures(sites[j].spec_matcher(), (&value,), c) && crate::text::region(
                                before,
                                base,
                                sites[j].spec_address(),
                                len,
                            ) == patch_for(arch, c, sites[j].spec_labels());
                        assert(call_ensures(sites[j].spec_matcher(), (&value,), c));
                    } else {
                        assert(call_ensures(site.spec_matcher(), (&value,), callee));
                    }
                }
            }
            i = i + 1;
        }
        self.value = value;
        proof {
            assert(sites.take(sites.len() as int) =~= sites);
            assert forall|j: int| 0 <= j < sites.len() implies image.covers(
                (#[trigger] sites[j]).spec_address(),
                len,
            ) by {
                assert(old(self).spec_callsites()[j] == sites[j]);
            }
        }
    }
}

impl<T, F: Fn(&T) -> usize> CallSite<T, F> {
    /// Registers this call site with `key`: its pages are reported for
    /// unprotecting, it is put first among the key's call sites, and its
    /// instruction is written for the key's current value. Registration
    /// happens before any core executes the site, so no core synchronization
    /// is owed for it.
    pub fn register(
        self,
        key: &mut StaticKey<T, F>,
        text: &mut TextGuard,
        image: &mut CodeImage,
        arch: Arch,
        page_size: usize,
    ) -> (r: Option<PageSpan>)
        requires
            old(key).installed_in(*old(image), arch),
            self.wf(arch),
            old(image).covers(self.spec_address(), arch.spec_insn_len() as int),
            forall|k: int|
                0 <= k < old(key).spec_callsites().len() ==> apart(
                    self.spec_address(),
                    #[trigger] old(key).spec_callsites()[k].spec_address(),
                    arch.spec_insn_len() as int,
                ),
        ensures
            final(key).spec_callsites() == seq![self] + old(key).spec_callsites(),
            final(key).spec_value() == old(key).spec_value(),
            final(key).installed_in(*final(image), arch),
            final(image).spec_base() == old(image).spec_base(),
            final(image).spec_bytes().len() == old(image).spec_bytes().len(),
            forall|i: int|
                0 <= i < old(image).spec_bytes().len() && !(self.spec_address() <= old(
                    image,
                ).spec_base() + i < self.spec_address() + arch.spec_insn_len())
                    ==> #[trigger] final(image).spec_bytes()[i] == old(image).spec_bytes()[i],
            !final(text).spec_need_sync(),
            final(text).spec_updates() == old(text).spec_updates().push(self.spec_address()),
            match r {
                Some(span) => {
                    &&& crate::patch::is_power_of_two(page_size)
                    &&& (span.start as int, span.len as int) == crate::patch::spec_page_span(
                        self.spec_address(),
                        arch.spec_insn_len() as int,
                        page_size as int,
                    )
                },
                None => !crate::patch::is_power_of_two(page_size) || !crate::patch::page_span_fits(
                    self.spec_address(),
                    arch.spec_insn_len() as int,
                    page_size as int,
                ),
            },
    {
        let ghost sites = key.spec_callsites();
        let ghost before = image.spec_bytes();
        let ghost len = arch.spec_insn_len() as int;
        let insn_len = arch.insn_len();
        // Make the code eligible for modification.
        let span = register_code(text, self.address, insn_len, page_size);
        let callee = self.update(text, image, &key.value, arch);
        key.callsites.insert(0, self);
        // Nothing executes the site yet, so syncing is not necessary.
        text.skip_sync();
        proof {
            let base = image.spec_base();
            let new_sites = key.spec_callsites();
            lemma_patch_len(arch, callee, self.spec_labels());
            assert(crate::text::region(image.spec_bytes(), base, self.spec_address(), len) =~= patch_for(
                arch,
                callee,
                self.spec_labels(),
            ));
            assert(new_sites[0].installed(key.spec_value(), *image, arch));
            assert forall|j: int| 0 <= j < new_sites.len() implies {
                &&& (#[trigger] new_sites[j]).wf(arch)
                &&& image.covers(new_sites[j].spec_address(), len)
                &&& new_sites[j].installed(key.spec_value(), *image, arch)
            } by {
                if j > 0 {
                    let site = sites[j - 1];
                    assert(new_sites[j] == site);
                    assert(apart(self.spec_address(), site.spec_address(), len));
                    assert(crate::text::region(image.spec_bytes(), base, site.spec_address(), len)
                        =~= crate::text::region(before, base, site.spec_address(), len));
                    let c = choose|c: usize|
                        #![trigger patch_for(arch, c, site.spec_labels())]
                        call_ensures(site.spec_matcher(), (&key.spec_value(),), c) && crate::text::region(
                            before,
                            base,
                            site.spec_address(),
                            len,
                        ) == patch_for(arch, c, site.spec_labels());
                    assert(call_ensures(site.spec_matcher(), (&key.spec_value(),), c));
                }
            }
            assert forall|i: int, j: int|
                0 <= i < new_sites.len() && 0 <= j < new_sites.len() && i != j implies apart(
                (#[trigger] new_sites[i]).spec_address(),
                (#[trigger] new_sites[j]).spec_address(),
                len,
            ) by {
                if i > 0 && j > 0 {
                    assert(new_sites[i] == sites[i - 1]);
                    assert(new_sites[j] == sites[j - 1]);
                } else if i == 0 {
                    assert(new_sites[j] == sites[j - 1]);
                } else {
                    assert(new_sites[i] == sites[i - 1]);
                }
            }
        }
        span
    }
}

/// While a key's code is installed, each call site sends control to the arm
/// that its matcher selects for the key's value: it falls through into the
/// likely arm when the matcher returns `FALLTHROUGH`, and otherwise jumps to
/// the label of the selected arm. (On RISC-V the labels must be within reach
/// of `jal`, as the assembler ensures for labels in the same function.)
pub proof fn lemma_call_site_runs_selected_arm<T, F: Fn(&T) -> usize>(
    key: StaticKey<T, F>,
    image: CodeImage,
    arch: Arch,
    i: int,
)
    requires
        key.installed_in(image, arch),
        0 <= i < key.spec_callsites().len(),
        arch == Arch::Riscv64 ==> forall|k: int|
            0 <= k < key.spec_callsites()[i].spec_labels().len() ==> riscv_jal_reachable(
                #[trigger] key.spec_callsites()[i].spec_labels()[k],
            ),
    ensures
        exists|callee: usize|
            #![trigger call_ensures(key.spec_callsites()[i].spec_matcher(), (&key.spec_value(),), callee)]
            call_ensures(key.spec_callsites()[i].spec_matcher(), (&key.spec_value(),), callee)
                && jump_target(
                arch,
                key.spec_callsites()[i].spec_address(),
                image.spec_region(key.spec_callsites()[i].spec_address(), arch.spec_insn_len() as int),
            ) == if callee == FALLTHROUGH {
                None::<int>
            } else {
                Some(
                    label_base(arch, key.spec_callsites()[i].spec_address()) + signed32(
                        key.spec_callsites()[i].spec_labels()[callee as int],
                    ),
                )
            },
{
    let site = key.spec_callsites()[i];
    assert(site.wf(arch));
    assert(site.installed(key.spec_value(), image, arch));
    let c = choose|c: usize|
        #![trigger patch_for(arch, c, site.spec_labels())]
        call_ensures(site.spec_matcher(), (&key.spec_value(),), c) && region(
            image.spec_bytes(),
            image.spec_base(),
            site.spec_address(),
            arch.spec_insn_len() as int,
        ) == patch_for(arch, c, site.spec_labels());
    assert(callee_in_range(c, site.spec_labels()));
    lemma_patch_jumps_to_label(arch, site.spec_address(), c, site.spec_labels());
}

/// Setting a key to the value it already holds changes no byte of text, so
/// (by the contract of `StaticKey::set`) it owes no core synchronization:
/// every call site already holds the code for its arm, and `set` touches
/// nothing else.
pub proof fn lemma_set_same_value_changes_nothing<T, F: Fn(&T) -> usize>(
    before: StaticKey<T, F>,
    after: StaticKey<T, F>,
    image_before: CodeImage,
    image_after: CodeImage,
    arch: Arch,
)
    requires
        before.installed_in(image_before, arch),
        after.installed_in(image_after, arch),
        after.spec_value() == before.spec_value(),
        after.spec_callsites() == before.spec_callsites(),
        image_after.spec_base() == image_before.spec_base(),
        image_after.spec_bytes().len() == image_before.spec_bytes().len(),
        forall|i: int|
            0 <= i < image_before.spec_bytes().len() && outside_sites(
                before.spec_callsites(),
                image_before.spec_base() + i,
                arch.spec_insn_len() as int,
            ) ==> #[trigger] image_after.spec_bytes()[i] == image_before.spec_bytes()[i],
    ensures
        image_after.spec_bytes() == image_before.spec_bytes(),
{
    let sites = before.spec_callsites();
    let base = image_before.spec_base();
    let len = arch.spec_insn_len() as int;
    let v = before.spec_value();
    assert forall|i: int| 0 <= i < image_before.spec_bytes().len() implies image_after.spec_bytes()[i]
        == image_before.spec_bytes()[i] by {
        if !outside_sites(sites, base + i, len) {
            let k = choose|k: int|
                0 <= k < sites.len() && (#[trigger] sites[k].spec_address() <= base + i
                    < sites[k].spec_address() + len);
            let site = sites[k];
            assert(after.spec_callsites()[k] == site);
            assert(site.installed(v, image_before, arch));
            assert(site.installed(v, image_after, arch));
            let a = choose|c: usize|
                #![trigger patch_for(arch, c, site.spec_labels())]
                call_ensures(site.spec_matcher(), (&v,), c) && region(
                    image_before.spec_bytes(),
                    base,
                    site.spec_address(),
                    len,
                ) == patch_for(arch, c, site.spec_labels());
            let b = choose|c: usize|
                #![trigger patch_for(arch, c, site.spec_labels())]
                call_ensures(site.spec_matcher(), (&v,), c) && region(
                    image_after.spec_bytes(),
                    base,
                    site.spec_address(),
                    len,
                ) == patch_for(arch, c, site.spec_labels());
            assert(site.wf(arch));
            assert(matcher_deterministic(site.spec_matcher()));
            assert(a == b);
            let off = base + i - site.spec_address();
            assert(region(image_before.spec_bytes(), base, site.spec_address(), len)[off]
                == image_before.spec_bytes()[i]);
            assert(region(image_after.spec_bytes(), base, site.spec_address(), len)[off]
                == image_after.spec_bytes()[i]);
        }
    }
    assert(image_after.spec_bytes() =~= image_before.spec_bytes());
}

/// A key without call sites trivially holds its code in any image: the
/// invariant `installed_in` starts out true for a new key.
pub proof fn lemma_new_key_installed<T, F: Fn(&T) -> usize>(key: StaticKey<T, F>, image: CodeImage, arch: Arch)
    requires
        key.spec_callsites().len() == 0,
        image.wf(),
    ensures
        key.installed_in(image, arch),
{
}

/// While a key's code is installed, no two of its call sites share an
/// address, so no site is registered twice and the list of sites has no
/// repetition.
pub proof fn lemma_sites_distinct<T, F: Fn(&T) -> usize>(
    key: StaticKey<T, F>,
    image: CodeImage,
    arch: Arch,
    i: int,
    j: int,
)
    requires
        key.installed_in(image, arch),
        0 <= i < key.spec_callsites().len(),
        0 <= j < key.spec_callsites().len(),
        i != j,
    ensures
        key.spec_callsites()[i].spec_address() != key.spec_callsites()[j].spec_address(),
        key.spec_callsites()[i] != key.spec_callsites()[j],
{
    let sites = key.spec_callsites();
    assert(apart(sites[i].spec_address(), sites[j].spec_address(), arch.spec_insn_len() as int));
}

/// The generated matcher's value of an arm as a call site reads it: the
/// matcher returns `isize`, and `-1` is read as `FALLTHROUGH`.
pub open spec fn callee_of(m: int) -> usize {
    if m == -1 {
        FALLTHROUGH
    } else {
        m as usize
    }
}

/// A `static_match!` evaluates like the `match` it was written as. When the
/// key's value matches arm `idx` of `n` arms whose fallthrough arm is
/// `likely`, the generated matcher's value makes the call site fall through
/// (into the likely arm's body, placed inline) exactly when `idx` is the
/// likely arm; otherwise the call site jumps by the label at the matcher's
/// value, and that label's body is the body of arm `idx`. (On RISC-V the
/// labels must be within reach of `jal`.)
pub proof fn lemma_expansion_runs_matched_arm(
    arch: Arch,
    address: int,
    n: int,
    likely: int,
    idx: int,
    labels: Seq<u32>,
)
    requires
        0 <= likely < n <= usize::MAX,
        0 <= idx < n,
        labels.len() == n - 1,
        arch == Arch::Riscv64 ==> forall|k: int|
            0 <= k < labels.len() ==> riscv_jal_reachable(#[trigger] labels[k]),
    ensures
        ({
            let c = callee_of(spec_matcher_value(idx, likely));
            &&& callee_in_range(c, labels)
            &&& (jump_target(arch, address, patch_for(arch, c, labels)) is None) == (idx == likely)
            &&& idx != likely ==> {
                &&& jump_target(arch, address, patch_for(arch, c, labels)) == Some(
                    label_base(arch, address) + signed32(labels[c as int]),
                )
                &&& spec_label_arms(n, likely)[c as int] == idx
            }
        }),
{
    lemma_labels_run_matched_arm(n, likely, idx);
    let c = callee_of(spec_matcher_value(idx, likely));
    lemma_patch_jumps_to_label(arch, address, c, labels);
}

} // verus!
