use vstd::prelude::*;

verus! {

/// Why a `static_match!` cannot be expanded.
#[derive(Clone, Copy, Debug, PartialEq, Eq, Structural)]
pub enum MacroError {
    /// `static_match!` was given no arm.
    NoArms,
}

/// The arm that becomes the fallthrough arm: the first one marked
/// `#[likely]`, or the last arm when none is.
pub open spec fn spec_likely_arm(likely: Seq<bool>) -> int {
    if exists|i: int| 0 <= i < likely.len() && likely[i] {
        choose|i: int|
            0 <= i < likely.len() && likely[i] && forall|j: int| 0 <= j < i ==> !likely[j]
    } else {
        likely.len() - 1
    }
}

/// What the generated matcher returns for arm `idx`: `-1` for the fallthrough
/// arm, otherwise the arm's position among the remaining arms, which is its
/// index in the jump table.
pub open spec fn spec_matcher_value(idx: int, likely: int) -> int {
    if idx < likely {
        idx
    } else if idx == likely {
        -1
    } else {
        idx - 1
    }
}

/// The arms that get a jump-table label, in order: all but the fallthrough.
pub open spec fn spec_label_arms(n: int, likely: int) -> Seq<int> {
    Seq::new((n - 1) as nat, |k: int| if k < likely { k } else { k + 1 })
}

/// The first arm marked likely, or the last arm.
pub fn likely_arm(likely: &[bool]) -> (r: usize)
    requires
        likely@.len() > 0,
    ensures
        r == spec_likely_arm(likely@),
        r < likely@.len(),
{
    let mut i: usize = 0;
    while i < likely.len()
        invariant
            i <= likely@.len(),
            forall|j: int| 0 <= j < i ==> !likely@[j],
        decreases likely.len() - i,
    {
        if likely[i] {
            proof {
                let k = choose|k: int|
                    0 <= k < likely@.len() && likely@[k] && forall|j: int| 0 <= j < k ==> !likely@[j];
                assert(k == i as int) by {
                    if k < i {
                    } else if k > i {
                        assert(!likely@[i as int]);
                    }
                }
            }
            return i;
        }
        i = i + 1;
    }
    likely.len() - 1
}

/// The matcher result for arm `idx` when arm `likely` falls through.
pub fn matcher_value(idx: usize, likely: usize) -> (r: isize)
    requires
        idx <= isize::MAX,
    ensures
        r == spec_matcher_value(idx as int, likely as int),
{
    if idx < likely {
        idx as isize
    } else if idx == likely {
        -1
    } else {
        (idx - 1) as isize
    }
}

/// The layout of a `static_match!`: which arm falls through, what the
/// matcher returns for each arm, and which arm each jump-table label runs.
pub struct ArmLayout {
    pub fallthrough: usize,
    pub matcher: Vec<isize>,
    pub labels: Vec<usize>,
}

/// Lays out the arms of a `static_match!`, given for each arm whether it is
/// marked `#[likely]`.
pub fn static_match_layout(likely: &[bool]) -> (r: Result<ArmLayout, MacroError>)
    requires
        likely@.len() <= isize::MAX,
    ensures
        match r {
            Ok(layout) => {
                &&& likely@.len() > 0
                &&& layout.fallthrough == spec_likely_arm(likely@)
                &&& layout.matcher@.len() == likely@.len()
                &&& forall|idx: int|
                    0 <= idx < likely@.len() ==> #[trigger] layout.matcher@[idx] == spec_matcher_value(
                        idx,
                        layout.fallthrough as int,
                    )
                &&& layout.labels@.map_values(|a: usize| a as int) == spec_label_arms(
                    likely@.len() as int,
                    layout.fallthrough as int,
                )
            },
            Err(e) => likely@.len() == 0 && e == MacroError::NoArms,
        },
{
    if likely.len() == 0 {
        return Err(MacroError::NoArms);
    }
    let n = likely.len();
    let fallthrough = likely_arm(likely);
    let mut matcher: Vec<isize> = Vec::new();
    let mut labels: Vec<usize> = Vec::new();
    let mut idx: usize = 0;
    while idx < n
        invariant
            n == likely@.len(),
            n <= isize::MAX,
            fallthrough < n,
            idx <= n,
            matcher@.len() == idx,
            forall|k: int|
                0 <= k < idx ==> #[trigger] matcher@[k] == spec_matcher_value(k, fallthrough as int),
            labels@.map_values(|a: usize| a as int) =~= spec_label_arms(
                n as int,
                fallthrough as int,
            ).take(if idx <= fallthrough { idx as int } else { idx - 1 }),
        decreases n - idx,
    {
        matcher.push(matcher_value(idx, fallthrough));
        if idx != fallthrough {
            let ghost before = labels@;
            labels.push(idx);
            proof {
                let arms = spec_label_arms(n as int, fallthrough as int);
                let t = if idx <= fallthrough { idx as int } else { idx - 1 };
                assert(labels@ == before.push(idx));
                assert(labels@.map_values(|a: usize| a as int) =~= before.map_values(|a: usize| a as int).push(idx as int));
                assert(arms.take(t + 1) =~= arms.take(t).push(arms[t]));
            }
        }
        idx = idx + 1;
    }
    proof {
        let arms = spec_label_arms(n as int, fallthrough as int);
        assert(arms.take(n - 1) =~= arms);
    }
    Ok(ArmLayout { fallthrough, matcher, labels })
}

/// The jump table routes every arm correctly: an arm other than the
/// fallthrough gets a matcher value that indexes the jump table at a label
/// running that same arm, and only the fallthrough arm gets `-1`.
pub proof fn lemma_labels_run_matched_arm(n: int, likely: int, idx: int)
    requires
        0 <= likely < n,
        0 <= idx < n,
    ensures
        idx == likely <==> spec_matcher_value(idx, likely) == -1,
        idx != likely ==> {
            let m = spec_matcher_value(idx, likely);
            &&& 0 <= m < spec_label_arms(n, likely).len()
            &&& spec_label_arms(n, likely)[m] == idx
        },
{
}

/// How likely the `true` branch of a `static_if!` is taken.
#[derive(Clone, Copy, Debug, PartialEq, Eq, Structural)]
pub enum Likeliness {
    Likely,
    Unlikely,
}

impl Default for Likeliness {
    /// A `static_if!` without a likeliness is unlikely.
    fn default() -> (r: Self)
        ensures
            r == Likeliness::Unlikely,
    {
        Likeliness::Unlikely
    }
}

/// The `#[likely]` marks of the arms `true => true, false => false` that a
/// `static_if!` expands to: the `true` arm is marked when it is likely, the
/// `false` arm otherwise. The marked arm is the one placed inline.
pub fn static_if_arms(likeliness: Likeliness) -> (r: Vec<bool>)
    ensures
        r@ == match likeliness {
            Likeliness::Likely => seq![true, false],
            Likeliness::Unlikely => seq![false, true],
        },
        spec_likely_arm(r@) == match likeliness {
            Likeliness::Likely => 0int,
            Likeliness::Unlikely => 1int,
        },
{
    let r = match likeliness {
        Likeliness::Likely => vec![true, false],
        Likeliness::Unlikely => vec![false, true],
    };
    proof {
        if likeliness == Likeliness::Likely {
            assert(0 <= 0 < r@.len() && r@[0] && forall|j: int| 0 <= j < 0 ==> !r@[j]);
        } else {
            assert(0 <= 1 < r@.len() && r@[1] && forall|j: int| 0 <= j < 1 ==> !r@[j]);
        }
    }
    r
}

} // verus!
