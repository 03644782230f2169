//! Bone hierarchies. Each bone names its parent by position in the bone
//! list, or `-1` for a root. Walking up from a bone gives its ancestors; the
//! walk takes at most as many steps as there are bones, so a list whose
//! parent links form a cycle still gives a finite chain.

use vstd::prelude::*;

verus! {

/// Every parent link is `-1` or the position of a bone.
pub open spec fn parents_valid(parents: Seq<i64>) -> bool {
    forall|k: int| 0 <= k < parents.len() ==> (#[trigger] parents[k] == -1 || 0 <= parents[k] < parents.len())
}

/// The bones met when walking up from `current` for at most `steps` steps,
/// stopping at `-1`.
pub open spec fn spec_chain(parents: Seq<i64>, current: i64, steps: nat) -> Seq<int>
    decreases steps,
{
    if steps == 0 || current == -1 {
        seq![]
    } else {
        seq![current as int] + spec_chain(parents, parents[current as int], (steps - 1) as nat)
    }
}

/// The ancestors of `bone`, nearest first.
pub open spec fn spec_ancestors(parents: Seq<i64>, bone: int) -> Seq<int> {
    spec_chain(parents, parents[bone], parents.len())
}

/// Whether moving bone `affected` moves bone `bone`: it is the bone itself or
/// one of its ancestors.
pub open spec fn spec_is_affected(parents: Seq<i64>, bone: int, affected: int) -> bool {
    bone == affected || spec_ancestors(parents, bone).contains(affected)
}

/// A chain holds positions of bones only, at most `steps` of them, and each
/// is the parent of the one before.
pub proof fn lemma_chain_shape(parents: Seq<i64>, current: i64, steps: nat)
    requires
        parents_valid(parents),
        current == -1 || 0 <= current < parents.len(),
    ensures
        spec_chain(parents, current, steps).len() <= steps,
        forall|k: int|
            0 <= k < spec_chain(parents, current, steps).len() ==> 0 <= #[trigger] spec_chain(
                parents,
                current,
                steps,
            )[k] < parents.len(),
        spec_chain(parents, current, steps).len() > 0 ==> spec_chain(parents, current, steps)[0]
            == current,
        forall|k: int|
            1 <= k < spec_chain(parents, current, steps).len() ==> #[trigger] spec_chain(
                parents,
                current,
                steps,
            )[k] == parents[spec_chain(parents, current, steps)[k - 1]],
    decreases steps,
{
    if steps > 0 && current != -1 {
        let next = parents[current as int];
        lemma_chain_shape(parents, next, (steps - 1) as nat);
        let c = spec_chain(parents, current, steps);
        let t = spec_chain(parents, next, (steps - 1) as nat);
        assert(c == seq![current as int] + t);
        assert forall|k: int| 1 <= k < c.len() implies #[trigger] c[k] == parents[c[k - 1]] by {
            assert(c[k] == t[k - 1]);
            if k > 1 {
                assert(c[k - 1] == t[k - 2]);
            }
        }
        assert forall|k: int| 0 <= k < c.len() implies 0 <= #[trigger] c[k] < parents.len() by {
            if k > 0 {
                assert(c[k] == t[k - 1]);
            }
        }
    }
}

/// The ancestors of `bone`, nearest first: its parent, the parent's parent,
/// and so on, for at most as many steps as there are bones.
pub fn ancestors(parents: &[i64], bone: usize) -> (r: Vec<usize>)
    requires
        parents_valid(parents@),
        bone < parents@.len(),
    ensures
        r@.len() == spec_ancestors(parents@, bone as int).len(),
        forall|k: int| 0 <= k < r@.len() ==> #[trigger] r@[k] as int == spec_ancestors(parents@, bone as int)[k],
{
    let len = parents.len();
    let mut chain: Vec<usize> = Vec::new();
    let mut current: i64 = parents[bone];
    let mut steps: usize = 0;
    let ghost whole = spec_ancestors(parents@, bone as int);
    proof {
        assert(current == -1 || 0 <= current < len) by {
            assert(parents_valid(parents@));
            assert(parents@[bone as int] == -1 || 0 <= parents@[bone as int] < parents@.len());
        }
    }
    while steps < len && current != -1
        invariant
            len == parents@.len(),
            parents_valid(parents@),
            steps <= len,
            chain@.len() == steps,
            current == -1 || 0 <= current < len,
            whole == spec_ancestors(parents@, bone as int),
            forall|k: int| 0 <= k < steps ==> #[trigger] chain@[k] as int == whole[k],
            whole =~= chain@.map_values(|c: usize| c as int) + spec_chain(parents@, current, (len - steps) as nat),
        decreases len - steps,
    {
        let c = current as usize;
        let ghost before = chain@;
        chain.push(c);
        let next = parents[c];
        proof {
            assert(parents@[c as int] == -1 || 0 <= parents@[c as int] < parents@.len());
            assert(spec_chain(parents@, current, (len - steps) as nat) == seq![current as int] + spec_chain(
                parents@,
                next,
                (len - steps - 1) as nat,
            ));
            assert(chain@.map_values(|c: usize| c as int) =~= before.map_values(|c: usize| c as int).push(
                current as int,
            ));
        }
        current = next;
        steps = steps + 1;
        proof {
            assert(whole =~= chain@.map_values(|c: usize| c as int) + spec_chain(
                parents@,
                current,
                (len - steps) as nat,
            ));
            assert forall|k: int| 0 <= k < steps implies #[trigger] chain@[k] as int == whole[k] by {
                assert(chain@.map_values(|c: usize| c as int)[k] == chain@[k] as int);
            }
        }
    }
    proof {
        assert(spec_chain(parents@, current, (len - steps) as nat) =~= Seq::<int>::empty());
        assert(whole.len() == chain@.len());
    }
    chain
}

/// Whether moving bone `affected` moves bone `bone`.
pub fn is_affected(parents: &[i64], bone: usize, affected: usize) -> (r: bool)
    requires
        parents_valid(parents@),
        bone < parents@.len(),
    ensures
        r == spec_is_affected(parents@, bone as int, affected as int),
{
    if bone == affected {
        return true;
    }
    let chain = ancestors(parents, bone);
    let ghost whole = spec_ancestors(parents@, bone as int);
    let mut k: usize = 0;
    while k < chain.len()
        invariant
            chain@.len() == whole.len(),
            whole == spec_ancestors(parents@, bone as int),
            forall|j: int| 0 <= j < chain@.len() ==> #[trigger] chain@[j] as int == whole[j],
            k <= chain@.len(),
            forall|j: int| 0 <= j < k ==> whole[j] != affected as int,
        decreases chain.len() - k,
    {
        if chain[k] == affected {
            proof {
                assert(chain@[k as int] as int == whole[k as int]);
                assert(whole[k as int] == affected as int);
            }
            return true;
        }
        proof {
            assert(chain@[k as int] as int == whole[k as int]);
        }
        k = k + 1;
    }
    proof {
        if whole.contains(affected as int) {
            let j = choose|j: int| 0 <= j < whole.len() && whole[j] == affected as int;
            assert(whole[j] != affected as int);
        }
    }
    false
}

/// The bones that moving bone `affected` moves, in list order.
pub fn affected_bones(parents: &[i64], affected: usize) -> (r: Vec<usize>)
    requires
        parents_valid(parents@),
    ensures
        forall|k: int| 0 <= k < r@.len() ==> #[trigger] r@[k] < parents@.len(),
        forall|b: int|
            0 <= b < parents@.len() ==> (spec_is_affected(parents@, b, affected as int) <==> r@.contains(
                b as usize,
            )),
        forall|i: int, j: int| 0 <= i < j < r@.len() ==> r@[i] < r@[j],
{
    let mut out: Vec<usize> = Vec::new();
    let mut b: usize = 0;
    while b < parents.len()
        invariant
            parents_valid(parents@),
            b <= parents@.len(),
            forall|k: int| 0 <= k < out@.len() ==> #[trigger] out@[k] < b,
            forall|c: int| 0 <= c < b ==> (spec_is_affected(parents@, c, affected as int) <==> out@.contains(c as usize)),
            forall|i: int, j: int| 0 <= i < j < out@.len() ==> out@[i] < out@[j],
        decreases parents.len() - b,
    {
        let ghost before = out@;
        if is_affected(parents, b, affected) {
            out.push(b);
            proof {
                assert(out@[out@.len() - 1] == b);
                assert forall|c: int| 0 <= c < b + 1 implies (spec_is_affected(parents@, c, affected as int)
                    <==> out@.contains(c as usize)) by {
                    if c < b {
                        if before.contains(c as usize) {
                            let j = choose|j: int| 0 <= j < before.len() && before[j] == c as usize;
                            assert(out@[j] == c as usize);
                        }
                        if out@.contains(c as usize) {
                            let j = choose|j: int| 0 <= j < out@.len() && out@[j] == c as usize;
                            if j < before.len() {
                                assert(before[j] == c as usize);
                            }
                        }
                    } else {
                        assert(out@[out@.len() - 1] == c as usize);
                    }
                }
            }
        } else {
            proof {
                assert forall|c: int| 0 <= c < b + 1 implies (spec_is_affected(parents@, c, affected as int)
                    <==> out@.contains(c as usize)) by {
                    if c == b {
                        if out@.contains(c as usize) {
                            let j = choose|j: int| 0 <= j < out@.len() && out@[j] == c as usize;
                            assert(out@[j] < b);
                        }
                    }
                }
            }
        }
        b = b + 1;
    }
    out
}

} // verus!
