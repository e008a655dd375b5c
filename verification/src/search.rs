//! The search driver: subsets, then orderings, then expressions, then the
//! evaluation filter.
//!
//! A pure generate-and-test search with no pruning: every subset of every
//! size, every ordering of each subset, and every operator assignment is
//! built and evaluated. The total candidate count is the sum over subset
//! sizes `k` of `C(n,k) * k! * 4^(k-1)`, on the order of `n * n! * 4^(n-1)`,
//! so inputs beyond roughly eight to ten operands are impractical.

use vstd::prelude::*;
use vstd::arithmetic::power2::pow2;

use crate::expr::Operation;
use crate::expr::SearchError;
use crate::generate::generate_operations;
use crate::generate::mask_subset;
use crate::generate::permutations;
use crate::generate::power_set;
use crate::generate::spec_operations;
use crate::generate::spec_perms;
use crate::generate::views_of;

verus! {

/// The expressions among `candidates` whose value is `target`, in order.
pub open spec fn matching(candidates: Seq<Operation>, target: i32) -> Seq<Operation> {
    candidates.filter(|e: Operation| e.spec_evaluate() == target)
}

/// What one ordering of operands contributes to the candidate stream: every
/// expression over it, or nothing for the empty ordering (which only the
/// empty subset produces, and which no expression can be built over).
pub open spec fn ordering_candidates(p: Seq<i32>) -> Seq<Operation> {
    if p.len() == 0 {
        Seq::empty()
    } else {
        spec_operations(p)
    }
}

/// The candidates contributed by the first `k` orderings of `ps`.
pub open spec fn orderings_upto(ps: Seq<Seq<i32>>, k: int) -> Seq<Operation>
    decreases k,
{
    if k <= 0 {
        Seq::empty()
    } else {
        orderings_upto(ps, k - 1) + ordering_candidates(ps[k - 1])
    }
}

/// The candidates contributed by one subset: those of each of its orderings,
/// in enumeration order.
pub open spec fn subset_candidates(t: Seq<i32>) -> Seq<Operation> {
    orderings_upto(spec_perms(t), spec_perms(t).len() as int)
}

/// The candidates contributed by the subsets selected by masks `0..m`.
pub open spec fn masks_upto(s: Seq<i32>, m: int) -> Seq<Operation>
    decreases m,
{
    if m <= 0 {
        Seq::empty()
    } else {
        masks_upto(s, m - 1) + subset_candidates(mask_subset(s, (m - 1) as nat))
    }
}

/// The full candidate stream of the search over `s`: for every subset, every
/// ordering of it, every expression over that ordering.
pub open spec fn spec_candidates(s: Seq<i32>) -> Seq<Operation> {
    masks_upto(s, pow2(s.len()) as int)
}

proof fn lemma_matching_empty(target: i32)
    ensures
        matching(Seq::empty(), target) == Seq::<Operation>::empty(),
{
    reveal(Seq::filter);
}

proof fn lemma_matching_extend(c: Seq<Operation>, e: Operation, target: i32)
    ensures
        matching(c.push(e), target) == if e.spec_evaluate() == target {
            matching(c, target).push(e)
        } else {
            matching(c, target)
        },
{
    reveal(Seq::filter);
    assert(c.push(e).drop_last() =~= c);
    assert(c.push(e).last() == e);
}

/// Every expression over `operands` whose value is `target_value`: for each
/// subset of the operands, each ordering of the subset, and each operator
/// assignment, the expressions that evaluate to the target, in enumeration
/// order. Fails with `EmptyInput` for no operands and with `SetTooLarge` for
/// 32 or more; between those bounds the search always succeeds (possibly
/// with an empty result).
#[verifier::loop_isolation(false)]
pub fn find_operations_for_value(operands: &Vec<i32>, target_value: i32) -> (result: Result<
    Vec<Operation>,
    SearchError,
>)
    ensures
        match result {
            Ok(found) => 1 <= operands@.len() < 32 && found@ == matching(
                spec_candidates(operands@),
                target_value,
            ),
            Err(e) => (e == SearchError::EmptyInput && operands@.len() == 0) || (e
                == SearchError::SetTooLarge && operands@.len() >= 32),
        },
{
    if operands.len() == 0 {
        return Err(SearchError::EmptyInput);
    }
    let subsets = match power_set(operands) {
        Ok(subsets) => subsets,
        Err(e) => {
            return Err(e);
        },
    };
    let ghost s = operands@;
    let mut found: Vec<Operation> = Vec::new();
    proof {
        lemma_matching_empty(target_value);
    }
    for m in 0..subsets.len()
        invariant
            found@ == matching(masks_upto(s, m as int), target_value),
    {
        let perms = permutations(&subsets[m]);
        let ghost t = mask_subset(s, m as nat);
        let ghost ps = spec_perms(t);
        proof {
            assert(subsets@[m as int]@ == t);
            assert(views_of(perms@) == ps);
        }
        for k in 0..perms.len()
            invariant
                found@ == matching(
                    masks_upto(s, m as int) + orderings_upto(ps, k as int),
                    target_value,
                ),
        {
            let perm = &perms[k];
            proof {
                assert(perm@ == ps[k as int]);
            }
            let ghost base = masks_upto(s, m as int) + orderings_upto(ps, k as int);
            if perm.len() > 0 {
                let ops = match generate_operations(perm) {
                    Ok(ops) => ops,
                    Err(e) => {
                        proof {
                            assert(false);
                        }
                        return Err(e);
                    },
                };
                for j in 0..ops.len()
                    invariant
                        found@ == matching(base + ops@.take(j as int), target_value),
                {
                    let value = ops[j].evaluate();
                    proof {
                        lemma_matching_extend(base + ops@.take(j as int), ops@[j as int],
                            target_value);
                        assert((base + ops@.take(j as int)).push(ops@[j as int]) =~= base
                            + ops@.take(j + 1));
                    }
                    if value == target_value {
                        found.push(ops[j].duplicate());
                    }
                }
                proof {
                    assert(ops@.take(ops@.len() as int) =~= ops@);
                    assert(ops@ == ordering_candidates(ps[k as int]));
                    assert(base + ordering_candidates(ps[k as int]) =~= masks_upto(s, m as int)
                        + orderings_upto(ps, k + 1));
                }
            } else {
                proof {
                    assert(ordering_candidates(ps[k as int]) =~= Seq::<Operation>::empty());
                    assert(base + ordering_candidates(ps[k as int]) =~= base);
                    assert(masks_upto(s, m as int) + orderings_upto(ps, k + 1) =~= base);
                }
            }
        }
        proof {
            assert(orderings_upto(ps, ps.len() as int) == subset_candidates(t));
            assert(masks_upto(s, m as int) + subset_candidates(t) == masks_upto(s, m + 1));
        }
    }
    proof {
        assert(masks_upto(s, subsets@.len() as int) == spec_candidates(s));
    }
    Ok(found)
}

} // verus!
