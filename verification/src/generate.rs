//! The three generators of the search: subsets, orderings, and expressions.
//!
//! Subset enumeration walks a 32-bit mask through `0..2^n`, so the operand
//! count must stay below 32; orderings and expression trees are produced by
//! straightforward recursive enumeration. Everything is eager: each stage
//! returns the complete vector of what it generates, which is acceptable
//! because the exponential growth already bounds practical input sizes.

use vstd::prelude::*;
use vstd::arithmetic::power2::pow2;
use vstd::arithmetic::power2::lemma_pow2_unfold;
use vstd::arithmetic::power2::lemma_pow2_pos;
use vstd::arithmetic::power2::lemma_pow2_strictly_increases;
use vstd::arithmetic::power2::lemma2_to64;
use vstd::arithmetic::power::pow;

use crate::expr::Operation;
use crate::expr::Operator;
use crate::expr::SearchError;

verus! {

/// The subset of `s` selected by the set bits of `mask`: bit `i` of the mask
/// selects `s[i]`, and the chosen elements keep their relative order.
pub open spec fn mask_subset(s: Seq<i32>, mask: nat) -> Seq<i32>
    decreases s.len(),
{
    if s.len() == 0 {
        Seq::empty()
    } else if mask % 2 == 1 {
        seq![s[0]] + mask_subset(s.drop_first(), mask / 2)
    } else {
        mask_subset(s.drop_first(), mask / 2)
    }
}

/// Every subset of `vec` (the power set), including the empty subset and the
/// full sequence. Subset `m` of the result is the one selected by the bits
/// of `m`, so the result has exactly `2^n` entries, emitted by increasing
/// mask value. Fails with `SetTooLarge` for 32 or more operands, which the
/// 32-bit mask enumeration cannot cover.
pub fn power_set(vec: &Vec<i32>) -> (result: Result<Vec<Vec<i32>>, SearchError>)
    ensures
        match result {
            Ok(subsets) => vec@.len() < 32 && subsets@.len() == pow2(vec@.len())
                && forall|m: int|
                    0 <= m < subsets@.len() ==> (#[trigger] subsets@[m])@ == mask_subset(
                        vec@,
                        m as nat,
                    ),
            Err(e) => e == SearchError::SetTooLarge && vec@.len() >= 32,
        },
{
    if vec.len() >= 32 {
        return Err(SearchError::SetTooLarge);
    }
    let mut total: u32 = 1;
    let mut i: usize = 0;
    proof {
        lemma2_to64();
    }
    while i < vec.len()
        invariant
            i <= vec@.len() < 32,
            total == pow2(i as nat),
            pow2(31) == 0x8000_0000,
        decreases vec@.len() - i,
    {
        proof {
            lemma_pow2_unfold((i + 1) as nat);
            if i + 1 < 31 {
                lemma_pow2_strictly_increases((i + 1) as nat, 31);
            }
        }
        total = total * 2;
        i = i + 1;
    }
    let ghost n = vec@.len();
    let mut subsets: Vec<Vec<i32>> = Vec::new();
    let mut mask: u32 = 0;
    while mask < total
        invariant
            total == pow2(n),
            n == vec@.len() < 32,
            mask <= total,
            subsets@.len() == mask as nat,
            forall|m: int|
                0 <= m < subsets@.len() ==> (#[trigger] subsets@[m])@ == mask_subset(
                    vec@,
                    m as nat,
                ),
        decreases total - mask,
    {
        let mut sub: Vec<i32> = Vec::new();
        let mut rem: u32 = mask;
        let mut i: usize = 0;
        proof {
            assert(vec@.skip(0) =~= vec@);
        }
        while i < vec.len()
            invariant
                i <= vec@.len(),
                mask_subset(vec@, mask as nat) == sub@ + mask_subset(
                    vec@.skip(i as int),
                    rem as nat,
                ),
            decreases vec@.len() - i,
        {
            proof {
                assert(vec@.skip(i as int).drop_first() =~= vec@.skip(i as int + 1));
                assert(vec@.skip(i as int)[0] == vec@[i as int]);
            }
            let ghost old_sub = sub@;
            let ghost tail = mask_subset(vec@.skip(i as int + 1), (rem / 2) as nat);
            if rem % 2 == 1 {
                sub.push(vec[i]);
                proof {
                    assert(old_sub + (seq![vec@[i as int]] + tail) =~= sub@ + tail);
                }
            }
            rem = rem / 2;
            i = i + 1;
        }
        proof {
            assert(vec@.skip(vec@.len() as int).len() == 0);
            assert(sub@ + mask_subset(vec@.skip(vec@.len() as int), rem as nat) =~= sub@);
        }
        subsets.push(sub);
        mask = mask + 1;
    }
    Ok(subsets)
}

proof fn lemma_mask_subset_len(s: Seq<i32>, mask: nat)
    ensures
        mask_subset(s, mask).len() <= s.len(),
    decreases s.len(),
{
    if s.len() > 0 {
        lemma_mask_subset_len(s.drop_first(), mask / 2);
    }
}

proof fn lemma_mask_subset_zero(s: Seq<i32>)
    ensures
        mask_subset(s, 0) == Seq::<i32>::empty(),
    decreases s.len(),
{
    if s.len() > 0 {
        lemma_mask_subset_zero(s.drop_first());
    }
    assert(mask_subset(s, 0) =~= Seq::<i32>::empty());
}

proof fn lemma_mask_subset_full(s: Seq<i32>)
    ensures
        mask_subset(s, (pow2(s.len()) - 1) as nat) == s,
    decreases s.len(),
{
    lemma2_to64();
    if s.len() == 0 {
        assert(mask_subset(s, 0) =~= s);
    } else {
        let n = s.len();
        lemma_pow2_unfold(n);
        lemma_pow2_pos((n - 1) as nat);
        let m = (pow2(n) - 1) as nat;
        let half = (pow2((n - 1) as nat) - 1) as nat;
        assert(m == 2 * half + 1);
        assert(m % 2 == 1 && m / 2 == half);
        lemma_mask_subset_full(s.drop_first());
        assert(seq![s[0]] + s.drop_first() =~= s);
    }
}

proof fn lemma_mask_subset_nonempty(s: Seq<i32>, mask: nat)
    requires
        0 < mask < pow2(s.len()),
    ensures
        mask_subset(s, mask).len() > 0,
    decreases s.len(),
{
    lemma2_to64();
    if s.len() == 0 {
        assert(pow2(0) == 1);
    } else if mask % 2 == 0 {
        lemma_pow2_unfold(s.len());
        lemma_mask_subset_nonempty(s.drop_first(), mask / 2);
    }
}

proof fn lemma_mask_subset_partial(s: Seq<i32>, mask: nat)
    requires
        mask < (pow2(s.len()) - 1) as nat,
    ensures
        mask_subset(s, mask).len() < s.len(),
    decreases s.len(),
{
    lemma2_to64();
    if s.len() == 0 {
        assert(pow2(0) == 1);
    } else if mask % 2 == 1 {
        lemma_pow2_unfold(s.len());
        lemma_mask_subset_partial(s.drop_first(), mask / 2);
    } else {
        lemma_mask_subset_len(s.drop_first(), mask / 2);
    }
}

/// Law: among the `2^n` subsets selected by masks `0..2^n`, the empty subset
/// appears exactly once (at mask 0) and the full sequence exactly once (at
/// mask `2^n - 1`); every other mask selects a proper, non-empty subsequence.
pub proof fn lemma_power_set_extremes(s: Seq<i32>)
    ensures
        mask_subset(s, 0) == Seq::<i32>::empty(),
        mask_subset(s, (pow2(s.len()) - 1) as nat) == s,
        forall|m: nat|
            0 < m < (pow2(s.len()) - 1) as nat ==> 0 < (#[trigger] mask_subset(s, m)).len()
                < s.len(),
{
    lemma_mask_subset_zero(s);
    lemma_mask_subset_full(s);
    assert forall|m: nat| 0 < m < (pow2(s.len()) - 1) as nat implies 0 < (#[trigger] mask_subset(
        s,
        m,
    )).len() < s.len() by {
        lemma_pow2_pos(s.len());
        lemma_mask_subset_nonempty(s, m);
        lemma_mask_subset_partial(s, m);
    }
}

/// `n!`, the number of orderings of `n` distinguishable items.
pub open spec fn fact(n: nat) -> nat
    decreases n,
{
    if n == 0 {
        1
    } else {
        n * fact((n - 1) as nat)
    }
}

/// The views of a sequence of vectors, row by row.
pub open spec fn views_of(rows: Seq<Vec<i32>>) -> Seq<Seq<i32>> {
    rows.map_values(|row: Vec<i32>| row@)
}

/// Every ordering `p` of `ps`, each extended by `x` at the end.
pub open spec fn append_each(ps: Seq<Seq<i32>>, x: i32) -> Seq<Seq<i32>> {
    ps.map_values(|p: Seq<i32>| p.push(x))
}

/// All orderings of `s`, in the order the recursive enumeration emits them:
/// for each index `i` in turn, every ordering of `s` without its `i`-th
/// element, extended by that element at the end. A sequence of length 0 has
/// exactly one ordering, the empty one.
pub open spec fn spec_perms(s: Seq<i32>) -> Seq<Seq<i32>>
    decreases s.len(), 1int, 0int,
{
    if s.len() == 0 {
        seq![Seq::<i32>::empty()]
    } else {
        perms_upto(s, s.len() as int)
    }
}

/// The orderings of `s` contributed by the choices `0..k` of which element
/// comes last.
pub open spec fn perms_upto(s: Seq<i32>, k: int) -> Seq<Seq<i32>>
    decreases s.len(), 0int, k,
{
    if k <= 0 || k > s.len() {
        Seq::empty()
    } else {
        perms_upto(s, k - 1) + append_each(spec_perms(s.remove(k - 1)), s[k - 1])
    }
}

fn copy_vec(v: &Vec<i32>) -> (copy: Vec<i32>)
    ensures
        copy@ == v@,
{
    let mut copy: Vec<i32> = Vec::new();
    for i in 0..v.len()
        invariant
            copy@ == v@.take(i as int),
    {
        copy.push(v[i]);
        proof {
            assert(v@.take(i as int).push(v@[i as int]) =~= v@.take(i + 1));
        }
    }
    proof {
        assert(v@.take(v@.len() as int) =~= v@);
    }
    copy
}

/// Every ordering of `vec`: `n!` orderings for `n` elements, emitted in the
/// recursive enumeration order of [`spec_perms`]. Positions with equal values
/// are treated as distinguishable, so equal values produce duplicate
/// orderings. An empty input yields exactly one ordering, the empty one.
pub fn permutations(vec: &Vec<i32>) -> (result: Vec<Vec<i32>>)
    ensures
        views_of(result@) == spec_perms(vec@),
    decreases vec@.len(),
{
    let mut result: Vec<Vec<i32>> = Vec::new();
    if vec.len() == 0 {
        let empty_row: Vec<i32> = Vec::new();
        result.push(empty_row);
        proof {
            assert(views_of(result@) =~= spec_perms(vec@));
        }
        result
    } else {
        proof {
            assert(views_of(result@) =~= perms_upto(vec@, 0));
        }
        for i in 0..vec.len()
            invariant
                views_of(result@) == perms_upto(vec@, i as int),
        {
            let mut without = copy_vec(vec);
            let removed = without.remove(i);
            let subs = permutations(&without);
            let ghost sub_perms = spec_perms(vec@.remove(i as int));
            let ghost group = append_each(sub_perms, vec@[i as int]);
            for j in 0..subs.len()
                invariant
                    views_of(result@) == perms_upto(vec@, i as int) + group.take(j as int),
                    views_of(subs@) == sub_perms,
                    group == append_each(sub_perms, vec@[i as int]),
                    removed == vec@[i as int],
                    0 <= i < vec@.len(),
            {
                let mut p = copy_vec(&subs[j]);
                p.push(removed);
                let ghost prev = result@;
                result.push(p);
                proof {
                    assert(p@ == group[j as int]);
                    assert(views_of(result@) =~= views_of(prev).push(p@));
                    assert(group.take(j as int).push(group[j as int]) =~= group.take(j + 1));
                }
            }
            proof {
                assert(group.take(group.len() as int) =~= group);
                assert(perms_upto(vec@, i as int + 1) == perms_upto(vec@, i as int) + group);
            }
        }
        proof {
            assert(perms_upto(vec@, vec@.len() as int) == spec_perms(vec@));
        }
        result
    }
}

proof fn lemma_perms_upto_count(s: Seq<i32>, k: int)
    requires
        s.len() >= 1,
        0 <= k <= s.len(),
    ensures
        perms_upto(s, k).len() == k * fact((s.len() - 1) as nat),
    decreases s.len(), 0int, k,
{
    let f: nat = fact((s.len() - 1) as nat);
    if k > 0 {
        lemma_perms_upto_count(s, k - 1);
        lemma_permutations_count(s.remove(k - 1));
        assert(perms_upto(s, k).len() == (k - 1) * f + f);
        assert((k - 1) * f + f == k * f) by (nonlinear_arith);
    } else {
        assert(k * f == 0) by (nonlinear_arith)
            requires
                k == 0,
        ;
    }
}

/// Law: a sequence of length `n` has exactly `n!` orderings.
pub proof fn lemma_permutations_count(s: Seq<i32>)
    ensures
        spec_perms(s).len() == fact(s.len()),
    decreases s.len(), 1int, 0int,
{
    if s.len() > 0 {
        lemma_perms_upto_count(s, s.len() as int);
    }
}

proof fn lemma_perms_upto_multiset(s: Seq<i32>, k: int, i: int)
    requires
        s.len() >= 1,
        0 <= k <= s.len(),
        0 <= i < perms_upto(s, k).len(),
    ensures
        perms_upto(s, k)[i].to_multiset() == s.to_multiset(),
    decreases s.len(), 0int, k,
{
    broadcast use vstd::seq_lib::group_to_multiset_ensures;

    if k > 0 {
        let prev = perms_upto(s, k - 1);
        if i < prev.len() {
            lemma_perms_upto_multiset(s, k - 1, i);
        } else {
            let shorter = s.remove(k - 1);
            let j = i - prev.len();
            lemma_permutations_multiset(shorter, j);
            assert(perms_upto(s, k)[i] == spec_perms(shorter)[j].push(s[k - 1]));
            assert(s.contains(s[k - 1]));
            assert(shorter.to_multiset().insert(s[k - 1]) =~= s.to_multiset());
        }
    }
}

/// Law: every ordering in `spec_perms(s)` is a reordering of `s`: it holds
/// exactly the same multiset of elements (and so also the same length).
pub proof fn lemma_permutations_multiset(s: Seq<i32>, i: int)
    requires
        0 <= i < spec_perms(s).len(),
    ensures
        spec_perms(s)[i].to_multiset() == s.to_multiset(),
        spec_perms(s)[i].len() == s.len(),
    decreases s.len(), 1int, 0int,
{
    broadcast use vstd::seq_lib::group_to_multiset_ensures;

    if s.len() == 0 {
        assert(spec_perms(s)[i].to_multiset() =~= s.to_multiset());
    } else {
        lemma_perms_upto_multiset(s, s.len() as int, i);
    }
    assert(spec_perms(s)[i].to_multiset().len() == spec_perms(s)[i].len());
    assert(s.to_multiset().len() == s.len());
}

/// The four candidate expressions built from one leading operand and one
/// finished chain over the rest, in operator enumeration order.
pub open spec fn four_nodes(first: i32, sub: Operation) -> Seq<Operation> {
    seq![
        Operation::Operation(first, Operator::Add, Box::new(sub)),
        Operation::Operation(first, Operator::Subtract, Box::new(sub)),
        Operation::Operation(first, Operator::Divide, Box::new(sub)),
        Operation::Operation(first, Operator::Multiply, Box::new(sub)),
    ]
}

/// The expressions contributed by the first `k` chains of `subs`, four per
/// chain.
pub open spec fn nodes_upto(first: i32, subs: Seq<Operation>, k: int) -> Seq<Operation>
    decreases k,
{
    if k <= 0 {
        Seq::empty()
    } else {
        nodes_upto(first, subs, k - 1) + four_nodes(first, subs[k - 1])
    }
}

/// Every expression over the non-empty operand sequence `s`, keeping the
/// given operand order: one bare leaf for a single operand; otherwise, for
/// each chain over the operands after the first (outer, in their generated
/// order) and each of the four operators (inner, in enumeration order), the
/// node joining the first operand to that chain.
pub open spec fn spec_operations(s: Seq<i32>) -> Seq<Operation>
    decreases s.len(),
{
    if s.len() <= 1 {
        seq![Operation::SingleOperand(s[0])]
    } else {
        let subs = spec_operations(s.drop_first());
        nodes_upto(s[0], subs, subs.len() as int)
    }
}

/// Every expression tree over `operands` in the given order: `4^(n-1)` trees
/// for `n` operands. Fails with `EmptyInput` when no operand is given, since
/// an expression needs at least one.
pub fn generate_operations(operands: &Vec<i32>) -> (result: Result<Vec<Operation>, SearchError>)
    ensures
        match result {
            Ok(ops) => operands@.len() >= 1 && ops@ == spec_operations(operands@),
            Err(e) => e == SearchError::EmptyInput && operands@.len() == 0,
        },
    decreases operands@.len(),
{
    if operands.len() == 0 {
        return Err(SearchError::EmptyInput);
    }
    if operands.len() == 1 {
        let mut ops: Vec<Operation> = Vec::new();
        ops.push(Operation::SingleOperand(operands[0]));
        proof {
            assert(ops@ =~= spec_operations(operands@));
        }
        return Ok(ops);
    }
    let first = operands[0];
    let mut rest: Vec<i32> = Vec::new();
    proof {
        assert(rest@ =~= operands@.subrange(1, 1));
    }
    for i in 1..operands.len()
        invariant
            rest@ == operands@.subrange(1, i as int),
            operands@.len() >= 2,
    {
        rest.push(operands[i]);
        proof {
            assert(operands@.subrange(1, i as int).push(operands@[i as int]) =~= operands@
                .subrange(1, i + 1));
        }
    }
    proof {
        assert(rest@ =~= operands@.drop_first());
    }
    let subs = match generate_operations(&rest) {
        Ok(subs) => subs,
        Err(e) => {
            proof {
                assert(false);
            }
            return Err(e);
        },
    };
    let ghost subs_spec = spec_operations(operands@.drop_first());
    let mut ops: Vec<Operation> = Vec::new();
    for j in 0..subs.len()
        invariant
            subs@ == subs_spec,
            ops@ == nodes_upto(first, subs_spec, j as int),
            first == operands@[0],
    {
        let sub = &subs[j];
        ops.push(Operation::Operation(first, Operator::Add, Box::new(sub.duplicate())));
        ops.push(Operation::Operation(first, Operator::Subtract, Box::new(sub.duplicate())));
        ops.push(Operation::Operation(first, Operator::Divide, Box::new(sub.duplicate())));
        ops.push(Operation::Operation(first, Operator::Multiply, Box::new(sub.duplicate())));
        proof {
            assert(ops@ =~= nodes_upto(first, subs_spec, j as int) + four_nodes(
                first,
                subs_spec[j as int],
            ));
        }
    }
    proof {
        assert(ops@ == spec_operations(operands@));
    }
    Ok(ops)
}

proof fn lemma_nodes_upto_count(first: i32, subs: Seq<Operation>, k: int)
    requires
        0 <= k,
    ensures
        nodes_upto(first, subs, k).len() == 4 * k,
    decreases k,
{
    if k > 0 {
        lemma_nodes_upto_count(first, subs, k - 1);
    }
}

/// Law: a non-empty operand sequence of length `n` yields exactly `4^(n-1)`
/// expressions (one bare leaf when `n` is 1).
pub proof fn lemma_operations_count(s: Seq<i32>)
    requires
        s.len() >= 1,
    ensures
        spec_operations(s).len() == pow(4, (s.len() - 1) as nat),
    decreases s.len(),
{
    reveal(pow);
    if s.len() == 1 {
        assert(pow(4, 0) == 1);
    } else {
        lemma_operations_count(s.drop_first());
        let subs = spec_operations(s.drop_first());
        lemma_nodes_upto_count(s[0], subs, subs.len() as int);
        assert(pow(4, (s.len() - 1) as nat) == 4 * pow(4, (s.len() - 2) as nat));
    }
}

proof fn lemma_nodes_upto_operands(first: i32, subs: Seq<Operation>, k: int, t: Seq<i32>, i: int)
    requires
        0 <= k <= subs.len(),
        forall|j: int| 0 <= j < subs.len() ==> (#[trigger] subs[j]).spec_operands() == t,
        0 <= i < nodes_upto(first, subs, k).len(),
    ensures
        nodes_upto(first, subs, k)[i].spec_operands() == seq![first] + t,
    decreases k,
{
    if k > 0 {
        let prev = nodes_upto(first, subs, k - 1);
        if i < prev.len() {
            lemma_nodes_upto_operands(first, subs, k - 1, t, i);
        } else {
            assert(nodes_upto(first, subs, k)[i] == four_nodes(first, subs[k - 1])[i - prev.len()]);
        }
    }
}

/// Law: every generated expression, flattened, uses the `n` given operands in
/// exactly the given left-to-right order.
pub proof fn lemma_operations_operands(s: Seq<i32>, i: int)
    requires
        s.len() >= 1,
        0 <= i < spec_operations(s).len(),
    ensures
        spec_operations(s)[i].spec_operands() == s,
    decreases s.len(),
{
    if s.len() == 1 {
        assert(spec_operations(s)[i].spec_operands() =~= s);
    } else {
        let subs = spec_operations(s.drop_first());
        assert forall|j: int| 0 <= j < subs.len() implies (#[trigger] subs[j]).spec_operands()
            == s.drop_first() by {
            lemma_operations_operands(s.drop_first(), j);
        }
        lemma_nodes_upto_operands(s[0], subs, subs.len() as int, s.drop_first(), i);
        assert(seq![s[0]] + s.drop_first() =~= s);
    }
}

} // verus!
