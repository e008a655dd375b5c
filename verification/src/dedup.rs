//! Deduplication of "similar" expressions.
//!
//! Two expressions are similar when they use the same operators and the same
//! operand values, ignoring order — and, deliberately, ignoring repetition
//! counts: the key folds the tree into a *set* of operators and a *set* of
//! distinct operand values, so expressions that differ only in how often they
//! repeat an operand or operator also collapse to one representative. That
//! coarse equivalence is part of the filter's contract and is kept as it is.
//!
//! The filter keeps one representative per key: the last expression seen with
//! a key wins, standing at the position where the key first appeared.

use vstd::prelude::*;

use crate::expr::Operation;
use crate::expr::Operator;

verus! {

/// The set of operators appearing anywhere in the expression.
pub open spec fn spec_key_operators(e: Operation) -> Set<Operator>
    decreases e,
{
    match e {
        Operation::SingleOperand(_) => Set::empty(),
        Operation::Operation(_, op, sub) => spec_key_operators(*sub).insert(op),
    }
}

/// The set of distinct operand values appearing anywhere in the expression.
pub open spec fn spec_key_operands(e: Operation) -> Set<i32>
    decreases e,
{
    match e {
        Operation::SingleOperand(value) => Set::empty().insert(value),
        Operation::Operation(left, _, sub) => spec_key_operands(*sub).insert(left),
    }
}

/// The deduplication equivalence: same operator set and same operand set.
pub open spec fn similar(a: Operation, b: Operation) -> bool {
    spec_key_operators(a) == spec_key_operators(b) && spec_key_operands(a) == spec_key_operands(b)
}

/// The filtered sequence: expressions are processed left to right; one whose
/// key was seen before replaces the earlier representative of that key, at
/// the position the key first appeared; one with a new key is appended.
pub open spec fn spec_filter_similar(s: Seq<Operation>) -> Seq<Operation>
    decreases s.len(),
{
    if s.len() == 0 {
        Seq::empty()
    } else {
        let prev = spec_filter_similar(s.drop_last());
        let e = s.last();
        if exists|i: int| 0 <= i < prev.len() && similar(prev[i], e) {
            prev.update(choose|i: int| 0 <= i < prev.len() && similar(prev[i], e), e)
        } else {
            prev.push(e)
        }
    }
}

/// The key under which an expression is deduplicated. The vectors may hold
/// repeats; only the sets of their elements matter.
pub struct SimilarOperationKey {
    pub operators: Vec<Operator>,
    pub operands: Vec<i32>,
}

/// Whether two keys stand for the same operator set and operand set.
pub open spec fn key_sets_equal(a: SimilarOperationKey, b: SimilarOperationKey) -> bool {
    a.operator_set() == b.operator_set() && a.operand_set() == b.operand_set()
}

impl SimilarOperationKey {
    /// The set of operators the key stands for.
    pub open spec fn operator_set(self) -> Set<Operator> {
        self.operators@.to_set()
    }

    /// The set of operand values the key stands for.
    pub open spec fn operand_set(self) -> Set<i32> {
        self.operands@.to_set()
    }

    /// The key of an expression, by a structural fold over the chain.
    pub fn from_operation(e: &Operation) -> (key: SimilarOperationKey)
        ensures
            key.operator_set() == spec_key_operators(*e),
            key.operand_set() == spec_key_operands(*e),
        decreases *e,
    {
        broadcast use vstd::prelude::Seq::lemma_push_to_set_commute;

        match e {
            Operation::SingleOperand(value) => {
                let mut operands: Vec<i32> = Vec::new();
                operands.push(*value);
                let key = SimilarOperationKey { operators: Vec::new(), operands };
                proof {
                    assert(Seq::<Operator>::empty().to_set() =~= Set::<Operator>::empty());
                    assert(Seq::<i32>::empty().to_set() =~= Set::<i32>::empty());
                    assert(key.operand_set() =~= spec_key_operands(*e));
                }
                key
            },
            Operation::Operation(left, op, sub) => {
                let mut key = SimilarOperationKey::from_operation(sub);
                key.operators.push(*op);
                key.operands.push(*left);
                key
            },
        }
    }
}

fn contains_operand(v: &Vec<i32>, x: i32) -> (found: bool)
    ensures
        found == v@.to_set().contains(x),
{
    for i in 0..v.len()
        invariant
            forall|j: int| 0 <= j < i ==> v@[j] != x,
    {
        if v[i] == x {
            return true;
        }
    }
    false
}

fn contains_operator(v: &Vec<Operator>, x: Operator) -> (found: bool)
    ensures
        found == v@.to_set().contains(x),
{
    for i in 0..v.len()
        invariant
            forall|j: int| 0 <= j < i ==> v@[j] != x,
    {
        if v[i] == x {
            return true;
        }
    }
    false
}

fn operand_subset(a: &Vec<i32>, b: &Vec<i32>) -> (result: bool)
    ensures
        result == a@.to_set().subset_of(b@.to_set()),
{
    for i in 0..a.len()
        invariant
            forall|j: int| 0 <= j < i ==> b@.to_set().contains(#[trigger] a@[j]),
    {
        if !contains_operand(b, a[i]) {
            proof {
                assert(a@.to_set().contains(a@[i as int]));
            }
            return false;
        }
    }
    proof {
        assert forall|x: i32| a@.to_set().contains(x) implies b@.to_set().contains(x) by {
            let j = choose|j: int| 0 <= j < a@.len() && a@[j] == x;
            assert(b@.to_set().contains(a@[j]));
        }
    }
    true
}

fn operator_subset(a: &Vec<Operator>, b: &Vec<Operator>) -> (result: bool)
    ensures
        result == a@.to_set().subset_of(b@.to_set()),
{
    for i in 0..a.len()
        invariant
            forall|j: int| 0 <= j < i ==> b@.to_set().contains(#[trigger] a@[j]),
    {
        if !contains_operator(b, a[i]) {
            proof {
                assert(a@.to_set().contains(a@[i as int]));
            }
            return false;
        }
    }
    proof {
        assert forall|x: Operator| a@.to_set().contains(x) implies b@.to_set().contains(x) by {
            let j = choose|j: int| 0 <= j < a@.len() && a@[j] == x;
            assert(b@.to_set().contains(a@[j]));
        }
    }
    true
}

fn keys_match(a: &SimilarOperationKey, b: &SimilarOperationKey) -> (result: bool)
    ensures
        result == key_sets_equal(*a, *b),
{
    let operators_match = operator_subset(&a.operators, &b.operators) && operator_subset(
        &b.operators,
        &a.operators,
    );
    let operands_match = operand_subset(&a.operands, &b.operands) && operand_subset(
        &b.operands,
        &a.operands,
    );
    proof {
        if operators_match {
            assert(a.operator_set() =~= b.operator_set());
        }
        if operands_match {
            assert(a.operand_set() =~= b.operand_set());
        }
    }
    operators_match && operands_match
}

fn find_key(keys: &Vec<SimilarOperationKey>, key: &SimilarOperationKey) -> (position: Option<usize>)
    ensures
        match position {
            Some(i) => i < keys@.len() && key_sets_equal(keys@[i as int], *key),
            None => forall|j: int| 0 <= j < keys@.len() ==> !key_sets_equal(
                #[trigger] keys@[j],
                *key,
            ),
        },
{
    for i in 0..keys.len()
        invariant
            forall|j: int| 0 <= j < i ==> !key_sets_equal(#[trigger] keys@[j], *key),
    {
        if keys_match(&keys[i], key) {
            return Some(i);
        }
    }
    None
}

/// Law: the representatives kept by the filter are pairwise dissimilar —
/// no two of them share an operator set and an operand set.
pub proof fn lemma_filter_similar_distinct(s: Seq<Operation>)
    ensures
        forall|i: int, j: int|
            #![trigger spec_filter_similar(s)[i], spec_filter_similar(s)[j]]
            0 <= i < j < spec_filter_similar(s).len() ==> !similar(
                spec_filter_similar(s)[i],
                spec_filter_similar(s)[j],
            ),
    decreases s.len(),
{
    if s.len() > 0 {
        lemma_filter_similar_distinct(s.drop_last());
        let prev = spec_filter_similar(s.drop_last());
        let e = s.last();
        let cur = spec_filter_similar(s);
        if exists|x: int| 0 <= x < prev.len() && similar(prev[x], e) {
            let x0 = choose|x: int| 0 <= x < prev.len() && similar(prev[x], e);
            assert(cur == prev.update(x0, e));
            assert forall|i: int, j: int| 0 <= i < j < cur.len() implies !similar(
                cur[i],
                cur[j],
            ) by {
                if i == x0 {
                    assert(!similar(prev[i], prev[j]));
                } else if j == x0 {
                    assert(!similar(prev[i], prev[j]));
                } else {
                    assert(!similar(prev[i], prev[j]));
                }
            }
        } else {
            assert(cur == prev.push(e));
            assert forall|i: int, j: int| 0 <= i < j < cur.len() implies !similar(
                cur[i],
                cur[j],
            ) by {
                if j == prev.len() {
                    assert(!similar(prev[i], e));
                } else {
                    assert(!similar(prev[i], prev[j]));
                }
            }
        }
    }
}

/// Law: every input expression is represented: some kept expression is
/// similar to it.
pub proof fn lemma_filter_similar_covers(s: Seq<Operation>, j: int)
    requires
        0 <= j < s.len(),
    ensures
        exists|i: int|
            0 <= i < spec_filter_similar(s).len() && similar(
                s[j],
                #[trigger] spec_filter_similar(s)[i],
            ),
    decreases s.len(),
{
    let prev = spec_filter_similar(s.drop_last());
    let e = s.last();
    let cur = spec_filter_similar(s);
    if exists|x: int| 0 <= x < prev.len() && similar(prev[x], e) {
        let x0 = choose|x: int| 0 <= x < prev.len() && similar(prev[x], e);
        assert(cur == prev.update(x0, e));
        if j == s.len() - 1 {
            assert(similar(s[j], cur[x0]));
        } else {
            lemma_filter_similar_covers(s.drop_last(), j);
            let i = choose|i: int| 0 <= i < prev.len() && similar(s.drop_last()[j], prev[i]);
            if i == x0 {
                assert(similar(s[j], cur[x0]));
            } else {
                assert(similar(s[j], cur[i]));
            }
        }
    } else {
        assert(cur == prev.push(e));
        if j == s.len() - 1 {
            assert(similar(s[j], cur[prev.len() as int]));
        } else {
            lemma_filter_similar_covers(s.drop_last(), j);
            let i = choose|i: int| 0 <= i < prev.len() && similar(s.drop_last()[j], prev[i]);
            assert(similar(s[j], cur[i]));
        }
    }
}

/// Law: the filter invents nothing — every kept expression is one of the
/// input expressions.
pub proof fn lemma_filter_similar_members(s: Seq<Operation>, i: int)
    requires
        0 <= i < spec_filter_similar(s).len(),
    ensures
        exists|j: int| 0 <= j < s.len() && s[j] == spec_filter_similar(s)[i],
    decreases s.len(),
{
    let prev = spec_filter_similar(s.drop_last());
    let e = s.last();
    let cur = spec_filter_similar(s);
    if exists|x: int| 0 <= x < prev.len() && similar(prev[x], e) {
        let x0 = choose|x: int| 0 <= x < prev.len() && similar(prev[x], e);
        assert(cur == prev.update(x0, e));
        if i == x0 {
            assert(s[s.len() - 1] == cur[i]);
        } else {
            lemma_filter_similar_members(s.drop_last(), i);
            let j = choose|j: int|
                0 <= j < s.drop_last().len() && s.drop_last()[j] == spec_filter_similar(
                    s.drop_last(),
                )[i];
            assert(s[j] == cur[i]);
        }
    } else {
        assert(cur == prev.push(e));
        if i == prev.len() {
            assert(s[s.len() - 1] == cur[i]);
        } else {
            lemma_filter_similar_members(s.drop_last(), i);
            let j = choose|j: int|
                0 <= j < s.drop_last().len() && s.drop_last()[j] == spec_filter_similar(
                    s.drop_last(),
                )[i];
            assert(s[j] == cur[i]);
        }
    }
}

/// Keep one representative per similarity key: the last expression seen with
/// a key survives, at the position where its key first appeared. Expressions
/// with distinct keys all survive, in their first-appearance order.
#[verifier::loop_isolation(false)]
pub fn process_associative_operation_filter(operations: &Vec<Operation>) -> (result: Vec<
    Operation,
>)
    ensures
        result@ == spec_filter_similar(operations@),
{
    let mut keys: Vec<SimilarOperationKey> = Vec::new();
    let mut reps: Vec<Operation> = Vec::new();
    for idx in 0..operations.len()
        invariant
            reps@ == spec_filter_similar(operations@.take(idx as int)),
            keys@.len() == reps@.len(),
            forall|j: int|
                0 <= j < keys@.len() ==> (#[trigger] keys@[j]).operator_set()
                    == spec_key_operators(reps@[j]) && keys@[j].operand_set()
                    == spec_key_operands(reps@[j]),
    {
        let e_ref = &operations[idx];
        let key = SimilarOperationKey::from_operation(e_ref);
        let ghost prev = reps@;
        let ghost e = operations@[idx as int];
        proof {
            lemma_filter_similar_distinct(operations@.take(idx as int));
            assert(operations@.take(idx + 1).drop_last() =~= operations@.take(idx as int));
            assert(operations@.take(idx + 1).last() == e);
        }
        match find_key(&keys, &key) {
            Some(i) => {
                let owned = e_ref.duplicate();
                reps.remove(i);
                reps.insert(i, owned);
                proof {
                    assert(similar(prev[i as int], e));
                    let x0 = choose|x: int| 0 <= x < prev.len() && similar(prev[x], e);
                    if x0 != i as int {
                        assert(!similar(prev[x0], prev[i as int]));
                        assert(false);
                    }
                    assert(reps@ =~= prev.update(i as int, e));
                    assert(reps@ == spec_filter_similar(operations@.take(idx + 1)));
                }
            },
            None => {
                proof {
                    assert forall|x: int| 0 <= x < prev.len() implies !similar(
                        #[trigger] prev[x],
                        e,
                    ) by {
                        assert(!key_sets_equal(keys@[x], key));
                    }
                }
                let owned = e_ref.duplicate();
                keys.push(key);
                reps.push(owned);
                proof {
                    assert(reps@ == spec_filter_similar(operations@.take(idx + 1)));
                }
            },
        }
    }
    proof {
        assert(operations@.take(operations@.len() as int) =~= operations@);
    }
    reps
}

} // verus!
