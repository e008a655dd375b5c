use chance::find_operations_for_value;
use chance::format_operations;
use chance::generate_operations;
use chance::permutations;
use chance::power_set;
use chance::process_associative_operation_filter;
use chance::Operation;
use chance::Operator;
use chance::SearchError;

fn leaf(value: i32) -> Operation {
    Operation::SingleOperand(value)
}

fn node(left: i32, op: Operator, right: Operation) -> Operation {
    Operation::Operation(left, op, Box::new(right))
}

#[test]
fn operator_values_order() {
    let ops = Operator::values();
    assert_eq!(
        ops,
        vec![Operator::Add, Operator::Subtract, Operator::Divide, Operator::Multiply]
    );
}

#[test]
fn operator_display_symbols() {
    assert_eq!(Operator::Add.display(), "+");
    assert_eq!(Operator::Subtract.display(), "-");
    assert_eq!(Operator::Multiply.display(), "*");
    assert_eq!(Operator::Divide.display(), "/");
}

#[test]
fn apply_basic_arithmetic() {
    assert_eq!(Operator::Add.apply(2, 3), 5);
    assert_eq!(Operator::Subtract.apply(2, 3), -1);
    assert_eq!(Operator::Multiply.apply(4, 5), 20);
    assert_eq!(Operator::Divide.apply(7, 2), 3);
    assert_eq!(Operator::Divide.apply(-7, 2), -3);
}

#[test]
fn apply_divide_by_zero_yields_zero() {
    assert_eq!(Operator::Divide.apply(5, 0), 0);
    assert_eq!(Operator::Divide.apply(-5, 0), 0);
    assert_eq!(Operator::Divide.apply(0, 0), 0);
}

#[test]
fn apply_wraps_on_overflow() {
    assert_eq!(Operator::Add.apply(i32::MAX, 1), i32::MIN);
    assert_eq!(Operator::Subtract.apply(i32::MIN, 1), i32::MAX);
    assert_eq!(Operator::Multiply.apply(1 << 16, 1 << 16), 0);
    assert_eq!(Operator::Divide.apply(i32::MIN, -1), i32::MIN);
}

#[test]
fn evaluate_single_operand() {
    assert_eq!(leaf(41).evaluate(), 41);
    assert_eq!(leaf(-7).evaluate(), -7);
}

#[test]
fn evaluate_divide_by_zero_subexpression() {
    assert_eq!(node(5, Operator::Divide, leaf(0)).evaluate(), 0);
}

#[test]
fn evaluate_right_leaning_chain() {
    // 1 + (2 * 3) == 7: the right side binds as a whole chain.
    assert_eq!(node(1, Operator::Add, node(2, Operator::Multiply, leaf(3))).evaluate(), 7);
    // 10 - (6 / 2) == 7
    assert_eq!(node(10, Operator::Subtract, node(6, Operator::Divide, leaf(2))).evaluate(), 7);
}

#[test]
fn render_single_operand() {
    assert_eq!(leaf(42).render(), "42");
    assert_eq!(leaf(0).render(), "0");
    assert_eq!(leaf(-5).render(), "-5");
    assert_eq!(leaf(i32::MIN).render(), "-2147483648");
    assert_eq!(leaf(i32::MAX).render(), "2147483647");
}

#[test]
fn render_chain_is_flat() {
    let expression = node(1, Operator::Add, node(2, Operator::Multiply, leaf(3)));
    assert_eq!(expression.render(), "1 + 2 * 3");
}

#[test]
fn duplicate_is_equal() {
    let expression = node(1, Operator::Divide, node(-2, Operator::Subtract, leaf(3)));
    let copy = expression.duplicate();
    assert_eq!(copy.render(), expression.render());
    assert_eq!(copy.evaluate(), expression.evaluate());
}

#[test]
fn format_joins_with_newlines() {
    let operations = vec![node(1, Operator::Add, leaf(2)), leaf(3)];
    assert_eq!(format_operations(&operations), "1 + 2\n3");
    assert_eq!(format_operations(&Vec::new()), "");
    assert_eq!(format_operations(&vec![leaf(9)]), "9");
}

#[test]
fn power_set_of_three() {
    let subsets = power_set(&vec![1, 2, 3]).unwrap();
    let expected: Vec<Vec<i32>> = vec![
        vec![],
        vec![1],
        vec![2],
        vec![1, 2],
        vec![3],
        vec![1, 3],
        vec![2, 3],
        vec![1, 2, 3],
    ];
    assert_eq!(subsets, expected);
}

#[test]
fn power_set_of_empty() {
    let subsets = power_set(&Vec::new()).unwrap();
    assert_eq!(subsets, vec![Vec::<i32>::new()]);
}

#[test]
fn power_set_too_large() {
    let operands: Vec<i32> = vec![0; 32];
    assert!(matches!(power_set(&operands), Err(SearchError::SetTooLarge)));
}

#[test]
fn permutations_of_three() {
    let perms = permutations(&vec![1, 2, 3]);
    let expected: Vec<Vec<i32>> = vec![
        vec![3, 2, 1],
        vec![2, 3, 1],
        vec![3, 1, 2],
        vec![1, 3, 2],
        vec![2, 1, 3],
        vec![1, 2, 3],
    ];
    assert_eq!(perms, expected);
}

#[test]
fn permutations_count_and_content() {
    let perms = permutations(&vec![4, 7, 9, 11]);
    assert_eq!(perms.len(), 24);
    for perm in &perms {
        let mut sorted = perm.clone();
        sorted.sort();
        assert_eq!(sorted, vec![4, 7, 9, 11]);
    }
}

#[test]
fn permutations_of_empty() {
    assert_eq!(permutations(&Vec::new()), vec![Vec::<i32>::new()]);
}

#[test]
fn permutations_keep_equal_values_apart() {
    // Two equal values are distinguishable by position: both orderings appear.
    assert_eq!(permutations(&vec![5, 5]), vec![vec![5, 5], vec![5, 5]]);
}

#[test]
fn generate_operations_over_pair() {
    let operations = generate_operations(&vec![1, 2]).unwrap();
    let rendered: Vec<String> = operations.iter().map(|op| op.render()).collect();
    assert_eq!(rendered, vec!["1 + 2", "1 - 2", "1 / 2", "1 * 2"]);
    let values: Vec<i32> = operations.iter().map(|op| op.evaluate()).collect();
    assert_eq!(values, vec![3, -1, 0, 2]);
}

#[test]
fn generate_operations_counts() {
    assert_eq!(generate_operations(&vec![8]).unwrap().len(), 1);
    assert_eq!(generate_operations(&vec![1, 2, 3]).unwrap().len(), 16);
    assert_eq!(generate_operations(&vec![1, 2, 3, 4]).unwrap().len(), 64);
}

#[test]
fn generate_operations_keep_operand_order() {
    let operations = generate_operations(&vec![9, 1, 4]).unwrap();
    for operation in &operations {
        let rendered = operation.render();
        let operands: Vec<&str> = rendered.split(' ').step_by(2).collect();
        assert_eq!(operands, vec!["9", "1", "4"]);
    }
}

#[test]
fn generate_operations_empty_input() {
    assert!(matches!(generate_operations(&Vec::new()), Err(SearchError::EmptyInput)));
}

#[test]
fn search_exact_results_for_pair() {
    let found = find_operations_for_value(&vec![1, 2], 3).unwrap();
    let rendered: Vec<String> = found.iter().map(|op| op.render()).collect();
    assert_eq!(rendered, vec!["2 + 1", "1 + 2"]);
}

#[test]
fn search_includes_full_sum() {
    let found = find_operations_for_value(&vec![1, 2, 3], 6).unwrap();
    assert!(!found.is_empty());
    for operation in &found {
        assert_eq!(operation.evaluate(), 6);
    }
    let rendered: Vec<String> = found.iter().map(|op| op.render()).collect();
    assert!(rendered.iter().any(|text| text == "1 + 2 + 3"));
    // 2 * 3 evaluates to 6 as well, over the subset {2, 3}.
    assert!(rendered.iter().any(|text| text == "2 * 3"));
}

#[test]
fn search_unreachable_target_is_empty() {
    let found = find_operations_for_value(&vec![1, 2, 3], 100).unwrap();
    assert!(found.is_empty());
}

#[test]
fn search_rejects_empty_input() {
    assert!(matches!(find_operations_for_value(&Vec::new(), 5), Err(SearchError::EmptyInput)));
}

#[test]
fn search_rejects_too_many_operands() {
    let operands: Vec<i32> = vec![1; 32];
    assert!(matches!(
        find_operations_for_value(&operands, 5),
        Err(SearchError::SetTooLarge)
    ));
}

#[test]
fn dedupe_collapses_reordered_expressions() {
    // Both use operand set {1, 2} and operator set {Add}; the later one wins.
    let first = node(1, Operator::Add, leaf(2));
    let second = node(2, Operator::Add, leaf(1));
    let kept = process_associative_operation_filter(&vec![first, second]);
    assert_eq!(kept.len(), 1);
    assert_eq!(kept[0].render(), "2 + 1");
}

#[test]
fn dedupe_ignores_repetition_counts() {
    // The key folds to sets, so repeated operands collapse: 2 + 2 + 1 and
    // 1 + 2 share the key ({Add}, {1, 2}) and only the later one is kept.
    let repeated = node(2, Operator::Add, node(2, Operator::Add, leaf(1)));
    let plain = node(1, Operator::Add, leaf(2));
    let kept = process_associative_operation_filter(&vec![repeated, plain]);
    assert_eq!(kept.len(), 1);
    assert_eq!(kept[0].render(), "1 + 2");
}

#[test]
fn dedupe_keeps_distinct_keys_in_order() {
    let by_add = node(1, Operator::Add, leaf(2));
    let by_multiply = node(1, Operator::Multiply, leaf(2));
    let other_operands = node(1, Operator::Add, leaf(3));
    let kept = process_associative_operation_filter(&vec![
        by_add.duplicate(),
        by_multiply,
        other_operands,
        by_add,
    ]);
    let rendered: Vec<String> = kept.iter().map(|op| op.render()).collect();
    assert_eq!(rendered, vec!["1 + 2", "1 * 2", "1 + 3"]);
}

#[test]
fn dedupe_of_nothing_is_nothing() {
    assert_eq!(process_associative_operation_filter(&Vec::new()).len(), 0);
}
