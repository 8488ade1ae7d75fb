use lark_infer::unify::{InferVar, UnificationTable};

fn table_with(count: usize) -> (UnificationTable<usize>, Vec<InferVar>) {
    let mut table = UnificationTable::new();
    let mut vars = Vec::new();
    for _ in 0..count {
        vars.push(table.new_variable());
    }
    (table, vars)
}

#[test]
fn fresh_variables_are_unbound_and_alone() {
    let (table, vars) = table_with(3);
    assert_eq!(table.count(), 3);
    for (i, var) in vars.iter().enumerate() {
        assert_eq!(var.index, i);
        assert_eq!(table.find(*var), *var);
        assert_eq!(table.probe(*var), None);
        assert!(!table.var_is_known(*var));
    }
}

#[test]
fn binding_is_permanent() {
    let (mut table, vars) = table_with(2);
    assert_eq!(table.bind(vars[0], 10), Ok(()));
    assert_eq!(table.probe(vars[0]), Some(10));
    assert!(table.var_is_known(vars[0]));
    assert_eq!(table.probe(vars[1]), None);
    let _ = table.new_variable();
    assert_eq!(table.probe(vars[0]), Some(10));
}

#[test]
fn binding_again_to_the_same_value_changes_nothing() {
    let (mut table, vars) = table_with(1);
    assert_eq!(table.bind(vars[0], 4), Ok(()));
    assert_eq!(table.bind(vars[0], 4), Ok(()));
    assert_eq!(table.probe(vars[0]), Some(4));
}

#[test]
fn binding_to_a_conflicting_value_is_refused() {
    let (mut table, vars) = table_with(1);
    assert_eq!(table.bind(vars[0], 4), Ok(()));
    assert_eq!(table.bind(vars[0], 5), Err(4));
    assert_eq!(table.probe(vars[0]), Some(4));
}

#[test]
fn linked_variables_are_resolved_together() {
    let (mut table, vars) = table_with(4);
    assert_eq!(table.union(vars[1], vars[3]), Ok(Some(vars[3])));
    assert_eq!(table.find(vars[3]), vars[1]);
    assert_eq!(table.find(vars[1]), vars[1]);
    assert_eq!(table.bind(vars[3], 9), Ok(()));
    assert_eq!(table.probe(vars[1]), Some(9));
    assert_eq!(table.probe(vars[3]), Some(9));
    assert_eq!(table.probe(vars[0]), None);
    assert_eq!(table.probe(vars[2]), None);
}

#[test]
fn linking_in_either_order_keeps_the_earlier_root() {
    let (mut table, vars) = table_with(3);
    assert_eq!(table.union(vars[2], vars[0]), Ok(Some(vars[2])));
    assert_eq!(table.find(vars[2]), vars[0]);
    assert_eq!(table.union(vars[1], vars[2]), Ok(Some(vars[1])));
    assert_eq!(table.find(vars[1]), vars[0]);
    assert_eq!(table.find(vars[2]), vars[0]);
}

#[test]
fn linking_a_variable_with_itself_changes_nothing() {
    let (mut table, vars) = table_with(2);
    assert_eq!(table.union(vars[0], vars[0]), Ok(None));
    assert_eq!(table.union(vars[0], vars[1]), Ok(Some(vars[1])));
    assert_eq!(table.union(vars[1], vars[0]), Ok(None));
    assert_eq!(table.find(vars[1]), vars[0]);
}

#[test]
fn linking_with_a_bound_class_binds_the_other() {
    let (mut table, vars) = table_with(3);
    assert_eq!(table.bind(vars[2], 7), Ok(()));
    assert_eq!(table.union(vars[0], vars[2]), Ok(Some(vars[0])));
    assert_eq!(table.probe(vars[0]), Some(7));
    assert_eq!(table.probe(vars[2]), Some(7));
    assert_eq!(table.find(vars[2]), vars[0]);
    assert_eq!(table.union(vars[2], vars[1]), Ok(Some(vars[1])));
    assert_eq!(table.probe(vars[1]), Some(7));
}

#[test]
fn two_bound_classes_are_left_alone() {
    let (mut table, vars) = table_with(3);
    assert_eq!(table.bind(vars[0], 1), Ok(()));
    assert_eq!(table.bind(vars[1], 2), Ok(()));
    assert_eq!(table.bind(vars[2], 1), Ok(()));
    assert_eq!(table.union(vars[0], vars[1]), Err((1, 2)));
    assert_eq!(table.union(vars[0], vars[2]), Ok(None));
    assert_eq!(table.find(vars[1]), vars[1]);
    assert_eq!(table.find(vars[2]), vars[2]);
    assert_eq!(table.probe(vars[0]), Some(1));
    assert_eq!(table.probe(vars[1]), Some(2));
}

#[test]
fn a_long_chain_of_links_has_one_root() {
    let (mut table, vars) = table_with(20);
    for i in (1..20).rev() {
        assert!(table.union(vars[i], vars[i - 1]).is_ok());
    }
    for var in &vars {
        assert_eq!(table.find(*var), vars[0]);
    }
    assert_eq!(table.bind(vars[19], 3), Ok(()));
    for var in &vars {
        assert_eq!(table.probe(*var), Some(3));
    }
}
