use minic::expr::Expr;
use minic::offset_calculator::calculate_offset;
use minic::offset_calculator::collect_identifiers_in_statements;
use minic::statement::Statement;
use minic::types::Type;
use minic::variable_collector::collect_variables;
use minic::variable_collector::collect_variables_in_statements;

fn offset_entry(
    map: &Vec<(String, (usize, Type))>,
    name: &str,
) -> (usize, Type) {
    for (n, v) in map.iter() {
        if n == name {
            return v.clone();
        }
    }
    panic!("name not present: {}", name);
}

fn variable_entry(map: &Vec<(String, Type)>, name: &str) -> Type {
    for (n, v) in map.iter() {
        if n == name {
            return v.clone();
        }
    }
    panic!("name not present: {}", name);
}

#[test]
fn offset_calculator_test_calculate_offset() {
    let params = vec![
        ("a".to_string(), Type::Pointer(Box::new(Type::IntTyp))),
        ("b".to_string(), Type::IntTyp),
    ];
    let statements = vec![
        Statement::Expr(Expr::Assign(
            Box::new(Expr::Variable("a".to_string())),
            Box::new(Expr::Num(1)),
        )),
        Statement::Expr(Expr::Assign(
            Box::new(Expr::Variable("b".to_string())),
            Box::new(Expr::Num(2)),
        )),
        Statement::VariableDeclaration("c".to_string(), Type::IntTyp),
    ];
    let offset_map = calculate_offset(&params, &statements);
    assert_eq!(
        offset_entry(&offset_map, "a"),
        (8, Type::Pointer(Box::new(Type::IntTyp)))
    );
    assert_eq!(offset_entry(&offset_map, "b"), (16, Type::IntTyp));
    assert_eq!(offset_entry(&offset_map, "c"), (24, Type::IntTyp));
}

#[test]
fn offset_calculator_test_collect_identifiers_in_statements() {
    let statements = vec![
        Statement::Expr(Expr::Assign(
            Box::new(Expr::Variable("a".to_string())),
            Box::new(Expr::Num(1)),
        )),
        Statement::VariableDeclaration("b".to_string(), Type::IntTyp),
    ];
    let identifiers = collect_identifiers_in_statements(&statements);
    assert_eq!(identifiers, vec![("b".to_string(), Type::IntTyp)]);
}

#[test]
fn variable_collector_test_calculate_offset() {
    let params = vec![
        ("a".to_string(), Type::Pointer(Box::new(Type::IntTyp))),
        ("b".to_string(), Type::IntTyp),
    ];
    let statements = vec![
        Statement::Expr(Expr::Assign(
            Box::new(Expr::Variable("a".to_string())),
            Box::new(Expr::Num(1)),
        )),
        Statement::Expr(Expr::Assign(
            Box::new(Expr::Variable("b".to_string())),
            Box::new(Expr::Num(2)),
        )),
        Statement::VariableDeclaration("c".to_string(), Type::IntTyp),
    ];
    let offset_map = collect_variables(&params, &statements).unwrap();
    assert_eq!(
        variable_entry(&offset_map, "a"),
        Type::Pointer(Box::new(Type::IntTyp))
    );
    assert_eq!(variable_entry(&offset_map, "b"), Type::IntTyp);
    assert_eq!(variable_entry(&offset_map, "c"), Type::IntTyp);
}

#[test]
fn variable_collector_test_collect_identifiers_in_statements() {
    let statements = vec![
        Statement::Expr(Expr::Assign(
            Box::new(Expr::Variable("a".to_string())),
            Box::new(Expr::Num(1)),
        )),
        Statement::VariableDeclaration("b".to_string(), Type::IntTyp),
    ];
    let identifiers = collect_variables_in_statements(&statements);
    assert_eq!(identifiers, vec![("b".to_string(), Type::IntTyp)]);
}

#[test]
fn variable_collector_rejects_duplicate_locals() {
    let params = vec![("a".to_string(), Type::IntTyp)];
    let statements = vec![Statement::VariableDeclaration("a".to_string(), Type::IntTyp)];
    assert!(collect_variables(&params, &statements).is_err());
}
