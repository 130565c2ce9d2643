//! The arguments of a word, and errors.
use clar2wasm::analysis::{SymbolicExpression, SymbolicExpressionType, Value};
use clar2wasm::arguments::ArgumentsExt;
use clar2wasm::error::GeneratorError;

fn expression(expr: SymbolicExpressionType, id: u64, printed: &str) -> SymbolicExpression {
    SymbolicExpression { expr, id, printed: printed.to_owned() }
}

fn atom(name: &str, id: u64) -> SymbolicExpression {
    expression(SymbolicExpressionType::Atom(name.to_owned()), id, &format!("Atom({name})"))
}

fn arguments() -> Vec<SymbolicExpression> {
    let list = SymbolicExpressionType::List(vec![atom("x", 4), atom("y", 5)]);
    vec![
        atom("name", 1),
        expression(SymbolicExpressionType::LiteralValue(Value::Int(3)), 2, "Int(3)"),
        expression(list, 3, "List([Atom(x), Atom(y)])"),
    ]
}

#[test]
fn expression_is_picked() {
    let arguments = arguments();
    let args = arguments.as_slice();
    assert_eq!(args.get_expr(0).unwrap().id, 1);
    assert_eq!(args.get_expr(2).unwrap().id, 3);
}

#[test]
fn missing_expression_is_reported() {
    let arguments = arguments();
    let args = arguments.as_slice();
    for n in [3, 12, 907] {
        let error = args.get_expr(n).unwrap_err();
        let printed = "[Atom(name), Int(3), List([Atom(x), Atom(y)])]";
        let ending = format!("{printed} does not have an argument of index {n}");
        assert_eq!(error.message(), format!("Internal error: {ending}"));
    }
}

#[test]
fn few_arguments_are_printed() {
    let none: &[SymbolicExpression] = &[];
    assert_eq!(
        none.get_list(0).unwrap_err().message(),
        "Internal error: [] does not have an argument of index 0",
    );
    let one = [atom("x", 1)];
    let args = one.as_slice();
    assert_eq!(
        args.get_list(0).unwrap_err().message(),
        "Internal error: [Atom(x)] does not have a list at argument index 0",
    );
}

#[test]
fn name_is_picked() {
    let arguments = arguments();
    let args = arguments.as_slice();
    assert_eq!(args.get_name(0).unwrap(), "name");
    let error = args.get_name(1).unwrap_err().message();
    assert_eq!(
        error,
        "Internal error: [Atom(name), Int(3), List([Atom(x), Atom(y)])] \
        does not have a name at argument index 1",
    );
    let error = args.get_name(10).unwrap_err().message();
    assert!(error.ends_with(" does not have an argument of index 10"));
}

#[test]
fn list_is_picked() {
    let arguments = arguments();
    let args = arguments.as_slice();
    let list = args.get_list(2).unwrap();
    assert_eq!(list.get_name(1).unwrap(), "y");
    let error = args.get_list(0).unwrap_err().message();
    assert!(error.ends_with(" does not have a list at argument index 0"));
    let error = args.get_list(3).unwrap_err().message();
    assert!(error.ends_with(" does not have an argument of index 3"));
}

#[test]
fn messages_of_errors() {
    assert_eq!(GeneratorError::NotImplemented.message(), "Not implemented");
    assert_eq!(
        GeneratorError::InternalError("no memory".to_owned()).message(),
        "Internal error: no memory",
    );
    assert_eq!(GeneratorError::TypeError("no type".to_owned()).message(), "Type error: no type");
    assert_eq!(GeneratorError::NotImplemented.suggestion(), None);
}
