use typecheck::ast::parse;
use typecheck::checker::{parse_int, CheckErr, Checker, ErrorKind};
use typecheck::report::Style;
use typecheck::type_var::{Place, TypeVar};

fn check(src: &str) -> Checker {
    let tree = parse(src).expect("Issue parsing tree");
    let mut checker = Checker::new(src, "test.py");
    checker.check_module(&tree);
    checker
}

fn count(errors: &[CheckErr], kind: ErrorKind) -> usize {
    errors.iter().filter(|e| e.kind == kind).count()
}

#[test]
fn find_add_error() {
    let src = "c = 1 + \"goo\"";
    let mut checker = Checker::new(src, "test.py");

    let tree = typecheck::ast::parse(src).expect("Issue parsing tree");

    checker.check_module(&tree);

    assert_eq!(checker.errors().len(), 1);
}

#[test]
fn parse_gives_python_module() {
    let tree = parse("x = 1\n").unwrap();
    assert_eq!(tree.kind, "module");
    assert_eq!(tree.text, "x = 1\n");
    assert!(tree.children.len() >= 1);
}

#[test]
fn clean_module_has_no_diagnostics_and_reports_success() {
    let src = "a = 1\nb: int = a\nt = a + 2\ns = \"x\"\nu = s + \"y\"\ndef g(p: str) -> str:\n    return p\ng(s)\n";
    let c = check(src);
    assert_eq!(c.errors().len(), 0);
    let report = c.report();
    assert_eq!(report.len(), 1);
    assert_eq!(report[0][0].style, Style::Success);
    assert_eq!(report[0][0].text, "Type Checks Passed!");
}

#[test]
fn mismatched_binop_is_one_type_mismatch_at_the_operator() {
    let c = check("c = 1 + \"x\"");
    let errs = c.errors();
    assert_eq!(errs.len(), 1);
    assert_eq!(errs[0].kind, ErrorKind::TypeMismatch);
    assert_eq!(errs[0].start_place.name, "binop");
    assert_eq!((errs[0].start_place.row, errs[0].start_place.column), (0, 4));
    assert_eq!(errs[0].end_place.as_ref().map(|p| p.column), Some(11));
    assert_eq!(errs[0].msg, "Invalid types (Integer(1), String()) for BinOp");
}

#[test]
fn argument_of_wrong_type_is_one_mismatch_and_no_arity_error() {
    let c = check("def f(x: int) -> int:\n    return x\nf(\"a\")\n");
    let errs = c.errors();
    assert_eq!(count(errs, ErrorKind::TypeMismatch), 1);
    assert_eq!(count(errs, ErrorKind::ArityMismatch), 0);
    assert_eq!(errs.len(), 1);
    assert_eq!(errs[0].msg, "Type mismatch calling fn `f` Expected Integer(0) found String()");
    assert_eq!((errs[0].start_place.row, errs[0].start_place.column), (2, 2));
}

#[test]
fn two_return_types_give_a_union_at_the_call() {
    let src = "def f(a):\n    if a:\n        return 1\n    return \"a\"\nr = f(1)\nreveal_type(f)\nreveal_type(r)\n";
    let c = check(src);
    assert_eq!(c.errors().len(), 0);
    let reveals = c.reveals();
    assert_eq!(reveals.len(), 2);
    match &reveals[0].ty {
        TypeVar::Function(_, params, rets) => {
            assert_eq!(params, &vec![TypeVar::Any]);
            assert_eq!(rets, &vec![TypeVar::Integer(1), TypeVar::String()]);
        }
        other => panic!("not a function: {:?}", other),
    }
    assert_eq!(reveals[1].ty, TypeVar::Union(vec![TypeVar::Integer(1), TypeVar::String()]));
}

#[test]
fn reveal_type_with_one_bound_argument() {
    let c = check("x = 1\nreveal_type(x)\n");
    assert_eq!(c.errors().len(), 0);
    assert_eq!(c.reveals().len(), 1);
    assert_eq!(c.reveals()[0].name, "x");
    assert_eq!(c.reveals()[0].ty, TypeVar::Integer(1));
    let lines = c.reveal_report();
    assert_eq!(lines.len(), 1);
    assert_eq!(lines[0][1].text, "Reveal type");
    assert_eq!(lines[0][2].text, "] test.py:2:0 x -> Integer(1)");
}

#[test]
fn reveal_type_with_no_argument_is_one_arity_error() {
    let c = check("reveal_type()\n");
    assert_eq!(c.errors().len(), 1);
    assert_eq!(count(c.errors(), ErrorKind::ArityMismatch), 1);
    assert_eq!(c.errors()[0].msg, "No argument given");
}

#[test]
fn reveal_type_with_two_arguments_is_one_arity_error() {
    let c = check("x = 1\ny = \"s\"\nreveal_type(x, y)\n");
    assert_eq!(count(c.errors(), ErrorKind::ArityMismatch), 1);
    assert_eq!(c.errors().len(), 1);
    assert_eq!(c.errors()[0].msg, "Too many arguments");
    assert_eq!(c.reveals().len(), 2);
}

#[test]
fn reveal_type_of_unbound_names() {
    let c = check("reveal_type(a, b)\n");
    assert_eq!(count(c.errors(), ErrorKind::ArityMismatch), 1);
    assert_eq!(count(c.errors(), ErrorKind::UndefinedIdentifier), 2);
}

#[test]
fn calling_twice_uses_the_same_signature() {
    let c = check("def f(x: int) -> int:\n    return x\nf(1)\nf(\"a\")\nf(2)\n");
    assert_eq!(c.errors().len(), 1);
    assert_eq!((c.errors()[0].start_place.row, c.errors()[0].start_place.column), (3, 2));
}

#[test]
fn each_bad_return_is_reported() {
    let c = check("def f() -> str:\n    if 1:\n        return 1\n    return 2\n");
    let errs = c.errors();
    assert_eq!(errs.len(), 2);
    assert_eq!(count(errs, ErrorKind::TypeMismatch), 2);
    assert_eq!(errs[0].start_place.row, 2);
    assert_eq!(errs[1].start_place.row, 3);
    assert_eq!(errs[0].msg, "Unexpected return type Integer(1), fn signature return [String()]");
}

#[test]
fn wrong_argument_count_is_an_arity_error() {
    let c = check("def f(a, b):\n    return a\nf(1)\n");
    assert_eq!(c.errors().len(), 1);
    assert_eq!(c.errors()[0].kind, ErrorKind::ArityMismatch);
    assert_eq!(c.errors()[0].msg, "Fn called with 1 args expected 2");
}

#[test]
fn annotated_assignment_mismatch() {
    let c = check("x: int = \"s\"\n");
    assert_eq!(c.errors().len(), 1);
    assert_eq!(c.errors()[0].kind, ErrorKind::TypeMismatch);
    assert_eq!(c.errors()[0].msg, "Mismatched types while assigning to 'x' expected Integer(0) found String()");
    assert_eq!(c.errors()[0].start_place.name, "start");
}

#[test]
fn unknown_identifier_and_annotation() {
    let c = check("y = z\nw: float = 1\n");
    assert_eq!(c.errors().len(), 2);
    assert_eq!(c.errors()[0].kind, ErrorKind::UndefinedIdentifier);
    assert_eq!(c.errors()[0].msg, "undefined identifier 'z'");
    assert_eq!(c.errors()[1].kind, ErrorKind::UnknownTypeAnnotation);
}

#[test]
fn function_without_return_gives_none() {
    let c = check("def f():\n    pass\nr = f()\nreveal_type(r)\n");
    assert_eq!(c.errors().len(), 0);
    assert_eq!(c.reveals()[0].ty, TypeVar::NoneType);
}

#[test]
fn integer_sum_is_the_literal_sum() {
    let c = check("x = 2\ny = 3\nz = 40 + 2\nreveal_type(x)\n");
    assert_eq!(c.errors().len(), 0);
    assert_eq!(c.reveals()[0].ty, TypeVar::Integer(2));
    let result = c.env().lookup_binding(&Place::new("return", 2, 4));
    assert_eq!(result, Some(TypeVar::Integer(42)));
    let call = c.env().lookup_binding(&Place::new("binop", 2, 4));
    assert_eq!(
        call,
        Some(TypeVar::Call(
            Place::new("binop", 2, 4),
            vec![TypeVar::Integer(40), TypeVar::Integer(2)],
            vec![TypeVar::Integer(42)]
        ))
    );
}

#[test]
fn integer_literals() {
    assert_eq!(parse_int("0"), Some(0));
    assert_eq!(parse_int("1234"), Some(1234));
    assert_eq!(parse_int("18446744073709551615"), Some(usize::MAX));
    assert_eq!(parse_int("18446744073709551616"), None);
    assert_eq!(parse_int("0x10"), None);
    assert_eq!(parse_int(""), None);
}

#[test]
fn report_shows_context_and_underline() {
    let src = "a = 1\nb = 2\nc = 1 + \"x\"\n";
    let c = check(src);
    let r = c.report();
    let text: Vec<String> = r
        .iter()
        .map(|l| l.iter().map(|s| s.text.clone()).collect::<Vec<_>>().join(""))
        .collect();
    assert_eq!(
        text,
        vec![
            "1 Error(s) found:".to_string(),
            "[Error] test.py:3:4 Invalid types (Integer(1), String()) for BinOp ".to_string(),
            " 2 | b = 2".to_string(),
            " 3 | c = 1 + \"x\"".to_string(),
            "   | ".to_string() + "    " + "^^^^^^^",
        ]
    );
}

#[test]
fn error_constructors() {
    let e = CheckErr::new(ErrorKind::StructuralError, "m", typecheck::type_var::Place::new("start", 1, 2), None);
    assert_eq!(e.msg, "m");
    assert!(e.end_place.is_none());
    let tree = parse("x = 1").unwrap();
    let e = CheckErr::new_from_node(ErrorKind::TypeMismatch, "n", &tree);
    assert_eq!(e.start_place.name, "start");
    assert_eq!(e.end_place.unwrap().name, "end");
}

#[test]
fn one_line_definition_then_bad_call() {
    let c = check("def f(x: int) -> int: return x\nf(\"a\")\n");
    assert_eq!(count(c.errors(), ErrorKind::TypeMismatch), 1);
    assert_eq!(count(c.errors(), ErrorKind::ArityMismatch), 0);
    assert_eq!(c.errors().len(), 1);
}

#[test]
fn report_of_error_on_first_line_has_one_context_line() {
    let c = check("x: str = 1\n");
    let r = c.report();
    assert_eq!(r.len(), 4);
    assert_eq!(r[2][0].text, " 1 | ");
    assert_eq!(r[2][1].text, "x: str = 1");
    assert_eq!(r[3][2].text, "^^^^^^^^^^");
}

#[test]
fn call_to_undefined_function_is_reported() {
    let c = check("g(1)\n");
    assert_eq!(c.errors().len(), 1);
    assert_eq!(c.errors()[0].kind, ErrorKind::UndefinedIdentifier);
    assert_eq!(c.errors()[0].msg, "undefined identifier 'g'");
    assert_eq!(c.env().live_depth(), 1);
}

#[test]
fn parameter_named_like_its_function_does_not_hide_the_signature() {
    let c = check("def f(f):\n    pass\nf(1, 2)\n");
    assert_eq!(c.errors().len(), 1);
    assert_eq!(c.errors()[0].kind, ErrorKind::ArityMismatch);
    let c = check("def f(f: int) -> int:\n    return f\nf(\"a\")\n");
    assert_eq!(c.errors().len(), 1);
    assert_eq!(c.errors()[0].kind, ErrorKind::TypeMismatch);
}

#[test]
fn statements_in_a_body_see_the_parameters() {
    let c = check("def f(a):\n    b = a\n    g = b + 1\n    return a\n");
    assert_eq!(c.errors().len(), 1);
    assert_eq!(c.errors()[0].kind, ErrorKind::TypeMismatch);
    let c = check("def f(a):\n    b = a\n    return a\nreveal_type(b)\n");
    assert_eq!(c.errors().len(), 1);
    assert_eq!(c.errors()[0].kind, ErrorKind::UndefinedIdentifier);
    assert_eq!(c.env().live_depth(), 1);
}

#[test]
fn nodes_without_a_rule_are_recorded() {
    let c = check("x = 1\n");
    let kinds: Vec<&str> = c.unseen().iter().map(|k| k.as_str()).collect();
    assert_eq!(kinds, vec!["identifier", "=", "integer"]);
}
