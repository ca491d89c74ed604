use typecheck::ast::parse;
use typecheck::pretty_printer::PrettyPrinter;

#[test]
fn outline_lists_nodes_in_preorder_with_depth() {
    let src = "x = 1";
    let tree = parse(src).unwrap();
    let rows = PrettyPrinter::new(src).print_module(&tree);
    assert_eq!(rows[0].depth, 0);
    assert_eq!(rows[0].kind, "module");
    assert_eq!(rows[1].kind, "expression_statement");
    assert_eq!(rows[1].depth, 1);
    assert_eq!(rows[2].kind, "assignment");
    assert_eq!(rows[3].kind, "identifier");
    assert_eq!(rows[3].text, "x");
    assert_eq!(rows[3].depth, 3);
}
