use typecheck::type_var::{decimal_text, str_eq, Place, TypeVar};

fn place(n: &str) -> Place {
    Place::new(n, 1, 2)
}

#[test]
fn any_matches_everything() {
    assert!(TypeVar::Any.type_check(&TypeVar::Integer(3)));
    assert!(TypeVar::String().type_check(&TypeVar::Any));
    assert!(TypeVar::Any.type_check(&TypeVar::Union(vec![TypeVar::NoneType])));
}

#[test]
fn same_variant_matches_ignoring_payload() {
    assert!(TypeVar::Integer(1).type_check(&TypeVar::Integer(7)));
    assert!(TypeVar::Var(place("a")).type_check(&TypeVar::Var(place("b"))));
    assert!(!TypeVar::Integer(1).type_check(&TypeVar::String()));
    assert!(!TypeVar::NoneType.type_check(&TypeVar::String()));
}

#[test]
fn union_matches_exact_members_only() {
    let u = TypeVar::Union(vec![TypeVar::Integer(1), TypeVar::String()]);
    assert!(u.type_check(&TypeVar::String()));
    assert!(TypeVar::Integer(1).type_check(&u));
    assert!(!TypeVar::Integer(2).type_check(&u));
    assert!(!u.type_check(&TypeVar::NoneType));
}

#[test]
fn two_unions_never_match() {
    let u = TypeVar::Union(vec![TypeVar::String()]);
    assert!(!u.type_check(&u.clone()));
}

#[test]
fn annotations_map_to_types() {
    assert_eq!(TypeVar::from_type_str("int"), Some(TypeVar::Integer(0)));
    assert_eq!(TypeVar::from_type_str("str"), Some(TypeVar::String()));
    assert_eq!(TypeVar::from_type_str("None"), Some(TypeVar::NoneType));
    assert_eq!(TypeVar::from_type_str("Any"), Some(TypeVar::Any));
    assert_eq!(TypeVar::from_type_str("float"), None);
}

#[test]
fn type_text_matches_display_form() {
    let f = TypeVar::Function(
        Place::new("f", 0, 0),
        vec![TypeVar::Integer(0), TypeVar::Any],
        vec![TypeVar::String(), TypeVar::NoneType],
    );
    assert_eq!(f.to_text(), "Function(f@0,0, [Integer(0),Any()] -> [String(), None])");
    assert_eq!(
        TypeVar::Union(vec![TypeVar::Integer(12), TypeVar::String()]).to_text(),
        "Union(Integer(12), String())"
    );
    assert_eq!(TypeVar::BinOp(Place::new("binop", 3, 14)).to_text(), "BinOp(binop@3,14)");
}

#[test]
fn equality_and_copies() {
    let t = TypeVar::Call(place("c"), vec![TypeVar::Integer(1)], vec![TypeVar::String()]);
    let c = t.duplicate();
    assert!(t.equals(&c));
    assert_eq!(t, c);
    assert!(!t.equals(&TypeVar::Call(place("c"), vec![TypeVar::Integer(2)], vec![TypeVar::String()])));
}

#[test]
fn decimal_and_string_helpers() {
    assert_eq!(decimal_text(0), "0");
    assert_eq!(decimal_text(1907), "1907");
    assert!(str_eq("abc", "abc"));
    assert!(!str_eq("abc", "abd"));
    assert!(!str_eq("ab", "abc"));
}
