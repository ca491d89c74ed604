use typecheck::environment::Environment;
use typecheck::type_var::{Place, TypeVar};

#[test]
fn create_new() {
    let e = Environment::new("module_name");
    assert_eq!(1, e.live_depth());
    assert_eq!(1, e.scope_count());
}

#[test]
fn insert_one_level() {
    let mut e = Environment::new("module_name");
    let pl = Place {
        name: "a".to_owned(),
        row: 1,
        column: 3,
    };
    let ty = TypeVar::String();
    e.insert_binding(pl.clone(), ty.clone());

    let res = e.lookup_binding(&pl).unwrap();

    assert_eq!(res, ty);
}

#[test]
fn insert_two_level() {
    let mut e = Environment::new("module_name");
    let pl = Place {
        name: "a".to_owned(),
        row: 1,
        column: 3,
    };
    let ty = TypeVar::String();
    e.insert_binding(pl.clone(), ty.clone());
    e.enter_scope("next_level");
    let res = e.lookup_binding(&pl).unwrap();

    assert_eq!(res, ty);
}

#[test]
fn insert_enter_leave_renter() {
    let mut e = Environment::new("module_name");
    let pl = Place {
        name: "a".to_owned(),
        row: 1,
        column: 3,
    };
    let ty = TypeVar::String();
    e.insert_binding(pl.clone(), ty.clone());
    let _g = e.enter_scope("next_level");

    let pl2 = Place {
        name: "b".to_owned(),
        row: 6,
        column: 8,
    };
    let ty2 = TypeVar::Any;
    e.insert_binding(pl2.clone(), ty2.clone());
    let res = e.lookup_binding(&pl2).unwrap();

    assert_eq!(res, ty2);

    e.leave_scope();
    let res = e.lookup_binding(&pl2);
    assert_eq!(res, None);

    let _g2 = e.enter_scope("next_level");
    let res = e.lookup_binding(&pl2).unwrap();

    assert_eq!(res, ty2)
}

#[test]
fn var_type_searches_outward_and_prefers_innermost() {
    let mut e = Environment::new("m");
    let outer = Place::new("x", 0, 0);
    e.insert_binding(outer.clone(), TypeVar::Integer(1));
    e.insert_var("x", outer.clone());
    let g = e.enter_scope("f");
    assert_eq!(e.var_type("x"), Some(TypeVar::Integer(1)));
    let inner = Place::new("x", 2, 4);
    e.insert_binding(inner.clone(), TypeVar::String());
    e.insert_var("x", inner.clone());
    assert_eq!(e.var_type("x"), Some(TypeVar::String()));
    e.release(g);
    assert_eq!(e.live_depth(), 1);
    assert_eq!(e.var_type("x"), Some(TypeVar::Integer(1)));
    assert_eq!(e.var_type("y"), None);
}

#[test]
fn reentering_a_scope_reuses_it() {
    let mut e = Environment::new("m");
    let g = e.enter_scope("f");
    e.insert_var("p", Place::new("p", 1, 1));
    e.release(g);
    assert_eq!(e.lookup_var("p"), None);
    let g = e.enter_scope("f");
    assert_eq!(e.lookup_var("p"), Some(Place::new("p", 1, 1)));
    e.release(g);
    assert_eq!(e.scope_count(), 2);
}

#[test]
fn insert_binding_replaces_earlier_type() {
    let mut e = Environment::new("m");
    let p = Place::new("a", 0, 0);
    e.insert_binding(p.clone(), TypeVar::Any);
    e.insert_binding(p.clone(), TypeVar::NoneType);
    assert_eq!(e.lookup_binding(&p), Some(TypeVar::NoneType));
    assert_eq!(e.scope(0).binding_entries().len(), 1);
}

#[test]
fn leave_scope_on_empty_stack_does_nothing() {
    let mut e = Environment::new("m");
    e.leave_scope();
    e.leave_scope();
    assert_eq!(e.live_depth(), 0);
    e.insert_binding(Place::new("a", 0, 0), TypeVar::Any);
    assert_eq!(e.lookup_binding(&Place::new("a", 0, 0)), None);
}

#[test]
fn scope_describes_its_entries_in_order() {
    let mut e = Environment::new("m");
    e.insert_binding(Place::new("a", 0, 0), TypeVar::Integer(4));
    e.insert_var("a", Place::new("a", 0, 0));
    let lines = e.scope(0).describe();
    assert_eq!(
        lines,
        vec![
            "--- Scope [name: m]---".to_string(),
            "Bindings".to_string(),
            "a@0,0 -> Integer(4)".to_string(),
            "Var Place Map".to_string(),
            "a -> a@0,0".to_string(),
        ]
    );
}

#[test]
fn scope_stack_push_and_pop() {
    let mut s = typecheck::environment::scope::ScopeStack::new();
    assert_eq!(s.len(), 0);
    s.push(3);
    s.push(5);
    assert_eq!(s.get(0), 3);
    assert_eq!(s.pop(), Some(5));
    s.truncate(0);
    assert_eq!(s.pop(), None);
}

#[test]
fn scope_tables() {
    let mut sc = typecheck::environment::scope::Scope::new("f");
    assert_eq!(sc.name(), "f");
    sc.insert_var("x", Place::new("x", 1, 1));
    sc.insert_var("x", Place::new("x", 2, 2));
    assert_eq!(sc.lookup_var("x"), Some(Place::new("x", 2, 2)));
    assert_eq!(sc.var_entries().len(), 1);
    sc.insert_binding(Place::new("x", 2, 2), TypeVar::String());
    assert_eq!(sc.lookup_place(&Place::new("x", 2, 2)), Some(TypeVar::String()));
    assert_eq!(sc.lookup_place(&Place::new("x", 1, 1)), None);
}
