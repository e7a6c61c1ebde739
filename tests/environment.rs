use unlox::environment::Environments;

fn s(x: &str) -> String {
    x.to_string()
}

#[test]
fn define_then_get_in_global_scope() {
    let mut env: Environments<i64> = Environments::new();
    assert_eq!(env.get(0, &s("a")), None);
    env.define(0, s("a"), 1);
    assert_eq!(env.get(0, &s("a")), Some(&1));
    env.define(0, s("a"), 2);
    assert_eq!(env.get(0, &s("a")), Some(&2));
}

#[test]
fn lookup_walks_outward() {
    let mut env: Environments<i64> = Environments::new();
    env.define(0, s("a"), 1);
    let inner = env.push_scope(0);
    assert_eq!(inner, 1);
    assert_eq!(env.get(inner, &s("a")), Some(&1));
    env.define(inner, s("a"), 5);
    assert_eq!(env.get(inner, &s("a")), Some(&5));
    assert_eq!(env.get(0, &s("a")), Some(&1));
}

#[test]
fn sibling_scope_is_not_visible() {
    let mut env: Environments<i64> = Environments::new();
    let outer_fn = env.push_scope(0);
    env.define(outer_fn, s("b"), 2);
    let nested = env.push_scope(0);
    assert_eq!(env.get(nested, &s("b")), None);
    assert!(!env.assign(nested, &s("b"), 3));
}

#[test]
fn assign_updates_nearest_holder_only() {
    let mut env: Environments<i64> = Environments::new();
    env.define(0, s("x"), 1);
    let mid = env.push_scope(0);
    env.define(mid, s("x"), 10);
    let inner = env.push_scope(mid);
    assert!(env.assign(inner, &s("x"), 11));
    assert_eq!(env.get(inner, &s("x")), Some(&11));
    assert_eq!(env.get(mid, &s("x")), Some(&11));
    assert_eq!(env.get(0, &s("x")), Some(&1));
    assert!(!env.assign(inner, &s("y"), 0));
    assert_eq!(env.get(inner, &s("y")), None);
}
