use pts_kernel::ast::Type;

fn star(level: usize) -> Type {
    Type::Star(level)
}

fn var(name: &str, index: usize) -> Type {
    Type::Var(name.to_string(), index)
}

fn arrow(domain: Type, codomain: Type) -> Type {
    Type::Arrow(Box::new(domain), Box::new(codomain))
}

fn product(name: &str, domain: Type, codomain: Type) -> Type {
    Type::ForAll(name.to_string(), Box::new(domain), Box::new(codomain))
}

fn lambda(name: &str, domain: Type, body: Type) -> Type {
    Type::Lambda(name.to_string(), Box::new(domain), Box::new(body))
}

fn app(function: Type, argument: Type) -> Type {
    Type::App(Box::new(function), Box::new(argument))
}

fn remote(name: &str) -> Type {
    Type::Remote(name.to_string())
}

#[test]
fn eq_compares_leaves_exactly() {
    assert!(star(1).eq(&star(1)));
    assert!(!star(1).eq(&star(2)));
    assert!(var("x", 0).eq(&var("x", 0)));
    assert!(!var("x", 0).eq(&var("x", 1)));
    assert!(!var("x", 0).eq(&var("y", 0)));
    assert!(remote("A").eq(&remote("A")));
    assert!(!remote("A").eq(&remote("B")));
}

#[test]
fn eq_rejects_different_shapes() {
    assert!(!star(0).eq(&var("x", 0)));
    assert!(!remote("x").eq(&var("x", 0)));
    assert!(!arrow(star(0), star(0)).eq(&app(star(0), star(0))));
    assert!(!product("x", star(0), star(0)).eq(&lambda("x", star(0), star(0))));
    assert!(!arrow(star(0), star(0)).eq(&product("x", star(0), star(0))));
}

#[test]
fn eq_compares_both_parts_of_arrows_and_applications() {
    assert!(arrow(star(0), var("a", 0)).eq(&arrow(star(0), var("a", 0))));
    assert!(!arrow(star(0), var("a", 0)).eq(&arrow(star(1), var("a", 0))));
    assert!(!arrow(star(0), var("a", 0)).eq(&arrow(star(0), var("a", 1))));
    assert!(app(var("f", 0), star(2)).eq(&app(var("f", 0), star(2))));
    assert!(!app(var("f", 0), star(2)).eq(&app(var("g", 0), star(2))));
    assert!(!app(var("f", 0), star(2)).eq(&app(var("f", 0), star(3))));
}

#[test]
fn eq_renames_the_second_binder_to_the_first() {
    assert!(product("x", star(0), var("x", 0)).eq(&product("y", star(0), var("y", 0))));
    assert!(lambda("x", star(0), var("x", 0)).eq(&lambda("y", star(0), var("y", 0))));
    assert!(lambda("x", star(0), arrow(var("x", 0), star(1)))
        .eq(&lambda("y", star(0), arrow(var("y", 0), star(1)))));
}

#[test]
fn eq_compares_the_domains_of_binders() {
    assert!(!product("x", star(0), var("x", 0)).eq(&product("y", star(1), var("y", 0))));
    assert!(!lambda("x", star(0), var("x", 0)).eq(&lambda("x", star(1), var("x", 0))));
}

#[test]
fn eq_tells_bodies_apart() {
    assert!(!product("x", star(0), var("x", 0)).eq(&product("y", star(0), star(0))));
    assert!(!product("x", star(0), var("z", 0)).eq(&product("y", star(0), var("y", 0))));
}

#[test]
fn eq_goes_below_nested_binders() {
    let left = arrow(product("x", star(0), var("x", 0)), lambda("a", star(1), var("a", 0)));
    let right = arrow(product("y", star(0), var("y", 0)), lambda("b", star(1), var("b", 0)));
    assert!(left.eq(&right));
    let wrong = arrow(product("y", star(0), var("y", 0)), lambda("b", star(2), var("b", 0)));
    assert!(!left.eq(&wrong));
}

#[test]
fn eq_holds_of_a_product_and_its_renaming() {
    let domain = arrow(star(0), remote("Ext"));
    let body = arrow(var("x", 0), app(var("f", 0), var("x", 0)));
    let renamed = body.subst("x", &var("y", 0), 0);
    assert_eq!(renamed, arrow(var("y", 0), app(var("f", 0), var("y", 0))));
    assert!(product("x", domain.clone(), body).eq(&product("y", domain, renamed)));
}

#[test]
fn eq_is_reflexive_on_examples() {
    let terms = vec![
        star(3),
        var("x", 2),
        remote("Ext"),
        arrow(var("a", 1), star(0)),
        product("x", star(0), arrow(var("x", 0), var("y", 3))),
        lambda("x", star(0), lambda("y", var("x", 0), var("y", 0))),
        app(lambda("x", star(0), var("x", 0)), star(1)),
        product("x", star(0), var("x", 1)),
        lambda("x", star(0), lambda("x", var("x", 0), arrow(var("x", 1), var("x", 2)))),
        lambda("x", star(0), lambda("y", star(0), var("x", 1))),
    ];
    for term in terms {
        assert!(term.eq(&term));
    }
}

#[test]
fn eq_is_reflexive_where_a_body_names_an_outer_binder_of_the_same_name() {
    let term = product("x", star(0), var("x", 1));
    assert!(term.eq(&term));
}

#[test]
fn eq_compares_bodies_as_they_stand_below_binders_of_one_name() {
    let bound = lambda("x", star(0), var("x", 0));
    let free = lambda("x", star(0), var("x", 1));
    let outer = lambda("x", star(0), var("x", 2));
    assert!(!bound.eq(&free));
    assert!(!free.eq(&bound));
    assert!(!free.eq(&outer));
    assert!(!bound.eq(&outer));
    assert!(!product("x", star(0), var("x", 0)).eq(&product("x", star(0), var("x", 1))));
}

#[test]
fn eq_holds_of_a_renamed_product_whatever_the_domain() {
    let domain = product("z", star(0), var("z", 1));
    let left = product("x", domain.clone(), star(0));
    let right = product("y", domain.clone(), star(0));
    assert!(left.eq(&right));
    assert!(right.eq(&left));
    let body = arrow(var("x", 0), remote("Ext"));
    let renamed = body.subst("x", &var("y", 0), 0);
    assert!(product("x", domain.clone(), body.clone()).eq(&product("y", domain.clone(), renamed.clone())));
    assert!(lambda("x", domain.clone(), body).eq(&lambda("y", domain, renamed)));
}

#[test]
fn eq_is_not_symmetric_where_a_free_name_meets_a_binder() {
    let bound = product("z", star(0), var("z", 0));
    let free = product("x", star(0), var("z", 0));
    assert!(bound.eq(&free));
    assert!(!free.eq(&bound));
}

#[test]
fn eq_is_symmetric_and_transitive_on_examples() {
    let a = product("x", star(0), arrow(var("x", 0), star(1)));
    let b = product("y", star(0), arrow(var("y", 0), star(1)));
    let c = product("z", star(0), arrow(var("z", 0), star(1)));
    assert!(a.eq(&b));
    assert!(b.eq(&a));
    assert!(b.eq(&c));
    assert!(a.eq(&c));
    assert!(c.eq(&a));
}

#[test]
fn eq_does_not_reduce() {
    let redex = app(lambda("x", star(0), var("x", 0)), star(3));
    assert!(!redex.eq(&star(3)));
    assert!(redex.norm().eq(&star(3)));
}

#[test]
fn eq_is_not_transitive_where_a_renaming_captures_a_free_name() {
    let a = product("y", star(0), var("y", 0));
    let b = product("x", star(0), var("x", 0));
    let c = product("z", star(0), var("x", 0));
    assert!(a.eq(&b));
    assert!(b.eq(&c));
    assert!(!a.eq(&c));
}

#[test]
fn eq_fails_on_a_renaming_to_a_name_that_the_body_holds() {
    let body = arrow(var("x", 0), var("y", 0));
    let renamed = body.subst("x", &var("y", 0), 0);
    assert_eq!(renamed, arrow(var("y", 0), var("y", 0)));
    assert!(!product("x", star(0), body).eq(&product("y", star(0), renamed)));
}

#[test]
fn eq_fails_on_a_renaming_of_a_body_that_names_an_outer_binder() {
    let body = var("x", 1);
    let renamed = body.subst("x", &var("y", 0), 0);
    assert_eq!(renamed, var("x", 0));
    assert!(!product("x", star(0), body).eq(&product("y", star(0), renamed)));
}

#[test]
fn eq_between_terms_with_the_same_binder_names_is_equality() {
    let left = lambda("x", star(0), product("y", var("x", 0), arrow(var("y", 0), var("z", 2))));
    let same = lambda("x", star(0), product("y", var("x", 0), arrow(var("y", 0), var("z", 2))));
    let other = lambda("x", star(0), product("y", var("x", 0), arrow(var("y", 0), var("z", 1))));
    assert!(left.eq(&same));
    assert!(!left.eq(&other));
    assert!(!other.eq(&left));
}

#[test]
fn eq_gives_the_same_answer_both_ways_where_no_renaming_captures() {
    let left = product("x", star(0), var("x", 1));
    let right = product("y", star(0), var("y", 1));
    assert!(!left.eq(&right));
    assert!(!right.eq(&left));
    let below_x = product("x", star(0), lambda("z", star(0), var("y", 0)));
    let below_y = product("y", star(0), lambda("z", star(0), var("y", 0)));
    assert!(below_x.eq(&below_y));
    assert!(below_y.eq(&below_x));
    let nested_a = lambda("a", star(0), product("b", var("a", 0), arrow(var("b", 0), var("f", 2))));
    let nested_c = lambda("c", star(0), product("d", var("c", 0), arrow(var("d", 0), var("f", 2))));
    assert!(nested_a.eq(&nested_c));
    assert!(nested_c.eq(&nested_a));
}

#[test]
fn eq_is_not_transitive_where_the_middle_body_holds_the_outer_name() {
    let a = product("y", star(0), var("y", 0));
    let b = product("x", star(0), var("y", 0));
    let c = product("y", star(0), var("y", 1));
    assert!(a.eq(&b));
    assert!(b.eq(&c));
    assert!(!a.eq(&c));
}

#[test]
fn eq_is_transitive_where_no_renaming_captures() {
    let a = product("x", star(0), var("x", 1));
    let b = product("y", star(0), var("x", 1));
    let c = product("z", star(0), var("x", 1));
    assert!(a.eq(&b));
    assert!(b.eq(&c));
    assert!(a.eq(&c));
    let untidy = lambda("x", star(0), lambda("x", star(0), var("x", 2)));
    assert!(untidy.eq(&untidy.clone()));
}
