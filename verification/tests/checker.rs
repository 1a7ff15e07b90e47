use pts_kernel::ast::Type;
use pts_kernel::typing::ErrorKind;

fn star(level: usize) -> Type {
    Type::Star(level)
}

fn var(name: &str, index: usize) -> Type {
    Type::Var(name.to_string(), index)
}

fn arrow(domain: Type, codomain: Type) -> Type {
    Type::Arrow(Box::new(domain), Box::new(codomain))
}

fn product(name: &str, domain: Type, codomain: Type) -> Type {
    Type::ForAll(name.to_string(), Box::new(domain), Box::new(codomain))
}

fn lambda(name: &str, domain: Type, body: Type) -> Type {
    Type::Lambda(name.to_string(), Box::new(domain), Box::new(body))
}

fn app(function: Type, argument: Type) -> Type {
    Type::App(Box::new(function), Box::new(argument))
}

fn remote(name: &str) -> Type {
    Type::Remote(name.to_string())
}

fn bind(name: &str, ty: Type) -> (String, Type) {
    (name.to_string(), ty)
}

#[test]
fn universe_has_the_next_universe_as_its_type() {
    for level in [0usize, 1, 2, 17, 1000, usize::MAX - 1] {
        assert_eq!(star(level).type_check(&[]), Ok(star(level + 1)));
    }
    let context = vec![bind("x", star(4))];
    assert_eq!(star(0).type_check(&context), Ok(star(1)));
}

#[test]
fn identity_function_has_an_arrow_type() {
    let identity = lambda("x", star(0), var("x", 0));
    assert_eq!(identity.type_check(&[]), Ok(arrow(star(0), star(0))));
}

#[test]
fn unbound_variable_is_reported_by_name() {
    assert_eq!(
        var("y", 0).type_check(&[]),
        Err(ErrorKind::UnboundVariable("y".to_string()))
    );
    let context = vec![bind("x", star(0))];
    assert_eq!(
        var("y", 0).type_check(&context),
        Err(ErrorKind::UnboundVariable("y".to_string()))
    );
}

#[test]
fn application_to_an_argument_of_another_type_is_a_mismatch() {
    let context = vec![bind("f", product("x", star(0), star(0)))];
    let term = app(var("f", 0), star(0));
    assert_eq!(
        term.type_check(&context),
        Err(ErrorKind::ArgumentTypeMismatch(star(0), star(1)))
    );
}

#[test]
fn unresolved_reference_fails_in_every_context() {
    let expected = Err(ErrorKind::UnresolvedReference("Ext".to_string()));
    assert_eq!(remote("Ext").type_check(&[]), expected);
    let context = vec![bind("Ext", star(0)), bind("x", star(1))];
    assert_eq!(remote("Ext").type_check(&context), expected);
}

#[test]
fn variable_has_the_type_of_its_binding() {
    let context = vec![bind("a", star(2)), bind("b", var("a", 0))];
    assert_eq!(var("a", 0).type_check(&context), Ok(star(2)));
    assert_eq!(var("b", 0).type_check(&context), Ok(var("a", 0)));
}

#[test]
fn variable_lookup_takes_the_first_binding_whatever_the_index() {
    let context = vec![bind("x", star(0)), bind("x", star(5))];
    assert_eq!(var("x", 0).type_check(&context), Ok(star(0)));
    assert_eq!(var("x", 1).type_check(&context), Ok(star(0)));
    assert_eq!(var("x", 7).type_check(&context), Ok(star(0)));
}

#[test]
fn arrow_lives_in_the_higher_universe_of_its_parts() {
    assert_eq!(arrow(star(0), star(2)).type_check(&[]), Ok(star(3)));
    assert_eq!(arrow(star(4), star(1)).type_check(&[]), Ok(star(5)));
    assert_eq!(arrow(star(1), star(1)).type_check(&[]), Ok(star(2)));
}

#[test]
fn arrow_needs_types_on_both_sides() {
    let context = vec![bind("a", var("b", 0)), bind("t", star(0))];
    assert_eq!(
        arrow(var("a", 0), var("t", 0)).type_check(&context),
        Err(ErrorKind::NotAType(var("a", 0), var("b", 0)))
    );
    assert_eq!(
        arrow(var("t", 0), var("a", 0)).type_check(&context),
        Err(ErrorKind::NotAType(var("a", 0), var("b", 0)))
    );
}

#[test]
fn arrow_reports_a_failure_in_the_codomain_before_a_domain_that_is_no_type() {
    let context = vec![bind("a", var("b", 0))];
    assert_eq!(
        arrow(var("a", 0), var("missing", 0)).type_check(&context),
        Err(ErrorKind::UnboundVariable("missing".to_string()))
    );
}

#[test]
fn product_binds_its_name_to_the_domain() {
    assert_eq!(
        product("x", star(0), var("x", 0)).type_check(&[]),
        Ok(star(1))
    );
    assert_eq!(
        product("x", star(3), star(0)).type_check(&[]),
        Ok(star(4))
    );
}

#[test]
fn product_needs_a_type_as_its_codomain() {
    let context = vec![bind("a", var("b", 0))];
    assert_eq!(
        product("x", star(0), var("a", 0)).type_check(&context),
        Err(ErrorKind::NotAType(var("a", 0), var("b", 0)))
    );
    let inner = lambda("y", star(0), var("y", 0));
    assert_eq!(
        product("x", inner.clone(), star(0)).type_check(&[]),
        Err(ErrorKind::NotAType(inner, arrow(star(0), star(0))))
    );
}

#[test]
fn binding_is_gone_after_its_binder() {
    let term = arrow(product("x", star(0), var("x", 0)), var("x", 0));
    assert_eq!(
        term.type_check(&[]),
        Err(ErrorKind::UnboundVariable("x".to_string()))
    );
}

#[test]
fn abstraction_binds_the_normal_form_of_its_domain() {
    let domain = app(lambda("t", star(1), var("t", 0)), star(0));
    let term = lambda("x", domain, var("x", 0));
    assert_eq!(term.type_check(&[]), Err(ErrorKind::NotAFunction(
        lambda("t", star(1), var("t", 0)),
        arrow(star(1), star(1)),
    )));
    let context = vec![bind("d", star(0))];
    let stuck = lambda("x", arrow(var("d", 0), var("d", 0)), var("x", 0));
    assert_eq!(
        stuck.type_check(&context),
        Ok(arrow(
            arrow(var("d", 0), var("d", 0)),
            arrow(var("d", 0), var("d", 0))
        ))
    );
}

#[test]
fn abstraction_fails_with_its_domain_or_its_body() {
    assert_eq!(
        lambda("x", var("nowhere", 0), var("x", 0)).type_check(&[]),
        Err(ErrorKind::UnboundVariable("nowhere".to_string()))
    );
    assert_eq!(
        lambda("x", star(0), remote("Ext")).type_check(&[]),
        Err(ErrorKind::UnresolvedReference("Ext".to_string()))
    );
}

#[test]
fn nested_abstractions_have_nested_arrows() {
    let term = lambda("a", star(1), lambda("b", var("a", 0), var("b", 0)));
    assert_eq!(
        term.type_check(&[]),
        Ok(arrow(star(1), arrow(var("a", 0), var("a", 0))))
    );
}

#[test]
fn application_needs_a_product_as_the_type_of_its_head() {
    assert_eq!(
        app(star(0), star(0)).type_check(&[]),
        Err(ErrorKind::NotAFunction(star(0), star(1)))
    );
    let identity = lambda("x", star(0), var("x", 0));
    assert_eq!(
        app(identity.clone(), star(0)).type_check(&[]),
        Err(ErrorKind::NotAFunction(identity, arrow(star(0), star(0))))
    );
}

#[test]
fn application_does_not_look_at_the_argument_of_a_head_that_is_no_function() {
    assert_eq!(
        app(star(0), var("missing", 0)).type_check(&[]),
        Err(ErrorKind::NotAFunction(star(0), star(1)))
    );
}

#[test]
fn application_fails_with_its_head_or_its_argument() {
    assert_eq!(
        app(var("f", 0), star(0)).type_check(&[]),
        Err(ErrorKind::UnboundVariable("f".to_string()))
    );
    let context = vec![bind("f", product("x", star(1), star(0)))];
    assert_eq!(
        app(var("f", 0), remote("Ext")).type_check(&context),
        Err(ErrorKind::UnresolvedReference("Ext".to_string()))
    );
}

#[test]
fn application_has_the_codomain_with_the_argument_type_put_in() {
    let context = vec![bind("f", product("x", star(1), arrow(var("x", 0), star(0))))];
    assert_eq!(
        app(var("f", 0), star(0)).type_check(&context),
        Ok(arrow(star(1), star(0)))
    );
}

#[test]
fn application_compares_types_up_to_the_names_of_binders() {
    let context = vec![
        bind("f", product("h", product("a", star(0), var("a", 0)), star(2))),
        bind("g", product("b", star(0), var("b", 0))),
    ];
    assert_eq!(app(var("f", 0), var("g", 0)).type_check(&context), Ok(star(2)));
}

#[test]
fn application_reduces_its_result() {
    let redex = app(lambda("t", star(0), var("t", 0)), var("x", 0));
    let context = vec![bind("f", product("x", star(1), redex))];
    assert_eq!(app(var("f", 0), star(0)).type_check(&context), Ok(star(1)));
}

#[test]
fn star_level_reads_a_universe() {
    assert_eq!(star(3).star_level(&var("t", 0)), Ok(3));
    assert_eq!(star(0).star_level(&star(9)), Ok(0));
}

#[test]
fn star_level_rejects_what_is_no_universe() {
    assert_eq!(
        var("b", 0).star_level(&var("a", 0)),
        Err(ErrorKind::NotAType(var("a", 0), var("b", 0)))
    );
    assert_eq!(
        arrow(star(0), star(0)).star_level(&remote("Ext")),
        Err(ErrorKind::NotAType(remote("Ext"), arrow(star(0), star(0))))
    );
}
