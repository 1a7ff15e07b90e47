use pts_kernel::ast::Type;
use pts_kernel::typing::ErrorKind;

fn star(level: usize) -> Type {
    Type::Star(level)
}

fn var(name: &str, index: usize) -> Type {
    Type::Var(name.to_string(), index)
}

fn arrow(domain: Type, codomain: Type) -> Type {
    Type::Arrow(Box::new(domain), Box::new(codomain))
}

fn product(name: &str, domain: Type, codomain: Type) -> Type {
    Type::ForAll(name.to_string(), Box::new(domain), Box::new(codomain))
}

fn lambda(name: &str, domain: Type, body: Type) -> Type {
    Type::Lambda(name.to_string(), Box::new(domain), Box::new(body))
}

fn app(function: Type, argument: Type) -> Type {
    Type::App(Box::new(function), Box::new(argument))
}

fn bind(name: &str, ty: Type) -> (String, Type) {
    (name.to_string(), ty)
}

fn self_application() -> Type {
    lambda("x", star(0), app(var("x", 0), var("x", 0)))
}

#[test]
fn try_shift_agrees_with_shift_in_range() {
    let term = lambda("x", var("x", 0), arrow(var("x", 0), var("x", 1)));
    assert_eq!(term.try_shift("x", 0), Some(term.shift("x", 0)));
    assert_eq!(var("y", usize::MAX).try_shift("x", 0), Some(var("y", usize::MAX)));
    assert_eq!(var("x", usize::MAX - 1).try_shift("x", 0), Some(var("x", usize::MAX)));
}

#[test]
fn try_shift_stops_at_the_last_occurrence_count() {
    assert_eq!(var("x", usize::MAX).try_shift("x", 0), None);
    assert_eq!(arrow(star(0), var("x", usize::MAX)).try_shift("x", 3), None);
    assert_eq!(app(var("x", usize::MAX), star(0)).try_shift("x", 3), None);
    assert_eq!(product("y", var("x", usize::MAX), star(0)).try_shift("x", 3), None);
    assert_eq!(lambda("y", star(0), var("x", usize::MAX)).try_shift("x", 3), None);
}

#[test]
fn try_shift_stops_at_the_last_cutoff() {
    assert_eq!(lambda("x", star(0), star(0)).try_shift("x", usize::MAX), None);
    assert_eq!(
        lambda("y", star(0), star(0)).try_shift("x", usize::MAX),
        Some(lambda("y", star(0), star(0)))
    );
    assert_eq!(var("x", 3).try_shift("x", usize::MAX), Some(var("x", 3)));
}

#[test]
fn try_subst_agrees_with_subst_in_range() {
    let term = product("y", star(0), arrow(var("x", 0), var("x", 1)));
    assert_eq!(
        term.try_subst("x", &var("y", 0), 0),
        Some(term.subst("x", &var("y", 0), 0))
    );
    assert_eq!(
        term.try_subst("x", &var("y", 0), 0),
        Some(product("y", star(0), arrow(var("x", 0), var("y", 1))))
    );
}

#[test]
fn try_subst_stops_where_the_value_cannot_be_shifted() {
    let term = lambda("y", star(0), var("x", 1));
    assert_eq!(term.try_subst("x", &var("y", usize::MAX), 0), None);
    assert_eq!(
        term.try_subst("x", &var("z", usize::MAX), 0),
        Some(lambda("y", star(0), var("z", usize::MAX)))
    );
}

#[test]
fn try_subst_stops_at_the_last_level() {
    assert_eq!(lambda("y", star(0), star(1)).try_subst("x", &star(2), usize::MAX), None);
    assert_eq!(
        arrow(var("x", usize::MAX), star(1)).try_subst("x", &star(2), usize::MAX),
        Some(arrow(star(2), star(1)))
    );
}

#[test]
fn try_eq_agrees_with_eq() {
    let left = product("x", star(0), arrow(var("x", 0), star(1)));
    let right = product("y", star(0), arrow(var("y", 0), star(1)));
    assert_eq!(left.try_eq(&right), Some(true));
    assert_eq!(left.try_eq(&star(0)), Some(false));
    assert_eq!(
        product("x", star(0), var("x", 1)).try_eq(&product("x", star(0), var("x", 1))),
        Some(true)
    );
    assert_eq!(app(star(0), star(1)).try_eq(&app(star(0), star(2))), Some(false));
    assert_eq!(app(star(1), star(1)).try_eq(&app(star(0), star(1))), Some(false));
}

#[test]
fn try_eq_renames_only_where_the_binder_names_differ() {
    let bound = lambda("x", star(0), var("x", 0));
    let free = lambda("x", star(0), var("x", 1));
    assert_eq!(bound.try_eq(&free), Some(false));
    assert_eq!(free.try_eq(&bound), Some(false));
    let renamed = lambda("y", star(0), var("x", 1));
    assert_eq!(lambda("x", star(0), var("x", 0)).try_eq(&renamed), Some(false));
    assert_eq!(
        lambda("a", star(0), var("a", 0)).try_eq(&lambda("b", star(0), var("b", 0))),
        Some(true)
    );
    let top = lambda("x", star(0), var("x", usize::MAX));
    assert_eq!(top.try_eq(&top), Some(true));
    assert_eq!(
        lambda("y", star(0), var("x", usize::MAX - 1)).try_eq(&top),
        Some(true)
    );
}

#[test]
fn try_norm_needs_fuel_for_the_depth_of_the_reduction() {
    let term = app(lambda("x", star(0), var("x", 0)), star(3));
    assert_eq!(term.try_norm(0), None);
    assert_eq!(term.try_norm(1), None);
    assert_eq!(term.try_norm(2), None);
    assert_eq!(term.try_norm(3), Some(star(3)));
    assert_eq!(term.try_norm(100), Some(star(3)));
    assert_eq!(star(1).try_norm(0), None);
    assert_eq!(star(1).try_norm(1), Some(star(1)));
}

#[test]
fn try_norm_gives_up_on_a_reduction_that_never_ends() {
    let omega = app(self_application(), self_application());
    assert_eq!(omega.try_norm(10), None);
    assert_eq!(omega.try_norm(200), None);
}

#[test]
fn try_norm_stops_where_a_substitution_is_out_of_range() {
    let body = lambda("y", star(0), var("x", 1));
    let term = app(lambda("x", star(0), body), var("y", usize::MAX));
    assert_eq!(term.try_norm(50), None);
    let fine = app(
        lambda("x", star(0), lambda("y", star(0), var("x", 1))),
        var("z", usize::MAX),
    );
    assert_eq!(fine.try_norm(50), Some(lambda("y", star(0), var("z", usize::MAX))));
}

#[test]
fn try_type_check_agrees_with_type_check() {
    let identity = lambda("x", star(0), var("x", 0));
    assert_eq!(
        identity.try_type_check(&[], 10),
        Some(Ok(arrow(star(0), star(0))))
    );
    assert_eq!(
        var("y", 0).try_type_check(&[], 10),
        Some(Err(ErrorKind::UnboundVariable("y".to_string())))
    );
    let context = vec![bind("f", product("x", star(1), arrow(var("x", 0), star(0))))];
    assert_eq!(
        app(var("f", 0), star(0)).try_type_check(&context, 10),
        Some(Ok(arrow(star(1), star(0))))
    );
    assert_eq!(
        app(var("f", 0), star(1)).try_type_check(&context, 10),
        Some(Err(ErrorKind::ArgumentTypeMismatch(star(1), star(2))))
    );
    assert_eq!(
        app(star(0), star(1)).try_type_check(&context, 10),
        Some(Err(ErrorKind::NotAFunction(star(0), star(1))))
    );
    assert_eq!(
        arrow(var("f", 0), star(0)).try_type_check(&context, 10),
        Some(Err(ErrorKind::NotAType(
            var("f", 0),
            product("x", star(1), arrow(var("x", 0), star(0)))
        )))
    );
    assert_eq!(
        Type::Remote("Ext".to_string()).try_type_check(&context, 10),
        Some(Err(ErrorKind::UnresolvedReference("Ext".to_string())))
    );
}

#[test]
fn try_type_check_stops_at_the_last_universe() {
    assert_eq!(star(usize::MAX).try_type_check(&[], 10), None);
    assert_eq!(
        star(usize::MAX - 1).try_type_check(&[], 10),
        Some(Ok(star(usize::MAX)))
    );
    assert_eq!(arrow(star(0), star(usize::MAX)).try_type_check(&[], 10), None);
}

#[test]
fn try_type_check_needs_fuel_for_its_normalisations() {
    let identity = lambda("x", star(0), var("x", 0));
    assert_eq!(identity.try_type_check(&[], 0), None);
    assert_eq!(
        identity.try_type_check(&[], 1),
        Some(Ok(arrow(star(0), star(0))))
    );
    assert_eq!(product("x", star(0), star(0)).try_type_check(&[], 0), None);
    assert_eq!(star(0).try_type_check(&[], 0), Some(Ok(star(1))));
}

#[test]
fn try_type_check_reports_a_failure_before_it_runs_out() {
    let term = arrow(var("missing", 0), star(usize::MAX));
    assert_eq!(
        term.try_type_check(&[], 10),
        Some(Err(ErrorKind::UnboundVariable("missing".to_string())))
    );
}
