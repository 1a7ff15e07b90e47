//! Total variants of the engine: each one tests on its way what the plain
//! function asks of its caller, and returns `None` where the plain
//! function may not be called. Reduction takes the number of nested steps
//! that it may use.

use crate::ast::Type;
use crate::model::Term;
use crate::typing::{context_view, extend, find_entry, outcome_view, ErrorKind};
use vstd::prelude::*;

verus! {

impl Term {
    /// The check of the term in the context stays in range where every
    /// normalisation that it calls for ends within `fuel` nested steps.
    pub open spec fn check_in_range_within(
        self,
        context: Seq<(Seq<char>, Term)>,
        fuel: nat,
    ) -> bool
        decreases self,
    {
        match self {
            Term::Star(l) => l < usize::MAX,
            Term::Arrow(d, c) => {
                &&& d.check_in_range_within(context, fuel)
                &&& d.check(context) is Ok ==> c.check_in_range_within(context, fuel)
            },
            Term::ForAll(n, d, c) => {
                &&& d.check_in_range_within(context, fuel)
                &&& d.check(context) is Ok ==> {
                    &&& d.reduce_in_range(fuel)
                    &&& c.check_in_range_within(context.push((n, d.norm())), fuel)
                }
            },
            Term::Lambda(n, d, c) => {
                &&& d.check_in_range_within(context, fuel)
                &&& d.check(context) is Ok ==> {
                    &&& d.reduce_in_range(fuel)
                    &&& c.check_in_range_within(context.push((n, d.norm())), fuel)
                }
            },
            Term::App(f, a) => {
                &&& f.check_in_range_within(context, fuel)
                &&& f.check(context) matches Ok(Term::ForAll(n, dom, cod)) ==> {
                    &&& a.check_in_range_within(context, fuel)
                    &&& a.check(context) matches Ok(at) ==> {
                        &&& dom.alpha_eq_in_range(at)
                        &&& dom.alpha_eq(at) ==> {
                            &&& cod.subst_in_range(n, at, 0)
                            &&& cod.subst(n, at, 0).reduce_in_range(fuel)
                        }
                    }
                }
            },
            _ => true,
        }
    }

    /// A check that stays in range within `fuel` steps stays in range with
    /// any larger fuel.
    pub proof fn lemma_check_in_range_within_monotone(
        self,
        context: Seq<(Seq<char>, Term)>,
        fuel: nat,
        more: nat,
    )
        requires
            self.check_in_range_within(context, fuel),
            fuel <= more,
        ensures
            self.check_in_range_within(context, more),
        decreases self,
    {
        match self {
            Term::Arrow(d, c) => {
                d.lemma_check_in_range_within_monotone(context, fuel, more);
                if d.check(context) is Ok {
                    c.lemma_check_in_range_within_monotone(context, fuel, more);
                }
            },
            Term::ForAll(n, d, c) => {
                d.lemma_check_in_range_within_monotone(context, fuel, more);
                if d.check(context) is Ok {
                    d.lemma_reduce_in_range_monotone(fuel, more);
                    c.lemma_check_in_range_within_monotone(
                        context.push((n, d.norm())),
                        fuel,
                        more,
                    );
                }
            },
            Term::Lambda(n, d, c) => {
                d.lemma_check_in_range_within_monotone(context, fuel, more);
                if d.check(context) is Ok {
                    d.lemma_reduce_in_range_monotone(fuel, more);
                    c.lemma_check_in_range_within_monotone(
                        context.push((n, d.norm())),
                        fuel,
                        more,
                    );
                }
            },
            Term::App(f, a) => {
                f.lemma_check_in_range_within_monotone(context, fuel, more);
                match f.check(context) {
                    Ok(Term::ForAll(n, dom, cod)) => {
                        a.lemma_check_in_range_within_monotone(context, fuel, more);
                        match a.check(context) {
                            Ok(at) => {
                                if dom.alpha_eq(at) {
                                    cod.subst(n, at, 0).lemma_reduce_in_range_monotone(fuel, more);
                                }
                            },
                            _ => {},
                        }
                    },
                    _ => {},
                }
            },
            _ => {},
        }
    }

    /// A check that stays in range within some fuel stays in range.
    pub proof fn lemma_check_in_range_within(self, context: Seq<(Seq<char>, Term)>, fuel: nat)
        requires
            self.check_in_range_within(context, fuel),
        ensures
            self.check_in_range(context),
        decreases self,
    {
        match self {
            Term::Arrow(d, c) => {
                d.lemma_check_in_range_within(context, fuel);
                if d.check(context) is Ok {
                    c.lemma_check_in_range_within(context, fuel);
                }
            },
            Term::ForAll(n, d, c) => {
                d.lemma_check_in_range_within(context, fuel);
                if d.check(context) is Ok {
                    c.lemma_check_in_range_within(context.push((n, d.norm())), fuel);
                }
            },
            Term::Lambda(n, d, c) => {
                d.lemma_check_in_range_within(context, fuel);
                if d.check(context) is Ok {
                    c.lemma_check_in_range_within(context.push((n, d.norm())), fuel);
                }
            },
            Term::App(f, a) => {
                f.lemma_check_in_range_within(context, fuel);
                match f.check(context) {
                    Ok(Term::ForAll(_, _, _)) => {
                        a.lemma_check_in_range_within(context, fuel);
                    },
                    _ => {},
                }
            },
            _ => {},
        }
    }

    /// A check that stays in range does so within some fuel: the fuel that
    /// this proof returns.
    pub proof fn lemma_check_in_range_has_fuel(self, context: Seq<(Seq<char>, Term)>) -> (fuel:
        nat)
        requires
            self.check_in_range(context),
        ensures
            self.check_in_range_within(context, fuel),
        decreases self,
    {
        match self {
            Term::Arrow(d, c) => {
                let first = d.lemma_check_in_range_has_fuel(context);
                if d.check(context) is Ok {
                    let second = c.lemma_check_in_range_has_fuel(context);
                    let fuel = first + second;
                    d.lemma_check_in_range_within_monotone(context, first, fuel);
                    c.lemma_check_in_range_within_monotone(context, second, fuel);
                    fuel
                } else {
                    first
                }
            },
            Term::ForAll(n, d, c) => {
                let first = d.lemma_check_in_range_has_fuel(context);
                if d.check(context) is Ok {
                    let inner = context.push((n, d.norm()));
                    let second = c.lemma_check_in_range_has_fuel(inner);
                    let third = choose|k: nat| d.reduce_in_range(k);
                    let fuel = first + second + third;
                    d.lemma_check_in_range_within_monotone(context, first, fuel);
                    c.lemma_check_in_range_within_monotone(inner, second, fuel);
                    d.lemma_reduce_in_range_monotone(third, fuel);
                    fuel
                } else {
                    first
                }
            },
            Term::Lambda(n, d, c) => {
                let first = d.lemma_check_in_range_has_fuel(context);
                if d.check(context) is Ok {
                    let inner = context.push((n, d.norm()));
                    let second = c.lemma_check_in_range_has_fuel(inner);
                    let third = choose|k: nat| d.reduce_in_range(k);
                    let fuel = first + second + third;
                    d.lemma_check_in_range_within_monotone(context, first, fuel);
                    c.lemma_check_in_range_within_monotone(inner, second, fuel);
                    d.lemma_reduce_in_range_monotone(third, fuel);
                    fuel
                } else {
                    first
                }
            },
            Term::App(f, a) => {
                let first = f.lemma_check_in_range_has_fuel(context);
                match f.check(context) {
                    Ok(Term::ForAll(n, dom, cod)) => {
                        let second = a.lemma_check_in_range_has_fuel(context);
                        let third = match a.check(context) {
                            Ok(at) => if dom.alpha_eq(at) {
                                choose|k: nat| cod.subst(n, at, 0).reduce_in_range(k)
                            } else {
                                0
                            },
                            _ => 0,
                        };
                        let fuel = first + second + third;
                        f.lemma_check_in_range_within_monotone(context, first, fuel);
                        a.lemma_check_in_range_within_monotone(context, second, fuel);
                        match a.check(context) {
                            Ok(at) => {
                                if dom.alpha_eq(at) {
                                    cod.subst(n, at, 0).lemma_reduce_in_range_monotone(third, fuel);
                                }
                            },
                            _ => {},
                        }
                        fuel
                    },
                    _ => first,
                }
            },
            _ => 0,
        }
    }
}

impl Type {
    /// `shift`, or `None` where the shift is not in range.
    pub fn try_shift(&self, name: &str, p: usize) -> (r: Option<Type>)
        ensures
            r is Some <==> self@.shift_in_range(name@, p as nat),
            r matches Some(t) ==> t@ == self@.shift(name@, p as nat),
            r matches Some(t) ==> (!self@.mentions(name@) ==> t@ == self@),
    {
        proof {
            if !self@.mentions(name@) {
                self@.lemma_subst_absent_name(name@, self@, p as nat);
            }
        }
        let key = name.to_owned();
        self.try_shift_key(&key, p)
    }

    /// `try_shift` with the name as an owned string.
    pub(crate) fn try_shift_key(&self, name: &String, p: usize) -> (r: Option<Type>)
        ensures
            r is Some <==> self@.shift_in_range(name@, p as nat),
            r matches Some(t) ==> t@ == self@.shift(name@, p as nat),
        decreases self,
    {
        match self {
            Type::Var(n, i) => {
                if *n == *name && *i >= p {
                    if *i == usize::MAX {
                        None
                    } else {
                        Some(Type::Var(n.clone(), *i + 1))
                    }
                } else {
                    Some(Type::Var(n.clone(), *i))
                }
            },
            Type::ForAll(n, d, c) => {
                let domain = match d.try_shift_key(name, p) {
                    Some(t) => t,
                    None => {
                        return None;
                    },
                };
                if *n == *name && p == usize::MAX {
                    return None;
                }
                let below: usize = if *n == *name {
                    p + 1
                } else {
                    p
                };
                match c.try_shift_key(name, below) {
                    Some(codomain) => Some(
                        Type::ForAll(n.clone(), Box::new(domain), Box::new(codomain)),
                    ),
                    None => None,
                }
            },
            Type::Lambda(n, d, c) => {
                let domain = match d.try_shift_key(name, p) {
                    Some(t) => t,
                    None => {
                        return None;
                    },
                };
                if *n == *name && p == usize::MAX {
                    return None;
                }
                let below: usize = if *n == *name {
                    p + 1
                } else {
                    p
                };
                match c.try_shift_key(name, below) {
                    Some(body) => Some(Type::Lambda(n.clone(), Box::new(domain), Box::new(body))),
                    None => None,
                }
            },
            Type::Arrow(d, c) => {
                let domain = match d.try_shift_key(name, p) {
                    Some(t) => t,
                    None => {
                        return None;
                    },
                };
                match c.try_shift_key(name, p) {
                    Some(codomain) => Some(Type::Arrow(Box::new(domain), Box::new(codomain))),
                    None => None,
                }
            },
            Type::App(f, a) => {
                let function = match f.try_shift_key(name, p) {
                    Some(t) => t,
                    None => {
                        return None;
                    },
                };
                match a.try_shift_key(name, p) {
                    Some(argument) => Some(Type::App(Box::new(function), Box::new(argument))),
                    None => None,
                }
            },
            _ => Some(self.clone()),
        }
    }

    /// `subst`, or `None` where the substitution is not in range.
    pub fn try_subst(&self, name: &str, value: &Type, l: usize) -> (r: Option<Type>)
        ensures
            r is Some <==> self@.subst_in_range(name@, value@, l as nat),
            r matches Some(t) ==> t@ == self@.subst(name@, value@, l as nat),
            r matches Some(t) ==> (!self@.mentions(name@) ==> t@ == self@),
    {
        proof {
            if !self@.mentions(name@) {
                self@.lemma_subst_absent_name(name@, value@, l as nat);
            }
        }
        let key = name.to_owned();
        self.try_subst_key(&key, value, l)
    }

    /// `try_subst` with the name as an owned string.
    pub(crate) fn try_subst_key(&self, name: &String, value: &Type, l: usize) -> (r: Option<Type>)
        ensures
            r is Some <==> self@.subst_in_range(name@, value@, l as nat),
            r matches Some(t) ==> t@ == self@.subst(name@, value@, l as nat),
        decreases self,
    {
        match self {
            Type::Arrow(d, c) => {
                let domain = match d.try_subst_key(name, value, l) {
                    Some(t) => t,
                    None => {
                        return None;
                    },
                };
                match c.try_subst_key(name, value, l) {
                    Some(codomain) => Some(Type::Arrow(Box::new(domain), Box::new(codomain))),
                    None => None,
                }
            },
            Type::ForAll(n, d, c) => {
                let domain = match d.try_subst_key(name, value, l) {
                    Some(t) => t,
                    None => {
                        return None;
                    },
                };
                if l == usize::MAX {
                    return None;
                }
                let lifted = match value.try_shift_key(n, 0) {
                    Some(t) => t,
                    None => {
                        return None;
                    },
                };
                match c.try_subst_key(name, &lifted, l + 1) {
                    Some(codomain) => Some(
                        Type::ForAll(n.clone(), Box::new(domain), Box::new(codomain)),
                    ),
                    None => None,
                }
            },
            Type::Lambda(n, d, c) => {
                let domain = match d.try_subst_key(name, value, l) {
                    Some(t) => t,
                    None => {
                        return None;
                    },
                };
                if l == usize::MAX {
                    return None;
                }
                let lifted = match value.try_shift_key(n, 0) {
                    Some(t) => t,
                    None => {
                        return None;
                    },
                };
                match c.try_subst_key(name, &lifted, l + 1) {
                    Some(body) => Some(Type::Lambda(n.clone(), Box::new(domain), Box::new(body))),
                    None => None,
                }
            },
            Type::App(f, a) => {
                let function = match f.try_subst_key(name, value, l) {
                    Some(t) => t,
                    None => {
                        return None;
                    },
                };
                match a.try_subst_key(name, value, l) {
                    Some(argument) => Some(Type::App(Box::new(function), Box::new(argument))),
                    None => None,
                }
            },
            Type::Var(n, i) => {
                if *n == *name && *i == l {
                    Some(value.clone())
                } else if *n == *name && *i > l {
                    Some(Type::Var(n.clone(), *i - 1))
                } else {
                    Some(Type::Var(n.clone(), *i))
                }
            },
            _ => Some(self.clone()),
        }
    }

    /// `eq`, or `None` where a renaming of the comparison is not in range.
    pub fn try_eq(&self, other: &Type) -> (r: Option<bool>)
        ensures
            r is Some <==> self@.alpha_eq_in_range(other@),
            r matches Some(equal) ==> equal == self@.alpha_eq(other@),
        decreases self,
    {
        match (self, other) {
            (Type::Arrow(d1, c1), Type::Arrow(d2, c2)) => {
                match (**d1).try_eq(&**d2) {
                    Some(true) => (**c1).try_eq(&**c2),
                    first => first,
                }
            },
            (Type::ForAll(n1, d1, c1), Type::ForAll(n2, d2, c2)) => {
                match (**d1).try_eq(&**d2) {
                    Some(true) => if *n1 == *n2 {
                        (**c1).try_eq(&**c2)
                    } else {
                        match c2.try_subst_key(n2, &Type::Var(n1.clone(), 0), 0) {
                            Some(renamed) => (**c1).try_eq(&renamed),
                            None => None,
                        }
                    },
                    first => first,
                }
            },
            (Type::Lambda(n1, d1, c1), Type::Lambda(n2, d2, c2)) => {
                match (**d1).try_eq(&**d2) {
                    Some(true) => if *n1 == *n2 {
                        (**c1).try_eq(&**c2)
                    } else {
                        match c2.try_subst_key(n2, &Type::Var(n1.clone(), 0), 0) {
                            Some(renamed) => (**c1).try_eq(&renamed),
                            None => None,
                        }
                    },
                    first => first,
                }
            },
            (Type::App(f1, a1), Type::App(f2, a2)) => {
                match (**f1).try_eq(&**f2) {
                    Some(true) => (**a1).try_eq(&**a2),
                    first => first,
                }
            },
            (Type::Star(l1), Type::Star(l2)) => Some(*l1 == *l2),
            (Type::Var(n1, i1), Type::Var(n2, i2)) => Some(*n1 == *n2 && *i1 == *i2),
            (Type::Remote(n1), Type::Remote(n2)) => Some(*n1 == *n2),
            _ => Some(false),
        }
    }

    /// `norm` within `fuel` nested steps, or `None` where the reduction
    /// does not end within them or is not in range.
    pub fn try_norm(&self, fuel: usize) -> (r: Option<Type>)
        ensures
            r is Some <==> self@.reduce_in_range(fuel as nat),
            r matches Some(t) ==> self@.reduce(fuel as nat) == Some(t@),
        decreases fuel,
    {
        if fuel == 0 {
            return None;
        }
        let rest: usize = fuel - 1;
        match self {
            Type::Arrow(d, c) => {
                let domain = match d.try_norm(rest) {
                    Some(t) => t,
                    None => {
                        return None;
                    },
                };
                match c.try_norm(rest) {
                    Some(codomain) => Some(Type::Arrow(Box::new(domain), Box::new(codomain))),
                    None => None,
                }
            },
            Type::ForAll(n, d, c) => {
                let domain = match d.try_norm(rest) {
                    Some(t) => t,
                    None => {
                        return None;
                    },
                };
                match c.try_norm(rest) {
                    Some(codomain) => Some(
                        Type::ForAll(n.clone(), Box::new(domain), Box::new(codomain)),
                    ),
                    None => None,
                }
            },
            Type::Lambda(n, d, c) => {
                let domain = match d.try_norm(rest) {
                    Some(t) => t,
                    None => {
                        return None;
                    },
                };
                match c.try_norm(rest) {
                    Some(body) => Some(Type::Lambda(n.clone(), Box::new(domain), Box::new(body))),
                    None => None,
                }
            },
            Type::App(f, a) => {
                let head = match f.try_norm(rest) {
                    Some(t) => t,
                    None => {
                        return None;
                    },
                };
                let argument = match a.try_norm(rest) {
                    Some(t) => t,
                    None => {
                        return None;
                    },
                };
                match head {
                    Type::Lambda(n, _, body) => match body.try_subst_key(&n, &argument, 0) {
                        Some(reduct) => reduct.try_norm(rest),
                        None => None,
                    },
                    stuck => Some(Type::App(Box::new(stuck), Box::new(argument))),
                }
            },
            _ => Some(self.clone()),
        }
    }

    /// `type_check` with `fuel` nested steps for each normalisation, or
    /// `None` where the check is not in range within them.
    pub fn try_type_check(&self, context: &[(String, Type)], fuel: usize) -> (r: Option<
        Result<Type, ErrorKind>,
    >)
        ensures
            r is Some <==> self@.check_in_range_within(context_view(context@), fuel as nat),
            r matches Some(outcome) ==> outcome_view(outcome) == self@.check(
                context_view(context@),
            ),
        decreases self,
    {
        match self {
            Type::Star(l) => {
                if *l == usize::MAX {
                    None
                } else {
                    Some(Ok(Type::Star(*l + 1)))
                }
            },
            Type::Var(n, _) => match find_entry(context, n) {
                Some(ty) => Some(Ok(ty)),
                None => Some(Err(ErrorKind::UnboundVariable(n.clone()))),
            },
            Type::Arrow(d, c) => {
                let dt = match d.try_type_check(context, fuel) {
                    Some(Ok(ty)) => ty,
                    other => {
                        return other;
                    },
                };
                let ct = match c.try_type_check(context, fuel) {
                    Some(Ok(ty)) => ty,
                    other => {
                        return other;
                    },
                };
                Some(Type::sort_of_pair(d, &dt, c, &ct))
            },
            Type::ForAll(n, d, c) => {
                let dt = match d.try_type_check(context, fuel) {
                    Some(Ok(ty)) => ty,
                    other => {
                        return other;
                    },
                };
                let domain = match d.try_norm(fuel) {
                    Some(t) => t,
                    None => {
                        return None;
                    },
                };
                proof {
                    d@.lemma_norm_is(fuel as nat);
                }
                let inner = extend(context, n, domain);
                let ct = match c.try_type_check(inner.as_slice(), fuel) {
                    Some(Ok(ty)) => ty,
                    other => {
                        return other;
                    },
                };
                Some(Type::sort_of_pair(d, &dt, c, &ct))
            },
            Type::Lambda(n, d, c) => {
                match d.try_type_check(context, fuel) {
                    Some(Ok(_)) => {},
                    other => {
                        return other;
                    },
                };
                let domain = match d.try_norm(fuel) {
                    Some(t) => t,
                    None => {
                        return None;
                    },
                };
                proof {
                    d@.lemma_norm_is(fuel as nat);
                }
                let inner = extend(context, n, domain.clone());
                let bt = match c.try_type_check(inner.as_slice(), fuel) {
                    Some(Ok(ty)) => ty,
                    other => {
                        return other;
                    },
                };
                Some(Ok(Type::Arrow(Box::new(domain), Box::new(bt))))
            },
            Type::App(f, a) => {
                let ft = match f.try_type_check(context, fuel) {
                    Some(Ok(ty)) => ty,
                    other => {
                        return other;
                    },
                };
                match ft {
                    Type::ForAll(n, dom, cod) => {
                        let at = match a.try_type_check(context, fuel) {
                            Some(Ok(ty)) => ty,
                            other => {
                                return other;
                            },
                        };
                        let equal = match (*dom).try_eq(&at) {
                            Some(b) => b,
                            None => {
                                return None;
                            },
                        };
                        if equal {
                            let reduct = match cod.try_subst_key(&n, &at, 0) {
                                Some(t) => t,
                                None => {
                                    return None;
                                },
                            };
                            match reduct.try_norm(fuel) {
                                Some(ty) => {
                                    proof {
                                        reduct@.lemma_norm_is(fuel as nat);
                                    }
                                    Some(Ok(ty))
                                },
                                None => None,
                            }
                        } else {
                            Some(Err(ErrorKind::ArgumentTypeMismatch(*dom, at)))
                        }
                    },
                    other => Some(Err(ErrorKind::NotAFunction((**f).clone(), other))),
                }
            },
            Type::Remote(n) => Some(Err(ErrorKind::UnresolvedReference(n.clone()))),
        }
    }
}

} // verus!
