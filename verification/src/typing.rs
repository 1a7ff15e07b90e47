//! The typing judgement: its definition on the model, and the checker
//! that computes it.

use crate::ast::Type;
use crate::model::Term;
use vstd::prelude::*;

verus! {

/// Why a term has no type, on the model.
pub enum Failure {
    /// The name is bound nowhere in the context.
    UnboundVariable(Seq<char>),
    /// The first term stands where a type is expected, and its own type,
    /// the second, is no universe.
    NotAType(Term, Term),
    /// The first term is applied, and its type, the second, is no product.
    NotAFunction(Term, Term),
    /// The product expects an argument of the first type; the argument has
    /// the second.
    ArgumentTypeMismatch(Term, Term),
    /// A reference to a type defined elsewhere cannot be checked here.
    UnresolvedReference(Seq<char>),
}

/// Why a term has no type.
#[derive(Debug, PartialEq, Eq)]
pub enum ErrorKind {
    /// The name is bound nowhere in the context.
    UnboundVariable(String),
    /// The first term stands where a type is expected, and its own type,
    /// the second, is no universe.
    NotAType(Type, Type),
    /// The first term is applied, and its type, the second, is no product.
    NotAFunction(Type, Type),
    /// The product expects an argument of the first type; the argument has
    /// the second.
    ArgumentTypeMismatch(Type, Type),
    /// A reference to a type defined elsewhere cannot be checked here.
    UnresolvedReference(String),
}

impl View for ErrorKind {
    type V = Failure;

    open spec fn view(&self) -> Failure {
        match self {
            ErrorKind::UnboundVariable(n) => Failure::UnboundVariable(n@),
            ErrorKind::NotAType(t, ty) => Failure::NotAType(t@, ty@),
            ErrorKind::NotAFunction(t, ty) => Failure::NotAFunction(t@, ty@),
            ErrorKind::ArgumentTypeMismatch(expected, found) => Failure::ArgumentTypeMismatch(
                expected@,
                found@,
            ),
            ErrorKind::UnresolvedReference(n) => Failure::UnresolvedReference(n@),
        }
    }
}

impl Clone for ErrorKind {
    fn clone(&self) -> (r: Self)
        ensures
            r == *self,
    {
        match self {
            ErrorKind::UnboundVariable(n) => ErrorKind::UnboundVariable(n.clone()),
            ErrorKind::NotAType(t, ty) => ErrorKind::NotAType(t.clone(), ty.clone()),
            ErrorKind::NotAFunction(t, ty) => ErrorKind::NotAFunction(t.clone(), ty.clone()),
            ErrorKind::ArgumentTypeMismatch(expected, found) => ErrorKind::ArgumentTypeMismatch(
                expected.clone(),
                found.clone(),
            ),
            ErrorKind::UnresolvedReference(n) => ErrorKind::UnresolvedReference(n.clone()),
        }
    }
}

/// The context that a slice of bindings stands for: the same names and
/// the views of the same types, in the same order.
pub open spec fn context_view(context: Seq<(String, Type)>) -> Seq<(Seq<char>, Term)> {
    context.map_values(|entry: (String, Type)| (entry.0@, entry.1@))
}

/// What the checker returns, on the model.
pub open spec fn outcome_view(outcome: Result<Type, ErrorKind>) -> Result<Term, Failure> {
    match outcome {
        Ok(ty) => Ok(ty@),
        Err(e) => Err(e@),
    }
}

/// The type of the first binding of `name` in the context, counted from
/// the outermost binding. The occurrence count of a variable plays no part.
pub open spec fn lookup(context: Seq<(Seq<char>, Term)>, name: Seq<char>) -> Option<Term>
    decreases context.len(),
{
    if context.len() == 0 {
        None
    } else if context[0].0 == name {
        Some(context[0].1)
    } else {
        lookup(context.subrange(1, context.len() as int), name)
    }
}

impl Term {
    /// The level of `self`, read as the type of `subject`: `self` must be a
    /// universe.
    pub open spec fn sort_level(self, subject: Term) -> Result<nat, Failure> {
        match self {
            Term::Star(l) => Ok(l),
            _ => Err(Failure::NotAType(subject, self)),
        }
    }

    /// The universe of a function type or product from `domain` of type
    /// `domain_type` to `codomain` of type `codomain_type`: the higher of
    /// the two levels. The domain is looked at first.
    pub open spec fn sort_of_pair(
        domain: Term,
        domain_type: Term,
        codomain: Term,
        codomain_type: Term,
    ) -> Result<Term, Failure> {
        match domain_type.sort_level(domain) {
            Err(e) => Err(e),
            Ok(dl) => match codomain_type.sort_level(codomain) {
                Err(e) => Err(e),
                Ok(cl) => Ok(
                    Term::Star(
                        if dl >= cl {
                            dl
                        } else {
                            cl
                        },
                    ),
                ),
            },
        }
    }

    /// The typing judgement: the type of the term in the context, or the
    /// first failure met. Where it calls for the normal form of a term that
    /// does not normalize, it says nothing.
    pub open spec fn check(self, context: Seq<(Seq<char>, Term)>) -> Result<Term, Failure>
        decreases self,
    {
        match self {
            Term::Star(l) => Ok(Term::Star(l + 1)),
            Term::Var(n, _) => match lookup(context, n) {
                Some(ty) => Ok(ty),
                None => Err(Failure::UnboundVariable(n)),
            },
            Term::Arrow(d, c) => match d.check(context) {
                Err(e) => Err(e),
                Ok(dt) => match c.check(context) {
                    Err(e) => Err(e),
                    Ok(ct) => Self::sort_of_pair(*d, dt, *c, ct),
                },
            },
            Term::ForAll(n, d, c) => match d.check(context) {
                Err(e) => Err(e),
                Ok(dt) => match c.check(context.push((n, d.norm()))) {
                    Err(e) => Err(e),
                    Ok(ct) => Self::sort_of_pair(*d, dt, *c, ct),
                },
            },
            Term::Lambda(n, d, c) => match d.check(context) {
                Err(e) => Err(e),
                Ok(_) => match c.check(context.push((n, d.norm()))) {
                    Err(e) => Err(e),
                    Ok(bt) => Ok(Term::Arrow(Box::new(d.norm()), Box::new(bt))),
                },
            },
            Term::App(f, a) => match f.check(context) {
                Err(e) => Err(e),
                Ok(Term::ForAll(n, dom, cod)) => match a.check(context) {
                    Err(e) => Err(e),
                    Ok(at) => if dom.alpha_eq(at) {
                        Ok(cod.subst(n, at, 0).norm())
                    } else {
                        Err(Failure::ArgumentTypeMismatch(*dom, at))
                    },
                },
                Ok(ft) => Err(Failure::NotAFunction(*f, ft)),
            },
            Term::Remote(n) => Err(Failure::UnresolvedReference(n)),
        }
    }

    /// The check of the term in the context comes to an end within the
    /// machine range: every normalisation that it calls for ends, and every
    /// level, shift, substitution and comparison on the way is in range.
    pub open spec fn check_in_range(self, context: Seq<(Seq<char>, Term)>) -> bool
        decreases self,
    {
        match self {
            Term::Star(l) => l < usize::MAX,
            Term::Arrow(d, c) => {
                &&& d.check_in_range(context)
                &&& d.check(context) is Ok ==> c.check_in_range(context)
            },
            Term::ForAll(n, d, c) => {
                &&& d.check_in_range(context)
                &&& d.check(context) is Ok ==> {
                    &&& d.norm_in_range()
                    &&& c.check_in_range(context.push((n, d.norm())))
                }
            },
            Term::Lambda(n, d, c) => {
                &&& d.check_in_range(context)
                &&& d.check(context) is Ok ==> {
                    &&& d.norm_in_range()
                    &&& c.check_in_range(context.push((n, d.norm())))
                }
            },
            Term::App(f, a) => {
                &&& f.check_in_range(context)
                &&& f.check(context) matches Ok(Term::ForAll(n, dom, cod)) ==> {
                    &&& a.check_in_range(context)
                    &&& a.check(context) matches Ok(at) ==> {
                        &&& dom.alpha_eq_in_range(at)
                        &&& dom.alpha_eq(at) ==> {
                            &&& cod.subst_in_range(n, at, 0)
                            &&& cod.subst(n, at, 0).norm_in_range()
                        }
                    }
                }
            },
            _ => true,
        }
    }
}

/// Every type that the context binds holds no redex.
pub open spec fn context_normal(context: Seq<(Seq<char>, Term)>) -> bool {
    forall|k: int| 0 <= k < context.len() ==> (#[trigger] context[k]).1.is_normal()
}

/// What `lookup` finds is the type of one of the bindings.
pub proof fn lemma_lookup_finds_entry(context: Seq<(Seq<char>, Term)>, name: Seq<char>)
    ensures
        lookup(context, name) matches Some(ty) ==> exists|k: int|
            0 <= k < context.len() && (#[trigger] context[k]) == (name, ty),
        lookup(context, name) is None ==> forall|k: int|
            0 <= k < context.len() ==> (#[trigger] context[k]).0 != name,
    decreases context.len(),
{
    if context.len() > 0 && context[0].0 != name {
        let rest = context.subrange(1, context.len() as int);
        lemma_lookup_finds_entry(rest, name);
        match lookup(rest, name) {
            Some(ty) => {
                let k = choose|k: int| 0 <= k < rest.len() && (#[trigger] rest[k]) == (name, ty);
                assert(context[k + 1] == (name, ty));
            },
            None => {
                assert forall|k: int| 0 <= k < context.len() implies (#[trigger] context[k]).0
                    != name by {
                    if k > 0 {
                        assert(rest[k - 1] == context[k]);
                    }
                }
            },
        }
    } else if context.len() > 0 {
        assert(context[0] == (name, context[0].1));
    }
}

impl Term {
    /// Universe stratification: in every context, the universe of level
    /// `level` has the universe of level `level + 1` as its type.
    pub proof fn lemma_universe_stratification(level: nat, context: Seq<(Seq<char>, Term)>)
        ensures
            Term::Star(level).check(context) == Ok::<Term, Failure>(Term::Star(level + 1)),
    {
    }

    /// A reference to a type defined elsewhere has no type in any context.
    pub proof fn lemma_remote_never_checks(name: Seq<char>, context: Seq<(Seq<char>, Term)>)
        ensures
            Term::Remote(name).check(context) == Err::<Term, Failure>(
                Failure::UnresolvedReference(name),
            ),
    {
    }

    /// The type that the judgement gives holds no redex, in a context
    /// whose types hold none, where the check comes to an end.
    pub proof fn lemma_check_gives_normal_form(self, context: Seq<(Seq<char>, Term)>)
        requires
            context_normal(context),
            self.check_in_range(context),
        ensures
            self.check(context) matches Ok(ty) ==> ty.is_normal(),
        decreases self,
    {
        match self {
            Term::Var(n, _) => {
                lemma_lookup_finds_entry(context, n);
            },
            Term::Lambda(n, d, c) => {
                if d.check(context) is Ok {
                    d.lemma_norm_in_range_normalizes();
                    d.lemma_norm_is_normal();
                    let inner = context.push((n, d.norm()));
                    assert(context_normal(inner));
                    c.lemma_check_gives_normal_form(inner);
                }
            },
            Term::App(f, a) => {
                match f.check(context) {
                    Ok(Term::ForAll(n, dom, cod)) => {
                        match a.check(context) {
                            Ok(at) => {
                                if dom.alpha_eq(at) {
                                    let reduct = cod.subst(n, at, 0);
                                    reduct.lemma_norm_in_range_normalizes();
                                    reduct.lemma_norm_is_normal();
                                }
                            },
                            _ => {},
                        }
                    },
                    _ => {},
                }
            },
            _ => {},
        }
    }
}

/// The type of the first binding of `name` in the context, if there is one.
pub(crate) fn find_entry(context: &[(String, Type)], name: &String) -> (r: Option<Type>)
    ensures
        match r {
            Some(ty) => lookup(context_view(context@), name@) == Some(ty@),
            None => lookup(context_view(context@), name@) is None,
        },
{
    let ghost whole = context_view(context@);
    let mut at: usize = 0;
    assert(whole.subrange(0, whole.len() as int) == whole);
    while at < context.len()
        invariant
            at <= context.len(),
            whole == context_view(context@),
            lookup(whole, name@) == lookup(whole.subrange(at as int, whole.len() as int), name@),
        decreases context.len() - at,
    {
        let ghost tail = whole.subrange(at as int, whole.len() as int);
        let entry = &context[at];
        assert(tail[0] == whole[at as int]);
        if entry.0 == *name {
            return Some(entry.1.clone());
        }
        assert(tail.subrange(1, tail.len() as int) == whole.subrange(at + 1, whole.len() as int));
        at = at + 1;
    }
    None
}

/// The context with one more binding at its inner end.
pub(crate) fn extend(context: &[(String, Type)], name: &String, ty: Type) -> (r: Vec<(String, Type)>)
    ensures
        context_view(r@) == context_view(context@).push((name@, ty@)),
{
    let mut longer: Vec<(String, Type)> = Vec::new();
    let mut at: usize = 0;
    while at < context.len()
        invariant
            at <= context.len(),
            longer@.len() == at,
            forall|k: int| 0 <= k < at ==> longer@[k] == context@[k],
        decreases context.len() - at,
    {
        let entry = &context[at];
        longer.push((entry.0.clone(), entry.1.clone()));
        at = at + 1;
    }
    longer.push((name.clone(), ty));
    assert(context_view(longer@) == context_view(context@).push((name@, ty@)));
    longer
}

impl Type {
    /// The level of `self`, read as the type of `subject`; `NotAType` when
    /// `self` is no universe.
    pub fn star_level(&self, subject: &Type) -> (r: Result<usize, ErrorKind>)
        ensures
            match r {
                Ok(l) => self@.sort_level(subject@) == Ok::<nat, Failure>(l as nat),
                Err(e) => self@.sort_level(subject@) == Err::<nat, Failure>(e@),
            },
    {
        match self {
            Type::Star(l) => Ok(*l),
            _ => Err(ErrorKind::NotAType(subject.clone(), self.clone())),
        }
    }

    /// The universe of a function type or product, from the types of its
    /// two parts.
    pub(crate) fn sort_of_pair(domain: &Type, domain_type: &Type, codomain: &Type, codomain_type: &Type) -> (r:
        Result<Type, ErrorKind>)
        ensures
            outcome_view(r) == Term::sort_of_pair(
                domain@,
                domain_type@,
                codomain@,
                codomain_type@,
            ),
    {
        let dl: usize = match domain_type.star_level(domain) {
            Ok(l) => l,
            Err(e) => {
                return Err(e);
            },
        };
        let cl: usize = match codomain_type.star_level(codomain) {
            Ok(l) => l,
            Err(e) => {
                return Err(e);
            },
        };
        if dl >= cl {
            Ok(Type::Star(dl))
        } else {
            Ok(Type::Star(cl))
        }
    }

    /// Computes the type of the term in the context, or the first failure.
    /// The context lists its bindings from the outermost to the innermost.
    /// The type is in normal form where the types of the context are.
    /// The caller shows that the check comes to an end in range;
    /// `try_type_check` runs it with a bound.
    pub fn type_check(&self, context: &[(String, Type)]) -> (r: Result<Type, ErrorKind>)
        requires
            self@.check_in_range(context_view(context@)),
        ensures
            outcome_view(r) == self@.check(context_view(context@)),
            context_normal(context_view(context@)) ==> (r matches Ok(ty) ==> ty@.is_normal()),
        decreases self,
    {
        proof {
            if context_normal(context_view(context@)) {
                self@.lemma_check_gives_normal_form(context_view(context@));
            }
        }
        match self {
            Type::Star(l) => Ok(Type::Star(*l + 1)),
            Type::Var(n, _) => match find_entry(context, n) {
                Some(ty) => Ok(ty),
                None => Err(ErrorKind::UnboundVariable(n.clone())),
            },
            Type::Arrow(d, c) => {
                let dt = match d.type_check(context) {
                    Ok(ty) => ty,
                    Err(e) => {
                        return Err(e);
                    },
                };
                let ct = match c.type_check(context) {
                    Ok(ty) => ty,
                    Err(e) => {
                        return Err(e);
                    },
                };
                Type::sort_of_pair(d, &dt, c, &ct)
            },
            Type::ForAll(n, d, c) => {
                let dt = match d.type_check(context) {
                    Ok(ty) => ty,
                    Err(e) => {
                        return Err(e);
                    },
                };
                let inner = extend(context, n, d.norm());
                let ct = match c.type_check(inner.as_slice()) {
                    Ok(ty) => ty,
                    Err(e) => {
                        return Err(e);
                    },
                };
                Type::sort_of_pair(d, &dt, c, &ct)
            },
            Type::Lambda(n, d, c) => {
                match d.type_check(context) {
                    Ok(_) => {},
                    Err(e) => {
                        return Err(e);
                    },
                };
                let domain = d.norm();
                let inner = extend(context, n, domain.clone());
                let bt = match c.type_check(inner.as_slice()) {
                    Ok(ty) => ty,
                    Err(e) => {
                        return Err(e);
                    },
                };
                Ok(Type::Arrow(Box::new(domain), Box::new(bt)))
            },
            Type::App(f, a) => {
                let ft = match f.type_check(context) {
                    Ok(ty) => ty,
                    Err(e) => {
                        return Err(e);
                    },
                };
                match ft {
                    Type::ForAll(n, dom, cod) => {
                        let at = match a.type_check(context) {
                            Ok(ty) => ty,
                            Err(e) => {
                                return Err(e);
                            },
                        };
                        if (*dom).eq(&at) {
                            Ok(cod.subst_key(&n, &at, 0).norm())
                        } else {
                            Err(ErrorKind::ArgumentTypeMismatch(*dom, at))
                        }
                    },
                    other => Err(ErrorKind::NotAFunction((**f).clone(), other)),
                }
            },
            Type::Remote(n) => Err(ErrorKind::UnresolvedReference(n.clone())),
        }
    }
}

} // verus!
