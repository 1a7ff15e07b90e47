//! The executable terms and the scoping engine, the normaliser and the
//! equivalence check on them.

use crate::model::Term;
use vstd::prelude::*;

verus! {

/// A term of the calculus, as it is built and handed around at run time.
/// Its view is the `Term` with the same shape, names and numbers.
#[derive(Debug, PartialEq, Eq)]
pub enum Type {
    /// The universe of the given level.
    Star(usize),
    /// A variable: its name and its occurrence count.
    Var(String, usize),
    /// A non-dependent function type.
    Arrow(Box<Type>, Box<Type>),
    /// A dependent product: the bound name, its domain, and the codomain.
    ForAll(String, Box<Type>, Box<Type>),
    /// An abstraction: the bound name, its domain, and the body.
    Lambda(String, Box<Type>, Box<Type>),
    /// An application of a function to an argument.
    App(Box<Type>, Box<Type>),
    /// A reference to a type that is defined elsewhere.
    Remote(String),
}

impl View for Type {
    type V = Term;

    open spec fn view(&self) -> Term
        decreases self,
    {
        match self {
            Type::Star(l) => Term::Star(*l as nat),
            Type::Var(n, i) => Term::Var(n@, *i as nat),
            Type::Arrow(d, c) => Term::Arrow(Box::new((**d).view()), Box::new((**c).view())),
            Type::ForAll(n, d, c) => Term::ForAll(
                n@,
                Box::new((**d).view()),
                Box::new((**c).view()),
            ),
            Type::Lambda(n, d, c) => Term::Lambda(
                n@,
                Box::new((**d).view()),
                Box::new((**c).view()),
            ),
            Type::App(f, a) => Term::App(Box::new((**f).view()), Box::new((**a).view())),
            Type::Remote(n) => Term::Remote(n@),
        }
    }
}

impl Clone for Type {
    fn clone(&self) -> (r: Self)
        ensures
            r == *self,
        decreases self,
    {
        match self {
            Type::Star(l) => Type::Star(*l),
            Type::Var(n, i) => Type::Var(n.clone(), *i),
            Type::Arrow(d, c) => Type::Arrow(Box::new((**d).clone()), Box::new((**c).clone())),
            Type::ForAll(n, d, c) => Type::ForAll(
                n.clone(),
                Box::new((**d).clone()),
                Box::new((**c).clone()),
            ),
            Type::Lambda(n, d, c) => Type::Lambda(
                n.clone(),
                Box::new((**d).clone()),
                Box::new((**c).clone()),
            ),
            Type::App(f, a) => Type::App(Box::new((**f).clone()), Box::new((**a).clone())),
            Type::Remote(n) => Type::Remote(n.clone()),
        }
    }
}

impl Type {
    /// Shifts the free occurrences of `name` from cutoff `p` on by one. A
    /// term that holds no variable of that name comes back as it is.
    /// The caller shows that no count or cutoff leaves the machine range;
    /// `try_shift` tests it.
    pub fn shift(&self, name: &str, p: usize) -> (r: Type)
        requires
            self@.shift_in_range(name@, p as nat),
        ensures
            r@ == self@.shift(name@, p as nat),
            !self@.mentions(name@) ==> r@ == self@,
    {
        proof {
            if !self@.mentions(name@) {
                self@.lemma_subst_absent_name(name@, self@, p as nat);
            }
        }
        let key = name.to_owned();
        self.shift_key(&key, p)
    }

    /// `shift` with the name as an owned string, which is how the terms
    /// hold their names.
    pub(crate) fn shift_key(&self, name: &String, p: usize) -> (r: Type)
        requires
            self@.shift_in_range(name@, p as nat),
        ensures
            r@ == self@.shift(name@, p as nat),
        decreases self,
    {
        match self {
            Type::Var(n, i) => {
                if *n == *name && *i >= p {
                    Type::Var(n.clone(), *i + 1)
                } else {
                    Type::Var(n.clone(), *i)
                }
            },
            Type::ForAll(n, d, c) => {
                let below: usize = if *n == *name {
                    p + 1
                } else {
                    p
                };
                Type::ForAll(
                    n.clone(),
                    Box::new(d.shift_key(name, p)),
                    Box::new(c.shift_key(name, below)),
                )
            },
            Type::Lambda(n, d, c) => {
                let below: usize = if *n == *name {
                    p + 1
                } else {
                    p
                };
                Type::Lambda(
                    n.clone(),
                    Box::new(d.shift_key(name, p)),
                    Box::new(c.shift_key(name, below)),
                )
            },
            Type::Arrow(d, c) => Type::Arrow(
                Box::new(d.shift_key(name, p)),
                Box::new(c.shift_key(name, p)),
            ),
            Type::App(f, a) => Type::App(
                Box::new(f.shift_key(name, p)),
                Box::new(a.shift_key(name, p)),
            ),
            _ => self.clone(),
        }
    }

    /// Substitutes `value` for the occurrences of `name` at level `l`, and
    /// lowers the occurrences of `name` above `l` by one. A term that holds
    /// no variable of that name comes back as it is. The caller shows that
    /// the substitution is in range; `try_subst` tests it.
    pub fn subst(&self, name: &str, value: &Type, l: usize) -> (r: Type)
        requires
            self@.subst_in_range(name@, value@, l as nat),
        ensures
            r@ == self@.subst(name@, value@, l as nat),
            !self@.mentions(name@) ==> r@ == self@,
    {
        proof {
            if !self@.mentions(name@) {
                self@.lemma_subst_absent_name(name@, value@, l as nat);
            }
        }
        let key = name.to_owned();
        self.subst_key(&key, value, l)
    }

    /// `subst` with the name as an owned string.
    pub(crate) fn subst_key(&self, name: &String, value: &Type, l: usize) -> (r: Type)
        requires
            self@.subst_in_range(name@, value@, l as nat),
        ensures
            r@ == self@.subst(name@, value@, l as nat),
        decreases self,
    {
        match self {
            Type::Arrow(d, c) => Type::Arrow(
                Box::new(d.subst_key(name, value, l)),
                Box::new(c.subst_key(name, value, l)),
            ),
            Type::ForAll(n, d, c) => {
                let domain = d.subst_key(name, value, l);
                let lifted = value.shift_key(n, 0);
                Type::ForAll(n.clone(), Box::new(domain), Box::new(c.subst_key(name, &lifted, l + 1)))
            },
            Type::Lambda(n, d, c) => {
                let domain = d.subst_key(name, value, l);
                let lifted = value.shift_key(n, 0);
                Type::Lambda(n.clone(), Box::new(domain), Box::new(c.subst_key(name, &lifted, l + 1)))
            },
            Type::App(f, a) => Type::App(
                Box::new(f.subst_key(name, value, l)),
                Box::new(a.subst_key(name, value, l)),
            ),
            Type::Var(n, i) => {
                if *n == *name && *i == l {
                    value.clone()
                } else if *n == *name && *i > l {
                    Type::Var(n.clone(), *i - 1)
                } else {
                    Type::Var(n.clone(), *i)
                }
            },
            _ => self.clone(),
        }
    }

    /// Reduces the term to its normal form. The caller shows that the
    /// reduction ends, and in range; `try_norm` runs it with a bound.
    pub fn norm(&self) -> (r: Type)
        requires
            self@.norm_in_range(),
        ensures
            self@.normalizes(),
            r@ == self@.norm(),
            r@.is_normal(),
    {
        let ghost fuel: nat = choose|fuel: nat| self@.reduce_in_range(fuel);
        let r = self.norm_within(Ghost(fuel));
        proof {
            self@.lemma_norm_is(fuel);
            self@.lemma_norm_is_normal();
        }
        r
    }

    /// `norm`, with the number of nested steps that the reduction is known
    /// to end within.
    fn norm_within(&self, Ghost(fuel): Ghost<nat>) -> (r: Type)
        requires
            self@.reduce_in_range(fuel),
        ensures
            self@.reduce(fuel) == Some(r@),
        decreases fuel,
    {
        let ghost rest: nat = (fuel - 1) as nat;
        match self {
            Type::Arrow(d, c) => Type::Arrow(
                Box::new(d.norm_within(Ghost(rest))),
                Box::new(c.norm_within(Ghost(rest))),
            ),
            Type::ForAll(n, d, c) => Type::ForAll(
                n.clone(),
                Box::new(d.norm_within(Ghost(rest))),
                Box::new(c.norm_within(Ghost(rest))),
            ),
            Type::Lambda(n, d, c) => Type::Lambda(
                n.clone(),
                Box::new(d.norm_within(Ghost(rest))),
                Box::new(c.norm_within(Ghost(rest))),
            ),
            Type::App(f, a) => match f.norm_within(Ghost(rest)) {
                Type::Lambda(n, _, body) => {
                    let argument = a.norm_within(Ghost(rest));
                    body.subst_key(&n, &argument, 0).norm_within(Ghost(rest))
                },
                head => Type::App(Box::new(head), Box::new(a.norm_within(Ghost(rest)))),
            },
            _ => self.clone(),
        }
    }

    /// Decides whether the two terms are equal up to the names of their
    /// binders: where two binders differ in name, the second body is
    /// renamed to the first name before the bodies are compared. Neither
    /// term is reduced. The caller shows that the renamings of the
    /// comparison are in range; `try_eq` tests it.
    pub fn eq(&self, other: &Type) -> (r: bool)
        requires
            self@.alpha_eq_in_range(other@),
        ensures
            r == self@.alpha_eq(other@),
        decreases self,
    {
        match (self, other) {
            (Type::Arrow(d1, c1), Type::Arrow(d2, c2)) => (**d1).eq(&**d2) && (**c1).eq(&**c2),
            (Type::ForAll(n1, d1, c1), Type::ForAll(n2, d2, c2)) => {
                if !(**d1).eq(&**d2) {
                    false
                } else if *n1 == *n2 {
                    (**c1).eq(&**c2)
                } else {
                    (**c1).eq(&c2.subst_key(n2, &Type::Var(n1.clone(), 0), 0))
                }
            },
            (Type::Lambda(n1, d1, c1), Type::Lambda(n2, d2, c2)) => {
                if !(**d1).eq(&**d2) {
                    false
                } else if *n1 == *n2 {
                    (**c1).eq(&**c2)
                } else {
                    (**c1).eq(&c2.subst_key(n2, &Type::Var(n1.clone(), 0), 0))
                }
            },
            (Type::App(f1, a1), Type::App(f2, a2)) => (**f1).eq(&**f2) && (**a1).eq(&**a2),
            (Type::Star(l1), Type::Star(l2)) => *l1 == *l2,
            (Type::Var(n1, i1), Type::Var(n2, i2)) => *n1 == *n2 && *i1 == *i2,
            (Type::Remote(n1), Type::Remote(n2)) => *n1 == *n2,
            _ => false,
        }
    }
}

} // verus!
