//! The mathematical model: terms with unbounded indices, and the
//! definitions that the executable functions are held to.

use vstd::prelude::*;

verus! {

/// A term of the calculus. Types and terms share one syntax.
///
/// `Var(n, i)` names the binder reached by skipping `i` enclosing binders
/// that introduce the name `n`.
pub enum Term {
    /// The universe of the given level.
    Star(nat),
    /// A variable: its name and its occurrence count.
    Var(Seq<char>, nat),
    /// A non-dependent function type; the codomain binds nothing.
    Arrow(Box<Term>, Box<Term>),
    /// A dependent product: the bound name, its domain, and the codomain.
    ForAll(Seq<char>, Box<Term>, Box<Term>),
    /// An abstraction: the bound name, its domain, and the body.
    Lambda(Seq<char>, Box<Term>, Box<Term>),
    /// An application of a function to an argument.
    App(Box<Term>, Box<Term>),
    /// A reference to a type that is defined elsewhere.
    Remote(Seq<char>),
}

impl Term {
    /// The cutoff that applies below a binder of `binder` when free
    /// occurrences of `name` are shifted from `cutoff` on.
    pub open spec fn cutoff_under(binder: Seq<char>, name: Seq<char>, cutoff: nat) -> nat {
        if binder == name {
            cutoff + 1
        } else {
            cutoff
        }
    }

    /// The term in which every occurrence `Var(name, i)` that is free with
    /// respect to `cutoff` binders of `name`, that is `i >= cutoff`, has
    /// become `Var(name, i + 1)`. Below a binder of `name` the cutoff is
    /// one higher; a binder of another name leaves it as it is.
    pub open spec fn shift(self, name: Seq<char>, cutoff: nat) -> Term
        decreases self,
    {
        match self {
            Term::Var(n, i) => if n == name && i >= cutoff {
                Term::Var(n, i + 1)
            } else {
                self
            },
            Term::Arrow(d, c) => Term::Arrow(
                Box::new(d.shift(name, cutoff)),
                Box::new(c.shift(name, cutoff)),
            ),
            Term::ForAll(n, d, c) => Term::ForAll(
                n,
                Box::new(d.shift(name, cutoff)),
                Box::new(c.shift(name, Self::cutoff_under(n, name, cutoff))),
            ),
            Term::Lambda(n, d, c) => Term::Lambda(
                n,
                Box::new(d.shift(name, cutoff)),
                Box::new(c.shift(name, Self::cutoff_under(n, name, cutoff))),
            ),
            Term::App(f, a) => Term::App(
                Box::new(f.shift(name, cutoff)),
                Box::new(a.shift(name, cutoff)),
            ),
            _ => self,
        }
    }

    /// The term in which `value` stands for the occurrences of `name` at
    /// `level`: `Var(name, level)` becomes `value`, `Var(name, i)` with
    /// `i > level` becomes `Var(name, i - 1)`, and everything else stays.
    /// Below any binder the level is one higher, and the value is first
    /// shifted past that binder's name.
    pub open spec fn subst(self, name: Seq<char>, value: Term, level: nat) -> Term
        decreases self,
    {
        match self {
            Term::Var(n, i) => if n == name && i == level {
                value
            } else if n == name && i > level {
                Term::Var(n, (i - 1) as nat)
            } else {
                self
            },
            Term::Arrow(d, c) => Term::Arrow(
                Box::new(d.subst(name, value, level)),
                Box::new(c.subst(name, value, level)),
            ),
            Term::ForAll(n, d, c) => Term::ForAll(
                n,
                Box::new(d.subst(name, value, level)),
                Box::new(c.subst(name, value.shift(n, 0), level + 1)),
            ),
            Term::Lambda(n, d, c) => Term::Lambda(
                n,
                Box::new(d.subst(name, value, level)),
                Box::new(c.subst(name, value.shift(n, 0), level + 1)),
            ),
            Term::App(f, a) => Term::App(
                Box::new(f.subst(name, value, level)),
                Box::new(a.subst(name, value, level)),
            ),
            _ => self,
        }
    }

    /// The body of a binder of `from`, rewritten for a binder of `to`.
    pub open spec fn rename(self, from: Seq<char>, to: Seq<char>) -> Term {
        self.subst(from, Term::Var(to, 0), 0)
    }

    /// The body of a binder of `from`, as it is compared below a binder of
    /// `to`: the body itself where the two names agree, and the body
    /// renamed to `to` where they differ.
    pub open spec fn aligned(self, from: Seq<char>, to: Seq<char>) -> Term {
        if from == to {
            self
        } else {
            self.rename(from, to)
        }
    }

    /// Equality up to the names of binders. Two binders agree when their
    /// domains agree and their bodies agree: as they stand where the
    /// binders have the same name, and else with the second body renamed to
    /// the first binder's name. Every other pair must have the same shape,
    /// the same levels, names and occurrence counts.
    pub open spec fn alpha_eq(self, other: Term) -> bool
        decreases self,
    {
        match (self, other) {
            (Term::Arrow(d1, c1), Term::Arrow(d2, c2)) => d1.alpha_eq(*d2) && c1.alpha_eq(*c2),
            (Term::ForAll(n1, d1, c1), Term::ForAll(n2, d2, c2)) => d1.alpha_eq(*d2) && if n1
                == n2 {
                c1.alpha_eq(*c2)
            } else {
                c1.alpha_eq(c2.rename(n2, n1))
            },
            (Term::Lambda(n1, d1, c1), Term::Lambda(n2, d2, c2)) => d1.alpha_eq(*d2) && if n1
                == n2 {
                c1.alpha_eq(*c2)
            } else {
                c1.alpha_eq(c2.rename(n2, n1))
            },
            (Term::App(f1, a1), Term::App(f2, a2)) => f1.alpha_eq(*f2) && a1.alpha_eq(*a2),
            (Term::Star(l1), Term::Star(l2)) => l1 == l2,
            (Term::Var(n1, i1), Term::Var(n2, i2)) => n1 == n2 && i1 == i2,
            (Term::Remote(n1), Term::Remote(n2)) => n1 == n2,
            _ => false,
        }
    }

    /// Beta-reduction to normal form, cut off at `fuel` nested steps:
    /// `None` when the fuel runs out. Both parts of every node are reduced;
    /// an application whose reduced head is an abstraction is replaced by
    /// the reduct of the body with the reduced argument substituted.
    pub open spec fn reduce(self, fuel: nat) -> Option<Term>
        decreases fuel,
    {
        if fuel == 0 {
            None
        } else {
            let rest = (fuel - 1) as nat;
            match self {
                Term::Arrow(d, c) => match (d.reduce(rest), c.reduce(rest)) {
                    (Some(d1), Some(c1)) => Some(Term::Arrow(Box::new(d1), Box::new(c1))),
                    _ => None,
                },
                Term::ForAll(n, d, c) => match (d.reduce(rest), c.reduce(rest)) {
                    (Some(d1), Some(c1)) => Some(Term::ForAll(n, Box::new(d1), Box::new(c1))),
                    _ => None,
                },
                Term::Lambda(n, d, c) => match (d.reduce(rest), c.reduce(rest)) {
                    (Some(d1), Some(c1)) => Some(Term::Lambda(n, Box::new(d1), Box::new(c1))),
                    _ => None,
                },
                Term::App(f, a) => match (f.reduce(rest), a.reduce(rest)) {
                    (Some(Term::Lambda(n, _, body)), Some(a1)) => body.subst(n, a1, 0).reduce(rest),
                    (Some(f1), Some(a1)) => Some(Term::App(Box::new(f1), Box::new(a1))),
                    _ => None,
                },
                _ => Some(self),
            }
        }
    }

    /// Reduction of the term comes to an end.
    pub open spec fn normalizes(self) -> bool {
        exists|fuel: nat| self.reduce(fuel).is_some()
    }

    /// The normal form of a term that `normalizes`.
    pub open spec fn norm(self) -> Term
        recommends
            self.normalizes(),
    {
        self.reduce(choose|fuel: nat| self.reduce(fuel).is_some()).unwrap()
    }

    /// No redex is left: no application has an abstraction as its head.
    pub open spec fn is_normal(self) -> bool
        decreases self,
    {
        match self {
            Term::Arrow(d, c) => d.is_normal() && c.is_normal(),
            Term::ForAll(_, d, c) => d.is_normal() && c.is_normal(),
            Term::Lambda(_, d, c) => d.is_normal() && c.is_normal(),
            Term::App(f, a) => f.is_normal() && a.is_normal() && !(*f is Lambda),
            _ => true,
        }
    }
}

} // verus!
