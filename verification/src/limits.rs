//! Machine limits. The executable terms keep levels and occurrence counts
//! in `usize`; the predicates here say when a computation on the model
//! stays within that range at every step, which is what the executable
//! functions ask of their callers.

use crate::model::Term;
use vstd::prelude::*;

verus! {

impl Term {
    /// Shifting `name` from `cutoff` on raises no occurrence count and no
    /// cutoff beyond `usize::MAX`.
    pub open spec fn shift_in_range(self, name: Seq<char>, cutoff: nat) -> bool
        decreases self,
    {
        match self {
            Term::Var(n, i) => n == name && i >= cutoff ==> i < usize::MAX,
            Term::Arrow(d, c) => d.shift_in_range(name, cutoff) && c.shift_in_range(name, cutoff),
            Term::ForAll(n, d, c) => {
                &&& d.shift_in_range(name, cutoff)
                &&& n == name ==> cutoff < usize::MAX
                &&& c.shift_in_range(name, Self::cutoff_under(n, name, cutoff))
            },
            Term::Lambda(n, d, c) => {
                &&& d.shift_in_range(name, cutoff)
                &&& n == name ==> cutoff < usize::MAX
                &&& c.shift_in_range(name, Self::cutoff_under(n, name, cutoff))
            },
            Term::App(f, a) => f.shift_in_range(name, cutoff) && a.shift_in_range(name, cutoff),
            _ => true,
        }
    }

    /// Substituting `value` for `name` at `level` raises no level beyond
    /// `usize::MAX`, and every shift of the value on the way down is in
    /// range.
    pub open spec fn subst_in_range(self, name: Seq<char>, value: Term, level: nat) -> bool
        decreases self,
    {
        match self {
            Term::Arrow(d, c) => {
                &&& d.subst_in_range(name, value, level)
                &&& c.subst_in_range(name, value, level)
            },
            Term::ForAll(n, d, c) => {
                &&& d.subst_in_range(name, value, level)
                &&& level < usize::MAX
                &&& value.shift_in_range(n, 0)
                &&& c.subst_in_range(name, value.shift(n, 0), level + 1)
            },
            Term::Lambda(n, d, c) => {
                &&& d.subst_in_range(name, value, level)
                &&& level < usize::MAX
                &&& value.shift_in_range(n, 0)
                &&& c.subst_in_range(name, value.shift(n, 0), level + 1)
            },
            Term::App(f, a) => {
                &&& f.subst_in_range(name, value, level)
                &&& a.subst_in_range(name, value, level)
            },
            _ => true,
        }
    }

    /// Every renaming that the comparison of `self` with `other` carries
    /// out is in range. The second parts of a pair are compared only when
    /// the first parts agree, and a body is renamed only where the two
    /// binders differ in name.
    pub open spec fn alpha_eq_in_range(self, other: Term) -> bool
        decreases self,
    {
        match (self, other) {
            (Term::Arrow(d1, c1), Term::Arrow(d2, c2)) => {
                &&& d1.alpha_eq_in_range(*d2)
                &&& d1.alpha_eq(*d2) ==> c1.alpha_eq_in_range(*c2)
            },
            (Term::ForAll(n1, d1, c1), Term::ForAll(n2, d2, c2)) => {
                &&& d1.alpha_eq_in_range(*d2)
                &&& d1.alpha_eq(*d2) ==> {
                    &&& n1 != n2 ==> c2.subst_in_range(n2, Term::Var(n1, 0), 0)
                    &&& c1.alpha_eq_in_range(c2.aligned(n2, n1))
                }
            },
            (Term::Lambda(n1, d1, c1), Term::Lambda(n2, d2, c2)) => {
                &&& d1.alpha_eq_in_range(*d2)
                &&& d1.alpha_eq(*d2) ==> {
                    &&& n1 != n2 ==> c2.subst_in_range(n2, Term::Var(n1, 0), 0)
                    &&& c1.alpha_eq_in_range(c2.aligned(n2, n1))
                }
            },
            (Term::App(f1, a1), Term::App(f2, a2)) => {
                &&& f1.alpha_eq_in_range(*f2)
                &&& f1.alpha_eq(*f2) ==> a1.alpha_eq_in_range(*a2)
            },
            _ => true,
        }
    }

    /// Reduction of the term ends within `fuel` nested steps, and every
    /// substitution that it carries out is in range.
    pub open spec fn reduce_in_range(self, fuel: nat) -> bool
        decreases fuel,
    {
        if fuel == 0 {
            false
        } else {
            let rest = (fuel - 1) as nat;
            match self {
                Term::Arrow(d, c) => d.reduce_in_range(rest) && c.reduce_in_range(rest),
                Term::ForAll(_, d, c) => d.reduce_in_range(rest) && c.reduce_in_range(rest),
                Term::Lambda(_, d, c) => d.reduce_in_range(rest) && c.reduce_in_range(rest),
                Term::App(f, a) => {
                    &&& f.reduce_in_range(rest)
                    &&& a.reduce_in_range(rest)
                    &&& f.reduce(rest) matches Some(Term::Lambda(n, _, body)) ==> {
                        &&& body.subst_in_range(n, a.reduce(rest).unwrap(), 0)
                        &&& body.subst(n, a.reduce(rest).unwrap(), 0).reduce_in_range(rest)
                    }
                },
                _ => true,
            }
        }
    }

    /// Reduction of the term ends, with every step in range.
    pub open spec fn norm_in_range(self) -> bool {
        exists|fuel: nat| self.reduce_in_range(fuel)
    }
}

} // verus!
