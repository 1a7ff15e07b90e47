//! Laws of shifting and substitution: where a name does not reach, both
//! leave a term as it is, and a substitution undoes a shift of a name that
//! the term does not hold.

use crate::model::Term;
use vstd::prelude::*;

verus! {

impl Term {
    /// Some variable of the term has the name `name`.
    pub open spec fn mentions(self, name: Seq<char>) -> bool
        decreases self,
    {
        match self {
            Term::Var(n, _) => n == name,
            Term::Arrow(d, c) => d.mentions(name) || c.mentions(name),
            Term::ForAll(_, d, c) => d.mentions(name) || c.mentions(name),
            Term::Lambda(_, d, c) => d.mentions(name) || c.mentions(name),
            Term::App(f, a) => f.mentions(name) || a.mentions(name),
            _ => false,
        }
    }

    /// No occurrence of `name` is free with respect to `cutoff` binders of
    /// `name`: below `s` further binders of `name`, every occurrence count
    /// of `name` is less than `cutoff + s`.
    pub open spec fn bound_within(self, name: Seq<char>, cutoff: nat) -> bool
        decreases self,
    {
        match self {
            Term::Var(n, i) => n == name ==> i < cutoff,
            Term::Arrow(d, c) => d.bound_within(name, cutoff) && c.bound_within(name, cutoff),
            Term::ForAll(n, d, c) => d.bound_within(name, cutoff) && c.bound_within(
                name,
                Self::cutoff_under(n, name, cutoff),
            ),
            Term::Lambda(n, d, c) => d.bound_within(name, cutoff) && c.bound_within(
                name,
                Self::cutoff_under(n, name, cutoff),
            ),
            Term::App(f, a) => f.bound_within(name, cutoff) && a.bound_within(name, cutoff),
            _ => true,
        }
    }

    /// No occurrence of `name` reaches `level`: below `d` further binders,
    /// of whatever name, every occurrence count of `name` is less than
    /// `level + d`.
    pub open spec fn stays_below(self, name: Seq<char>, level: nat) -> bool
        decreases self,
    {
        match self {
            Term::Var(n, i) => n == name ==> i < level,
            Term::Arrow(d, c) => d.stays_below(name, level) && c.stays_below(name, level),
            Term::ForAll(_, d, c) => d.stays_below(name, level) && c.stays_below(name, level + 1),
            Term::Lambda(_, d, c) => d.stays_below(name, level) && c.stays_below(name, level + 1),
            Term::App(f, a) => f.stays_below(name, level) && a.stays_below(name, level),
            _ => true,
        }
    }

    /// No occurrence of `name` has a count from `cutoff` up to, but not
    /// including, `level`, the cutoff rising below binders of `name` and
    /// the level below all binders: no shifted occurrence comes to lie on or
    /// below the level of a substitution.
    pub open spec fn no_gap(self, name: Seq<char>, cutoff: nat, level: nat) -> bool
        decreases self,
    {
        match self {
            Term::Var(n, i) => n == name ==> !(cutoff <= i < level),
            Term::Arrow(d, c) => d.no_gap(name, cutoff, level) && c.no_gap(name, cutoff, level),
            Term::ForAll(n, d, c) => d.no_gap(name, cutoff, level) && c.no_gap(
                name,
                Self::cutoff_under(n, name, cutoff),
                level + 1,
            ),
            Term::Lambda(n, d, c) => d.no_gap(name, cutoff, level) && c.no_gap(
                name,
                Self::cutoff_under(n, name, cutoff),
                level + 1,
            ),
            Term::App(f, a) => f.no_gap(name, cutoff, level) && a.no_gap(name, cutoff, level),
            _ => true,
        }
    }

    /// A name that the term does not hold is free nowhere and reaches no
    /// level.
    pub proof fn lemma_absent_name(self, name: Seq<char>, bound: nat)
        requires
            !self.mentions(name),
        ensures
            self.bound_within(name, bound),
            self.stays_below(name, bound),
        decreases self,
    {
        match self {
            Term::Arrow(d, c) => {
                d.lemma_absent_name(name, bound);
                c.lemma_absent_name(name, bound);
            },
            Term::ForAll(n, d, c) => {
                d.lemma_absent_name(name, bound);
                c.lemma_absent_name(name, Self::cutoff_under(n, name, bound));
                c.lemma_absent_name(name, bound + 1);
            },
            Term::Lambda(n, d, c) => {
                d.lemma_absent_name(name, bound);
                c.lemma_absent_name(name, Self::cutoff_under(n, name, bound));
                c.lemma_absent_name(name, bound + 1);
            },
            Term::App(f, a) => {
                f.lemma_absent_name(name, bound);
                a.lemma_absent_name(name, bound);
            },
            _ => {},
        }
    }

    /// Shifting changes a term exactly when the name has a free
    /// occurrence from the cutoff on.
    pub proof fn lemma_shift_fixes_bound(self, name: Seq<char>, cutoff: nat)
        ensures
            self.shift(name, cutoff) == self <==> self.bound_within(name, cutoff),
        decreases self,
    {
        match self {
            Term::Arrow(d, c) => {
                d.lemma_shift_fixes_bound(name, cutoff);
                c.lemma_shift_fixes_bound(name, cutoff);
            },
            Term::ForAll(n, d, c) => {
                d.lemma_shift_fixes_bound(name, cutoff);
                c.lemma_shift_fixes_bound(name, Self::cutoff_under(n, name, cutoff));
            },
            Term::Lambda(n, d, c) => {
                d.lemma_shift_fixes_bound(name, cutoff);
                c.lemma_shift_fixes_bound(name, Self::cutoff_under(n, name, cutoff));
            },
            Term::App(f, a) => {
                f.lemma_shift_fixes_bound(name, cutoff);
                a.lemma_shift_fixes_bound(name, cutoff);
            },
            _ => {},
        }
    }

    /// Substitution at a level that no occurrence of the name reaches
    /// leaves the term as it is, whatever the value.
    pub proof fn lemma_subst_fixes_below(self, name: Seq<char>, value: Term, level: nat)
        requires
            self.stays_below(name, level),
        ensures
            self.subst(name, value, level) == self,
        decreases self,
    {
        match self {
            Term::Arrow(d, c) => {
                d.lemma_subst_fixes_below(name, value, level);
                c.lemma_subst_fixes_below(name, value, level);
            },
            Term::ForAll(n, d, c) => {
                d.lemma_subst_fixes_below(name, value, level);
                c.lemma_subst_fixes_below(name, value.shift(n, 0), level + 1);
            },
            Term::Lambda(n, d, c) => {
                d.lemma_subst_fixes_below(name, value, level);
                c.lemma_subst_fixes_below(name, value.shift(n, 0), level + 1);
            },
            Term::App(f, a) => {
                f.lemma_subst_fixes_below(name, value, level);
                a.lemma_subst_fixes_below(name, value, level);
            },
            _ => {},
        }
    }

    /// Substitution for a name that the term does not hold leaves the term
    /// as it is, at every level and for every value; so does a shift.
    pub proof fn lemma_subst_absent_name(self, name: Seq<char>, value: Term, level: nat)
        requires
            !self.mentions(name),
        ensures
            self.subst(name, value, level) == self,
            self.shift(name, level) == self,
    {
        self.lemma_absent_name(name, level);
        self.lemma_subst_fixes_below(name, value, level);
        self.lemma_shift_fixes_bound(name, level);
    }

    /// A substitution undoes the shift of a fresh name: for a name that
    /// the term does not hold, shifting it and then substituting anything
    /// for it gives the term back.
    pub proof fn lemma_subst_undoes_shift(self, name: Seq<char>, value: Term)
        requires
            !self.mentions(name),
        ensures
            self.shift(name, 0).subst(name, value, 0) == self,
    {
        self.lemma_subst_absent_name(name, value, 0);
    }

    /// A substitution at `level` undoes a shift from `cutoff` on wherever
    /// no occurrence of the name lies between the two, whatever the value.
    /// A term that does not hold the name is one case; a term all of whose
    /// binders have that name is another.
    pub proof fn lemma_subst_undoes_shift_without_gap(
        self,
        name: Seq<char>,
        value: Term,
        cutoff: nat,
        level: nat,
    )
        requires
            cutoff <= level,
            self.no_gap(name, cutoff, level),
        ensures
            self.shift(name, cutoff).subst(name, value, level) == self,
        decreases self,
    {
        match self {
            Term::Arrow(d, c) => {
                d.lemma_subst_undoes_shift_without_gap(name, value, cutoff, level);
                c.lemma_subst_undoes_shift_without_gap(name, value, cutoff, level);
            },
            Term::ForAll(n, d, c) => {
                d.lemma_subst_undoes_shift_without_gap(name, value, cutoff, level);
                c.lemma_subst_undoes_shift_without_gap(
                    name,
                    value.shift(n, 0),
                    Self::cutoff_under(n, name, cutoff),
                    level + 1,
                );
            },
            Term::Lambda(n, d, c) => {
                d.lemma_subst_undoes_shift_without_gap(name, value, cutoff, level);
                c.lemma_subst_undoes_shift_without_gap(
                    name,
                    value.shift(n, 0),
                    Self::cutoff_under(n, name, cutoff),
                    level + 1,
                );
            },
            Term::App(f, a) => {
                f.lemma_subst_undoes_shift_without_gap(name, value, cutoff, level);
                a.lemma_subst_undoes_shift_without_gap(name, value, cutoff, level);
            },
            _ => {},
        }
    }
}

} // verus!
