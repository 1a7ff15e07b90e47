//! Laws of the equivalence check. Binders of the same name are compared
//! as they stand, so every term is equivalent to itself. Binders of
//! differing names are compared after one renaming by substitution;
//! symmetry and transitivity hold where such a renaming captures no free
//! name, which `rename_safe` and `chain_safe` ask of the binders whose
//! names differ, and of no others.

use crate::model::Term;
use vstd::prelude::*;

verus! {

impl Term {
    /// Wherever both terms have a binder in the same place, the two
    /// binders have the same name.
    pub open spec fn same_binders(self, other: Term) -> bool
        decreases self,
    {
        match (self, other) {
            (Term::Arrow(d1, c1), Term::Arrow(d2, c2)) => d1.same_binders(*d2) && c1.same_binders(
                *c2,
            ),
            (Term::ForAll(n1, d1, c1), Term::ForAll(n2, d2, c2)) => n1 == n2 && d1.same_binders(*d2)
                && c1.same_binders(*c2),
            (Term::Lambda(n1, d1, c1), Term::Lambda(n2, d2, c2)) => n1 == n2 && d1.same_binders(*d2)
                && c1.same_binders(*c2),
            (Term::App(f1, a1), Term::App(f2, a2)) => f1.same_binders(*f2) && a1.same_binders(*a2),
            _ => true,
        }
    }

    /// The name `name` serves in the term only the binder right above it:
    /// outside the binders of the term every occurrence of `name` has the
    /// count 0, and below them none reaches that binder.
    pub open spec fn binds_here(self, name: Seq<char>) -> bool
        decreases self,
    {
        match self {
            Term::Var(n, i) => n == name ==> i == 0,
            Term::Arrow(d, c) => d.binds_here(name) && c.binds_here(name),
            Term::ForAll(_, d, c) => d.binds_here(name) && c.stays_below(name, 1),
            Term::Lambda(_, d, c) => d.binds_here(name) && c.stays_below(name, 1),
            Term::App(f, a) => f.binds_here(name) && a.binds_here(name),
            _ => true,
        }
    }

    /// Some variable of the term that stands below none of its binders has
    /// the name `name`. The domain of a binder stands outside it.
    pub open spec fn holds_outside_binders(self, name: Seq<char>) -> bool
        decreases self,
    {
        match self {
            Term::Var(n, _) => n == name,
            Term::Arrow(d, c) => d.holds_outside_binders(name) || c.holds_outside_binders(name),
            Term::ForAll(_, d, _) => d.holds_outside_binders(name),
            Term::Lambda(_, d, _) => d.holds_outside_binders(name),
            Term::App(f, a) => f.holds_outside_binders(name) || a.holds_outside_binders(name),
            _ => false,
        }
    }

    /// Below the binders of the term, no occurrence of `name` reaches the
    /// binder right above the term: a renaming of that binder changes
    /// nothing below them.
    pub open spec fn clear_below_binders(self, name: Seq<char>) -> bool
        decreases self,
    {
        match self {
            Term::Arrow(d, c) => d.clear_below_binders(name) && c.clear_below_binders(name),
            Term::ForAll(_, d, c) => d.clear_below_binders(name) && c.stays_below(name, 1),
            Term::Lambda(_, d, c) => d.clear_below_binders(name) && c.stays_below(name, 1),
            Term::App(f, a) => f.clear_below_binders(name) && a.clear_below_binders(name),
            _ => true,
        }
    }

    /// The bodies `self`, of a binder of `name`, and `other`, of a binder
    /// of `other_name`, can be renamed to each other's binder: where the
    /// two names differ, neither body holds the other name outside its
    /// binders, and each is clear of its own name below them. Bodies of
    /// binders of one name are asked nothing.
    pub open spec fn apart_under(
        self,
        name: Seq<char>,
        other: Term,
        other_name: Seq<char>,
    ) -> bool {
        name != other_name ==> {
            &&& !self.holds_outside_binders(other_name)
            &&& !other.holds_outside_binders(name)
            &&& self.clear_below_binders(name)
            &&& other.clear_below_binders(other_name)
        }
    }

    /// What transitivity asks of the bodies `middle`, of a binder of
    /// `middle_name`, and `last`, of a binder of `last_name`, when the first
    /// binder has the name `name`: a body that is renamed is clear of its
    /// own name below its binders; where the second and third name differ,
    /// the third body does not hold the second name outside its binders;
    /// and where the first name is the third and not the second, the
    /// second body does not hold it outside its binders.
    pub open spec fn chain_under(
        name: Seq<char>,
        middle: Term,
        middle_name: Seq<char>,
        last: Term,
        last_name: Seq<char>,
    ) -> bool {
        &&& name != middle_name ==> middle.clear_below_binders(middle_name)
        &&& name != last_name ==> last.clear_below_binders(last_name)
        &&& middle_name != last_name ==> {
            &&& last.clear_below_binders(last_name)
            &&& !last.holds_outside_binders(middle_name)
        }
        &&& name == last_name && middle_name != last_name ==> !middle.holds_outside_binders(name)
    }

    /// Wherever the three terms have a binder in the same place, the
    /// bodies of the second and the third meet `chain_under` for the three
    /// names. Where the three binders have one name, nothing is asked.
    pub open spec fn chain_safe(self, middle: Term, last: Term) -> bool
        decreases self,
    {
        match (self, middle, last) {
            (Term::Arrow(d1, c1), Term::Arrow(d2, c2), Term::Arrow(d3, c3)) => d1.chain_safe(
                *d2,
                *d3,
            ) && c1.chain_safe(*c2, *c3),
            (Term::ForAll(n1, d1, c1), Term::ForAll(n2, d2, c2), Term::ForAll(n3, d3, c3)) => {
                &&& d1.chain_safe(*d2, *d3)
                &&& c1.chain_safe(*c2, *c3)
                &&& Self::chain_under(n1, *c2, n2, *c3, n3)
            },
            (Term::Lambda(n1, d1, c1), Term::Lambda(n2, d2, c2), Term::Lambda(n3, d3, c3)) => {
                &&& d1.chain_safe(*d2, *d3)
                &&& c1.chain_safe(*c2, *c3)
                &&& Self::chain_under(n1, *c2, n2, *c3, n3)
            },
            (Term::App(f1, a1), Term::App(f2, a2), Term::App(f3, a3)) => f1.chain_safe(*f2, *f3)
                && a1.chain_safe(*a2, *a3),
            _ => true,
        }
    }

    /// Wherever both terms have a binder in the same place and the two
    /// names differ, the two bodies are apart under those names.
    pub open spec fn rename_safe(self, other: Term) -> bool
        decreases self,
    {
        match (self, other) {
            (Term::Arrow(d1, c1), Term::Arrow(d2, c2)) => d1.rename_safe(*d2) && c1.rename_safe(
                *c2,
            ),
            (Term::ForAll(n1, d1, c1), Term::ForAll(n2, d2, c2)) => {
                &&& d1.rename_safe(*d2)
                &&& c1.rename_safe(*c2)
                &&& c1.apart_under(n1, *c2, n2)
            },
            (Term::Lambda(n1, d1, c1), Term::Lambda(n2, d2, c2)) => {
                &&& d1.rename_safe(*d2)
                &&& c1.rename_safe(*c2)
                &&& c1.apart_under(n1, *c2, n2)
            },
            (Term::App(f1, a1), Term::App(f2, a2)) => f1.rename_safe(*f2) && a1.rename_safe(*a2),
            _ => true,
        }
    }

    /// Terms that name their binders alike are rename-safe.
    pub proof fn lemma_same_binders_rename_safe(self, other: Term)
        requires
            self.same_binders(other),
        ensures
            self.rename_safe(other),
        decreases self,
    {
        match (self, other) {
            (Term::Arrow(d1, c1), Term::Arrow(d2, c2)) => {
                d1.lemma_same_binders_rename_safe(*d2);
                c1.lemma_same_binders_rename_safe(*c2);
            },
            (Term::ForAll(_, d1, c1), Term::ForAll(_, d2, c2)) => {
                d1.lemma_same_binders_rename_safe(*d2);
                c1.lemma_same_binders_rename_safe(*c2);
            },
            (Term::Lambda(_, d1, c1), Term::Lambda(_, d2, c2)) => {
                d1.lemma_same_binders_rename_safe(*d2);
                c1.lemma_same_binders_rename_safe(*c2);
            },
            (Term::App(f1, a1), Term::App(f2, a2)) => {
                f1.lemma_same_binders_rename_safe(*f2);
                a1.lemma_same_binders_rename_safe(*a2);
            },
            _ => {},
        }
    }

    /// A name that the term does not hold is fresh for it: it stands
    /// neither outside the binders of the term nor, within reach, below
    /// them.
    pub proof fn lemma_absent_name_is_fresh(self, name: Seq<char>)
        requires
            !self.mentions(name),
        ensures
            !self.holds_outside_binders(name),
            self.clear_below_binders(name),
        decreases self,
    {
        match self {
            Term::Arrow(d, c) => {
                d.lemma_absent_name_is_fresh(name);
                c.lemma_absent_name_is_fresh(name);
            },
            Term::ForAll(_, d, c) => {
                d.lemma_absent_name_is_fresh(name);
                c.lemma_absent_name(name, 1);
            },
            Term::Lambda(_, d, c) => {
                d.lemma_absent_name_is_fresh(name);
                c.lemma_absent_name(name, 1);
            },
            Term::App(f, a) => {
                f.lemma_absent_name_is_fresh(name);
                a.lemma_absent_name_is_fresh(name);
            },
            _ => {},
        }
    }

    /// Reflexivity: every term is equivalent to itself.
    pub proof fn lemma_alpha_eq_reflexive(self)
        ensures
            self.alpha_eq(self),
        decreases self,
    {
        match self {
            Term::Arrow(d, c) => {
                d.lemma_alpha_eq_reflexive();
                c.lemma_alpha_eq_reflexive();
            },
            Term::ForAll(_, d, c) => {
                d.lemma_alpha_eq_reflexive();
                c.lemma_alpha_eq_reflexive();
            },
            Term::Lambda(_, d, c) => {
                d.lemma_alpha_eq_reflexive();
                c.lemma_alpha_eq_reflexive();
            },
            Term::App(f, a) => {
                f.lemma_alpha_eq_reflexive();
                a.lemma_alpha_eq_reflexive();
            },
            _ => {},
        }
    }

    /// Between terms that name their binders alike, equivalence is
    /// equality.
    pub proof fn lemma_alpha_eq_same_binders(self, other: Term)
        requires
            self.same_binders(other),
        ensures
            self.alpha_eq(other) <==> self == other,
        decreases self,
    {
        match (self, other) {
            (Term::Arrow(d1, c1), Term::Arrow(d2, c2)) => {
                d1.lemma_alpha_eq_same_binders(*d2);
                c1.lemma_alpha_eq_same_binders(*c2);
            },
            (Term::ForAll(_, d1, c1), Term::ForAll(_, d2, c2)) => {
                d1.lemma_alpha_eq_same_binders(*d2);
                c1.lemma_alpha_eq_same_binders(*c2);
            },
            (Term::Lambda(_, d1, c1), Term::Lambda(_, d2, c2)) => {
                d1.lemma_alpha_eq_same_binders(*d2);
                c1.lemma_alpha_eq_same_binders(*c2);
            },
            (Term::App(f1, a1), Term::App(f2, a2)) => {
                f1.lemma_alpha_eq_same_binders(*f2);
                a1.lemma_alpha_eq_same_binders(*a2);
            },
            _ => {},
        }
    }

    /// Renaming a binder to its own name changes nothing in a body in
    /// which the name serves only that binder.
    pub proof fn lemma_rename_to_itself(self, name: Seq<char>)
        requires
            self.binds_here(name),
        ensures
            self.rename(name, name) == self,
        decreases self,
    {
        match self {
            Term::Arrow(d, c) => {
                d.lemma_rename_to_itself(name);
                c.lemma_rename_to_itself(name);
            },
            Term::ForAll(n, d, c) => {
                d.lemma_rename_to_itself(name);
                c.lemma_subst_fixes_below(name, Term::Var(name, 0).shift(n, 0), 1);
            },
            Term::Lambda(n, d, c) => {
                d.lemma_rename_to_itself(name);
                c.lemma_subst_fixes_below(name, Term::Var(name, 0).shift(n, 0), 1);
            },
            Term::App(f, a) => {
                f.lemma_rename_to_itself(name);
                a.lemma_rename_to_itself(name);
            },
            _ => {},
        }
    }

    /// Symmetry below a pair of binders: the first body agrees with the
    /// second as aligned to the first name exactly when the second agrees
    /// with the first as aligned to the second name.
    pub proof fn lemma_alpha_eq_symmetric_bodies(
        self,
        name: Seq<char>,
        other: Term,
        other_name: Seq<char>,
    )
        requires
            self.rename_safe(other),
            self.apart_under(name, other, other_name),
        ensures
            self.alpha_eq(other.aligned(other_name, name)) == other.alpha_eq(
                self.aligned(name, other_name),
            ),
        decreases self,
    {
        match (self, other) {
            (Term::Arrow(d1, c1), Term::Arrow(d2, c2)) => {
                d1.lemma_alpha_eq_symmetric_bodies(name, *d2, other_name);
                c1.lemma_alpha_eq_symmetric_bodies(name, *c2, other_name);
            },
            (Term::ForAll(m1, d1, c1), Term::ForAll(m2, d2, c2)) => {
                if name != other_name {
                    c2.lemma_subst_fixes_below(other_name, Term::Var(name, 0).shift(m2, 0), 1);
                    c1.lemma_subst_fixes_below(name, Term::Var(other_name, 0).shift(m1, 0), 1);
                }
                d1.lemma_alpha_eq_symmetric_bodies(name, *d2, other_name);
                c1.lemma_alpha_eq_symmetric_bodies(m1, *c2, m2);
            },
            (Term::Lambda(m1, d1, c1), Term::Lambda(m2, d2, c2)) => {
                if name != other_name {
                    c2.lemma_subst_fixes_below(other_name, Term::Var(name, 0).shift(m2, 0), 1);
                    c1.lemma_subst_fixes_below(name, Term::Var(other_name, 0).shift(m1, 0), 1);
                }
                d1.lemma_alpha_eq_symmetric_bodies(name, *d2, other_name);
                c1.lemma_alpha_eq_symmetric_bodies(m1, *c2, m2);
            },
            (Term::App(f1, a1), Term::App(f2, a2)) => {
                f1.lemma_alpha_eq_symmetric_bodies(name, *f2, other_name);
                a1.lemma_alpha_eq_symmetric_bodies(name, *a2, other_name);
            },
            _ => {},
        }
    }

    /// Symmetry: between rename-safe terms the comparison gives the same
    /// answer both ways.
    pub proof fn lemma_alpha_eq_symmetric(self, other: Term)
        requires
            self.rename_safe(other),
        ensures
            self.alpha_eq(other) == other.alpha_eq(self),
    {
        let name = Seq::<char>::empty();
        self.lemma_alpha_eq_symmetric_bodies(name, other, name);
    }

    /// Transitivity below three binders: if the first body agrees with the
    /// second as aligned to the first name, and the second with the third
    /// as aligned to the second name, then the first agrees with the third
    /// as aligned to the first name.
    pub proof fn lemma_alpha_eq_transitive_bodies(
        self,
        name: Seq<char>,
        middle: Term,
        middle_name: Seq<char>,
        last: Term,
        last_name: Seq<char>,
    )
        requires
            self.chain_safe(middle, last),
            Self::chain_under(name, middle, middle_name, last, last_name),
            self.alpha_eq(middle.aligned(middle_name, name)),
            middle.alpha_eq(last.aligned(last_name, middle_name)),
        ensures
            self.alpha_eq(last.aligned(last_name, name)),
        decreases self,
    {
        match (self, middle, last) {
            (Term::Arrow(d1, c1), Term::Arrow(d2, c2), Term::Arrow(d3, c3)) => {
                d1.lemma_alpha_eq_transitive_bodies(name, *d2, middle_name, *d3, last_name);
                c1.lemma_alpha_eq_transitive_bodies(name, *c2, middle_name, *c3, last_name);
            },
            (Term::ForAll(m1, d1, c1), Term::ForAll(m2, d2, c2), Term::ForAll(m3, d3, c3)) => {
                if name != middle_name {
                    c2.lemma_subst_fixes_below(middle_name, Term::Var(name, 0).shift(m2, 0), 1);
                }
                if middle_name != last_name {
                    c3.lemma_subst_fixes_below(
                        last_name,
                        Term::Var(middle_name, 0).shift(m3, 0),
                        1,
                    );
                }
                if name != last_name {
                    c3.lemma_subst_fixes_below(last_name, Term::Var(name, 0).shift(m3, 0), 1);
                }
                d1.lemma_alpha_eq_transitive_bodies(name, *d2, middle_name, *d3, last_name);
                c1.lemma_alpha_eq_transitive_bodies(m1, *c2, m2, *c3, m3);
            },
            (Term::Lambda(m1, d1, c1), Term::Lambda(m2, d2, c2), Term::Lambda(m3, d3, c3)) => {
                if name != middle_name {
                    c2.lemma_subst_fixes_below(middle_name, Term::Var(name, 0).shift(m2, 0), 1);
                }
                if middle_name != last_name {
                    c3.lemma_subst_fixes_below(
                        last_name,
                        Term::Var(middle_name, 0).shift(m3, 0),
                        1,
                    );
                }
                if name != last_name {
                    c3.lemma_subst_fixes_below(last_name, Term::Var(name, 0).shift(m3, 0), 1);
                }
                d1.lemma_alpha_eq_transitive_bodies(name, *d2, middle_name, *d3, last_name);
                c1.lemma_alpha_eq_transitive_bodies(m1, *c2, m2, *c3, m3);
            },
            (Term::App(f1, a1), Term::App(f2, a2), Term::App(f3, a3)) => {
                f1.lemma_alpha_eq_transitive_bodies(name, *f2, middle_name, *f3, last_name);
                a1.lemma_alpha_eq_transitive_bodies(name, *a2, middle_name, *a3, last_name);
            },
            _ => {},
        }
    }

    /// Transitivity, among three terms that are chain-safe: between them,
    /// no renaming of the second or third term captures a free name.
    pub proof fn lemma_alpha_eq_transitive(self, middle: Term, last: Term)
        requires
            self.chain_safe(middle, last),
            self.alpha_eq(middle),
            middle.alpha_eq(last),
        ensures
            self.alpha_eq(last),
    {
        let name = Seq::<char>::empty();
        self.lemma_alpha_eq_transitive_bodies(name, middle, name, last, name);
    }

    /// Three terms that are rename-safe two by two are chain-safe.
    pub proof fn lemma_rename_safe_chain(self, middle: Term, last: Term)
        requires
            self.rename_safe(middle),
            middle.rename_safe(last),
            self.rename_safe(last),
        ensures
            self.chain_safe(middle, last),
        decreases self,
    {
        match (self, middle, last) {
            (Term::Arrow(d1, c1), Term::Arrow(d2, c2), Term::Arrow(d3, c3)) => {
                d1.lemma_rename_safe_chain(*d2, *d3);
                c1.lemma_rename_safe_chain(*c2, *c3);
            },
            (Term::ForAll(_, d1, c1), Term::ForAll(_, d2, c2), Term::ForAll(_, d3, c3)) => {
                d1.lemma_rename_safe_chain(*d2, *d3);
                c1.lemma_rename_safe_chain(*c2, *c3);
            },
            (Term::Lambda(_, d1, c1), Term::Lambda(_, d2, c2), Term::Lambda(_, d3, c3)) => {
                d1.lemma_rename_safe_chain(*d2, *d3);
                c1.lemma_rename_safe_chain(*c2, *c3);
            },
            (Term::App(f1, a1), Term::App(f2, a2), Term::App(f3, a3)) => {
                f1.lemma_rename_safe_chain(*f2, *f3);
                a1.lemma_rename_safe_chain(*a2, *a3);
            },
            _ => {},
        }
    }

    /// Renaming the body of a binder of `from` to a name `to` and back
    /// gives the body again, where `from` serves only that binder and `to`
    /// is fresh: the body does not hold it outside its binders and is
    /// clear of it below them.
    pub proof fn lemma_rename_round_trip(self, from: Seq<char>, to: Seq<char>)
        requires
            self.binds_here(from),
            !self.holds_outside_binders(to),
            self.clear_below_binders(to),
        ensures
            self.rename(from, to).rename(to, from) == self,
        decreases self,
    {
        match self {
            Term::Arrow(d, c) => {
                d.lemma_rename_round_trip(from, to);
                c.lemma_rename_round_trip(from, to);
            },
            Term::ForAll(n, d, c) => {
                d.lemma_rename_round_trip(from, to);
                c.lemma_subst_fixes_below(from, Term::Var(to, 0).shift(n, 0), 1);
                c.lemma_subst_fixes_below(to, Term::Var(from, 0).shift(n, 0), 1);
            },
            Term::Lambda(n, d, c) => {
                d.lemma_rename_round_trip(from, to);
                c.lemma_subst_fixes_below(from, Term::Var(to, 0).shift(n, 0), 1);
                c.lemma_subst_fixes_below(to, Term::Var(from, 0).shift(n, 0), 1);
            },
            Term::App(f, a) => {
                f.lemma_rename_round_trip(from, to);
                a.lemma_rename_round_trip(from, to);
            },
            _ => {},
        }
    }

    /// Invariance under the renaming of a binder: a product, or an
    /// abstraction, is equivalent to the one whose binder has a fresh name
    /// and whose body is renamed to it, whatever the domain. The old name
    /// serves in the body only this binder; the body does not hold the new
    /// name outside its binders and is clear of it below them.
    pub proof fn lemma_alpha_eq_renamed_binder(
        from: Seq<char>,
        to: Seq<char>,
        domain: Term,
        body: Term,
    )
        requires
            body.binds_here(from),
            from != to ==> !body.holds_outside_binders(to) && body.clear_below_binders(to),
        ensures
            Term::ForAll(from, Box::new(domain), Box::new(body)).alpha_eq(
                Term::ForAll(to, Box::new(domain), Box::new(body.rename(from, to))),
            ),
            Term::Lambda(from, Box::new(domain), Box::new(body)).alpha_eq(
                Term::Lambda(to, Box::new(domain), Box::new(body.rename(from, to))),
            ),
    {
        domain.lemma_alpha_eq_reflexive();
        body.lemma_alpha_eq_reflexive();
        if from == to {
            body.lemma_rename_to_itself(from);
        } else {
            body.lemma_rename_round_trip(from, to);
        }
    }
}

} // verus!
