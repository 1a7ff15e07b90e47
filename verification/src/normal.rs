//! Facts about reduction: more fuel never changes a result, the result is
//! a normal form, and a normal form reduces to itself.

use crate::model::Term;
use vstd::prelude::*;

verus! {

impl Term {
    /// The number of nodes on the longest path from the root to a leaf.
    pub open spec fn height(self) -> nat
        decreases self,
    {
        match self {
            Term::Arrow(d, c) => 1 + if d.height() >= c.height() {
                d.height()
            } else {
                c.height()
            },
            Term::ForAll(_, d, c) => 1 + if d.height() >= c.height() {
                d.height()
            } else {
                c.height()
            },
            Term::Lambda(_, d, c) => 1 + if d.height() >= c.height() {
                d.height()
            } else {
                c.height()
            },
            Term::App(f, a) => 1 + if f.height() >= a.height() {
                f.height()
            } else {
                a.height()
            },
            _ => 1,
        }
    }

    /// A reduction that ends within `fuel` steps gives the same result
    /// with any larger fuel.
    pub proof fn lemma_reduce_monotone(self, fuel: nat, more: nat)
        requires
            self.reduce(fuel).is_some(),
            fuel <= more,
        ensures
            self.reduce(more) == self.reduce(fuel),
        decreases fuel,
    {
        let rest = (fuel - 1) as nat;
        let more_rest = (more - 1) as nat;
        match self {
            Term::Arrow(d, c) => {
                d.lemma_reduce_monotone(rest, more_rest);
                c.lemma_reduce_monotone(rest, more_rest);
            },
            Term::ForAll(_, d, c) => {
                d.lemma_reduce_monotone(rest, more_rest);
                c.lemma_reduce_monotone(rest, more_rest);
            },
            Term::Lambda(_, d, c) => {
                d.lemma_reduce_monotone(rest, more_rest);
                c.lemma_reduce_monotone(rest, more_rest);
            },
            Term::App(f, a) => {
                f.lemma_reduce_monotone(rest, more_rest);
                a.lemma_reduce_monotone(rest, more_rest);
                match f.reduce(rest) {
                    Some(Term::Lambda(n, _, body)) => {
                        body.subst(n, a.reduce(rest).unwrap(), 0).lemma_reduce_monotone(
                            rest,
                            more_rest,
                        );
                    },
                    _ => {},
                }
            },
            _ => {},
        }
    }

    /// Whatever fuel a reduction ends with, its result is the normal form.
    pub proof fn lemma_norm_is(self, fuel: nat)
        requires
            self.reduce(fuel).is_some(),
        ensures
            self.normalizes(),
            self.norm() == self.reduce(fuel).unwrap(),
    {
        let chosen = choose|k: nat| self.reduce(k).is_some();
        if chosen <= fuel {
            self.lemma_reduce_monotone(chosen, fuel);
        } else {
            self.lemma_reduce_monotone(fuel, chosen);
        }
    }

    /// A reduction that stays in range comes to an end.
    pub proof fn lemma_reduce_in_range_ends(self, fuel: nat)
        requires
            self.reduce_in_range(fuel),
        ensures
            self.reduce(fuel).is_some(),
        decreases fuel,
    {
        let rest = (fuel - 1) as nat;
        match self {
            Term::Arrow(d, c) => {
                d.lemma_reduce_in_range_ends(rest);
                c.lemma_reduce_in_range_ends(rest);
            },
            Term::ForAll(_, d, c) => {
                d.lemma_reduce_in_range_ends(rest);
                c.lemma_reduce_in_range_ends(rest);
            },
            Term::Lambda(_, d, c) => {
                d.lemma_reduce_in_range_ends(rest);
                c.lemma_reduce_in_range_ends(rest);
            },
            Term::App(f, a) => {
                f.lemma_reduce_in_range_ends(rest);
                a.lemma_reduce_in_range_ends(rest);
                match f.reduce(rest) {
                    Some(Term::Lambda(n, _, body)) => {
                        body.subst(n, a.reduce(rest).unwrap(), 0).lemma_reduce_in_range_ends(rest);
                    },
                    _ => {},
                }
            },
            _ => {},
        }
    }

    /// A reduction that stays in range within `fuel` steps stays in range
    /// with any larger fuel.
    pub proof fn lemma_reduce_in_range_monotone(self, fuel: nat, more: nat)
        requires
            self.reduce_in_range(fuel),
            fuel <= more,
        ensures
            self.reduce_in_range(more),
        decreases fuel,
    {
        let rest = (fuel - 1) as nat;
        let more_rest = (more - 1) as nat;
        match self {
            Term::Arrow(d, c) => {
                d.lemma_reduce_in_range_monotone(rest, more_rest);
                c.lemma_reduce_in_range_monotone(rest, more_rest);
            },
            Term::ForAll(_, d, c) => {
                d.lemma_reduce_in_range_monotone(rest, more_rest);
                c.lemma_reduce_in_range_monotone(rest, more_rest);
            },
            Term::Lambda(_, d, c) => {
                d.lemma_reduce_in_range_monotone(rest, more_rest);
                c.lemma_reduce_in_range_monotone(rest, more_rest);
            },
            Term::App(f, a) => {
                f.lemma_reduce_in_range_monotone(rest, more_rest);
                a.lemma_reduce_in_range_monotone(rest, more_rest);
                f.lemma_reduce_in_range_ends(rest);
                a.lemma_reduce_in_range_ends(rest);
                f.lemma_reduce_monotone(rest, more_rest);
                a.lemma_reduce_monotone(rest, more_rest);
                match f.reduce(rest) {
                    Some(Term::Lambda(n, _, body)) => {
                        body.subst(n, a.reduce(rest).unwrap(), 0).lemma_reduce_in_range_monotone(
                            rest,
                            more_rest,
                        );
                    },
                    _ => {},
                }
            },
            _ => {},
        }
    }

    /// A term whose reduction ends in range has a normal form.
    pub proof fn lemma_norm_in_range_normalizes(self)
        requires
            self.norm_in_range(),
        ensures
            self.normalizes(),
    {
        let fuel = choose|fuel: nat| self.reduce_in_range(fuel);
        self.lemma_reduce_in_range_ends(fuel);
    }

    /// The result of a reduction holds no redex.
    pub proof fn lemma_reduce_is_normal(self, fuel: nat)
        requires
            self.reduce(fuel).is_some(),
        ensures
            self.reduce(fuel).unwrap().is_normal(),
        decreases fuel,
    {
        let rest = (fuel - 1) as nat;
        match self {
            Term::Arrow(d, c) => {
                d.lemma_reduce_is_normal(rest);
                c.lemma_reduce_is_normal(rest);
            },
            Term::ForAll(_, d, c) => {
                d.lemma_reduce_is_normal(rest);
                c.lemma_reduce_is_normal(rest);
            },
            Term::Lambda(_, d, c) => {
                d.lemma_reduce_is_normal(rest);
                c.lemma_reduce_is_normal(rest);
            },
            Term::App(f, a) => {
                f.lemma_reduce_is_normal(rest);
                a.lemma_reduce_is_normal(rest);
                match f.reduce(rest) {
                    Some(Term::Lambda(n, _, body)) => {
                        body.subst(n, a.reduce(rest).unwrap(), 0).lemma_reduce_is_normal(rest);
                    },
                    _ => {},
                }
            },
            _ => {},
        }
    }

    /// A term without a redex reduces to itself, with fuel for its height.
    pub proof fn lemma_normal_reduces_to_itself(self, fuel: nat)
        requires
            self.is_normal(),
            fuel >= self.height(),
        ensures
            self.reduce(fuel) == Some(self),
        decreases self,
    {
        let rest = (fuel - 1) as nat;
        match self {
            Term::Arrow(d, c) => {
                d.lemma_normal_reduces_to_itself(rest);
                c.lemma_normal_reduces_to_itself(rest);
            },
            Term::ForAll(_, d, c) => {
                d.lemma_normal_reduces_to_itself(rest);
                c.lemma_normal_reduces_to_itself(rest);
            },
            Term::Lambda(_, d, c) => {
                d.lemma_normal_reduces_to_itself(rest);
                c.lemma_normal_reduces_to_itself(rest);
            },
            Term::App(f, a) => {
                f.lemma_normal_reduces_to_itself(rest);
                a.lemma_normal_reduces_to_itself(rest);
            },
            _ => {},
        }
    }

    /// The reduction of a term without a redex substitutes nothing, so it
    /// stays in range.
    pub proof fn lemma_normal_reduces_in_range(self, fuel: nat)
        requires
            self.is_normal(),
            fuel >= self.height(),
        ensures
            self.reduce_in_range(fuel),
            self.norm_in_range(),
        decreases self,
    {
        let rest = (fuel - 1) as nat;
        match self {
            Term::Arrow(d, c) => {
                d.lemma_normal_reduces_in_range(rest);
                c.lemma_normal_reduces_in_range(rest);
            },
            Term::ForAll(_, d, c) => {
                d.lemma_normal_reduces_in_range(rest);
                c.lemma_normal_reduces_in_range(rest);
            },
            Term::Lambda(_, d, c) => {
                d.lemma_normal_reduces_in_range(rest);
                c.lemma_normal_reduces_in_range(rest);
            },
            Term::App(f, a) => {
                f.lemma_normal_reduces_in_range(rest);
                a.lemma_normal_reduces_in_range(rest);
                f.lemma_normal_reduces_to_itself(rest);
            },
            _ => {},
        }
    }

    /// The normal form of a term that normalizes holds no redex.
    pub proof fn lemma_norm_is_normal(self)
        requires
            self.normalizes(),
        ensures
            self.norm().is_normal(),
    {
        let fuel = choose|fuel: nat| self.reduce(fuel).is_some();
        self.lemma_reduce_is_normal(fuel);
    }

    /// A term without a redex is its own normal form.
    pub proof fn lemma_normal_is_fixed(self)
        requires
            self.is_normal(),
        ensures
            self.normalizes(),
            self.norm() == self,
    {
        self.lemma_normal_reduces_to_itself(self.height());
        self.lemma_norm_is(self.height());
    }

    /// Normalisation is idempotent: the normal form of a term that
    /// normalizes normalizes too, and to itself.
    pub proof fn lemma_norm_idempotent(self)
        requires
            self.normalizes(),
        ensures
            self.norm().normalizes(),
            self.norm().norm() == self.norm(),
    {
        self.lemma_norm_is_normal();
        self.norm().lemma_normal_is_fixed();
    }
}

} // verus!
