//! What unification achieves: where it ends well and finds no clash, the
//! two terms are the same in the store that it leaves.

use vstd::prelude::*;
use crate::ast::Addr;
use crate::store::{lemma_deref_ends, lemma_deref_is_settled, HeapCell, MachineError, Store};
use crate::unify::{argument, argument_pairs, lemma_same_term_symmetric, Step};

verus! {

impl Store {
    /// `later` is this store with more of its variables bound: no cell but
    /// an unbound variable has changed, and every address still stands for
    /// a cell, the one that its old end now stands for.
    pub open spec fn binds_more(self, later: Store) -> bool {
        &&& later.heap.len() == self.heap.len()
        &&& later.registers.len() == self.registers.len()
        &&& forall|a: Addr|
            self.in_bounds(a) && !self.is_unbound(a) ==> #[trigger] later.cell(a) == self.cell(a)
        &&& forall|a: Addr|
            (#[trigger] self.deref(a)) is Ok ==> later.deref(a) is Ok && later.deref(a)
                == later.deref(self.deref(a)->Ok_0)
    }

    /// The terms at `a` and `b` are the same without any binding.
    pub open spec fn same(self, a: Addr, b: Addr) -> bool {
        exists|depth: nat| self.same_term(a, b, depth)
    }

    /// The store is one step's binding away from this one: the cell at
    /// `variable`, unbound here, refers to `end` there.
    pub open spec fn can_bind(self, variable: Addr, end: Addr) -> bool {
        &&& self.in_bounds(variable)
        &&& self.is_unbound(variable)
        &&& self.in_bounds(end)
        &&& !self.is_bound(end)
        &&& end != variable
    }
}

/// An address that stands for a cell stands for that cell whatever steps
/// dereferencing has beyond those it needs.
pub proof fn lemma_deref_of_end(st: Store, a: Addr)
    requires
        st.deref(a) is Ok,
    ensures
        st.deref(st.deref(a)->Ok_0) == st.deref(a),
{
    lemma_deref_ends(st, a);
}

/// Binding a variable to an end of a chain lengthens by one step the chains
/// that ended at the variable and leaves the others alone.
pub proof fn lemma_bind_deref_within(st: Store, variable: Addr, end: Addr, a: Addr, fuel: nat)
    requires
        st.can_bind(variable, end),
        st.deref_within(a, fuel) is Ok,
    ensures
        st.bind(variable, end).deref_within(a, fuel + 1) == Ok::<Addr, MachineError>(
            if st.deref_within(a, fuel) == Ok::<Addr, MachineError>(variable) {
                end
            } else {
                st.deref_within(a, fuel)->Ok_0
            },
        ),
    decreases fuel,
{
    let later = st.bind(variable, end);
    assert(later.in_bounds(a));
    assert(later.cell(end) == st.cell(end));
    if a == variable {
        assert(later.cell(a) == HeapCell::Ref(end));
        assert(later.deref_within(end, fuel) == Ok::<Addr, MachineError>(end));
    } else {
        assert(later.cell(a) == st.cell(a));
        if st.is_bound(a) {
            lemma_bind_deref_within(st, variable, end, st.target(a), (fuel - 1) as nat);
        }
    }
}

/// The same of dereferencing as the machine does it.
pub proof fn lemma_bind_deref(st: Store, variable: Addr, end: Addr, a: Addr)
    requires
        st.can_bind(variable, end),
        st.deref(a) is Ok,
    ensures
        st.bind(variable, end).deref(a) == Ok::<Addr, MachineError>(
            if st.deref(a) == Ok::<Addr, MachineError>(variable) {
                end
            } else {
                st.deref(a)->Ok_0
            },
        ),
{
    let later = st.bind(variable, end);
    assert(later.size() == st.size());
    lemma_bind_deref_within(st, variable, end, a, st.size());
    lemma_deref_is_settled(later, a, st.size() + 1);
}

/// A store binds no less than itself.
pub proof fn lemma_binds_more_itself(st: Store)
    ensures
        st.binds_more(st),
{
    assert forall|a: Addr| (#[trigger] st.deref(a)) is Ok implies st.deref(a) == st.deref(
        st.deref(a)->Ok_0,
    ) by {
        lemma_deref_of_end(st, a);
    }
}

/// Binding a variable to an end of a chain binds more.
pub proof fn lemma_binds_more_by_bind(st: Store, variable: Addr, end: Addr)
    requires
        st.can_bind(variable, end),
    ensures
        st.binds_more(st.bind(variable, end)),
{
    let later = st.bind(variable, end);
    assert forall|a: Addr| st.in_bounds(a) && !st.is_unbound(a) implies #[trigger] later.cell(a)
        == st.cell(a) by {
        assert(a != variable);
    }
    assert forall|a: Addr| (#[trigger] st.deref(a)) is Ok implies later.deref(a) is Ok
        && later.deref(a) == later.deref(st.deref(a)->Ok_0) by {
        lemma_deref_of_end(st, a);
        lemma_bind_deref(st, variable, end, a);
        lemma_bind_deref(st, variable, end, st.deref(a)->Ok_0);
    }
}

/// What binds more than a store that binds more, binds more.
pub proof fn lemma_binds_more_on(st: Store, then: Store, later: Store)
    requires
        st.binds_more(then),
        then.binds_more(later),
    ensures
        st.binds_more(later),
{
    assert forall|a: Addr| st.in_bounds(a) && !st.is_unbound(a) implies #[trigger] later.cell(a)
        == st.cell(a) by {
        assert(then.cell(a) == st.cell(a));
        assert(then.in_bounds(a));
    }
    assert forall|a: Addr| (#[trigger] st.deref(a)) is Ok implies later.deref(a) is Ok
        && later.deref(a) == later.deref(st.deref(a)->Ok_0) by {
        let d = st.deref(a)->Ok_0;
        assert(then.deref(a) is Ok && then.deref(a) == then.deref(d));
        let e = then.deref(a)->Ok_0;
        assert(later.deref(a) is Ok && later.deref(a) == later.deref(e));
        assert(then.deref(d) is Ok);
        assert(later.deref(d) == later.deref(e));
    }
}

/// Two terms that are the same stay the same when more variables are bound.
pub proof fn lemma_same_term_stays(st: Store, later: Store, a: Addr, b: Addr, depth: nat)
    requires
        st.binds_more(later),
        st.same_term(a, b, depth),
    ensures
        later.same_term(a, b, depth),
    decreases depth,
{
    let da = st.deref(a)->Ok_0;
    let db = st.deref(b)->Ok_0;
    lemma_deref_ends(st, a);
    lemma_deref_ends(st, b);
    assert(later.deref(a) is Ok && later.deref(a) == later.deref(da));
    assert(later.deref(b) is Ok && later.deref(b) == later.deref(db));
    if da != db {
        let p = st.cell(da)->Str_0;
        let q = st.cell(db)->Str_0;
        let n = st.heap[p as int]->NamedStr_0;
        assert(later.cell(da) == st.cell(da));
        assert(later.cell(db) == st.cell(db));
        assert(later.deref(da) == Ok::<Addr, MachineError>(da));
        assert(later.deref(db) == Ok::<Addr, MachineError>(db));
        assert(later.cell(Addr::HeapCell(p)) == st.cell(Addr::HeapCell(p)));
        assert(later.cell(Addr::HeapCell(q)) == st.cell(Addr::HeapCell(q)));
        assert forall|i: int| 0 <= i < n implies later.same_term(
            #[trigger] argument(p, i),
            argument(q, i),
            (depth - 1) as nat,
        ) by {
            lemma_same_term_stays(st, later, argument(p, i), argument(q, i), (depth - 1) as nat);
        }
    }
}

/// What a depth shows to be the same, every greater depth shows too.
pub proof fn lemma_same_term_deeper(st: Store, a: Addr, b: Addr, depth: nat, deeper: nat)
    requires
        st.same_term(a, b, depth),
        deeper >= depth,
    ensures
        st.same_term(a, b, deeper),
    decreases depth,
{
    let da = st.deref(a)->Ok_0;
    let db = st.deref(b)->Ok_0;
    if da != db {
        let p = st.cell(da)->Str_0;
        let q = st.cell(db)->Str_0;
        let n = st.heap[p as int]->NamedStr_0;
        assert forall|i: int| 0 <= i < n implies st.same_term(
            #[trigger] argument(p, i),
            argument(q, i),
            (deeper - 1) as nat,
        ) by {
            lemma_same_term_deeper(
                st,
                argument(p, i),
                argument(q, i),
                (depth - 1) as nat,
                (deeper - 1) as nat,
            );
        }
    }
}

/// Arguments that are pairwise the same are so at one common depth.
pub proof fn lemma_common_depth(st: Store, p: usize, q: usize, count: nat) -> (depth: nat)
    requires
        forall|i: int| 0 <= i < count ==> st.same(#[trigger] argument(p, i), argument(q, i)),
    ensures
        forall|i: int|
            0 <= i < count ==> st.same_term(#[trigger] argument(p, i), argument(q, i), depth),
    decreases count,
{
    if count == 0 {
        0
    } else {
        let before = lemma_common_depth(st, p, q, (count - 1) as nat);
        let a = argument(p, count - 1);
        let b = argument(q, count - 1);
        assert(st.same(a, b));
        let last = choose|depth: nat| st.same_term(a, b, depth);
        let depth = if before >= last {
            before
        } else {
            last
        };
        assert forall|i: int| 0 <= i < count implies st.same_term(
            #[trigger] argument(p, i),
            argument(q, i),
            depth,
        ) by {
            if i == count - 1 {
                lemma_same_term_deeper(st, a, b, last, depth);
            } else {
                lemma_same_term_deeper(st, argument(p, i), argument(q, i), before, depth);
            }
        }
        depth
    }
}

/// What examining a pair leaves behind binds more than what it found.
pub proof fn lemma_examine_binds_more(st: Store, x: Addr, y: Addr)
    ensures
        st.examine(x, y) matches Step::Go(next, _) ==> st.binds_more(next),
{
    lemma_deref_ends(st, x);
    lemma_deref_ends(st, y);
    lemma_binds_more_itself(st);
    if let Step::Go(next, _) = st.examine(x, y) {
        let d1 = st.deref(y)->Ok_0;
        let d2 = st.deref(x)->Ok_0;
        if d1 != d2 {
            if st.is_unbound(d2) {
                lemma_binds_more_by_bind(st, d2, d1);
            } else if st.is_unbound(d1) {
                lemma_binds_more_by_bind(st, d1, d2);
            }
        }
    }
}

/// A walk only ever binds more.
pub proof fn lemma_walk_binds_more(st: Store, work: Seq<(Addr, Addr)>, budget: nat)
    ensures
        st.binds_more(st.unify_from(work, budget).store),
    decreases budget,
{
    lemma_binds_more_itself(st);
    if work.len() > 0 && budget > 0 {
        let (x, y) = work.last();
        if let Step::Go(next, more) = st.examine(x, y) {
            lemma_examine_binds_more(st, x, y);
            lemma_walk_binds_more(next, work.drop_last() + more, (budget - 1) as nat);
            lemma_binds_more_on(st, next, next.unify_from(
                work.drop_last() + more,
                (budget - 1) as nat,
            ).store);
        }
    }
}

/// Where a walk ends well and finds no clash, the two terms of every pair
/// it was given are the same in the store that it leaves.
pub proof fn lemma_walk_unifies(st: Store, work: Seq<(Addr, Addr)>, budget: nat)
    requires
        st.unify_from(work, budget).result is Ok,
        !st.unify_from(work, budget).fail,
    ensures
        forall|k: int|
            0 <= k < work.len() ==> st.unify_from(work, budget).store.same(
                (#[trigger] work[k]).0,
                work[k].1,
            ),
    decreases budget,
{
    if work.len() > 0 {
        let out = st.unify_from(work, budget).store;
        let (x, y) = work.last();
        let rest = work.drop_last();
        lemma_deref_ends(st, x);
        lemma_deref_ends(st, y);
        let d1 = st.deref(y)->Ok_0;
        let d2 = st.deref(x)->Ok_0;
        let next = st.examine(x, y)->Go_0;
        let more = st.examine(x, y)->Go_1;
        lemma_walk_unifies(next, rest + more, (budget - 1) as nat);
        lemma_walk_binds_more(next, rest + more, (budget - 1) as nat);
        assert forall|k: int| 0 <= k < work.len() implies out.same((#[trigger] work[k]).0, work[k].1) by {
            if k < rest.len() {
                assert((rest + more)[k] == work[k]);
            } else if d1 == d2 {
                assert(next.deref(x) is Ok);
                assert(next.deref(y) is Ok);
                assert(out.same_term(x, y, 0));
            } else if st.is_unbound(d2) {
                lemma_bind_deref(st, d2, d1, x);
                lemma_bind_deref(st, d2, d1, y);
                assert(next.deref(x) is Ok);
                assert(next.deref(y) is Ok);
                assert(out.same_term(x, y, 0));
            } else if st.is_unbound(d1) {
                lemma_bind_deref(st, d1, d2, x);
                lemma_bind_deref(st, d1, d2, y);
                assert(next.deref(x) is Ok);
                assert(next.deref(y) is Ok);
                assert(out.same_term(x, y, 0));
            } else {
                let h1 = st.cell(d1)->Str_0;
                let h2 = st.cell(d2)->Str_0;
                let n = st.heap[h1 as int]->NamedStr_0;
                assert(more == argument_pairs(h1, h2, n));
                assert forall|i: int| 0 <= i < n implies out.same(
                    #[trigger] argument(h1, i),
                    argument(h2, i),
                ) by {
                    assert((rest + more)[rest.len() + i] == (argument(h1, i), argument(h2, i)));
                }
                let depth = lemma_common_depth(out, h1, h2, n as nat);
                assert(st.deref(d1) == Ok::<Addr, MachineError>(d1));
                assert(st.deref(d2) == Ok::<Addr, MachineError>(d2));
                assert(out.deref(x) is Ok && out.deref(x) == out.deref(d2));
                assert(out.deref(y) is Ok && out.deref(y) == out.deref(d1));
                assert(out.cell(d1) == st.cell(d1));
                assert(out.cell(d2) == st.cell(d2));
                assert(out.deref(d1) == Ok::<Addr, MachineError>(d1));
                assert(out.deref(d2) == Ok::<Addr, MachineError>(d2));
                assert(out.cell(Addr::HeapCell(h1)) == st.cell(Addr::HeapCell(h1)));
                assert(out.cell(Addr::HeapCell(h2)) == st.cell(Addr::HeapCell(h2)));
                assert(out.same_term(y, x, depth + 1));
                lemma_same_term_symmetric(out, y, x, depth + 1);
            }
        }
    }
}

/// Unification makes the two terms the same: where it ends well and finds
/// no clash, the terms at `a1` and `a2` are the same in the store that it
/// leaves, which differs from the store it found only in variables bound.
pub proof fn lemma_unify_unifies(st: Store, a1: Addr, a2: Addr, budget: nat)
    requires
        st.unify(a1, a2, budget).result is Ok,
        !st.unify(a1, a2, budget).fail,
    ensures
        st.unify(a1, a2, budget).store.same(a1, a2),
        st.binds_more(st.unify(a1, a2, budget).store),
{
    let work = seq![(a1, a2)];
    lemma_walk_unifies(st, work, budget);
    lemma_walk_binds_more(st, work, budget);
    assert(work[0] == (a1, a2));
}

} // verus!
