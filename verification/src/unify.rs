//! Unification as a walk over a worklist of address pairs: what one step
//! does, what a whole walk comes to, and what holds of every walk.

use vstd::prelude::*;
use crate::ast::Addr;
use crate::store::{lemma_deref_ends, HeapCell, MachineError, Store};

verus! {

/// What examining one pair of addresses comes to.
pub enum Step {
    /// The walk is abandoned.
    Stop(MachineError),
    /// The two terms have no unifier.
    Clash,
    /// The pair is settled in this store once these further pairs are.
    Go(Store, Seq<(Addr, Addr)>),
}

/// What a whole walk comes to: the store it leaves, whether it found that
/// there is no unifier, and whether it was abandoned.
pub struct Unified {
    pub store: Store,
    pub fail: bool,
    pub result: Result<(), MachineError>,
}

/// The address of argument `i`, counted from 0, of the structure whose
/// header is at `p`: the argument cells follow their header.
pub open spec fn argument(p: usize, i: int) -> Addr {
    Addr::HeapCell((p + 1 + i) as usize)
}

/// The pairs of corresponding arguments of two structures whose headers are
/// at `h1` and `h2`.
pub open spec fn argument_pairs(h1: usize, h2: usize, arity: usize) -> Seq<(Addr, Addr)> {
    Seq::new(arity as nat, |i: int| (argument(h1, i), argument(h2, i)))
}

impl Store {
    /// Compares the headers at `h1` and `h2`. Equal arity and equal name
    /// leave the arguments to be unified pair by pair; anything else is a
    /// clash. A header or an argument outside the heap abandons the walk.
    pub open spec fn match_structures(self, h1: usize, h2: usize) -> Step {
        if h1 >= self.heap.len() || h2 >= self.heap.len() {
            Step::Stop(MachineError::OutOfBounds)
        } else {
            match (self.heap[h1 as int], self.heap[h2 as int]) {
                (HeapCell::NamedStr(n1, f1), HeapCell::NamedStr(n2, f2)) => {
                    if n1 != n2 || f1@ != f2@ {
                        Step::Clash
                    } else if h1 + n1 >= self.heap.len() || h2 + n1 >= self.heap.len() {
                        Step::Stop(MachineError::OutOfBounds)
                    } else {
                        Step::Go(self, argument_pairs(h1, h2, n1))
                    }
                },
                _ => Step::Clash,
            }
        }
    }

    /// Settles two dereferenced addresses, `d1` the first inspected.
    ///
    /// The same cell twice is settled already. An unbound variable is bound
    /// to the other address; of two unbound variables the second inspected
    /// is bound to the first. Two structure pointers are settled by their
    /// structures. Anything else is a clash.
    pub open spec fn settle(self, d1: Addr, d2: Addr) -> Step {
        if d1 == d2 {
            Step::Go(self, Seq::empty())
        } else if self.is_unbound(d2) {
            Step::Go(self.bind(d2, d1), Seq::empty())
        } else if self.is_unbound(d1) {
            Step::Go(self.bind(d1, d2), Seq::empty())
        } else {
            match (self.cell(d1), self.cell(d2)) {
                (HeapCell::Str(h1), HeapCell::Str(h2)) => self.match_structures(h1, h2),
                _ => Step::Clash,
            }
        }
    }

    /// Examines the pair `(x, y)`: dereferences `y`, then `x`, and settles
    /// what they stand for. So `y` gives the first inspected address.
    pub open spec fn examine(self, x: Addr, y: Addr) -> Step {
        match self.deref(y) {
            Err(e) => Step::Stop(e),
            Ok(d1) => match self.deref(x) {
                Err(e) => Step::Stop(e),
                Ok(d2) => self.settle(d1, d2),
            },
        }
    }

    /// Works through the pairs of `work`, last pair first, examining at most
    /// `budget` of them. Pairs that a step leaves to be settled go on top.
    /// The walk ends when no pair is left, at the first clash, or when it is
    /// abandoned; what was bound until then stays bound.
    pub open spec fn unify_from(self, work: Seq<(Addr, Addr)>, budget: nat) -> Unified
        decreases budget,
    {
        if work.len() == 0 {
            Unified { store: self, fail: false, result: Ok(()) }
        } else if budget == 0 {
            Unified { store: self, fail: false, result: Err(MachineError::StepLimit) }
        } else {
            match self.examine(work.last().0, work.last().1) {
                Step::Stop(e) => Unified { store: self, fail: false, result: Err(e) },
                Step::Clash => Unified { store: self, fail: true, result: Ok(()) },
                Step::Go(next, more) => next.unify_from(work.drop_last() + more, (budget - 1) as nat),
            }
        }
    }

    /// Unifies the terms at `a1` and `a2`, examining at most `budget` pairs.
    pub open spec fn unify(self, a1: Addr, a2: Addr, budget: nat) -> Unified {
        self.unify_from(seq![(a1, a2)], budget)
    }
}

impl Store {
    /// What a walk comes to that changed nothing and found no clash.
    pub open spec fn untouched(self) -> Unified {
        Unified { store: self, fail: false, result: Ok(()) }
    }

    /// `a1` and `a2` stand for the same cell.
    pub open spec fn same_cell(self, a1: Addr, a2: Addr) -> bool {
        self.deref(a1) is Ok && self.deref(a1) == self.deref(a2)
    }

    /// `a1` and `a2` stand for two cells of which at least one is an unbound
    /// variable.
    pub open spec fn meets_variable(self, a1: Addr, a2: Addr) -> bool {
        &&& self.deref(a1) matches Ok(d2)
        &&& self.deref(a2) matches Ok(d1)
        &&& d1 != d2
        &&& (self.is_unbound(d1) || self.is_unbound(d2))
    }

    /// The store in which the variable that `a1` and `a2` meet in is bound to
    /// the other of the two cells. Where both are variables, the one that
    /// `a1` stands for is bound to the one that `a2` stands for.
    pub open spec fn variable_bound(self, a1: Addr, a2: Addr) -> Store
        recommends
            self.meets_variable(a1, a2),
    {
        let d2 = self.deref(a1)->Ok_0;
        let d1 = self.deref(a2)->Ok_0;
        if self.is_unbound(d2) {
            self.bind(d2, d1)
        } else {
            self.bind(d1, d2)
        }
    }

    /// `a1` and `a2` stand for the pointers of two structures that differ in
    /// name or in arity.
    pub open spec fn structures_differ(self, a1: Addr, a2: Addr) -> bool {
        &&& self.deref(a1) matches Ok(d2)
        &&& self.deref(a2) matches Ok(d1)
        &&& d1 != d2
        &&& self.cell(d1) matches HeapCell::Str(h1)
        &&& self.cell(d2) matches HeapCell::Str(h2)
        &&& h1 < self.heap.len()
        &&& h2 < self.heap.len()
        &&& self.heap[h1 as int] matches HeapCell::NamedStr(n1, f1)
        &&& self.heap[h2 as int] matches HeapCell::NamedStr(n2, f2)
        &&& (n1 != n2 || f1@ != f2@)
    }

    /// The terms at `a` and `b` are the same without any binding, as `depth`
    /// levels of structure show: `a` and `b` stand for the same cell, or for
    /// two structures of the same name and arity whose arguments, all on the
    /// heap, are pairwise the same. Two equal ground terms are the same in
    /// this sense, at the depth of their nesting.
    pub open spec fn same_term(self, a: Addr, b: Addr, depth: nat) -> bool
        decreases depth,
    {
        match (self.deref(a), self.deref(b)) {
            (Ok(da), Ok(db)) => da == db || (depth > 0 && match (self.cell(da), self.cell(db)) {
                (HeapCell::Str(p), HeapCell::Str(q)) => p < self.heap.len() && q < self.heap.len()
                    && match (self.heap[p as int], self.heap[q as int]) {
                    (HeapCell::NamedStr(n, f), HeapCell::NamedStr(m, g)) => n == m && f@ == g@ && p
                        + n < self.heap.len() && q + n < self.heap.len() && forall|i: int|
                        0 <= i < n ==> self.same_term(
                            #[trigger] argument(p, i),
                            argument(q, i),
                            (depth - 1) as nat,
                        ),
                    _ => false,
                },
                _ => false,
            }),
            _ => false,
        }
    }
}

/// Unifying two addresses that stand for the same cell binds nothing and
/// finds no clash.
pub proof fn lemma_unify_same_cell(st: Store, a1: Addr, a2: Addr, budget: nat)
    requires
        st.same_cell(a1, a2),
        budget >= 1,
    ensures
        st.unify(a1, a2, budget) == st.untouched(),
{
    let work = seq![(a1, a2)];
    assert(work.drop_last() + Seq::<(Addr, Addr)>::empty() =~= Seq::<(Addr, Addr)>::empty());
    reveal_with_fuel(Store::unify_from, 2);
}

/// There is no occurs check: a variable unifies with whatever it meets. It
/// is bound to the other cell, also where that cell points at a structure
/// that holds the variable itself, and the walk ends there without a clash.
pub proof fn lemma_unify_binds_variable(st: Store, a1: Addr, a2: Addr, budget: nat)
    requires
        st.meets_variable(a1, a2),
        budget >= 1,
    ensures
        st.unify(a1, a2, budget) == st.variable_bound(a1, a2).untouched(),
{
    let work = seq![(a1, a2)];
    assert(work.drop_last() + Seq::<(Addr, Addr)>::empty() =~= Seq::<(Addr, Addr)>::empty());
    reveal_with_fuel(Store::unify_from, 2);
}

/// Two structures that differ in name or in arity do not unify: `fail` is
/// set, and since no argument is looked at, nothing is bound.
pub proof fn lemma_unify_structures_differ(st: Store, a1: Addr, a2: Addr, budget: nat)
    requires
        st.structures_differ(a1, a2),
        budget >= 1,
    ensures
        st.unify(a1, a2, budget) == (Unified { store: st, fail: true, result: Ok(()) }),
{
    lemma_deref_ends(st, a1);
    lemma_deref_ends(st, a2);
}

impl Store {
    /// The number of pairs that a walk examines to find that the terms at
    /// `a` and `b` are the same: the pair itself and, unless the two stand
    /// for one cell, what the pairs of their arguments take.
    pub open spec fn steps(self, a: Addr, b: Addr, depth: nat) -> nat
        recommends
            self.same_term(a, b, depth),
        decreases depth, 0nat,
    {
        match (self.deref(a), self.deref(b)) {
            (Ok(da), Ok(db)) => if da == db || depth == 0 {
                1
            } else {
                match (self.cell(da), self.cell(db)) {
                    (HeapCell::Str(p), HeapCell::Str(q)) => match self.heap[p as int] {
                        HeapCell::NamedStr(n, _) => 1 + self.steps_of_arguments(
                            p,
                            q,
                            n as nat,
                            (depth - 1) as nat,
                        ),
                        _ => 1,
                    },
                    _ => 1,
                }
            },
            _ => 1,
        }
    }

    /// What the first `count` pairs of arguments of the structures at `p`
    /// and `q` take together.
    pub open spec fn steps_of_arguments(self, p: usize, q: usize, count: nat, depth: nat) -> nat
        decreases depth, count + 1,
    {
        if count == 0 {
            0
        } else {
            self.steps_of_arguments(p, q, (count - 1) as nat, depth) + self.steps(
                argument(p, count - 1),
                argument(q, count - 1),
                depth,
            )
        }
    }

    /// Each pair of `work` holds the same term twice, as the depth listed for
    /// it shows.
    pub open spec fn same_pairs_within(self, work: Seq<(Addr, Addr)>, depths: Seq<nat>) -> bool {
        &&& work.len() == depths.len()
        &&& forall|k: int|
            0 <= k < work.len() ==> self.same_term(
                (#[trigger] work[k]).0,
                work[k].1,
                depths[k],
            )
    }

    /// What the pairs of `work` take together.
    pub open spec fn total_steps(self, work: Seq<(Addr, Addr)>, depths: Seq<nat>) -> nat
        recommends
            work.len() == depths.len(),
        decreases work.len(),
    {
        if work.len() == 0 {
            0
        } else {
            self.total_steps(work.drop_last(), depths.drop_last()) + self.steps(
                work.last().0,
                work.last().1,
                depths.last(),
            )
        }
    }
}

/// Which of two same terms comes first makes no difference, neither to
/// their being the same nor to the steps that it takes to find out.
pub proof fn lemma_same_term_symmetric(st: Store, a: Addr, b: Addr, depth: nat)
    requires
        st.same_term(a, b, depth),
    ensures
        st.same_term(b, a, depth),
        st.steps(b, a, depth) == st.steps(a, b, depth),
    decreases depth, 0nat,
{
    let da = st.deref(a)->Ok_0;
    let db = st.deref(b)->Ok_0;
    if da != db {
        let p = st.cell(da)->Str_0;
        let q = st.cell(db)->Str_0;
        let n = st.heap[p as int]->NamedStr_0;
        lemma_arguments_symmetric(st, p, q, n as nat, n, (depth - 1) as nat);
    }
}

/// The same of the arguments of two structures.
pub proof fn lemma_arguments_symmetric(
    st: Store,
    p: usize,
    q: usize,
    count: nat,
    arity: usize,
    depth: nat,
)
    requires
        count <= arity,
        forall|i: int|
            0 <= i < arity ==> st.same_term(#[trigger] argument(p, i), argument(q, i), depth),
    ensures
        st.steps_of_arguments(q, p, count, depth) == st.steps_of_arguments(p, q, count, depth),
        forall|i: int|
            0 <= i < count ==> st.same_term(#[trigger] argument(q, i), argument(p, i), depth),
    decreases depth, count + 1,
{
    if count > 0 {
        lemma_arguments_symmetric(st, p, q, (count - 1) as nat, arity, depth);
        let last = argument(p, count - 1);
        assert(st.same_term(last, argument(q, count - 1), depth));
        lemma_same_term_symmetric(st, last, argument(q, count - 1), depth);
        assert forall|i: int| 0 <= i < count implies st.same_term(
            #[trigger] argument(q, i),
            argument(p, i),
            depth,
        ) by {
            if i == count - 1 {
            }
        }
    }
}

/// The pairs of arguments on top of a worklist add their steps to its total.
pub proof fn lemma_total_steps_of_arguments(
    st: Store,
    rest: Seq<(Addr, Addr)>,
    depths: Seq<nat>,
    h1: usize,
    h2: usize,
    count: usize,
    depth: nat,
)
    requires
        rest.len() == depths.len(),
    ensures
        st.total_steps(
            rest + argument_pairs(h1, h2, count),
            depths + Seq::new(count as nat, |i: int| depth),
        ) == st.total_steps(rest, depths) + st.steps_of_arguments(h1, h2, count as nat, depth),
    decreases count,
{
    let work = rest + argument_pairs(h1, h2, count);
    let all = depths + Seq::new(count as nat, |i: int| depth);
    if count == 0 {
        assert(work =~= rest);
        assert(all =~= depths);
    } else {
        let less = (count - 1) as usize;
        lemma_total_steps_of_arguments(st, rest, depths, h1, h2, less, depth);
        assert(work.drop_last() =~= rest + argument_pairs(h1, h2, less));
        assert(all.drop_last() =~= depths + Seq::new(less as nat, |i: int| depth));
        assert(work.last() == (argument(h1, count - 1), argument(h2, count - 1)));
        assert(all.last() == depth);
    }
}

/// A walk over pairs that each hold the same term twice binds nothing and
/// finds no clash. It ends well if it is allowed the steps that the pairs
/// take together; with fewer it runs out of steps.
pub proof fn lemma_same_pairs_walk(
    st: Store,
    work: Seq<(Addr, Addr)>,
    depths: Seq<nat>,
    budget: nat,
)
    requires
        st.same_pairs_within(work, depths),
    ensures
        st.unify_from(work, budget).store == st,
        !st.unify_from(work, budget).fail,
        st.unify_from(work, budget).result == (if budget >= st.total_steps(work, depths) {
            Ok::<(), MachineError>(())
        } else {
            Err::<(), MachineError>(MachineError::StepLimit)
        }),
    decreases budget,
{
    if work.len() > 0 {
        let (x, y) = work.last();
        let depth = depths.last();
        assert(st.same_term(work[work.len() - 1].0, work[work.len() - 1].1, depth));
        lemma_deref_ends(st, x);
        lemma_deref_ends(st, y);
        let d1 = st.deref(y)->Ok_0;
        let d2 = st.deref(x)->Ok_0;
        let rest = work.drop_last();
        let rest_depths = depths.drop_last();
        assert forall|k: int| 0 <= k < rest.len() implies st.same_term(
            (#[trigger] rest[k]).0,
            rest[k].1,
            rest_depths[k],
        ) by {
            assert(rest[k] == work[k]);
        }
        if budget == 0 {
        } else if d1 == d2 {
            assert(rest + Seq::<(Addr, Addr)>::empty() =~= rest);
            lemma_same_pairs_walk(st, rest, rest_depths, (budget - 1) as nat);
        } else {
            let p = st.cell(d2)->Str_0;
            let q = st.cell(d1)->Str_0;
            let n = st.heap[p as int]->NamedStr_0;
            let less = (depth - 1) as nat;
            let more = argument_pairs(q, p, n);
            let more_depths = Seq::new(n as nat, |i: int| less);
            assert(st.examine(x, y) == Step::Go(st, more));
            lemma_arguments_symmetric(st, p, q, n as nat, n, less);
            lemma_total_steps_of_arguments(st, rest, rest_depths, q, p, n, less);
            assert forall|k: int| 0 <= k < (rest + more).len() implies st.same_term(
                (#[trigger] (rest + more)[k]).0,
                (rest + more)[k].1,
                (rest_depths + more_depths)[k],
            ) by {
                if k < rest.len() {
                    assert((rest + more)[k] == rest[k]);
                } else {
                    let i = k - rest.len();
                    assert((rest + more)[k] == (argument(q, i), argument(p, i)));
                }
            }
            lemma_same_pairs_walk(st, rest + more, rest_depths + more_depths, (budget - 1) as nat);
        }
    }
}

/// Unifying a term with the same term binds nothing and leaves `fail`
/// clear, and it ends well if it is allowed the steps that the two terms
/// take. So do two equal ground terms unify, however deep they are.
pub proof fn lemma_unify_same_term(st: Store, a1: Addr, a2: Addr, depth: nat, budget: nat)
    requires
        st.same_term(a1, a2, depth),
    ensures
        st.unify(a1, a2, budget).store == st,
        !st.unify(a1, a2, budget).fail,
        st.unify(a1, a2, budget).result == (if budget >= st.steps(a1, a2, depth) {
            Ok::<(), MachineError>(())
        } else {
            Err::<(), MachineError>(MachineError::StepLimit)
        }),
{
    let work = seq![(a1, a2)];
    let depths = seq![depth];
    assert(work.drop_last() =~= Seq::<(Addr, Addr)>::empty());
    assert(st.total_steps(work.drop_last(), depths.drop_last()) == 0);
    assert(st.total_steps(work, depths) == st.steps(a1, a2, depth));
    lemma_same_pairs_walk(st, work, depths, budget);
}

} // verus!
