//! The cell model: heap cells, the two cell arrays seen as sequences, and
//! what it means to look a cell up, to bind one and to follow references.

use vstd::prelude::*;
use vstd::set_lib::{lemma_int_range, lemma_len_subset, set_int_range};
use crate::ast::{Addr, Atom};

verus! {

/// A cell of the heap or of the register file.
///
/// A `Ref` is a logic variable: unbound while it points at the cell that
/// holds it, bound once it points anywhere else. A `Str` points at the heap
/// position of a `NamedStr`, the name and arity of a compound term, whose
/// arguments are the cells that follow it.
#[derive(Debug, PartialEq, Eq)]
pub enum HeapCell {
    NamedStr(usize, Atom),
    Ref(Addr),
    Str(usize),
}

impl Clone for HeapCell {
    fn clone(&self) -> (c: Self)
        ensures
            c == *self,
    {
        match self {
            HeapCell::NamedStr(arity, name) => HeapCell::NamedStr(*arity, name.clone()),
            HeapCell::Ref(target) => HeapCell::Ref(*target),
            HeapCell::Str(target) => HeapCell::Str(*target),
        }
    }
}

/// Why an operation was abandoned. None of these is a failure to unify:
/// that is reported by the machine's `fail` flag.
#[derive(Clone, Copy, Debug, PartialEq, Eq, Structural)]
pub enum MachineError {
    /// An address lies outside the heap or the register file.
    OutOfBounds,
    /// A chain of bound references leads back into itself.
    CyclicReference,
    /// Unification was not finished within the steps it was allowed.
    StepLimit,
}

/// The heap and the register file as sequences of cells.
pub struct Store {
    pub heap: Seq<HeapCell>,
    pub registers: Seq<HeapCell>,
}

impl Store {
    /// The address names a cell of this store.
    pub open spec fn in_bounds(self, a: Addr) -> bool {
        match a {
            Addr::HeapCell(i) => i < self.heap.len(),
            Addr::RegNum(r) => r < self.registers.len(),
        }
    }

    /// The cell that the address names.
    pub open spec fn cell(self, a: Addr) -> HeapCell
        recommends
            self.in_bounds(a),
    {
        match a {
            Addr::HeapCell(i) => self.heap[i as int],
            Addr::RegNum(r) => self.registers[r as int],
        }
    }

    /// The cell at `a` is a variable that nothing has been bound to.
    pub open spec fn is_unbound(self, a: Addr) -> bool {
        self.cell(a) == HeapCell::Ref(a)
    }

    /// The cell at `a` is a variable bound to another cell.
    pub open spec fn is_bound(self, a: Addr) -> bool {
        self.cell(a) matches HeapCell::Ref(target) && target != a
    }

    /// Where the bound variable at `a` points.
    pub open spec fn target(self, a: Addr) -> Addr
        recommends
            self.is_bound(a),
    {
        self.cell(a)->Ref_0
    }

    /// The store in which the cell at `a` is a reference to `target`.
    pub open spec fn bind(self, a: Addr, target: Addr) -> Store
        recommends
            self.in_bounds(a),
    {
        match a {
            Addr::HeapCell(i) => Store { heap: self.heap.update(i as int, HeapCell::Ref(target)), ..self },
            Addr::RegNum(r) => Store {
                registers: self.registers.update(r as int, HeapCell::Ref(target)),
                ..self
            },
        }
    }

    /// The number of cells that the store holds.
    pub open spec fn size(self) -> nat {
        self.heap.len() + self.registers.len()
    }

    /// Follows bound references from `a` for at most `fuel` steps. The walk
    /// ends at the first cell that is not a bound variable, fails on leaving
    /// the store, and is given up when the steps run out.
    pub open spec fn deref_within(self, a: Addr, fuel: nat) -> Result<Addr, MachineError>
        decreases fuel,
    {
        if !self.in_bounds(a) {
            Err(MachineError::OutOfBounds)
        } else if !self.is_bound(a) {
            Ok(a)
        } else if fuel == 0 {
            Err(MachineError::CyclicReference)
        } else {
            self.deref_within(self.target(a), (fuel - 1) as nat)
        }
    }

    /// The cell that `a` stands for: the end of the chain of bound references
    /// that starts at `a`. A chain that visits more cells than the store
    /// holds has visited one of them twice, so it never ends.
    pub open spec fn deref(self, a: Addr) -> Result<Addr, MachineError> {
        self.deref_within(a, self.size())
    }
}

impl Store {
    /// The address reached from `a` by following `k` references.
    pub open spec fn walk(self, a: Addr, k: nat) -> Addr
        decreases k,
    {
        if k == 0 {
            a
        } else {
            self.walk(self.target(a), (k - 1) as nat)
        }
    }

    /// `a` and the `k` addresses that follow it all name bound variables.
    pub open spec fn bound_along(self, a: Addr, k: nat) -> bool {
        forall|i: nat| i <= k ==> self.in_bounds(#[trigger] self.walk(a, i)) && self.is_bound(self.walk(a, i))
    }

    /// The number of the cell at `a` when the cells of the heap are counted
    /// first and those of the registers after them.
    pub open spec fn cell_number(self, a: Addr) -> int {
        match a {
            Addr::HeapCell(i) => i as int,
            Addr::RegNum(r) => self.heap.len() + r,
        }
    }
}

/// Where a walk along bound references ends, there is a cell, and it is not
/// a bound variable.
pub proof fn lemma_deref_within_ends(st: Store, a: Addr, fuel: nat)
    ensures
        st.deref_within(a, fuel) matches Ok(d) ==> st.in_bounds(d) && !st.is_bound(d),
    decreases fuel,
{
    if st.in_bounds(a) && st.is_bound(a) && fuel > 0 {
        lemma_deref_within_ends(st, st.target(a), (fuel - 1) as nat);
    }
}

/// Dereferencing ends at a cell that is not a bound variable: a reference
/// found there is an unbound variable.
pub proof fn lemma_deref_ends(st: Store, a: Addr)
    ensures
        st.deref(a) matches Ok(d) ==> st.in_bounds(d) && !st.is_bound(d) && (st.cell(d) is Ref
            ==> st.is_unbound(d)),
{
    lemma_deref_within_ends(st, a, st.size());
}

/// What a walk finds lies on the chain of references from `a`, behind bound
/// variables only: the first cell of the chain that is no bound variable,
/// or the first address of the chain that names no cell. The result is how
/// far along the chain that is.
pub proof fn lemma_deref_within_reaches(st: Store, a: Addr, fuel: nat) -> (k: nat)
    requires
        st.deref_within(a, fuel) != Err::<Addr, MachineError>(MachineError::CyclicReference),
    ensures
        k <= fuel,
        forall|i: nat| i < k ==> st.in_bounds(#[trigger] st.walk(a, i)) && st.is_bound(st.walk(a, i)),
        match st.deref_within(a, fuel) {
            Ok(d) => d == st.walk(a, k) && st.in_bounds(d) && !st.is_bound(d),
            Err(_) => !st.in_bounds(st.walk(a, k)),
        },
    decreases fuel,
{
    if st.in_bounds(a) && st.is_bound(a) {
        let next = st.target(a);
        let k = lemma_deref_within_reaches(st, next, (fuel - 1) as nat);
        assert forall|i: nat| i < k + 1 implies st.in_bounds(#[trigger] st.walk(a, i))
            && st.is_bound(st.walk(a, i)) by {
            if i > 0 {
                assert(st.walk(a, i) == st.walk(next, (i - 1) as nat));
            }
        }
        k + 1
    } else {
        0
    }
}

/// A walk of `m` references and then `n` more is a walk of `m + n`.
pub proof fn lemma_walk_on(st: Store, a: Addr, m: nat, n: nat)
    ensures
        st.walk(st.walk(a, m), n) == st.walk(a, m + n),
    decreases m,
{
    if m > 0 {
        lemma_walk_on(st, st.target(a), (m - 1) as nat, n);
    }
}

/// A walk is given up exactly when it has met nothing but bound variables.
pub proof fn lemma_given_up(st: Store, a: Addr, fuel: nat)
    ensures
        st.deref_within(a, fuel) == Err::<Addr, MachineError>(MachineError::CyclicReference)
            <==> st.bound_along(a, fuel),
    decreases fuel,
{
    assert(st.walk(a, 0) == a);
    if st.in_bounds(a) && st.is_bound(a) && fuel > 0 {
        let next = st.target(a);
        let less = (fuel - 1) as nat;
        lemma_given_up(st, next, less);
        if st.bound_along(a, fuel) {
            assert forall|i: nat| i <= less implies st.in_bounds(#[trigger] st.walk(next, i))
                && st.is_bound(st.walk(next, i)) by {
                assert(st.walk(a, i + 1) == st.walk(next, i));
            }
        }
        if st.bound_along(next, less) {
            assert forall|i: nat| i <= fuel implies st.in_bounds(#[trigger] st.walk(a, i))
                && st.is_bound(st.walk(a, i)) by {
                if i > 0 {
                    assert(st.walk(a, i) == st.walk(next, (i - 1) as nat));
                }
            }
        }
    }
}

/// A walk that ends within `fuel` steps, or leaves the store within them,
/// comes to the same with more.
pub proof fn lemma_walk_is_settled(st: Store, a: Addr, fuel: nat, more: nat)
    requires
        st.deref_within(a, fuel) != Err::<Addr, MachineError>(MachineError::CyclicReference),
        more >= fuel,
    ensures
        st.deref_within(a, more) == st.deref_within(a, fuel),
    decreases fuel,
{
    if st.in_bounds(a) && st.is_bound(a) {
        lemma_walk_is_settled(st, st.target(a), (fuel - 1) as nat, (more - 1) as nat);
    }
}

/// A walk over more bound variables than the store has cells comes by one
/// of them twice.
pub proof fn lemma_walk_repeats(st: Store, a: Addr) -> (at: (nat, nat))
    requires
        st.bound_along(a, st.size()),
    ensures
        at.0 < at.1 <= st.size(),
        st.walk(a, at.0) == st.walk(a, at.1),
{
    let n = st.size();
    let numbers = Seq::new(n + 1, |k: int| st.cell_number(st.walk(a, k as nat)));
    assert forall|k: int| 0 <= k <= n implies 0 <= #[trigger] numbers[k] < n by {
        assert(st.in_bounds(st.walk(a, k as nat)));
    }
    if numbers.no_duplicates() {
        numbers.unique_seq_to_set();
        lemma_int_range(0, n as int);
        assert forall|x: int| numbers.to_set().contains(x) implies set_int_range(
            0,
            n as int,
        ).contains(x) by {
            let k = choose|k: int| 0 <= k < numbers.len() && numbers[k] == x;
            assert(0 <= numbers[k] < n);
        }
        lemma_len_subset(numbers.to_set(), set_int_range(0, n as int));
        assert(false);
    }
    let (i, j) = choose|i: int, j: int|
        0 <= i < numbers.len() && 0 <= j < numbers.len() && i != j && numbers[i] == numbers[j];
    assert(st.in_bounds(st.walk(a, i as nat)));
    assert(st.in_bounds(st.walk(a, j as nat)));
    if i < j {
        (i as nat, j as nat)
    } else {
        (j as nat, i as nat)
    }
}

/// A walk that has come by a cell twice meets nothing but bound variables,
/// however far it goes.
pub proof fn lemma_walk_goes_round(st: Store, a: Addr, i: nat, j: nat, k: nat)
    requires
        i < j,
        st.walk(a, i) == st.walk(a, j),
        st.bound_along(a, j),
    ensures
        st.in_bounds(st.walk(a, k)) && st.is_bound(st.walk(a, k)),
    decreases k,
{
    if k > j {
        lemma_walk_on(st, a, j, (k - j) as nat);
        lemma_walk_on(st, a, i, (k - j) as nat);
        lemma_walk_goes_round(st, a, i, j, (i + (k - j)) as nat);
    }
}

/// What dereferencing finds does not depend on the steps it is allowed, once
/// they are as many as the store has cells: where it gave up then, the
/// chain of references goes round for ever.
pub proof fn lemma_deref_is_settled(st: Store, a: Addr, fuel: nat)
    requires
        fuel >= st.size(),
    ensures
        st.deref_within(a, fuel) == st.deref(a),
{
    if st.deref(a) == Err::<Addr, MachineError>(MachineError::CyclicReference) {
        lemma_given_up(st, a, st.size());
        let (i, j) = lemma_walk_repeats(st, a);
        assert forall|k: nat| k <= fuel implies st.in_bounds(#[trigger] st.walk(a, k))
            && st.is_bound(st.walk(a, k)) by {
            assert forall|m: nat| m <= j implies st.in_bounds(#[trigger] st.walk(a, m))
                && st.is_bound(st.walk(a, m)) by {}
            lemma_walk_goes_round(st, a, i, j, k);
        }
        lemma_given_up(st, a, fuel);
    } else {
        lemma_walk_is_settled(st, a, st.size(), fuel);
    }
}

} // verus!
