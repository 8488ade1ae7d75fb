//! Operations that wait for inference variables to be resolved.
//!
//! A deferred operation is stored once, in an arena, and its index is put on
//! the wait list of every variable that it waits for. Whichever of those
//! variables is resolved first takes the operation out of the arena; on the
//! other wait lists its index then finds nothing.

use vstd::prelude::*;
use generational_arena::{Arena, Index};
use crate::entity::Span;
use crate::ty::Ty;
use crate::type_check::full_inference::{Base, FullInference};
use crate::unify::InferVar;

verus! {

/// A point in the control flow of the body that is being checked.
#[derive(Clone, Copy, Debug, PartialEq, Eq, Hash, Structural)]
pub enum HirLocation {
    /// Where the body starts.
    Start,
    /// Just before the node is evaluated.
    BeforeNode(usize),
    /// Just after the node has been evaluated.
    AfterNode(usize),
    /// Where the body returns.
    Return,
    /// No point of the body: an error is being recovered from.
    Error,
}

/// Says that the result of an operation is to be equated with `var`, on
/// behalf of `cause` and at `location`.
#[derive(Clone, Copy)]
pub struct EquateWith {
    pub cause: Span,
    pub location: HirLocation,
    pub var: Ty<FullInference>,
}

/// An operation that waits until the values it needs are known.
pub struct DeferredOp {
    /// The bases that it was waiting for when it was enqueued.
    pub values: Vec<Base>,
    /// Which continuation is to be run: a handle chosen by whoever enqueued
    /// the operation.
    pub op: usize,
    /// What the result of the continuation is to be equated with, if with
    /// anything.
    pub equate: Option<EquateWith>,
}

/// Where a deferred operation is stored. An index is given out once: that
/// of an operation which has left the store never finds another.
#[derive(Clone, Copy, Debug, PartialEq, Eq, Hash, Structural)]
pub struct OpIndex {
    pub slot: usize,
    pub generation: u64,
}

#[verifier::external_type_specification]
#[verifier::external_body]
#[verifier::reject_recursive_types(T)]
pub struct ExArena<T>(Arena<T>);

/// The operations that an arena holds, each under its index.
pub uninterp spec fn arena_ops(arena: Arena<DeferredOp>) -> Map<OpIndex, DeferredOp>;

/// The generation of an arena: the number that it gives to the indices it
/// hands out.
pub uninterp spec fn arena_generation(arena: Arena<DeferredOp>) -> u64;

/// `Arena::new`: an arena that holds nothing, at generation 0.
#[verifier::external_body]
fn arena_new() -> (result: Arena<DeferredOp>)
    ensures
        arena_ops(result).dom() == Set::<OpIndex>::empty(),
        arena_generation(result) == 0,
{
    Arena::new()
}

/// `Arena::insert`: stores `op` in a free slot, under an index that carries
/// the arena's generation and under which the arena held nothing. The
/// generation stays.
#[verifier::external_body]
fn arena_insert(arena: &mut Arena<DeferredOp>, op: DeferredOp) -> (index: OpIndex)
    ensures
        index.generation == arena_generation(*old(arena)),
        !arena_ops(*old(arena)).dom().contains(index),
        arena_ops(*final(arena)) == arena_ops(*old(arena)).insert(index, op),
        arena_generation(*final(arena)) == arena_generation(*old(arena)),
{
    let (slot, generation) = arena.insert(op).into_raw_parts();
    OpIndex { slot, generation }
}

/// `Arena::remove`: takes out what is stored under `index`, if anything is,
/// and then moves on to the next generation. The arena adds 1 to its
/// generation when it takes something out, so the generation must not be the
/// largest then.
#[verifier::external_body]
fn arena_remove(arena: &mut Arena<DeferredOp>, index: OpIndex) -> (op: Option<DeferredOp>)
    requires
        arena_ops(*old(arena)).dom().contains(index) ==> arena_generation(*old(arena)) < u64::MAX,
    ensures
        match op {
            Some(op) => {
                &&& arena_ops(*old(arena)).dom().contains(index)
                &&& arena_ops(*old(arena))[index] == op
                &&& arena_ops(*final(arena)) == arena_ops(*old(arena)).remove(index)
                &&& arena_generation(*final(arena)) == arena_generation(*old(arena)) + 1
            },
            None => {
                &&& !arena_ops(*old(arena)).dom().contains(index)
                &&& arena_ops(*final(arena)) == arena_ops(*old(arena))
                &&& arena_generation(*final(arena)) == arena_generation(*old(arena))
            },
        },
{
    arena.remove(Index::from_raw_parts(index.slot, index.generation))
}

/// `Arena::contains`: whether something is stored under `index`.
#[verifier::external_body]
fn arena_contains(arena: &Arena<DeferredOp>, index: OpIndex) -> (held: bool)
    ensures
        held == arena_ops(*arena).dom().contains(index),
{
    arena.contains(Index::from_raw_parts(index.slot, index.generation))
}

/// The operations that the wait list `list` wakes among `pending`, in the
/// order of the list. An operation is woken where its index comes first.
pub open spec fn woken(pending: Map<OpIndex, DeferredOp>, list: Seq<OpIndex>) -> Seq<DeferredOp>
    decreases list.len(),
{
    if list.len() == 0 {
        Seq::empty()
    } else if pending.dom().contains(list.first()) {
        seq![pending[list.first()]] + woken(pending.remove(list.first()), list.drop_first())
    } else {
        woken(pending, list.drop_first())
    }
}

/// The wait lists after `index` has been put on the list of each variable
/// of `vars`, in order.
pub open spec fn blocked_on(waiting: Seq<Seq<OpIndex>>, vars: Seq<InferVar>, index: OpIndex) -> Seq<
    Seq<OpIndex>,
>
    decreases vars.len(),
{
    if vars.len() == 0 {
        waiting
    } else {
        let var = vars.first().index as int;
        blocked_on(waiting.update(var, waiting[var].push(index)), vars.drop_first(), index)
    }
}

/// Putting an index on wait lists leaves the number of lists, and the list
/// of every variable that is not among `vars`, as they were.
pub proof fn lemma_blocked_on(waiting: Seq<Seq<OpIndex>>, vars: Seq<InferVar>, index: OpIndex)
    requires
        forall|i: int| 0 <= i < vars.len() ==> (#[trigger] vars[i]).index < waiting.len(),
    ensures
        blocked_on(waiting, vars, index).len() == waiting.len(),
        forall|var: int|
            0 <= var < waiting.len() && !vars.contains(InferVar { index: var as usize })
                ==> #[trigger] blocked_on(waiting, vars, index)[var] == waiting[var],
    decreases vars.len(),
{
    if vars.len() > 0 {
        let first = vars.first().index as int;
        let next = waiting.update(first, waiting[first].push(index));
        assert forall|i: int| 0 <= i < vars.drop_first().len() implies (
        #[trigger] vars.drop_first()[i]).index < next.len() by {
            assert(vars.drop_first()[i] == vars[i + 1]);
        }
        lemma_blocked_on(next, vars.drop_first(), index);
        assert forall|var: int|
            0 <= var < waiting.len() && !vars.contains(
                InferVar { index: var as usize },
            ) implies #[trigger] blocked_on(waiting, vars, index)[var] == waiting[var] by {
            let as_var = InferVar { index: var as usize };
            assert(vars[0] == vars.first());
            assert(var != first);
            if vars.drop_first().contains(as_var) {
                let at = choose|at: int|
                    0 <= at < vars.drop_first().len() && vars.drop_first()[at] == as_var;
                assert(vars[at + 1] == as_var);
            }
        }
    }
}

/// Whether an operation among `pending` is on the wait list `list`.
pub open spec fn wakes_any(pending: Map<OpIndex, DeferredOp>, list: Seq<OpIndex>) -> bool {
    exists|at: int| 0 <= at < list.len() && pending.dom().contains(#[trigger] list[at])
}

/// The first `count` variables that an operation among `pending` waits for,
/// in ascending order.
pub open spec fn waited_for(
    pending: Map<OpIndex, DeferredOp>,
    waiting: Seq<Seq<OpIndex>>,
    count: nat,
) -> Seq<InferVar>
    decreases count,
{
    if count == 0 {
        Seq::empty()
    } else {
        let earlier = waited_for(pending, waiting, (count - 1) as nat);
        if wakes_any(pending, waiting[count - 1]) {
            earlier.push(InferVar { index: (count - 1) as usize })
        } else {
            earlier
        }
    }
}

/// The indices of the operations that the wait list `list` wakes among
/// `pending`, in the order of the list.
pub open spec fn woken_indices(pending: Map<OpIndex, DeferredOp>, list: Seq<OpIndex>) -> Seq<
    OpIndex,
>
    decreases list.len(),
{
    if list.len() == 0 {
        Seq::empty()
    } else if pending.dom().contains(list.first()) {
        seq![list.first()] + woken_indices(pending.remove(list.first()), list.drop_first())
    } else {
        woken_indices(pending, list.drop_first())
    }
}

/// A wait list wakes each operation that is on it and is waiting, and no
/// other; it wakes none of them twice, however often its index is on the
/// list; and what it hands out are the operations stored under the indices
/// that it wakes.
pub proof fn law_woken_exactly_once(pending: Map<OpIndex, DeferredOp>, list: Seq<OpIndex>)
    ensures
        woken_indices(pending, list).no_duplicates(),
        woken_indices(pending, list).to_set() == list.to_set().intersect(pending.dom()),
        woken(pending, list).len() == woken_indices(pending, list).len(),
        forall|at: int|
            0 <= at < woken_indices(pending, list).len() ==> #[trigger] woken(pending, list)[at]
                == pending[woken_indices(pending, list)[at]],
    decreases list.len(),
{
    let indices = woken_indices(pending, list);
    if list.len() == 0 {
        assert(indices.to_set() =~= list.to_set().intersect(pending.dom()));
    } else {
        let first = list.first();
        let rest = list.drop_first();
        assert forall|x: OpIndex| list.to_set().contains(x) <==> (x == first || rest.to_set().contains(
            x,
        )) by {
            if list.to_set().contains(x) {
                let at = choose|at: int| 0 <= at < list.len() && list[at] == x;
                if at > 0 {
                    assert(rest[at - 1] == x);
                    assert(rest.contains(x));
                }
            }
            if x == first {
                assert(list[0] == x);
                assert(list.contains(x));
            }
            if rest.to_set().contains(x) {
                let at = choose|at: int| 0 <= at < rest.len() && rest[at] == x;
                assert(list[at + 1] == x);
                assert(list.contains(x));
            }
        }
        if pending.dom().contains(first) {
            let left = pending.remove(first);
            let later = woken_indices(left, rest);
            law_woken_exactly_once(left, rest);
            assert(!later.to_set().contains(first));
            assert(!later.contains(first));
            assert forall|i: int, j: int|
                0 <= i < indices.len() && 0 <= j < indices.len() && i != j implies indices[i]
                != indices[j] by {
                if i > 0 {
                    assert(later.contains(later[i - 1]));
                }
                if j > 0 {
                    assert(later.contains(later[j - 1]));
                }
            }
            assert forall|x: OpIndex| indices.to_set().contains(x) <==> list.to_set().intersect(
                pending.dom(),
            ).contains(x) by {
                if indices.to_set().contains(x) {
                    let at = choose|at: int| 0 <= at < indices.len() && indices[at] == x;
                    if at > 0 {
                        assert(later[at - 1] == x);
                        assert(later.contains(x));
                        assert(later.to_set().contains(x));
                    }
                }
                if list.to_set().intersect(pending.dom()).contains(x) {
                    if x == first {
                        assert(indices[0] == x);
                        assert(indices.contains(x));
                    } else {
                        assert(later.to_set().contains(x));
                        let at = choose|at: int| 0 <= at < later.len() && later[at] == x;
                        assert(indices[at + 1] == x);
                        assert(indices.contains(x));
                    }
                }
            }
            assert(indices.to_set() =~= list.to_set().intersect(pending.dom()));
            assert forall|at: int| 0 <= at < indices.len() implies #[trigger] woken(pending, list)[at]
                == pending[indices[at]] by {
                if at > 0 {
                    assert(woken(pending, list)[at] == woken(left, rest)[at - 1]);
                    assert(later.contains(later[at - 1]));
                }
            }
        } else {
            law_woken_exactly_once(pending, rest);
            assert(indices.to_set() =~= list.to_set().intersect(pending.dom()));
        }
    }
}

/// An operation that one wait list has woken is woken by no other: what
/// `second` wakes after `first` was on none of the indices of `first`.
pub proof fn law_woken_by_first_only(
    pending: Map<OpIndex, DeferredOp>,
    first: Seq<OpIndex>,
    second: Seq<OpIndex>,
)
    ensures
        woken_indices(pending.remove_keys(first.to_set()), second).to_set().disjoint(
            first.to_set(),
        ),
{
    law_woken_exactly_once(pending.remove_keys(first.to_set()), second);
}

/// A wait list wakes nothing among operations that it has woken before.
pub proof fn law_woken_once(pending: Map<OpIndex, DeferredOp>, list: Seq<OpIndex>)
    ensures
        woken(pending.remove_keys(list.to_set()), list) == Seq::<DeferredOp>::empty(),
        !wakes_any(pending.remove_keys(list.to_set()), list),
{
    let left = pending.remove_keys(list.to_set());
    assert forall|at: int| 0 <= at < list.len() implies !left.dom().contains(
        #[trigger] list[at],
    ) by {
        assert(list.to_set().contains(list[at])) by {
            assert(list.contains(list[at]));
        }
    }
    lemma_woken_none(left, list);
}

/// A wait list wakes nothing where none of its indices is among `pending`.
pub proof fn lemma_woken_none(pending: Map<OpIndex, DeferredOp>, list: Seq<OpIndex>)
    requires
        !wakes_any(pending, list),
    ensures
        woken(pending, list) == Seq::<DeferredOp>::empty(),
    decreases list.len(),
{
    if list.len() > 0 {
        assert(!pending.dom().contains(list[0]));
        assert forall|at: int| 0 <= at < list.drop_first().len() implies !pending.dom().contains(
            #[trigger] list.drop_first()[at],
        ) by {
            assert(list.drop_first()[at] == list[at + 1]);
        }
        lemma_woken_none(pending, list.drop_first());
    }
}

/// The store of deferred operations, and the wait list of each inference
/// variable.
pub struct Scheduler {
    arena: Arena<DeferredOp>,
    blocked: Vec<Vec<OpIndex>>,
    enqueued: u64,
}

impl Scheduler {
    /// The operations that are waiting, each under its index.
    pub closed spec fn pending(&self) -> Map<OpIndex, DeferredOp> {
        arena_ops(self.arena)
    }

    /// The wait list of each variable. An index on a list that is not among
    /// `pending` belongs to an operation that has been woken already.
    pub closed spec fn waiting(&self) -> Seq<Seq<OpIndex>> {
        Seq::new(self.blocked@.len(), |var: int| self.blocked@[var]@)
    }

    /// The number of operations that have been woken so far.
    pub closed spec fn retired(&self) -> nat {
        arena_generation(self.arena) as nat
    }

    /// The number of operations that have been enqueued so far.
    pub closed spec fn enqueued(&self) -> nat {
        self.enqueued as nat
    }

    /// Whether one more operation can be enqueued: fewer have been than a
    /// counter of 64 bits can count.
    pub open spec fn has_room(&self) -> bool {
        self.enqueued() < u64::MAX
    }

    /// The invariant of the scheduler: every operation that was enqueued is
    /// waiting or has been woken, and an index on a wait list is that of a
    /// waiting operation, or one that will never be given out again.
    pub closed spec fn wf(&self) -> bool {
        &&& arena_ops(self.arena).dom().finite()
        &&& arena_generation(self.arena) + arena_ops(self.arena).dom().len() == self.enqueued
        &&& self.lists_wf()
    }

    /// Whether an index on a wait list is that of a waiting operation, or
    /// one that will never be given out again.
    pub closed spec fn lists_wf(&self) -> bool {
        forall|var: int, at: int|
            0 <= var < self.blocked@.len() && 0 <= at < self.blocked@[var]@.len() ==> {
                let index = #[trigger] self.blocked@[var]@[at];
                index.generation <= arena_generation(self.arena) && (arena_ops(
                    self.arena,
                ).dom().contains(index) || index.generation < arena_generation(self.arena))
            }
    }

    /// Whether `index` is on the wait list of some variable.
    pub open spec fn is_listed(&self, index: OpIndex) -> bool {
        exists|var: int, at: int|
            0 <= var < self.waiting().len() && 0 <= at < self.waiting()[var].len()
                && #[trigger] self.waiting()[var][at] == index
    }

    /// A scheduler without variables or operations.
    pub fn new() -> (scheduler: Self)
        ensures
            scheduler.wf(),
            scheduler.pending() =~= Map::empty(),
            scheduler.waiting() =~= Seq::empty(),
            scheduler.retired() == 0,
            scheduler.enqueued() == 0,
    {
        Scheduler { arena: arena_new(), blocked: Vec::new(), enqueued: 0 }
    }

    /// Whether one more operation can be enqueued.
    pub fn room_left(&self) -> (room: bool)
        ensures
            room == self.has_room(),
    {
        self.enqueued < u64::MAX
    }

    /// The number of variables that have a wait list.
    pub fn variables(&self) -> (count: usize)
        ensures
            count == self.waiting().len(),
    {
        self.blocked.len()
    }

    /// Gives the next variable its wait list, which is empty.
    pub fn add_variable(&mut self)
        requires
            old(self).wf(),
        ensures
            final(self).wf(),
            final(self).pending() == old(self).pending(),
            final(self).retired() == old(self).retired(),
            final(self).enqueued() == old(self).enqueued(),
            final(self).waiting() == old(self).waiting().push(Seq::empty()),
    {
        self.blocked.push(Vec::new());
        assert(self.waiting() =~= old(self).waiting().push(Seq::empty()));
    }

    /// Stores `op` and puts it on the wait list of each variable of `vars`.
    /// The index under which it is stored has not been used before.
    pub fn enqueue(&mut self, vars: &Vec<InferVar>, op: DeferredOp) -> (index: OpIndex)
        requires
            old(self).wf(),
            old(self).has_room(),
            forall|i: int| 0 <= i < vars@.len() ==> vars@[i].index < old(self).waiting().len(),
        ensures
            final(self).wf(),
            !old(self).pending().dom().contains(index),
            !old(self).is_listed(index),
            final(self).pending() == old(self).pending().insert(index, op),
            final(self).retired() == old(self).retired(),
            final(self).enqueued() == old(self).enqueued() + 1,
            final(self).waiting() == blocked_on(old(self).waiting(), vars@, index),
    {
        let index = arena_insert(&mut self.arena, op);
        self.enqueued = self.enqueued + 1;
        let ghost stored = self.arena;
        assert(!old(self).is_listed(index));
        assert(self.waiting() =~= old(self).waiting());
        assert(vars@.subrange(0, vars@.len() as int) =~= vars@);
        let mut i: usize = 0;
        while i < vars.len()
            invariant
                i <= vars@.len(),
                self.wf(),
                self.arena == stored,
                self.enqueued == old(self).enqueued + 1,
                arena_ops(stored).dom().contains(index),
                index.generation == arena_generation(stored),
                self.blocked@.len() == old(self).blocked@.len(),
                forall|k: int| 0 <= k < vars@.len() ==> vars@[k].index < self.blocked@.len(),
                blocked_on(self.waiting(), vars@.subrange(i as int, vars@.len() as int), index)
                    == blocked_on(old(self).waiting(), vars@, index),
            decreases vars@.len() - i,
        {
            let ghost before = self.waiting();
            let ghost lists = self.blocked@;
            let ghost rest = vars@.subrange(i as int, vars@.len() as int);
            let var = vars[i].index;
            self.blocked[var].push(index);
            proof {
                assert(rest.first() == vars@[i as int]);
                assert(rest.drop_first() =~= vars@.subrange(i + 1, vars@.len() as int));
                assert(self.waiting() =~= before.update(var as int, before[var as int].push(index)));
                assert forall|v: int, at: int|
                    0 <= v < self.blocked@.len() && 0 <= at < self.blocked@[v]@.len() implies {
                    let listed = #[trigger] self.blocked@[v]@[at];
                    listed.generation <= arena_generation(self.arena) && (arena_ops(
                        self.arena,
                    ).dom().contains(listed) || listed.generation < arena_generation(self.arena))
                } by {
                    if v == var && at == lists[v]@.len() {
                    } else {
                        assert(self.blocked@[v]@[at] == lists[v]@[at]);
                    }
                }
            }
            i += 1;
        }
        assert(vars@.subrange(i as int, vars@.len() as int) =~= Seq::<InferVar>::empty());
        index
    }

    /// Wakes the operations that wait for `var`: takes each operation on the
    /// wait list of `var` out of the store, unless another variable has woken
    /// it already, and hands the operations out in the order of the list.
    /// The wait list is empty afterwards.
    pub fn trigger(&mut self, var: InferVar) -> (ops: Vec<DeferredOp>)
        requires
            old(self).wf(),
            var.index < old(self).waiting().len(),
        ensures
            final(self).wf(),
            ops@ == woken(old(self).pending(), old(self).waiting()[var.index as int]),
            final(self).pending() == old(self).pending().remove_keys(
                old(self).waiting()[var.index as int].to_set(),
            ),
            final(self).waiting() == old(self).waiting().update(var.index as int, Seq::empty()),
            final(self).retired() == old(self).retired() + ops@.len(),
            final(self).enqueued() == old(self).enqueued(),
    {
        let mut list: Vec<OpIndex> = Vec::new();
        std::mem::swap(&mut list, &mut self.blocked[var.index]);
        let ghost lists = self.blocked@;
        proof {
            assert(self.waiting() =~= old(self).waiting().update(var.index as int, Seq::empty()));
            assert(list@ == old(self).waiting()[var.index as int]);
            assert(list@.subrange(0, list@.len() as int) =~= list@);
            assert(list@.subrange(0, 0).to_set() =~= Set::<OpIndex>::empty());
            assert(old(self).pending().remove_keys(Set::<OpIndex>::empty()) =~= old(
                self,
            ).pending());
            assert forall|v: int, at: int|
                0 <= v < self.blocked@.len() && 0 <= at < self.blocked@[v]@.len() implies {
                let listed = #[trigger] self.blocked@[v]@[at];
                listed.generation <= arena_generation(self.arena) && (arena_ops(
                    self.arena,
                ).dom().contains(listed) || listed.generation < arena_generation(self.arena))
            } by {
                assert(self.blocked@[v]@[at] == old(self).blocked@[v]@[at]);
            }
        }
        let mut ops: Vec<DeferredOp> = Vec::new();
        let mut i: usize = 0;
        while i < list.len()
            invariant
                i <= list@.len(),
                self.wf(),
                self.blocked@ == lists,
                self.enqueued == old(self).enqueued,
                arena_generation(self.arena) == arena_generation(old(self).arena) + ops@.len(),
                arena_ops(self.arena) == arena_ops(old(self).arena).remove_keys(
                    list@.subrange(0, i as int).to_set(),
                ),
                ops@ + woken(arena_ops(self.arena), list@.subrange(i as int, list@.len() as int))
                    == woken(arena_ops(old(self).arena), list@),
            decreases list@.len() - i,
        {
            let ghost before = arena_ops(self.arena);
            let ghost rest = list@.subrange(i as int, list@.len() as int);
            let ghost done = ops@;
            let index = list[i];
            let taken = arena_remove(&mut self.arena, index);
            proof {
                assert(rest.first() == index);
                assert(rest.drop_first() =~= list@.subrange(i + 1, list@.len() as int));
                assert(list@.subrange(0, i + 1).to_set() =~= list@.subrange(
                    0,
                    i as int,
                ).to_set().insert(index)) by {
                    let shorter = list@.subrange(0, i as int);
                    let longer = list@.subrange(0, i + 1);
                    assert(longer =~= shorter.push(index));
                    assert forall|x: OpIndex| longer.to_set().contains(x) implies shorter.to_set().insert(
                        index,
                    ).contains(x) by {
                        let at = choose|at: int| 0 <= at < longer.len() && longer[at] == x;
                        if at < i {
                            assert(shorter[at] == x);
                            assert(shorter.contains(x));
                        }
                    }
                    assert forall|x: OpIndex| shorter.to_set().insert(index).contains(
                        x,
                    ) implies longer.to_set().contains(x) by {
                        if x == index {
                            assert(longer[i as int] == x);
                        } else {
                            let at = choose|at: int| 0 <= at < shorter.len() && shorter[at] == x;
                            assert(longer[at] == x);
                        }
                    }
                }
                assert(arena_ops(self.arena) =~= arena_ops(old(self).arena).remove_keys(
                    list@.subrange(0, i + 1).to_set(),
                ));
            }
            match taken {
                Some(op) => {
                    ops.push(op);
                    proof {
                        assert(ops@ + woken(arena_ops(self.arena), rest.drop_first()) =~= done
                            + woken(before, rest));
                    }
                },
                None => {},
            }
            i += 1;
        }
        proof {
            assert(list@.subrange(i as int, list@.len() as int) =~= Seq::<OpIndex>::empty());
            assert(ops@ + Seq::<DeferredOp>::empty() =~= ops@);
        }
        ops
    }

    /// Adds to `output`, in ascending order, each variable that an operation
    /// is still waiting for.
    pub fn untriggered(&self, output: &mut Vec<InferVar>)
        requires
            self.wf(),
        ensures
            final(output)@ == old(output)@ + waited_for(
                self.pending(),
                self.waiting(),
                self.waiting().len(),
            ),
    {
        let mut var: usize = 0;
        while var < self.blocked.len()
            invariant
                var <= self.blocked@.len(),
                output@ == old(output)@ + waited_for(self.pending(), self.waiting(), var as nat),
            decreases self.blocked@.len() - var,
        {
            let list = &self.blocked[var];
            let mut at: usize = 0;
            let mut found = false;
            while at < list.len() && !found
                invariant
                    at <= list@.len(),
                    list@ == self.waiting()[var as int],
                    found ==> wakes_any(self.pending(), list@),
                    !found ==> forall|k: int|
                        0 <= k < at ==> !self.pending().dom().contains(#[trigger] list@[k]),
                decreases list@.len() - at + (if found { 0int } else { 1int }),
            {
                if arena_contains(&self.arena, list[at]) {
                    found = true;
                } else {
                    at += 1;
                }
            }
            if found {
                output.push(InferVar { index: var });
            }
            proof {
                let earlier = waited_for(self.pending(), self.waiting(), var as nat);
                if found {
                    assert(output@ =~= old(output)@ + earlier.push(InferVar { index: var }));
                }
            }
            var += 1;
        }
    }
}

} // verus!
