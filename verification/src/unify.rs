//! Inference variables and the store that unifies them.
//!
//! Every variable belongs to one class of variables that have been linked.
//! A class is unbound at first and can be bound to a value once; from then on
//! every variable of the class stands for that value.

use vstd::prelude::*;
use crate::ty::Atom;

verus! {

/// One inference variable of a unification store.
#[derive(Clone, Copy, Debug, PartialEq, Eq, Hash, Structural)]
pub struct InferVar {
    pub index: usize,
}

impl Atom for InferVar {
    fn same(&self, other: &Self) -> (same: bool) {
        self.index == other.index
    }

    open spec fn hashed(self) -> u64 {
        self.index as u64
    }

    fn hash_atom(&self) -> (code: u64) {
        self.index as u64
    }
}

/// The variable that stands for the class of `var`, where `links[v]` is the
/// variable that `v` was linked to, or `v` itself.
pub open spec fn root_of(links: Seq<usize>, var: int) -> int
    decreases var,
{
    if 0 <= var < links.len() && links[var] < var {
        root_of(links, links[var] as int)
    } else {
        var
    }
}

/// Whether no variable is linked to a later one.
pub open spec fn links_ordered(links: Seq<usize>) -> bool {
    forall|v: int| 0 <= v < links.len() ==> #[trigger] links[v] <= v
}

/// The root of a variable is a variable that is linked to nothing, and it
/// is not later than the variable.
pub proof fn lemma_root_of(links: Seq<usize>, var: int)
    requires
        links_ordered(links),
        0 <= var < links.len(),
    ensures
        0 <= root_of(links, var) <= var,
        links[root_of(links, var)] == root_of(links, var),
        root_of(links, root_of(links, var)) == root_of(links, var),
    decreases var,
{
    if links[var] < var {
        lemma_root_of(links, links[var] as int);
    }
}

/// Linking the root `from` to the earlier root `to` moves the class of
/// `from` to `to` and leaves every other class as it was.
pub proof fn lemma_root_of_linked(links: Seq<usize>, from: int, to: int, var: int)
    requires
        links_ordered(links),
        0 <= to < from < links.len(),
        links[from] == from,
        links[to] == to,
        0 <= var < links.len(),
    ensures
        root_of(links.update(from, to as usize), var) == if root_of(links, var) == from {
            to
        } else {
            root_of(links, var)
        },
    decreases var,
{
    let linked = links.update(from, to as usize);
    if var == from {
        assert(root_of(linked, to) == to);
    } else if links[var] < var {
        lemma_root_of_linked(links, from, to, links[var] as int);
    }
}

/// A store of inference variables, each unbound or bound to a `Value`.
pub struct UnificationTable<Value: Atom> {
    links: Vec<usize>,
    values: Vec<Option<Value>>,
}

impl<Value: Atom> UnificationTable<Value> {
    /// The invariant of the store.
    pub closed spec fn wf(&self) -> bool {
        &&& self.links@.len() == self.values@.len()
        &&& links_ordered(self.links@)
        &&& forall|v: int|
            0 <= v < self.links@.len() && #[trigger] self.links@[v] != v ==> self.values@[v] is None
    }

    /// The number of variables.
    pub closed spec fn len(&self) -> nat {
        self.links@.len()
    }

    /// Whether `var` is a variable of this store.
    pub open spec fn contains(&self, var: InferVar) -> bool {
        var.index < self.len()
    }

    /// The variable that stands for the class of `var`.
    pub closed spec fn root(&self, var: InferVar) -> InferVar {
        InferVar { index: root_of(self.links@, var.index as int) as usize }
    }

    /// The value that the class of `var` is bound to, if it is bound.
    pub closed spec fn value(&self, var: InferVar) -> Option<Value> {
        self.values@[root_of(self.links@, var.index as int)]
    }

    /// Whether every variable of `self` is a variable of `later`, and every
    /// one that is bound in `self` is bound to the same value in `later`: a
    /// variable, once bound, stays bound as it is.
    pub open spec fn keeps_bindings(&self, later: &Self) -> bool {
        &&& self.len() <= later.len()
        &&& forall|var: InferVar|
            self.contains(var) && self.value(var) is Some ==> #[trigger] later.value(var)
                == self.value(var)
    }

    /// Whether `later` has the variables of `self`, in the classes and with
    /// the values that they have in `self`, and one more: `var`, which is
    /// unbound and in a class of its own.
    pub open spec fn grown_by(&self, later: &Self, var: InferVar) -> bool {
        &&& var.index == self.len()
        &&& later.len() == self.len() + 1
        &&& later.root(var) == var
        &&& later.value(var) is None
        &&& forall|other: InferVar|
            self.contains(other) ==> #[trigger] later.root(other) == self.root(other)
        &&& forall|other: InferVar|
            self.contains(other) ==> #[trigger] later.value(other) == self.value(other)
    }

    /// Whether `later` has the variables of `self`, in the classes and with
    /// the values that they have in `self`, and besides them only variables
    /// that are unbound and each in a class of its own.
    pub open spec fn grown_to(&self, later: &Self) -> bool {
        &&& self.len() <= later.len()
        &&& forall|other: InferVar|
            self.contains(other) ==> #[trigger] later.root(other) == self.root(other)
        &&& forall|other: InferVar|
            self.contains(other) ==> #[trigger] later.value(other) == self.value(other)
        &&& forall|fresh: InferVar|
            later.contains(fresh) && !self.contains(fresh) ==> #[trigger] later.root(fresh)
                == fresh
        &&& forall|fresh: InferVar|
            later.contains(fresh) && !self.contains(fresh) ==> #[trigger] later.value(
                fresh,
            ) is None
    }

    /// The root of a variable is a variable of the store, is its own root,
    /// and has the value of its class.
    pub proof fn lemma_root(&self, var: InferVar)
        requires
            self.wf(),
            self.contains(var),
        ensures
            self.contains(self.root(var)),
            self.root(var).index <= var.index,
            self.root(self.root(var)) == self.root(var),
            self.value(self.root(var)) == self.value(var),
    {
        lemma_root_of(self.links@, var.index as int);
    }

    /// The number of variables fits a machine word.
    pub proof fn lemma_len_fits(&self)
        ensures
            self.len() <= usize::MAX,
    {
        assert(self.links@.len() == self.links.len());
    }

    /// A store without variables.
    pub fn new() -> (table: Self)
        ensures
            table.wf(),
            table.len() == 0,
    {
        UnificationTable { links: Vec::new(), values: Vec::new() }
    }

    /// The number of variables.
    pub fn count(&self) -> (count: usize)
        ensures
            count == self.len(),
    {
        self.links.len()
    }

    /// A fresh variable: unbound, and in a class of its own.
    pub fn new_variable(&mut self) -> (var: InferVar)
        requires
            old(self).wf(),
        ensures
            final(self).wf(),
            old(self).grown_by(final(self), var),
            old(self).keeps_bindings(final(self)),
    {
        let index = self.links.len();
        self.links.push(index);
        self.values.push(None);
        proof {
            assert forall|other: InferVar| old(self).contains(other) implies #[trigger] self.root(
                other,
            ) == old(self).root(other) by {
                Self::lemma_pushed(old(self).links@, index, other.index as int);
            }
            assert forall|other: InferVar| old(self).contains(other) implies #[trigger] self.value(
                other,
            ) == old(self).value(other) by {
                Self::lemma_pushed(old(self).links@, index, other.index as int);
                lemma_root_of(old(self).links@, other.index as int);
            }
        }
        InferVar { index }
    }

    /// A variable that is added leaves the root of every other as it was.
    proof fn lemma_pushed(links: Seq<usize>, last: usize, var: int)
        requires
            links_ordered(links),
            0 <= var < links.len(),
        ensures
            root_of(links.push(last), var) == root_of(links, var),
        decreases var,
    {
        if links[var] < var {
            Self::lemma_pushed(links, last, links[var] as int);
        }
    }

    /// The variable that stands for the class of `var`.
    pub fn find(&self, var: InferVar) -> (root: InferVar)
        requires
            self.wf(),
            self.contains(var),
        ensures
            root == self.root(var),
            self.contains(root),
    {
        let mut at = var.index;
        while self.links[at] != at
            invariant
                self.wf(),
                at < self.links@.len(),
                root_of(self.links@, at as int) == root_of(self.links@, var.index as int),
            decreases at,
        {
            at = self.links[at];
        }
        InferVar { index: at }
    }

    /// The value that the class of `var` is bound to, if it is bound.
    pub fn probe(&self, var: InferVar) -> (value: Option<Value>)
        requires
            self.wf(),
            self.contains(var),
        ensures
            value == self.value(var),
    {
        let root = self.find(var);
        proof {
            lemma_root_of(self.links@, var.index as int);
        }
        self.values[root.index]
    }

    /// Whether the class of `var` is bound.
    pub fn var_is_known(&self, var: InferVar) -> (known: bool)
        requires
            self.wf(),
            self.contains(var),
        ensures
            known == self.value(var).is_some(),
    {
        self.probe(var).is_some()
    }

    /// Binds the class of `var` to `value`. A class that is bound already
    /// stays as it is: binding it again to the value that it has is accepted,
    /// and binding it to another is refused with the value that it has.
    pub fn bind(&mut self, var: InferVar, value: Value) -> (result: Result<(), Value>)
        requires
            old(self).wf(),
            old(self).contains(var),
        ensures
            final(self).wf(),
            final(self).len() == old(self).len(),
            old(self).keeps_bindings(final(self)),
            forall|other: InferVar|
                old(self).contains(other) ==> #[trigger] final(self).root(other) == old(
                    self,
                ).root(other),
            forall|other: InferVar|
                old(self).contains(other) ==> #[trigger] final(self).value(other) == (if old(
                    self,
                ).value(var) is None && old(self).root(other) == old(self).root(var) {
                    Some(value)
                } else {
                    old(self).value(other)
                }),
            result == (match old(self).value(var) {
                Some(bound) if bound != value => Err::<(), Value>(bound),
                _ => Ok(()),
            }),
    {
        let root = self.find(var);
        proof {
            lemma_root_of(self.links@, var.index as int);
        }
        match self.values[root.index] {
            Some(bound) => {
                if bound.same(&value) {
                    Ok(())
                } else {
                    Err(bound)
                }
            },
            None => {
                self.values.set(root.index, Some(value));
                proof {
                    assert forall|other: InferVar| old(self).contains(other) implies (
                    #[trigger] self.value(other)) == (if old(self).root(other) == old(self).root(
                        var,
                    ) {
                        Some(value)
                    } else {
                        old(self).value(other)
                    }) by {
                        lemma_root_of(self.links@, other.index as int);
                    }
                    assert forall|other: InferVar|
                        old(self).contains(other) && old(self).value(
                            other,
                        ) is Some implies #[trigger] self.value(other) == old(self).value(
                        other,
                    ) by {
                        lemma_root_of(self.links@, other.index as int);
                    }
                }
                Ok(())
            },
        }
    }

    /// Whether `var` is in the class of `a` or in the class of `b`.
    pub open spec fn in_either(&self, a: InferVar, b: InferVar, var: InferVar) -> bool {
        self.root(var) == self.root(a) || self.root(var) == self.root(b)
    }

    /// Whether `union(a, b)` joins the classes of `a` and `b`: they are two
    /// classes, and at least one of them is unbound.
    pub open spec fn joins(&self, a: InferVar, b: InferVar) -> bool {
        self.root(a) != self.root(b) && (self.value(a) is None || self.value(b) is None)
    }

    /// The root that stops standing for an unbound class when `a` and `b`
    /// are joined: the root of the unbound one, or, of two unbound classes,
    /// the later root, which is linked to the earlier.
    pub open spec fn resolved_by_join(&self, a: InferVar, b: InferVar) -> InferVar {
        if self.value(a) is Some {
            self.root(b)
        } else if self.value(b) is Some {
            self.root(a)
        } else if self.root(a).index < self.root(b).index {
            self.root(b)
        } else {
            self.root(a)
        }
    }

    /// Joins the class of `a` and the class of `b`, where at least one of
    /// them is unbound: the earlier of the two roots stands for the joined
    /// class, which is bound if one of the two was. The result is then the
    /// root that no longer stands for an unbound class. Where both classes
    /// are bound, or `a` and `b` are in one class already, nothing changes;
    /// two bound classes whose values differ are refused with both values.
    pub fn union(&mut self, a: InferVar, b: InferVar) -> (result: Result<
        Option<InferVar>,
        (Value, Value),
    >)
        requires
            old(self).wf(),
            old(self).contains(a),
            old(self).contains(b),
        ensures
            final(self).wf(),
            final(self).len() == old(self).len(),
            old(self).keeps_bindings(final(self)),
            forall|var: InferVar|
                old(self).contains(var) ==> #[trigger] final(self).root(var) == (if old(
                    self,
                ).joins(a, b) && old(self).in_either(a, b, var) {
                    if old(self).root(a).index < old(self).root(b).index {
                        old(self).root(a)
                    } else {
                        old(self).root(b)
                    }
                } else {
                    old(self).root(var)
                }),
            forall|var: InferVar|
                old(self).contains(var) ==> #[trigger] final(self).value(var) == (if old(
                    self,
                ).joins(a, b) && old(self).in_either(a, b, var) {
                    if old(self).value(a) is Some {
                        old(self).value(a)
                    } else {
                        old(self).value(b)
                    }
                } else {
                    old(self).value(var)
                }),
            result == (if old(self).joins(a, b) {
                Ok::<Option<InferVar>, (Value, Value)>(Some(old(self).resolved_by_join(a, b)))
            } else if old(self).root(a) != old(self).root(b) && old(self).value(a) != old(
                self,
            ).value(b) {
                Err((old(self).value(a).unwrap(), old(self).value(b).unwrap()))
            } else {
                Ok(None)
            }),
    {
        let root_a = self.find(a);
        let root_b = self.find(b);
        proof {
            lemma_root_of(self.links@, a.index as int);
            lemma_root_of(self.links@, b.index as int);
        }
        if root_a.index == root_b.index {
            return Ok(None);
        }
        let value_a = self.values[root_a.index];
        let value_b = self.values[root_b.index];
        match (value_a, value_b) {
            (Some(x), Some(y)) => {
                if x.same(&y) {
                    Ok(None)
                } else {
                    Err((x, y))
                }
            },
            _ => {
                let (to, from) = if root_a.index < root_b.index {
                    (root_a.index, root_b.index)
                } else {
                    (root_b.index, root_a.index)
                };
                let joined = match value_a {
                    Some(x) => Some(x),
                    None => value_b,
                };
                let resolved = if value_a.is_some() {
                    root_b
                } else if value_b.is_some() {
                    root_a
                } else {
                    InferVar { index: from }
                };
                self.links.set(from, to);
                self.values.set(from, None);
                self.values.set(to, joined);
                proof {
                    assert forall|var: InferVar| old(self).contains(var) implies (
                    #[trigger] self.root(var)) == (if old(self).in_either(a, b, var) {
                        InferVar { index: to }
                    } else {
                        old(self).root(var)
                    }) by {
                        lemma_root_of_linked(
                            old(self).links@,
                            from as int,
                            to as int,
                            var.index as int,
                        );
                        lemma_root_of(old(self).links@, var.index as int);
                    }
                    assert forall|var: InferVar| old(self).contains(var) implies (
                    #[trigger] self.value(var)) == (if old(self).in_either(a, b, var) {
                        joined
                    } else {
                        old(self).value(var)
                    }) by {
                        lemma_root_of_linked(
                            old(self).links@,
                            from as int,
                            to as int,
                            var.index as int,
                        );
                        lemma_root_of(old(self).links@, var.index as int);
                    }
                    assert forall|var: InferVar|
                        old(self).contains(var) && old(self).value(
                            var,
                        ) is Some implies #[trigger] self.value(var) == old(self).value(var) by {
                        lemma_root_of(old(self).links@, var.index as int);
                    }
                }
                Ok(Some(resolved))
            },
        }
    }
}

} // verus!
