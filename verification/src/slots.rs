//! Classes of type slots that are known to have the same type.
use vstd::prelude::*;

verus! {

/// What is known of the slots: the representative of the class of each slot, and the type of each
/// class, which stands at its representative.
#[verifier::ext_equal]
pub struct Store<T> {
    pub roots: Seq<int>,
    pub values: Seq<Option<T>>,
}

impl<T> Store<T> {
    pub open spec fn empty() -> Self {
        Store { roots: Seq::empty(), values: Seq::empty() }
    }

    pub open spec fn len(self) -> int {
        self.roots.len() as int
    }

    /// A slot.
    pub open spec fn has(self, id: int) -> bool {
        0 <= id < self.len()
    }

    /// Each slot has a representative, which represents itself.
    pub open spec fn wf(self) -> bool {
        &&& self.roots.len() == self.values.len()
        &&& forall|i: int| #[trigger]
            self.has(i) ==> self.has(self.roots[i]) && self.roots[self.roots[i]] == self.roots[i]
    }

    /// The type of a slot, where it is known.
    pub open spec fn value_of(self, id: int) -> Option<T> {
        self.values[self.roots[id]]
    }

    pub open spec fn same(self, a: int, b: int) -> bool {
        self.roots[a] == self.roots[b]
    }

    /// One more slot, in a class of its own.
    pub open spec fn with(self, value: Option<T>) -> Self {
        Store { roots: self.roots.push(self.len()), values: self.values.push(value) }
    }

    /// The class of the representative `child` joins that of the representative `parent`.
    pub open spec fn linked(self, child: int, parent: int) -> Self {
        Store {
            roots: self.roots.map_values(
                |root: int|
                    if root == child {
                        parent
                    } else {
                        root
                    },
            ),
            values: self.values,
        }
    }

    /// The class of the representative `root` has the type `value`.
    pub open spec fn assigned(self, root: int, value: T) -> Self {
        Store { roots: self.roots, values: self.values.update(root, Some(value)) }
    }
}

/// The view of a type that may be unknown.
pub open spec fn optional<T: View>(value: Option<T>) -> Option<T::V> {
    match value {
        Some(value) => Some(value@),
        None => None,
    }
}

/// The views of the types of a list of slots.
pub open spec fn value_views<T: View>(slots: Seq<TypeSlot<T>>) -> Seq<Option<T::V>> {
    slots.map_values(|slot: TypeSlot<T>| optional(slot.value))
}

/// A list of slots.
pub open spec fn id_views(ids: Seq<usize>) -> Seq<int> {
    ids.map_values(|id: usize| id as int)
}

/// Each slot of the scope is a slot of the store.
pub open spec fn scope_within<T>(scope: Map<Seq<char>, int>, store: Store<T>) -> bool {
    forall|name: Seq<char>| #[trigger] scope.contains_key(name) ==> store.has(scope[name])
}

pub struct TypeSlot<T> {
    pub parent: usize,
    pub value: Option<T>,
}

/// A union-find forest over type slots. Each slot points to its parent; `roots` are the
/// representatives, and `ranks` grow from each slot to its parent.
pub struct Slots<T> {
    slots: Vec<TypeSlot<T>>,
    roots: Ghost<Seq<int>>,
    ranks: Ghost<Seq<nat>>,
    top: Ghost<nat>,
}

impl<T: View> View for Slots<T> {
    type V = Store<T::V>;

    closed spec fn view(&self) -> Store<T::V> {
        Store { roots: self.roots@, values: value_views(self.slots@) }
    }
}

impl<T: View> Slots<T> {
    pub open spec fn wf(&self) -> bool {
        &&& self@.wf()
        &&& self.forest()
    }

    /// Each slot points to its parent, and the parents lead to the representative.
    pub closed spec fn forest(&self) -> bool {
        &&& self.roots@.len() == self.slots@.len()
        &&& self.ranks@.len() == self.slots@.len()
        &&& forall|i: int|
            0 <= i < self.slots@.len() ==> {
                let parent = (#[trigger] self.slots@[i]).parent as int;
                &&& parent < self.slots@.len()
                &&& self.roots@[i] == self.roots@[parent]
                &&& (parent == i <==> self.roots@[i] == i)
                &&& parent != i ==> self.ranks@[i] < self.ranks@[parent]
                &&& self.ranks@[i] <= self.top@
            }
    }

    pub fn new() -> (slots: Self)
        ensures
            slots.wf(),
            slots@ == Store::<T::V>::empty(),
    {
        let slots: Slots<T> = Slots {
            slots: Vec::new(),
            roots: Ghost(Seq::empty()),
            ranks: Ghost(Seq::empty()),
            top: Ghost(0),
        };
        assert(slots@ =~= Store::<T::V>::empty());
        slots
    }

    /// The number of slots.
    pub fn len(&self) -> (len: usize)
        requires
            self.wf(),
        ensures
            len == self@.len(),
    {
        self.slots.len()
    }

    /// Adds a slot.
    pub fn add(&mut self, value: Option<T>) -> (id: usize)
        requires
            old(self).wf(),
        ensures
            final(self).wf(),
            id == old(self)@.len(),
            final(self)@ == old(self)@.with(optional(value)),
    {
        let id: usize = self.slots.len();
        let ghost model = optional(value);
        self.slots.push(TypeSlot { parent: id, value });
        proof {
            self.roots@ = self.roots@.push(id as int);
            self.ranks@ = self.ranks@.push(0);
            assert(self@ =~= old(self)@.with(model));
            assert forall|i: int| #[trigger] self@.has(i) implies self@.has(self@.roots[i])
                && self@.roots[self@.roots[i]] == self@.roots[i] by {
                if i < id {
                    assert(old(self)@.has(i));
                }
            }
            assert forall|i: int| 0 <= i < self.slots@.len() implies {
                let parent = (#[trigger] self.slots@[i]).parent as int;
                &&& parent < self.slots@.len()
                &&& self.roots@[i] == self.roots@[parent]
                &&& (parent == i <==> self.roots@[i] == i)
                &&& parent != i ==> self.ranks@[i] < self.ranks@[parent]
                &&& self.ranks@[i] <= self.top@
            } by {
                if i < id {
                    assert(self.slots@[i] == old(self).slots@[i]);
                }
            }
        }
        id
    }

    /// The representative of a slot. The slots on the way are made to point to it.
    pub fn find(&mut self, id: usize) -> (root: usize)
        requires
            old(self).wf(),
            old(self)@.has(id as int),
        ensures
            final(self).wf(),
            final(self)@ == old(self)@,
            root == old(self)@.roots[id as int],
    {
        self.find_root(id)
    }

    fn find_root(&mut self, id: usize) -> (root: usize)
        requires
            old(self).wf(),
            old(self)@.has(id as int),
        ensures
            final(self).wf(),
            final(self)@ == old(self)@,
            final(self).ranks == old(self).ranks,
            final(self).roots == old(self).roots,
            final(self).top == old(self).top,
            final(self).slots@.len() == old(self).slots@.len(),
            root == old(self).roots@[id as int],
            root == id || old(self).ranks@[id as int] < old(self).ranks@[root as int],
        decreases old(self).top@ - old(self).ranks@[id as int],
    {
        let parent: usize = self.slots[id].parent;
        if parent == id {
            return id;
        }
        assert(self@.has(parent as int));
        assert(self.slots@[parent as int].parent < self.slots@.len());
        let ghost before = *self;
        let root: usize = self.find_root(parent);
        let ghost middle = *self;
        assert(self.slots@.len() == before.slots@.len());
        assert(root != id) by {
            assert(before.ranks@[id as int] < before.ranks@[parent as int]);
        }
        let slot = &mut self.slots[id];
        slot.parent = root;
        proof {
            assert(self@ =~= middle@) by {
                assert(value_views(self.slots@) =~= value_views(middle.slots@));
            }
            assert(self@.has(id as int));
            assert forall|i: int| 0 <= i < self.slots@.len() implies {
                let parent = (#[trigger] self.slots@[i]).parent as int;
                &&& parent < self.slots@.len()
                &&& self.roots@[i] == self.roots@[parent]
                &&& (parent == i <==> self.roots@[i] == i)
                &&& parent != i ==> self.ranks@[i] < self.ranks@[parent]
                &&& self.ranks@[i] <= self.top@
            } by {
                assert(middle.slots@[i].parent < middle.slots@.len());
            }
        }
        root
    }

    /// The type at a representative.
    pub fn value(&self, root: usize) -> (value: &Option<T>)
        requires
            self.wf(),
            self@.has(root as int),
        ensures
            optional(*value) == self@.values[root as int],
    {
        &self.slots[root].value
    }

    /// Joins the class of one representative to that of another.
    pub fn link(&mut self, child: usize, parent: usize)
        requires
            old(self).wf(),
            old(self)@.has(child as int),
            old(self)@.has(parent as int),
            child != parent,
            old(self)@.roots[child as int] == child,
            old(self)@.roots[parent as int] == parent,
        ensures
            final(self).wf(),
            final(self)@ == old(self)@.linked(child as int, parent as int),
    {
        let ghost before = *self;
        let slot = &mut self.slots[child];
        slot.parent = parent;
        proof {
            self.roots@ = before@.linked(child as int, parent as int).roots;
            let rank = before.ranks@[child as int] + before.ranks@[parent as int] + 1;
            self.ranks@ = before.ranks@.update(parent as int, rank);
            self.top@ = before.top@ + rank;
            assert(self@ =~= before@.linked(child as int, parent as int)) by {
                assert(value_views(self.slots@) =~= value_views(before.slots@));
            }
            assert forall|i: int| #[trigger] self@.has(i) implies self@.has(self@.roots[i])
                && self@.roots[self@.roots[i]] == self@.roots[i] by {
                assert(before@.has(i));
            }
            assert forall|i: int| 0 <= i < self.slots@.len() implies {
                let up = (#[trigger] self.slots@[i]).parent as int;
                &&& up < self.slots@.len()
                &&& self.roots@[i] == self.roots@[up]
                &&& (up == i <==> self.roots@[i] == i)
                &&& up != i ==> self.ranks@[i] < self.ranks@[up]
                &&& self.ranks@[i] <= self.top@
            } by {
                assert(before.slots@[i].parent < before.slots@.len());
                assert(before@.has(i));
                assert(before.slots@[parent as int].parent == parent);
            }
        }
    }

    /// Gives the class of a representative a type.
    pub fn assign(&mut self, root: usize, value: T)
        requires
            old(self).wf(),
            old(self)@.has(root as int),
        ensures
            final(self).wf(),
            final(self)@ == old(self)@.assigned(root as int, value@),
    {
        let ghost before = *self;
        let slot = &mut self.slots[root];
        slot.value = Some(value);
        proof {
            assert(self@ =~= before@.assigned(root as int, value@));
            assert forall|i: int| #[trigger] self@.has(i) implies self@.has(self@.roots[i])
                && self@.roots[self@.roots[i]] == self@.roots[i] by {
                assert(before@.has(i));
            }
            assert forall|i: int| 0 <= i < self.slots@.len() implies {
                let parent = (#[trigger] self.slots@[i]).parent as int;
                &&& parent < self.slots@.len()
                &&& self.roots@[i] == self.roots@[parent]
                &&& (parent == i <==> self.roots@[i] == i)
                &&& parent != i ==> self.ranks@[i] < self.ranks@[parent]
                &&& self.ranks@[i] <= self.top@
            } by {
                assert(before.slots@[i].parent < before.slots@.len());
            }
        }
    }
}

} // verus!
