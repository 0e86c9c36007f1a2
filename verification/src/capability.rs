//! Capabilities, and sets of them.
use vstd::prelude::*;

use crate::text::texts;

verus! {

/// Something that a platform can let a program do. Capabilities are told apart and ordered by
/// their rank, and shown by their name.
#[derive(Debug, Clone, Copy)]
pub struct Capability {
    pub rank: u32,
    pub name: &'static str,
}

/// The capability of the rank is in the list.
pub open spec fn has_rank(list: Seq<Capability>, rank: u32) -> bool {
    exists|i: int| 0 <= i < list.len() && (#[trigger] list[i]).rank == rank
}

/// The ranks rise, so that no capability occurs twice.
pub open spec fn ascending(list: Seq<Capability>) -> bool {
    forall|i: int, j: int| 0 <= i < j < list.len() ==> (#[trigger] list[i]).rank < (#[trigger]
    list[j]).rank
}

/// The number of capabilities of a rank below the given one that start an ascending list.
pub open spec fn place(list: Seq<Capability>, rank: u32) -> int
    decreases list.len(),
{
    if list.len() == 0 || list.last().rank < rank {
        list.len() as int
    } else {
        place(list.drop_last(), rank)
    }
}

pub proof fn lemma_place(list: Seq<Capability>, rank: u32)
    requires
        ascending(list),
    ensures
        0 <= place(list, rank) <= list.len(),
        forall|i: int| 0 <= i < place(list, rank) ==> (#[trigger] list[i]).rank < rank,
        forall|i: int| place(list, rank) <= i < list.len() ==> (#[trigger] list[i]).rank >= rank,
    decreases list.len(),
{
    if list.len() > 0 && !(list.last().rank < rank) {
        let less = list.drop_last();
        assert(ascending(less)) by {
            assert forall|i: int, j: int| 0 <= i < j < less.len() implies (#[trigger] less[i]).rank < (
            #[trigger] less[j]).rank by {
                assert(less[i] == list[i] && less[j] == list[j]);
            }
        }
        lemma_place(less, rank);
        assert forall|i: int| 0 <= i < place(list, rank) implies (#[trigger] list[i]).rank
            < rank by {
            assert(less[i] == list[i]);
        }
        assert forall|i: int| place(list, rank) <= i < list.len() implies (#[trigger] list[i]).rank
            >= rank by {
            if i < less.len() {
                assert(less[i] == list[i]);
            }
        }
    }
}

/// The list with one capability more, unless it has one of that rank.
pub open spec fn inserted(list: Seq<Capability>, capability: Capability) -> Seq<Capability> {
    if has_rank(list, capability.rank) {
        list
    } else {
        list.insert(place(list, capability.rank), capability)
    }
}

/// The list with the first `n` capabilities of another one added.
pub open spec fn extended(list: Seq<Capability>, more: Seq<Capability>, n: int) -> Seq<Capability>
    decreases n,
{
    if n <= 0 {
        list
    } else {
        inserted(extended(list, more, n - 1), more[n - 1])
    }
}

/// The two lists together.
pub open spec fn union_of(list: Seq<Capability>, more: Seq<Capability>) -> Seq<Capability> {
    extended(list, more, more.len() as int)
}

/// A list of capabilities as a set.
pub open spec fn set_of(list: Seq<Capability>) -> Seq<Capability> {
    union_of(Seq::empty(), list)
}

/// Each capability of the one list is in the other.
pub open spec fn within(list: Seq<Capability>, other: Seq<Capability>) -> bool {
    forall|i: int| 0 <= i < list.len() ==> has_rank(other, (#[trigger] list[i]).rank)
}

/// The names of those of the first `n` capabilities that are not in the other list.
pub open spec fn missing_names(
    list: Seq<Capability>,
    other: Seq<Capability>,
    n: int,
) -> Seq<Seq<char>>
    decreases n,
{
    if n <= 0 {
        Seq::empty()
    } else if has_rank(other, list[n - 1].rank) {
        missing_names(list, other, n - 1)
    } else {
        missing_names(list, other, n - 1).push(list[n - 1].name@)
    }
}

/// A set of capabilities, in the order of their ranks.
pub struct CapabilitySet {
    list: Vec<Capability>,
}

impl View for CapabilitySet {
    type V = Seq<Capability>;

    closed spec fn view(&self) -> Seq<Capability> {
        self.list@
    }
}

/// A set with one capability more has that one, and those it had; its ranks still rise.
pub proof fn law_inserted(list: Seq<Capability>, capability: Capability)
    requires
        ascending(list),
    ensures
        ascending(inserted(list, capability)),
        forall|rank: u32| #[trigger]
            has_rank(inserted(list, capability), rank) <==> has_rank(list, rank) || rank
                == capability.rank,
{
    let after = inserted(list, capability);
    if !has_rank(list, capability.rank) {
        let p = place(list, capability.rank);
        lemma_place(list, capability.rank);
        assert forall|i: int| 0 <= i < list.len() implies (#[trigger] list[i]).rank
            != capability.rank by {}
        assert forall|i: int, j: int| 0 <= i < j < after.len() implies (#[trigger] after[i]).rank < (
        #[trigger] after[j]).rank by {
            if j < p {
                assert(after[i] == list[i] && after[j] == list[j]);
            } else if j == p {
                assert(after[i] == list[i]);
            } else {
                assert(after[j] == list[j - 1]);
                if i < p {
                    assert(after[i] == list[i]);
                } else if i > p {
                    assert(after[i] == list[i - 1]);
                }
            }
        }
        assert forall|rank: u32| #[trigger]
            has_rank(after, rank) <==> has_rank(list, rank) || rank == capability.rank by {
            assert(after[p].rank == capability.rank);
            if has_rank(list, rank) {
                let i = choose|i: int| 0 <= i < list.len() && (#[trigger] list[i]).rank == rank;
                if i < p {
                    assert(after[i].rank == rank);
                } else {
                    assert(after[i + 1].rank == rank);
                }
            }
            if has_rank(after, rank) {
                let i = choose|i: int| 0 <= i < after.len() && (#[trigger] after[i]).rank == rank;
                if i < p {
                    assert(list[i].rank == rank);
                } else if i > p {
                    assert(list[i - 1].rank == rank);
                }
            }
        }
    }
}

pub proof fn lemma_extended(list: Seq<Capability>, more: Seq<Capability>, n: int)
    requires
        ascending(list),
        0 <= n <= more.len(),
    ensures
        ascending(extended(list, more, n)),
        forall|rank: u32| #[trigger]
            has_rank(extended(list, more, n), rank) <==> has_rank(list, rank) || exists|i: int|
                0 <= i < n && (#[trigger] more[i]).rank == rank,
    decreases n,
{
    if n > 0 {
        lemma_extended(list, more, n - 1);
        law_inserted(extended(list, more, n - 1), more[n - 1]);
        assert forall|rank: u32| #[trigger]
            has_rank(extended(list, more, n), rank) <==> has_rank(list, rank) || exists|i: int|
                0 <= i < n && (#[trigger] more[i]).rank == rank by {
            assert(has_rank(inserted(extended(list, more, n - 1), more[n - 1]), rank) <==> has_rank(
                extended(list, more, n - 1),
                rank,
            ) || rank == more[n - 1].rank);
            if exists|i: int| 0 <= i < n && (#[trigger] more[i]).rank == rank {
                let i = choose|i: int| 0 <= i < n && (#[trigger] more[i]).rank == rank;
                if i < n - 1 {
                    assert(has_rank(extended(list, more, n - 1), rank));
                }
            }
        }
    }
}

/// Two sets together have the capabilities of both, in the order of their ranks.
pub proof fn law_union(list: Seq<Capability>, more: Seq<Capability>)
    requires
        ascending(list),
    ensures
        ascending(union_of(list, more)),
        forall|rank: u32| #[trigger]
            has_rank(union_of(list, more), rank) <==> has_rank(list, rank) || has_rank(more, rank),
{
    lemma_extended(list, more, more.len() as int);
    assert forall|rank: u32| #[trigger]
        has_rank(union_of(list, more), rank) <==> has_rank(list, rank) || has_rank(more, rank) by {
        assert(has_rank(extended(list, more, more.len() as int), rank) <==> has_rank(list, rank)
            || exists|i: int| 0 <= i < more.len() && (#[trigger] more[i]).rank == rank);
    }
}

/// Nothing is missing exactly where each capability is in the other list.
pub proof fn law_missing(list: Seq<Capability>, other: Seq<Capability>)
    ensures
        within(list, other) <==> missing_names(list, other, list.len() as int).len() == 0,
{
    lemma_missing(list, other, list.len() as int);
}

/// The missing names are those of the capabilities that are not in the other list, in order.
pub proof fn law_missing_names(list: Seq<Capability>, other: Seq<Capability>)
    ensures
        missing_names(list, other, list.len() as int) == list.filter(
            |capability: Capability| !has_rank(other, capability.rank),
        ).map_values(|capability: Capability| capability.name@),
{
    lemma_missing_names(list, other, list.len() as int);
    assert(list.take(list.len() as int) =~= list);
}

proof fn lemma_missing_names(list: Seq<Capability>, other: Seq<Capability>, n: int)
    requires
        0 <= n <= list.len(),
    ensures
        missing_names(list, other, n) =~= list.take(n).filter(
            |capability: Capability| !has_rank(other, capability.rank),
        ).map_values(|capability: Capability| capability.name@),
    decreases n,
{
    reveal(Seq::filter);
    if n > 0 {
        lemma_missing_names(list, other, n - 1);
        assert(list.take(n).drop_last() =~= list.take(n - 1));
        assert(list.take(n).last() == list[n - 1]);
    }
}

pub proof fn lemma_missing(list: Seq<Capability>, other: Seq<Capability>, n: int)
    requires
        0 <= n <= list.len(),
    ensures
        missing_names(list, other, n).len() == 0 <==> forall|i: int|
            0 <= i < n ==> has_rank(other, (#[trigger] list[i]).rank),
    decreases n,
{
    if n > 0 {
        lemma_missing(list, other, n - 1);
    }
}

impl CapabilitySet {
    pub open spec fn wf(&self) -> bool {
        ascending(self@)
    }

    pub fn new() -> (set: Self)
        ensures
            set.wf(),
            set@ == Seq::<Capability>::empty(),
    {
        CapabilitySet { list: Vec::new() }
    }

    /// A set with the same capabilities.
    pub fn copy(&self) -> (set: Self)
        ensures
            set@ == self@,
    {
        let mut list: Vec<Capability> = Vec::new();
        let mut i: usize = 0;
        while i < self.list.len()
            invariant
                i <= self.list.len(),
                list@ == self.list@.take(i as int),
            decreases self.list.len() - i,
        {
            list.push(self.list[i]);
            i += 1;
            assert(list@ =~= self.list@.take(i as int));
        }
        assert(list@ =~= self.list@);
        CapabilitySet { list }
    }

    pub fn is_empty(&self) -> (empty: bool)
        ensures
            empty == (self@.len() == 0),
    {
        self.list.len() == 0
    }

    /// The capabilities in the order of their ranks.
    pub fn to_vec(&self) -> (list: Vec<Capability>)
        ensures
            list@ == self@,
    {
        self.copy().list
    }

    pub fn contains(&self, capability: Capability) -> (found: bool)
        ensures
            found == has_rank(self@, capability.rank),
    {
        let mut i: usize = 0;
        while i < self.list.len()
            invariant
                i <= self.list.len(),
                forall|k: int| 0 <= k < i ==> (#[trigger] self.list@[k]).rank != capability.rank,
            decreases self.list.len() - i,
        {
            if self.list[i].rank == capability.rank {
                return true;
            }
            i += 1;
        }
        false
    }

    pub fn insert(&mut self, capability: Capability)
        requires
            old(self).wf(),
        ensures
            final(self).wf(),
            final(self)@ == inserted(old(self)@, capability),
    {
        proof {
            law_inserted(self@, capability);
        }
        if self.contains(capability) {
            return;
        }
        let at: usize = self.find_place(capability.rank);
        proof {
            lemma_place(self@, capability.rank);
        }
        self.list.insert(at, capability);
    }

    fn find_place(&self, rank: u32) -> (at: usize)
        ensures
            at == place(self@, rank),
            at <= self@.len(),
    {
        let mut at: usize = self.list.len();
        assert(self@.take(at as int) =~= self@);
        while at > 0
            invariant
                at <= self.list.len(),
                place(self@, rank) == place(self@.take(at as int), rank),
            decreases at,
        {
            let ghost front = self@.take(at as int);
            assert(front.last() == self.list@[at - 1]);
            assert(front.drop_last() =~= self@.take(at - 1));
            if self.list[at - 1].rank < rank {
                return at;
            }
            at -= 1;
        }
        0
    }

    /// Adds the capabilities of another set.
    pub fn extend(&mut self, more: &CapabilitySet)
        requires
            old(self).wf(),
        ensures
            final(self).wf(),
            final(self)@ == union_of(old(self)@, more@),
    {
        self.extend_list(&more.list);
    }

    fn extend_list(&mut self, more: &Vec<Capability>)
        requires
            old(self).wf(),
        ensures
            final(self).wf(),
            final(self)@ == union_of(old(self)@, more@),
    {
        let mut i: usize = 0;
        while i < more.len()
            invariant
                i <= more.len(),
                self.wf(),
                self@ == extended(old(self)@, more@, i as int),
            decreases more.len() - i,
        {
            self.insert(more[i]);
            i += 1;
        }
    }

    /// The set of the capabilities of a list.
    pub fn from_list(list: &Vec<Capability>) -> (set: Self)
        ensures
            set.wf(),
            set@ == set_of(list@),
    {
        let mut set = CapabilitySet::new();
        set.extend_list(list);
        set
    }

    pub fn is_subset(&self, other: &CapabilitySet) -> (yes: bool)
        ensures
            yes == within(self@, other@),
    {
        let mut i: usize = 0;
        while i < self.list.len()
            invariant
                i <= self.list.len(),
                forall|k: int| 0 <= k < i ==> has_rank(other@, (#[trigger] self@[k]).rank),
            decreases self.list.len() - i,
        {
            assert(self@[i as int] == self.list@[i as int]);
            if !other.contains(self.list[i]) {
                return false;
            }
            i += 1;
        }
        true
    }

    /// The names of the capabilities that are not in another set.
    pub fn missing(&self, other: &CapabilitySet) -> (names: Vec<String>)
        ensures
            texts(names@) == missing_names(self@, other@, self@.len() as int),
    {
        let mut names: Vec<String> = Vec::new();
        assert(texts(names@) =~= Seq::empty());
        let mut i: usize = 0;
        while i < self.list.len()
            invariant
                i <= self.list.len(),
                texts(names@) == missing_names(self@, other@, i as int),
            decreases self.list.len() - i,
        {
            let capability = self.list[i];
            assert(self@[i as int] == capability);
            if !other.contains(capability) {
                let ghost before = texts(names@);
                names.push(capability.name.to_owned());
                assert(texts(names@) =~= before.push(capability.name@));
            }
            i += 1;
        }
        names
    }
}

} // verus!
