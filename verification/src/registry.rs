//! The registry: an index from tag to constructor, built once from the
//! registrations that were submitted, and never changed afterwards.

use crate::order::{
    compare, lemma_text_irreflexive, lemma_text_transitive, strictly_ascending, text_lt, Rank,
};
use crate::once::{publish, published};
use once_cell::race::OnceBox;
use vstd::prelude::*;

verus! {

/// A registration: a tag and the constructor that was submitted under it.
#[derive(Debug)]
pub struct ComponentDescription<T> {
    pub name: &'static str,
    pub deserializer: T,
}

/// What a registry holds for a tag that was submitted at least once.
#[derive(Debug, PartialEq, Eq)]
pub enum Slot<C> {
    /// Exactly one registration carries the tag; this is its constructor.
    Unique(C),
    /// Two or more registrations carry the tag.
    Duplicate,
}

/// The index from tag to constructor.
///
/// The names are kept strictly ascending, and `slots[i]` belongs to
/// `names[i]`.
#[derive(Debug)]
pub struct Registry<C> {
    names: Vec<&'static str>,
    slots: Vec<Slot<C>>,
}

/// The mathematical model of a [`Registry`].
pub struct RegistryView<C> {
    /// What is held for each tag that was submitted.
    pub map: Map<Seq<char>, Slot<C>>,
    /// Every tag that was submitted, once, in ascending order.
    pub names: Seq<Seq<char>>,
}

/// The texts of a list of names.
pub open spec fn texts(list: Seq<&'static str>) -> Seq<Seq<char>> {
    Seq::new(list.len(), |i: int| list[i]@)
}

/// The constructors that `records` submit under `tag`, in the order of the
/// records.
pub open spec fn submitted<C>(records: Seq<ComponentDescription<C>>, tag: Seq<char>) -> Seq<C>
    decreases records.len(),
{
    if records.len() == 0 {
        Seq::empty()
    } else if records.last().name@ == tag {
        submitted(records.drop_last(), tag).push(records.last().deserializer)
    } else {
        submitted(records.drop_last(), tag)
    }
}

/// What a registry built from `records` holds for `tag`: nothing where no
/// record carries it, the constructor where exactly one does, and the mark of
/// a duplicate where several do.
pub open spec fn slot_for<C>(
    records: Seq<ComponentDescription<C>>,
    tag: Seq<char>,
) -> Option<Slot<C>> {
    let found = submitted(records, tag);
    if found.len() == 0 {
        None
    } else if found.len() == 1 {
        Some(Slot::Unique(found[0]))
    } else {
        Some(Slot::Duplicate)
    }
}

/// What the parallel lists `names` and `slots` hold for `tag`.
spec fn slot_in<C>(
    names: Seq<Seq<char>>,
    slots: Seq<Slot<C>>,
    tag: Seq<char>,
) -> Option<Slot<C>> {
    if names.contains(tag) {
        Some(slots[names.index_of(tag)])
    } else {
        None
    }
}

impl<C> RegistryView<C> {
    /// The names are strictly ascending, and they are the tags of the map.
    pub open spec fn wf(self) -> bool {
        &&& strictly_ascending(self.names)
        &&& forall|tag: Seq<char>| self.map.contains_key(tag) <==> self.names.contains(tag)
    }

    /// What is held for `tag`, if anything.
    pub open spec fn slot(self, tag: Seq<char>) -> Option<Slot<C>> {
        if self.map.contains_key(tag) {
            Some(self.map[tag])
        } else {
            None
        }
    }
}

impl<C> View for Registry<C> {
    type V = RegistryView<C>;

    closed spec fn view(&self) -> RegistryView<C> {
        RegistryView {
            map: Map::new(
                |tag: Seq<char>| texts(self.names@).contains(tag),
                |tag: Seq<char>| self.slots@[texts(self.names@).index_of(tag)],
            ),
            names: texts(self.names@),
        }
    }
}

/// In a strictly ascending list every text stands at one index only.
proof fn lemma_index(names: Seq<Seq<char>>, i: int)
    requires
        strictly_ascending(names),
        0 <= i < names.len(),
    ensures
        names.contains(names[i]),
        names.index_of(names[i]) == i,
{
    lemma_text_irreflexive(names[i]);
}

/// A text that belongs between the names before index `at` and the names
/// from it on is not listed.
proof fn lemma_absent(names: Seq<Seq<char>>, at: int, tag: Seq<char>)
    requires
        forall|i: int| 0 <= i < at ==> text_lt(#[trigger] names[i], tag),
        forall|i: int| at <= i < names.len() ==> text_lt(tag, #[trigger] names[i]),
    ensures
        !names.contains(tag),
{
    lemma_text_irreflexive(tag);
}

/// Marking the slot of a name that is listed changes what is held for that
/// name and for no other.
proof fn lemma_replace<C>(
    names: Seq<Seq<char>>,
    slots: Seq<Slot<C>>,
    at: int,
    slot: Slot<C>,
    tag: Seq<char>,
)
    requires
        strictly_ascending(names),
        names.len() == slots.len(),
        0 <= at < names.len(),
    ensures
        slot_in(names, slots.update(at, slot), tag) == if tag == names[at] {
            Some(slot)
        } else {
            slot_in(names, slots, tag)
        },
{
    if names.contains(tag) {
        let i = names.index_of(tag);
        lemma_index(names, i);
        lemma_index(names, at);
    }
}

/// Listing a new name with its slot adds what is held for that name and
/// changes nothing for any other.
proof fn lemma_insert<C>(
    names: Seq<Seq<char>>,
    slots: Seq<Slot<C>>,
    at: int,
    name: Seq<char>,
    slot: Slot<C>,
    tag: Seq<char>,
)
    requires
        strictly_ascending(names),
        strictly_ascending(names.insert(at, name)),
        names.len() == slots.len(),
        0 <= at <= names.len(),
        !names.contains(name),
    ensures
        slot_in(names.insert(at, name), slots.insert(at, slot), tag) == if tag == name {
            Some(slot)
        } else {
            slot_in(names, slots, tag)
        },
{
    let grown = names.insert(at, name);
    if tag == name {
        lemma_index(grown, at);
    } else if names.contains(tag) {
        // The name keeps its slot, one index further where it stood at or
        // after the new name.
        let i = names.index_of(tag);
        lemma_index(
            grown,
            if i < at {
                i
            } else {
                i + 1
            },
        );
    }
}

/// One more record adds its constructor to those submitted under its own
/// tag and to no others.
proof fn lemma_submitted_step<C>(records: Seq<ComponentDescription<C>>, n: int, tag: Seq<char>)
    requires
        0 <= n < records.len(),
    ensures
        submitted(records.take(n + 1), tag) == if records[n].name@ == tag {
            submitted(records.take(n), tag).push(records[n].deserializer)
        } else {
            submitted(records.take(n), tag)
        },
{
    assert(records.take(n + 1).drop_last() =~= records.take(n));
}

/// The record at index `at` carries `tag`.
pub open spec fn carries<C>(
    records: Seq<ComponentDescription<C>>,
    tag: Seq<char>,
    at: int,
) -> bool {
    0 <= at < records.len() && records[at].name@ == tag
}

/// What is held for a tag goes by the number of records that carry it:
/// nothing where none does; the constructor of the record where exactly one
/// does; the mark of a duplicate where two or more do.
pub proof fn lemma_slot_for<C>(records: Seq<ComponentDescription<C>>, tag: Seq<char>)
    ensures
        match slot_for(records, tag) {
            None => forall|at: int| !carries(records, tag, at),
            Some(Slot::Unique(constructor)) => exists|at: int|
                {
                    &&& #[trigger] carries(records, tag, at)
                    &&& records[at].deserializer == constructor
                    &&& forall|other: int| carries(records, tag, other) ==> other == at
                },
            Some(Slot::Duplicate) => exists|at: int, other: int|
                at < other && #[trigger] carries(records, tag, at) && #[trigger] carries(
                    records,
                    tag,
                    other,
                ),
        },
    decreases records.len(),
{
    if records.len() > 0 {
        let rest = records.drop_last();
        let last = records.len() - 1;
        lemma_slot_for(rest, tag);
        // The records before the last carry what they carried.
        assert forall|at: int| 0 <= at < last implies carries(records, tag, at) == carries(
            rest,
            tag,
            at,
        ) by {}
        if records[last].name@ == tag {
            assert(carries(records, tag, last));
        }
    }
}

/// The names of a registry built from `records` are the tags that the
/// records carry.
pub proof fn lemma_names<C>(
    registry: RegistryView<C>,
    records: Seq<ComponentDescription<C>>,
    tag: Seq<char>,
)
    requires
        registry.wf(),
        forall|any: Seq<char>| registry.slot(any) == slot_for(records, any),
    ensures
        registry.names.contains(tag) <==> exists|at: int| carries(records, tag, at),
{
    lemma_slot_for(records, tag);
}

/// The names of a registry built from `records` are the one list that
/// holds the tags that the records carry, each once, in ascending order.
pub proof fn lemma_names_determined<C>(
    registry: RegistryView<C>,
    records: Seq<ComponentDescription<C>>,
    list: Seq<Seq<char>>,
)
    requires
        registry.wf(),
        forall|any: Seq<char>| registry.slot(any) == slot_for(records, any),
        strictly_ascending(list),
        forall|tag: Seq<char>| list.contains(tag) <==> exists|at: int| carries(records, tag, at),
    ensures
        registry.names == list,
{
    assert forall|tag: Seq<char>| registry.names.contains(tag) <==> list.contains(tag) by {
        lemma_names(registry, records, tag);
    }
    lemma_ascending_unique(registry.names, list);
}

/// Two strictly ascending lists of the same texts are the same list: a
/// set of tags has one sorted list without repeats.
pub proof fn lemma_ascending_unique(a: Seq<Seq<char>>, b: Seq<Seq<char>>)
    requires
        strictly_ascending(a),
        strictly_ascending(b),
        forall|text: Seq<char>| a.contains(text) <==> b.contains(text),
    ensures
        a == b,
    decreases a.len(),
{
    if a.len() == 0 {
        if b.len() > 0 {
            assert(b.contains(b[0]));
        }
    } else {
        // The last text of each list is its greatest, and stands in the
        // other list too: the two are the same text.
        let top = b.last();
        assert(b.contains(a.last()));
        assert(b.contains(top));
        lemma_text_irreflexive(top);
        lemma_text_irreflexive(a.last());
        if a.last() != top {
            lemma_text_transitive(top, a.last(), top);
        }
        // Without it, the lists still hold the same texts.
        let a0 = a.drop_last();
        let b0 = b.drop_last();
        assert forall|text: Seq<char>| a0.contains(text) <==> b0.contains(text) by {
            if a0.contains(text) {
                assert(a.contains(text));
                assert(b0[b.index_of(text)] == text);
            }
            if b0.contains(text) {
                assert(b.contains(text));
                assert(a0[a.index_of(text)] == text);
            }
        }
        lemma_ascending_unique(a0, b0);
        assert(b =~= b0.push(top));
    }
}

/// Finds where `tag` stands, or would stand, in a strictly ascending list:
/// the number of names that come before it, and whether the name at that
/// index is `tag` itself.
fn locate(names: &Vec<&'static str>, tag: &str) -> (at: (usize, bool))
    requires
        strictly_ascending(texts(names@)),
    ensures
        at.0 <= names.len(),
        forall|i: int| 0 <= i < at.0 ==> text_lt(#[trigger] texts(names@)[i], tag@),
        at.1 ==> at.0 < names.len() && texts(names@)[at.0 as int] == tag@,
        !at.1 ==> forall|i: int|
            at.0 <= i < names.len() ==> text_lt(tag@, #[trigger] texts(names@)[i]),
{
    let ghost listed = texts(names@);
    let mut low: usize = 0;
    let mut high: usize = names.len();
    while low < high
        invariant
            low <= high <= names.len(),
            listed == texts(names@),
            strictly_ascending(listed),
            forall|i: int| 0 <= i < low ==> text_lt(#[trigger] listed[i], tag@),
            forall|i: int| high <= i < names.len() ==> text_lt(tag@, #[trigger] listed[i]),
        decreases high - low,
    {
        let middle = low + (high - low) / 2;
        let name: &str = names[middle];
        assert(name@ == listed[middle as int]);
        match compare(name, tag) {
            Rank::Before => {
                assert forall|i: int| 0 <= i < middle + 1 implies text_lt(
                    #[trigger] listed[i],
                    tag@,
                ) by {
                    if i < middle {
                        lemma_text_transitive(listed[i], listed[middle as int], tag@);
                    }
                }
                low = middle + 1;
            },
            Rank::Same => {
                return (middle, true);
            },
            Rank::After => {
                assert forall|i: int| middle <= i < names.len() implies text_lt(
                    tag@,
                    #[trigger] listed[i],
                ) by {
                    if middle < i {
                        lemma_text_transitive(tag@, listed[middle as int], listed[i]);
                    }
                }
                high = middle;
            },
        }
    }
    (low, false)
}

impl<C> Registry<C> {
    #[verifier::type_invariant]
    spec fn inv(&self) -> bool {
        &&& self.names.len() == self.slots.len()
        &&& strictly_ascending(texts(self.names@))
    }

    /// Builds the registry of the registrations in `records`.
    ///
    /// A tag that one record carries is held with that record's constructor;
    /// a tag that several records carry is held as a duplicate, whatever the
    /// order of the records. Every tag is listed once, in ascending order.
    pub fn build(records: Vec<ComponentDescription<C>>) -> (registry: Self)
        ensures
            registry@.wf(),
            forall|tag: Seq<char>| registry@.slot(tag) == slot_for(records@, tag),
    {
        let ghost all = records@;
        let mut names: Vec<&'static str> = Vec::new();
        let mut slots: Vec<Slot<C>> = Vec::new();
        let ghost mut taken: int = 0;
        for record in it: records
            invariant
                it.seq() == all,
                taken == it.index(),
                names.len() == slots.len(),
                strictly_ascending(texts(names@)),
                forall|tag: Seq<char>|
                    slot_in(texts(names@), slots@, tag) == slot_for(
                        all.take(it.index() as int),
                        tag,
                    ),
        {
            let ghost done = it.index() as int;
            let ghost before = texts(names@);
            let ghost held = slots@;
            let ComponentDescription { name, deserializer } = record;
            let (at, listed) = locate(&names, name);
            if listed {
                slots.set(at, Slot::Duplicate);
                assert forall|tag: Seq<char>|
                    slot_in(texts(names@), slots@, tag) == slot_for(
                        all.take(done + 1),
                        tag,
                    ) by {
                    lemma_replace(before, held, at as int, Slot::Duplicate, tag);
                    lemma_submitted_step(all, done, tag);
                    lemma_index(before, at as int);
                }
            } else {
                names.insert(at, name);
                slots.insert(at, Slot::Unique(deserializer));
                assert(texts(names@) =~= before.insert(at as int, name@));
                proof {
                    lemma_absent(before, at as int, name@);
                }
                assert forall|tag: Seq<char>|
                    slot_in(texts(names@), slots@, tag) == slot_for(
                        all.take(done + 1),
                        tag,
                    ) by {
                    lemma_insert(
                        before,
                        held,
                        at as int,
                        name@,
                        Slot::Unique(deserializer),
                        tag,
                    );
                    lemma_submitted_step(all, done, tag);
                }
            }
            proof {
                taken = taken + 1;
            }
        }
        let registry = Registry { names, slots };
        proof {
            assert(all.take(taken) =~= all);
            assert forall|tag: Seq<char>| registry@.slot(tag) == slot_for(all, tag) by {
                assert(registry@.slot(tag) == slot_in(
                    texts(registry.names@),
                    registry.slots@,
                    tag,
                ));
            }
        }
        registry
    }

    /// The registry that `cell` shares, built from what `drain` returns if
    /// none was published yet.
    ///
    /// Where the cell holds a registry already, `drain` is not called. Where
    /// several callers find the cell empty at once, each builds a registry and
    /// one of them is published: every caller gets that one.
    pub fn get_or_build<'a, F>(cell: &'a OnceBox<Self>, drain: F) -> (registry: &'a Self) where
        F: FnOnce() -> Vec<ComponentDescription<C>>,
        requires
            call_requires(drain, ()),
        ensures
            registry@.wf(),
    {
        let registry = match published(cell) {
            Some(shared) => shared,
            None => publish(cell, Box::new(Self::build(drain()))),
        };
        proof {
            use_type_invariant(registry);
        }
        registry
    }

    /// Looks `tag` up.
    pub fn lookup(&self, tag: &str) -> (found: Option<&Slot<C>>)
        ensures
            self@.wf(),
            match found {
                Some(slot) => self@.slot(tag@) == Some(*slot),
                None => self@.slot(tag@) is None,
            },
    {
        proof {
            use_type_invariant(self);
        }
        let (at, listed) = locate(&self.names, tag);
        if listed {
            proof {
                lemma_index(texts(self.names@), at as int);
            }
            Some(&self.slots[at])
        } else {
            proof {
                lemma_absent(texts(self.names@), at as int, tag@);
            }
            None
        }
    }

    /// Every tag that was submitted, once, in ascending order.
    pub fn names(&self) -> (list: &Vec<&'static str>)
        ensures
            self@.wf(),
            texts(list@) == self@.names,
    {
        proof {
            use_type_invariant(self);
        }
        &self.names
    }
}

} // verus!
