//! The dispatcher: it finds the tag of a document, looks it up in the
//! registry and hands the rest of the document to the constructor found.

use crate::error::{DispatchError, Error, Fault};
use crate::order::same_text;
use crate::registry::{Registry, RegistryView, Slot};
use crate::value::{entries_view, lemma_map_view, Tree, Value};
use vstd::prelude::*;

verus! {

/// The name of the field that holds the tag, where a capability chooses
/// no other.
pub const DEFAULT_DISCRIMINATOR: &'static str = "type";

/// The constructor chosen for a document, and the payload that it is to
/// read.
#[derive(Debug)]
pub struct Selection<'a, C> {
    pub constructor: &'a C,
    pub payload: Value,
}

/// `at` is the index of the first entry whose key is the text `key`.
pub open spec fn is_first_keyed(entries: Seq<(Tree, Tree)>, key: Seq<char>, at: int) -> bool {
    &&& 0 <= at < entries.len()
    &&& entries[at].0 == Tree::Str(key)
    &&& forall|i: int| 0 <= i < at ==> (#[trigger] entries[i]).0 != Tree::Str(key)
}

/// The index of the first entry whose key is the text `key`, if there is
/// one.
pub open spec fn first_keyed(entries: Seq<(Tree, Tree)>, key: Seq<char>) -> Option<int> {
    if exists|at: int| is_first_keyed(entries, key, at) {
        Some(choose|at: int| is_first_keyed(entries, key, at))
    } else {
        None
    }
}

/// What a document splits into: the node that names the tag, and the
/// payload.
///
/// A mapping with an entry under the discriminator is internally tagged: the
/// first such entry names the tag, and the other entries, in their order, are
/// the payload. A mapping without one that is a single entry holding a mapping
/// is externally tagged: the key names the tag and the mapping held is the
/// payload.
pub open spec fn tag_and_payload(
    doc: Tree,
    capability: Seq<char>,
    discriminator: Seq<char>,
) -> Result<(Tree, Tree), Fault> {
    match doc {
        Tree::Mapping(entries) => match first_keyed(entries, discriminator) {
            Some(at) => Ok((entries[at].1, Tree::Mapping(entries.remove(at)))),
            None => if entries.len() == 1 && entries[0].1 is Mapping {
                Ok(entries[0])
            } else {
                Err(Fault::MissingDiscriminator { discriminator })
            },
        },
        _ => Err(Fault::Shape { capability, found: doc.kind() }),
    }
}

/// The constructor that the registry holds for the tag that `node` names.
pub open spec fn constructor_for<C>(
    registry: RegistryView<C>,
    capability: Seq<char>,
    node: Tree,
) -> Result<C, Fault> {
    match node {
        Tree::Str(tag) => match registry.slot(tag) {
            Some(Slot::Unique(constructor)) => Ok(constructor),
            Some(Slot::Duplicate) => Err(Fault::DuplicateTag { tag, capability }),
            None => Err(Fault::UnknownTag { tag, expected: registry.names }),
        },
        _ => Err(Fault::BadDiscriminatorType { found: node.kind() }),
    }
}

/// The constructor chosen for `doc` and the payload handed to it, or the
/// reason why none is chosen.
pub open spec fn selection<C>(
    registry: RegistryView<C>,
    capability: Seq<char>,
    discriminator: Seq<char>,
    doc: Tree,
) -> Result<(C, Tree), Fault> {
    match tag_and_payload(doc, capability, discriminator) {
        Ok((node, payload)) => match constructor_for(registry, capability, node) {
            Ok(constructor) => Ok((constructor, payload)),
            Err(fault) => Err(fault),
        },
        Err(fault) => Err(fault),
    }
}

/// There is one first entry under a key at most.
pub proof fn lemma_first_keyed(entries: Seq<(Tree, Tree)>, key: Seq<char>, at: int)
    requires
        is_first_keyed(entries, key, at),
    ensures
        first_keyed(entries, key) == Some(at),
{
}

/// Whether `value` is the text `key`.
fn is_text(value: &Value, key: &str) -> (same: bool)
    ensures
        same == (value@ == Tree::Str(key@)),
{
    match value {
        Value::Str(text) => same_text(text.as_str(), key),
        _ => false,
    }
}

/// Finds the first entry whose key is the text `key`.
fn find_key(entries: &Vec<(Value, Value)>, key: &str) -> (found: Option<usize>)
    ensures
        match found {
            Some(at) => first_keyed(entries_view(entries@), key@) == Some(at as int),
            None => first_keyed(entries_view(entries@), key@) is None,
        },
{
    let ghost model = entries_view(entries@);
    let mut i: usize = 0;
    while i < entries.len()
        invariant
            i <= entries.len(),
            model == entries_view(entries@),
            forall|j: int| 0 <= j < i ==> (#[trigger] model[j]).0 != Tree::Str(key@),
        decreases entries.len() - i,
    {
        if is_text(&entries[i].0, key) {
            proof {
                lemma_first_keyed(model, key@, i as int);
            }
            return Some(i);
        }
        i += 1;
    }
    None
}

/// Copies a list of names.
fn copy_names(names: &Vec<&'static str>) -> (copy: Vec<&'static str>)
    ensures
        copy@ == names@,
{
    let mut copy: Vec<&'static str> = Vec::new();
    let mut i: usize = 0;
    while i < names.len()
        invariant
            i <= names.len(),
            copy@ == names@.take(i as int),
        decreases names.len() - i,
    {
        copy.push(names[i]);
        i += 1;
    }
    copy
}

/// Looks up the tag that `node` names.
fn resolve<'a, C>(
    node: Value,
    capability: &str,
    registry: &'a Registry<C>,
) -> (outcome: Result<&'a C, DispatchError>)
    ensures
        match constructor_for(registry@, capability@, node@) {
            Ok(constructor) => outcome matches Ok(found) && *found == constructor,
            Err(fault) => outcome matches Err(error) && error@ == fault,
        },
{
    match node {
        Value::Str(tag) => match registry.lookup(tag.as_str()) {
            Some(Slot::Unique(constructor)) => Ok(constructor),
            Some(Slot::Duplicate) => Err(
                DispatchError::DuplicateTag { tag, capability: capability.to_owned() },
            ),
            None => Err(DispatchError::UnknownTag { tag, expected: copy_names(registry.names()) }),
        },
        other => Err(DispatchError::BadDiscriminatorType { found: other.kind() }),
    }
}

/// Chooses the constructor for `doc` and splits off the payload that it is
/// to read.
///
/// Nothing of the payload is changed: it holds the fields of the document in
/// their order, without the entry that named the tag.
pub fn select<'a, C>(
    doc: Value,
    capability: &str,
    discriminator: &str,
    registry: &'a Registry<C>,
) -> (outcome: Result<Selection<'a, C>, DispatchError>)
    ensures
        match selection(registry@, capability@, discriminator@, doc@) {
            Ok((constructor, payload)) => outcome matches Ok(chosen) && *chosen.constructor
                == constructor && chosen.payload@ == payload,
            Err(fault) => outcome matches Err(error) && error@ == fault,
        },
{
    match doc {
        Value::Mapping(entries) => {
            let mut entries = entries;
            let ghost whole = entries_view(entries@);
            proof {
                lemma_map_view(entries);
            }
            match find_key(&entries, discriminator) {
                Some(at) => {
                    let (_, node) = entries.remove(at);
                    proof {
                        assert(entries_view(entries@) =~= whole.remove(at as int));
                        lemma_map_view(entries);
                    }
                    match resolve(node, capability, registry) {
                        Ok(constructor) => Ok(
                            Selection { constructor, payload: Value::Mapping(entries) },
                        ),
                        Err(error) => Err(error),
                    }
                },
                None => {
                    if entries.len() == 1 && entries[0].1.is_mapping() {
                        let (node, payload) = entries.remove(0);
                        match resolve(node, capability, registry) {
                            Ok(constructor) => Ok(Selection { constructor, payload }),
                            Err(error) => Err(error),
                        }
                    } else {
                        Err(
                            DispatchError::MissingDiscriminator {
                                discriminator: discriminator.to_owned(),
                            },
                        )
                    }
                },
            }
        },
        other => Err(
            DispatchError::Shape { capability: capability.to_owned(), found: other.kind() },
        ),
    }
}

/// What the dispatcher returns for what the constructor returned.
pub open spec fn concluded<V, E>(outcome: Result<V, E>) -> Result<V, Error<E>> {
    match outcome {
        Ok(value) => Ok(value),
        Err(error) => Err(Error::Payload(error)),
    }
}

/// Hands on what the chosen constructor returned: its value, or its error
/// unchanged.
pub fn conclude<V, E>(outcome: Result<V, E>) -> (result: Result<V, Error<E>>)
    ensures
        result == concluded(outcome),
{
    match outcome {
        Ok(value) => Ok(value),
        Err(error) => Err(Error::Payload(error)),
    }
}

/// The constructor that `doc` selects may be called on the payload of
/// `doc`.
pub open spec fn callable<C, V, E>(
    registry: RegistryView<C>,
    capability: Seq<char>,
    discriminator: Seq<char>,
    doc: Tree,
) -> bool where C: Fn(Value) -> Result<V, E> {
    selection(registry, capability, discriminator, doc) matches Ok((constructor, payload))
        ==> forall|handed: Value| handed@ == payload ==> call_requires(constructor, (handed,))
}

/// `result` is what comes of `doc`: where a constructor is selected, what
/// that constructor returned for the payload; where none is, the reason.
pub open spec fn delivered<C, V, E>(
    registry: RegistryView<C>,
    capability: Seq<char>,
    discriminator: Seq<char>,
    doc: Tree,
    result: Result<V, Error<E>>,
) -> bool where C: Fn(Value) -> Result<V, E> {
    match selection(registry, capability, discriminator, doc) {
        Ok((constructor, payload)) => exists|handed: Value, outcome: Result<V, E>|
            handed@ == payload && #[trigger] call_ensures(constructor, (handed,), outcome)
                && result == concluded(outcome),
        Err(fault) => result matches Err(Error::Dispatch(error)) && error@ == fault,
    }
}

/// Builds the value that `doc` describes: chooses the constructor that is
/// registered for the tag of `doc`, calls it on the payload and hands on what
/// it returns.
pub fn deserialize<C, V, E>(
    doc: Value,
    capability: &str,
    discriminator: &str,
    registry: &Registry<C>,
) -> (result: Result<V, Error<E>>) where C: Fn(Value) -> Result<V, E>
    requires
        callable(registry@, capability@, discriminator@, doc@),
    ensures
        delivered(registry@, capability@, discriminator@, doc@, result),
{
    match select(doc, capability, discriminator, registry) {
        Ok(chosen) => {
            let Selection { constructor, payload } = chosen;
            let outcome = constructor(payload);
            conclude(outcome)
        },
        Err(error) => Err(Error::Dispatch(error)),
    }
}

/// The entries `before`, an entry under the discriminator that holds `tag`,
/// and the entries `after`, as one mapping.
pub open spec fn tagged(
    discriminator: Seq<char>,
    tag: Tree,
    before: Seq<(Tree, Tree)>,
    after: Seq<(Tree, Tree)>,
) -> Tree {
    Tree::Mapping(before + seq![(Tree::Str(discriminator), tag)] + after)
}

/// No entry of `entries` stands under the text `key`.
pub open spec fn without_key(entries: Seq<(Tree, Tree)>, key: Seq<char>) -> bool {
    forall|i: int| 0 <= i < entries.len() ==> (#[trigger] entries[i]).0 != Tree::Str(key)
}

/// Two payloads hold the same fields, in whatever order.
pub open spec fn same_fields(payload: Tree, other: Tree) -> bool {
    &&& payload matches Tree::Mapping(fields)
    &&& other matches Tree::Mapping(other_fields)
    &&& fields.to_multiset() == other_fields.to_multiset()
}

/// A mapping splits at the first entry under the discriminator: that entry
/// names the tag, and the entries around it, in their order, are the payload.
pub proof fn lemma_split(
    capability: Seq<char>,
    discriminator: Seq<char>,
    tag: Tree,
    before: Seq<(Tree, Tree)>,
    after: Seq<(Tree, Tree)>,
)
    requires
        without_key(before, discriminator),
    ensures
        tag_and_payload(tagged(discriminator, tag, before, after), capability, discriminator)
            == Ok::<(Tree, Tree), Fault>((tag, Tree::Mapping(before + after))),
{
    let entries = before + seq![(Tree::Str(discriminator), tag)] + after;
    let at = before.len() as int;
    assert(is_first_keyed(entries, discriminator, at));
    lemma_first_keyed(entries, discriminator, at);
    assert(entries.remove(at) =~= before + after);
}

/// A document that names a tag with one constructor selects that
/// constructor and hands it the other fields, in their order, wherever the
/// entry that names the tag stands among them.
pub proof fn lemma_selects_registered<C>(
    registry: RegistryView<C>,
    capability: Seq<char>,
    discriminator: Seq<char>,
    tag: Seq<char>,
    constructor: C,
    before: Seq<(Tree, Tree)>,
    after: Seq<(Tree, Tree)>,
)
    requires
        registry.slot(tag) == Some(Slot::Unique(constructor)),
        without_key(before, discriminator),
    ensures
        selection(
            registry,
            capability,
            discriminator,
            tagged(discriminator, Tree::Str(tag), before, after),
        ) == Ok::<(C, Tree), Fault>((constructor, Tree::Mapping(before + after))),
{
    lemma_split(capability, discriminator, Tree::Str(tag), before, after);
}

/// Round trip: what comes of a document that names a tag with one
/// constructor is what that constructor returns when it is called on the
/// other fields of the document.
pub proof fn lemma_round_trip<C, V, E>(
    registry: RegistryView<C>,
    capability: Seq<char>,
    discriminator: Seq<char>,
    tag: Seq<char>,
    constructor: C,
    before: Seq<(Tree, Tree)>,
    after: Seq<(Tree, Tree)>,
    result: Result<V, Error<E>>,
) where C: Fn(Value) -> Result<V, E>
    requires
        registry.slot(tag) == Some(Slot::Unique(constructor)),
        without_key(before, discriminator),
        delivered(
            registry,
            capability,
            discriminator,
            tagged(discriminator, Tree::Str(tag), before, after),
            result,
        ),
    ensures
        exists|handed: Value, outcome: Result<V, E>|
            handed@ == Tree::Mapping(before + after) && #[trigger] call_ensures(
                constructor,
                (handed,),
                outcome,
            ) && result == concluded(outcome),
{
    lemma_selects_registered(registry, capability, discriminator, tag, constructor, before, after);
}

/// The order of the fields does not change which constructor is selected,
/// nor which fields it is handed: two documents that name the same tag and
/// hold the same other fields, in whatever order, select the same constructor
/// with payloads that hold the same fields, or fail for the same reason.
pub proof fn lemma_field_order_selection<C>(
    registry: RegistryView<C>,
    capability: Seq<char>,
    discriminator: Seq<char>,
    tag: Tree,
    before: Seq<(Tree, Tree)>,
    after: Seq<(Tree, Tree)>,
    other_before: Seq<(Tree, Tree)>,
    other_after: Seq<(Tree, Tree)>,
)
    requires
        without_key(before, discriminator),
        without_key(other_before, discriminator),
        (before + after).to_multiset() == (other_before + other_after).to_multiset(),
    ensures
        match (
            selection(
                registry,
                capability,
                discriminator,
                tagged(discriminator, tag, before, after),
            ),
            selection(
                registry,
                capability,
                discriminator,
                tagged(discriminator, tag, other_before, other_after),
            ),
        ) {
            (Ok((one, payload)), Ok((other, other_payload))) => one == other && same_fields(
                payload,
                other_payload,
            ),
            (Err(fault), Err(other_fault)) => fault == other_fault,
            _ => false,
        },
{
    lemma_split(capability, discriminator, tag, before, after);
    lemma_split(capability, discriminator, tag, other_before, other_after);
}

/// Field-order independence: where the constructor selected returns the
/// same for payloads that hold the same fields, two documents that name the
/// same tag and hold the same other fields, in whatever order, come to the
/// same value, or fail for the same reason.
pub proof fn lemma_field_order<C, V, E>(
    registry: RegistryView<C>,
    capability: Seq<char>,
    discriminator: Seq<char>,
    tag: Tree,
    before: Seq<(Tree, Tree)>,
    after: Seq<(Tree, Tree)>,
    other_before: Seq<(Tree, Tree)>,
    other_after: Seq<(Tree, Tree)>,
    one: Result<V, Error<E>>,
    other: Result<V, Error<E>>,
) where C: Fn(Value) -> Result<V, E>
    requires
        without_key(before, discriminator),
        without_key(other_before, discriminator),
        (before + after).to_multiset() == (other_before + other_after).to_multiset(),
        selection(
            registry,
            capability,
            discriminator,
            tagged(discriminator, tag, before, after),
        ) matches Ok((constructor, _)) ==> forall|
            left: Value,
            right: Value,
            seen: Result<V, E>,
            other_seen: Result<V, E>,
        |
            same_fields(left@, right@) && #[trigger] call_ensures(constructor, (left,), seen)
                && #[trigger] call_ensures(constructor, (right,), other_seen) ==> seen
                == other_seen,
        delivered(
            registry,
            capability,
            discriminator,
            tagged(discriminator, tag, before, after),
            one,
        ),
        delivered(
            registry,
            capability,
            discriminator,
            tagged(discriminator, tag, other_before, other_after),
            other,
        ),
    ensures
        match (one, other) {
            (Err(Error::Dispatch(error)), Err(Error::Dispatch(other_error))) => error@
                == other_error@,
            _ => one == other,
        },
{
    lemma_field_order_selection(
        registry,
        capability,
        discriminator,
        tag,
        before,
        after,
        other_before,
        other_after,
    );
}

} // verus!
