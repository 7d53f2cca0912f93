//! The documents that the dispatcher reads: trees of plain values, with
//! mappings that keep the order of their entries.

use vstd::prelude::*;

verus! {

/// A document as a format parser presents it.
///
/// A mapping is a list of entries in the order of the source document. Keys
/// are values themselves, so that a format with keys that are not strings can
/// be carried. A floating-point number is carried by its IEEE 754 bits.
#[derive(Debug, PartialEq, Eq)]
pub enum Value {
    Null,
    Bool(bool),
    Int(i128),
    Float(u64),
    Str(String),
    Sequence(Vec<Value>),
    Mapping(Vec<(Value, Value)>),
}

/// The mathematical model of a [`Value`].
pub enum Tree {
    Null,
    Bool(bool),
    Int(int),
    Float(u64),
    Str(Seq<char>),
    Sequence(Seq<Tree>),
    Mapping(Seq<(Tree, Tree)>),
}

/// The kind of a value, as diagnostics name it.
#[derive(Clone, Copy, Debug, PartialEq, Eq)]
pub enum Kind {
    Null,
    Bool,
    Int,
    Float,
    Str,
    Sequence,
    Mapping,
}

impl Value {
    /// The tree that this value stands for.
    pub open spec fn model(self) -> Tree
        decreases self,
    {
        match self {
            Value::Null => Tree::Null,
            Value::Bool(b) => Tree::Bool(b),
            Value::Int(n) => Tree::Int(n as int),
            Value::Float(bits) => Tree::Float(bits),
            Value::Str(s) => Tree::Str(s@),
            Value::Sequence(items) => Tree::Sequence(
                Seq::new(
                    items@.len(),
                    |i: int|
                        if 0 <= i < items@.len() {
                            items@[i].model()
                        } else {
                            Tree::Null
                        },
                ),
            ),
            Value::Mapping(entries) => Tree::Mapping(
                Seq::new(
                    entries@.len(),
                    |i: int|
                        if 0 <= i < entries@.len() {
                            (entries@[i].0.model(), entries@[i].1.model())
                        } else {
                            (Tree::Null, Tree::Null)
                        },
                ),
            ),
        }
    }
}

impl View for Value {
    type V = Tree;

    open spec fn view(&self) -> Tree {
        self.model()
    }
}

/// The model of a list of entries.
pub open spec fn entries_view(entries: Seq<(Value, Value)>) -> Seq<(Tree, Tree)> {
    Seq::new(entries.len(), |i: int| (entries[i].0@, entries[i].1@))
}

impl Tree {
    /// The kind of this tree's root.
    pub open spec fn kind(self) -> Kind {
        match self {
            Tree::Null => Kind::Null,
            Tree::Bool(_) => Kind::Bool,
            Tree::Int(_) => Kind::Int,
            Tree::Float(_) => Kind::Float,
            Tree::Str(_) => Kind::Str,
            Tree::Sequence(_) => Kind::Sequence,
            Tree::Mapping(_) => Kind::Mapping,
        }
    }
}

impl Kind {
    /// The word by which a diagnostic names this kind.
    pub open spec fn text(self) -> Seq<char> {
        match self {
            Kind::Null => "null"@,
            Kind::Bool => "boolean"@,
            Kind::Int => "integer"@,
            Kind::Float => "float"@,
            Kind::Str => "string"@,
            Kind::Sequence => "sequence"@,
            Kind::Mapping => "map"@,
        }
    }

    /// The word by which a diagnostic names this kind.
    pub fn name(&self) -> (word: &'static str)
        ensures
            word@ == self.text(),
    {
        match self {
            Kind::Null => "null",
            Kind::Bool => "boolean",
            Kind::Int => "integer",
            Kind::Float => "float",
            Kind::Str => "string",
            Kind::Sequence => "sequence",
            Kind::Mapping => "map",
        }
    }
}

impl Value {
    /// The kind of this value's root.
    pub fn kind(&self) -> (kind: Kind)
        ensures
            kind == self@.kind(),
    {
        match self {
            Value::Null => Kind::Null,
            Value::Bool(_) => Kind::Bool,
            Value::Int(_) => Kind::Int,
            Value::Float(_) => Kind::Float,
            Value::Str(_) => Kind::Str,
            Value::Sequence(_) => Kind::Sequence,
            Value::Mapping(_) => Kind::Mapping,
        }
    }

    /// Whether this value is a mapping.
    pub fn is_mapping(&self) -> (yes: bool)
        ensures
            yes == (self@ is Mapping),
    {
        match self {
            Value::Mapping(_) => true,
            _ => false,
        }
    }
}

impl Clone for Value {
    /// A copy that stands for the same tree.
    fn clone(&self) -> (copy: Value)
        ensures
            copy@ == self@,
        decreases self,
    {
        match self {
            Value::Null => Value::Null,
            Value::Bool(b) => Value::Bool(*b),
            Value::Int(n) => Value::Int(*n),
            Value::Float(bits) => Value::Float(*bits),
            Value::Str(s) => Value::Str(s.clone()),
            Value::Sequence(items) => {
                let mut copies: Vec<Value> = Vec::new();
                let mut i: usize = 0;
                while i < items.len()
                    invariant
                        decreases_to!(self => items),
                        i <= items.len(),
                        copies.len() == i,
                        forall|k: int| 0 <= k < i ==> (#[trigger] copies@[k])@ == items@[k]@,
                    decreases items.len() - i,
                {
                    copies.push(items[i].clone());
                    i += 1;
                }
                assert(Value::Sequence(copies)@->Sequence_0 =~= self@->Sequence_0);
                Value::Sequence(copies)
            },
            Value::Mapping(entries) => {
                let mut copies: Vec<(Value, Value)> = Vec::new();
                let mut i: usize = 0;
                while i < entries.len()
                    invariant
                        decreases_to!(self => entries),
                        i <= entries.len(),
                        copies.len() == i,
                        forall|k: int|
                            0 <= k < i ==> (#[trigger] copies@[k]).0@ == entries@[k].0@
                                && copies@[k].1@ == entries@[k].1@,
                    decreases entries.len() - i,
                {
                    let key = entries[i].0.clone();
                    let value = entries[i].1.clone();
                    copies.push((key, value));
                    i += 1;
                }
                assert(Value::Mapping(copies)@->Mapping_0 =~= self@->Mapping_0);
                Value::Mapping(copies)
            },
        }
    }
}

/// The model of a mapping is the list of its entries' models.
pub proof fn lemma_map_view(entries: Vec<(Value, Value)>)
    ensures
        Value::Mapping(entries)@ == Tree::Mapping(entries_view(entries@)),
{
    assert(Value::Mapping(entries)@->Mapping_0 =~= entries_view(entries@));
}

} // verus!
