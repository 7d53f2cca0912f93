//! The diagnostics of the dispatcher: why no value came of a document, and
//! the text that says so.

use crate::registry::texts;
use crate::value::Kind;
use vstd::prelude::*;
use vstd::string::StringExecFns;

verus! {

/// Why no constructor was chosen for a document.
#[derive(Debug, PartialEq, Eq)]
pub enum DispatchError {
    /// The document is not a mapping.
    Shape { capability: String, found: Kind },
    /// The mapping has no entry under the discriminator, and is not a single
    /// entry that holds a mapping either.
    MissingDiscriminator { discriminator: String },
    /// What names the tag is not a string.
    BadDiscriminatorType { found: Kind },
    /// No registration carries the tag; `expected` lists the tags that are
    /// known.
    UnknownTag { tag: String, expected: Vec<&'static str> },
    /// Several registrations carry the tag.
    DuplicateTag { tag: String, capability: String },
}

/// The mathematical model of a [`DispatchError`].
pub enum Fault {
    Shape { capability: Seq<char>, found: Kind },
    MissingDiscriminator { discriminator: Seq<char> },
    BadDiscriminatorType { found: Kind },
    UnknownTag { tag: Seq<char>, expected: Seq<Seq<char>> },
    DuplicateTag { tag: Seq<char>, capability: Seq<char> },
}

impl View for DispatchError {
    type V = Fault;

    open spec fn view(&self) -> Fault {
        match self {
            DispatchError::Shape { capability, found } => Fault::Shape {
                capability: capability@,
                found: *found,
            },
            DispatchError::MissingDiscriminator { discriminator } => Fault::MissingDiscriminator {
                discriminator: discriminator@,
            },
            DispatchError::BadDiscriminatorType { found } => Fault::BadDiscriminatorType {
                found: *found,
            },
            DispatchError::UnknownTag { tag, expected } => Fault::UnknownTag {
                tag: tag@,
                expected: texts(expected@),
            },
            DispatchError::DuplicateTag { tag, capability } => Fault::DuplicateTag {
                tag: tag@,
                capability: capability@,
            },
        }
    }
}

/// The names of a list, each between backquotes, with a comma and a space
/// between one and the next.
pub open spec fn quoted_list(names: Seq<Seq<char>>) -> Seq<char>
    decreases names.len(),
{
    if names.len() == 0 {
        Seq::empty()
    } else if names.len() == 1 {
        "`"@ + names[0] + "`"@
    } else {
        quoted_list(names.drop_last()) + ", "@ + "`"@ + names.last() + "`"@
    }
}

impl Fault {
    /// The text of the diagnostic.
    pub open spec fn message(self) -> Seq<char> {
        match self {
            Fault::Shape { capability, found } => "expected "@ + capability + " as map, got "@
                + found.text(),
            Fault::MissingDiscriminator { discriminator } => "missing field `"@ + discriminator
                + "`"@,
            Fault::BadDiscriminatorType { found } => "invalid type: expected string, found "@
                + found.text(),
            Fault::UnknownTag { tag, expected } => "unknown variant `"@ + tag
                + "`, expected one of "@ + quoted_list(expected),
            Fault::DuplicateTag { tag, capability } => "`"@ + tag
                + "` is registered multiple times as "@ + capability,
        }
    }
}

/// Appends the quoted list of `names` to `text`.
fn append_quoted_list(text: &mut String, names: &Vec<&'static str>)
    ensures
        final(text)@ == old(text)@ + quoted_list(texts(names@)),
{
    let ghost start = text@;
    let ghost listed = texts(names@);
    let mut i: usize = 0;
    while i < names.len()
        invariant
            i <= names.len(),
            listed == texts(names@),
            text@ == start + quoted_list(listed.take(i as int)),
        decreases names.len() - i,
    {
        if i > 0 {
            text.append(", ");
        }
        text.append("`");
        text.append(names[i]);
        text.append("`");
        assert(listed.take(i + 1).drop_last() =~= listed.take(i as int));
        i += 1;
    }
    assert(listed.take(names.len() as int) =~= listed);
}

impl DispatchError {
    /// The text of the diagnostic.
    pub fn message(&self) -> (text: String)
        ensures
            text@ == self@.message(),
    {
        match self {
            DispatchError::Shape { capability, found } => {
                let mut text = String::from_str("expected ");
                text.append(capability.as_str());
                text.append(" as map, got ");
                text.append(found.name());
                text
            },
            DispatchError::MissingDiscriminator { discriminator } => {
                let mut text = String::from_str("missing field `");
                text.append(discriminator.as_str());
                text.append("`");
                text
            },
            DispatchError::BadDiscriminatorType { found } => {
                let mut text = String::from_str("invalid type: expected string, found ");
                text.append(found.name());
                text
            },
            DispatchError::UnknownTag { tag, expected } => {
                let mut text = String::from_str("unknown variant `");
                text.append(tag.as_str());
                text.append("`, expected one of ");
                append_quoted_list(&mut text, expected);
                text
            },
            DispatchError::DuplicateTag { tag, capability } => {
                let mut text = String::from_str("`");
                text.append(tag.as_str());
                text.append("` is registered multiple times as ");
                text.append(capability.as_str());
                text
            },
        }
    }
}

/// Why no value came of a document.
#[derive(Debug, PartialEq, Eq)]
pub enum Error<E> {
    /// No constructor was chosen.
    Dispatch(DispatchError),
    /// The constructor that was chosen failed; its error is handed on
    /// unchanged.
    Payload(E),
}

} // verus!
