//! A capability and one implementation of it: what the registry is for.
//!
//! A capability is a trait; its implementations are told apart by tag, and
//! each is registered with the constructor that builds it from a payload.

use crate::dispatch::{callable, delivered, deserialize, DEFAULT_DISCRIMINATOR};
use crate::error::Error;
use crate::registry::{ComponentDescription, Registry};
use crate::value::Value;
use vstd::prelude::*;

verus! {

/// A configuration from which a transform is built.
pub trait TransformConfig: Sync {
    /// Builds the transform.
    fn build(&self) -> usize;
}

impl dyn TransformConfig {
    /// The registration of `deserializer` under the tag `name`.
    pub fn register<T>(name: &'static str, deserializer: T) -> (record: ComponentDescription<T>)
        ensures
            record.name == name,
            record.deserializer == deserializer,
    {
        ComponentDescription { name, deserializer }
    }

    /// Builds the transform configuration that `doc` describes, with the
    /// constructors of `registry`. The tag is read from the field of the
    /// default name.
    pub fn deserialize<C, E>(
        doc: Value,
        registry: &Registry<C>,
    ) -> (result: Result<Box<dyn TransformConfig>, Error<E>>) where
        C: Fn(Value) -> Result<Box<dyn TransformConfig>, E>,
        requires
            callable(registry@, "TransformConfig"@, DEFAULT_DISCRIMINATOR@, doc@),
        ensures
            delivered(registry@, "TransformConfig"@, DEFAULT_DISCRIMINATOR@, doc@, result),
    {
        deserialize(doc, "TransformConfig", DEFAULT_DISCRIMINATOR, registry)
    }
}

/// A transform that samples: its payload is the single field `num`.
#[derive(Clone, Copy, Debug, PartialEq, Eq)]
pub struct SamplerConfig {
    pub num: usize,
}

impl TransformConfig for SamplerConfig {
    fn build(&self) -> (built: usize)
        ensures
            built == self.num,
    {
        self.num
    }
}

} // verus!
