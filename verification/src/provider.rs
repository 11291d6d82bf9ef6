//! The provider SDK's interpretation boundary: bounded, credential-free
//! descriptions of an interpretation adapter and of the one invocation it
//! prepares, and the capabilityless adapter's configuration checks and
//! framing.

pub mod capabilityless;
pub mod interpretation;
