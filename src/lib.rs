//! Columnar particle store with a BGEO (version 5) encoder.
//!
//! A particle set holds an ordered schema of per-particle attributes, one
//! byte region per attribute, and a particle counter. Values are stored as
//! little-endian 32-bit words, written either at an explicit place or in
//! schema order; the encoder turns the whole set into the big-endian BGEO
//! byte layout.
pub mod attribute;
pub mod bgeo;
pub mod bytes;
pub mod particles;

pub use attribute::{
    FixedAttribute, ParticleAttribute, ParticleAttributeType, ProtocolError, SchemaError,
};
pub use bgeo::HOMOGENEOUS_ONE;
pub use particles::{DataWriter, ParticleIndex, ParticlesSimple, ParticlesSimpleBuilder};
