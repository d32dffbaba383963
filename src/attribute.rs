//! Attribute kinds, attribute handles and the schema errors.
use vstd::prelude::*;
use vstd::string::StringSliceAdditionalSpecFns;

verus! {

/// The element kind of an attribute.
#[derive(Debug, Copy, Clone, PartialEq, Eq, Structural)]
pub enum ParticleAttributeType {
    NONE,
    VECTOR,
    FLOAT,
    INT,
    INDEXEDSTR,
}

/// Bytes stored per component of an attribute of type `t`.
pub open spec fn element_width(t: ParticleAttributeType) -> nat {
    match t {
        ParticleAttributeType::NONE => 0,
        _ => 4,
    }
}

/// Type code written in an attribute definition.
pub open spec fn wire_type_code(t: ParticleAttributeType) -> u32 {
    match t {
        ParticleAttributeType::FLOAT => 0,
        ParticleAttributeType::INT => 1,
        ParticleAttributeType::INDEXEDSTR => 4,
        ParticleAttributeType::VECTOR => 5,
        ParticleAttributeType::NONE => 0,
    }
}

/// The bytes of the name `position`.
pub open spec fn position_name() -> Seq<u8> {
    seq![0x70u8, 0x6f, 0x73, 0x69, 0x74, 0x69, 0x6f, 0x6e]
}

/// Why a schema change or an encoding was refused.
#[derive(Debug, Copy, Clone, PartialEq, Eq, Structural)]
pub enum SchemaError {
    /// An attribute of that name is already declared.
    DuplicateName,
    /// Particles exist already; the schema is closed.
    AfterParticles,
    /// No attribute is named `position`.
    MissingPosition,
}

/// Why a value write was refused.
#[derive(Debug, Copy, Clone, PartialEq, Eq, Structural)]
pub enum ProtocolError {
    /// No particle has been added yet.
    NoParticle,
    /// Every component of the newest particle has been written.
    RowComplete,
    /// The handle does not name an attribute of this set.
    UnknownAttribute,
    /// The particle index is not below the particle count.
    ParticleOutOfRange,
    /// The component index is not below the attribute's stored components.
    ComponentOutOfRange,
}

/// What a per-particle attribute is, as the contracts see it.
pub struct AttributeModel {
    pub ptype: ParticleAttributeType,
    pub count: u8,
    pub name: Seq<u8>,
    pub index: nat,
}

/// Handle to a per-particle attribute: its type, component count, name and
/// position in the schema.
#[derive(Debug, Copy, Clone)]
pub struct ParticleAttribute {
    ptype: ParticleAttributeType,
    count: u8,
    name: &'static str,
    attribute_index: usize,
}

impl View for ParticleAttribute {
    type V = AttributeModel;

    closed spec fn view(&self) -> AttributeModel {
        AttributeModel {
            ptype: self.ptype,
            count: self.count,
            name: self.name.spec_bytes(),
            index: self.attribute_index as nat,
        }
    }
}

impl ParticleAttribute {
    pub(crate) fn new(name: &'static str, ptype: ParticleAttributeType, count: u8, index: usize) -> (r:
        ParticleAttribute)
        ensures
            r@ == (AttributeModel { ptype, count, name: name.spec_bytes(), index: index as nat }),
    {
        ParticleAttribute { ptype, count, name, attribute_index: index }
    }

    /// The attribute's element type.
    pub fn ptype(&self) -> (r: ParticleAttributeType)
        ensures
            r == self@.ptype,
    {
        self.ptype
    }

    /// The attribute's component count.
    pub fn count(&self) -> (r: u8)
        ensures
            r == self@.count,
    {
        self.count
    }

    /// The attribute's name.
    pub fn name(&self) -> (r: &'static str)
        ensures
            r.spec_bytes() == self@.name,
    {
        self.name
    }

    /// The attribute's position in the schema.
    pub fn index(&self) -> (r: usize)
        ensures
            r == self@.index,
    {
        self.attribute_index
    }
}

/// What a whole-dataset attribute is, as the contracts see it.
pub struct FixedModel {
    pub ptype: ParticleAttributeType,
    pub count: u8,
    pub name: Seq<u8>,
}

/// A whole-dataset (not per-particle) attribute.
#[derive(Debug)]
pub struct FixedAttribute {
    ptype: ParticleAttributeType,
    count: u8,
    name: &'static str,
}

impl View for FixedAttribute {
    type V = FixedModel;

    closed spec fn view(&self) -> FixedModel {
        FixedModel { ptype: self.ptype, count: self.count, name: self.name.spec_bytes() }
    }
}

/// The bytes per component stored for `t`.
pub fn element_width_of(t: ParticleAttributeType) -> (r: usize)
    ensures
        r == element_width(t),
{
    match t {
        ParticleAttributeType::NONE => 0,
        _ => 4,
    }
}

/// The type code that an attribute definition carries for `t`.
pub fn wire_type_code_of(t: ParticleAttributeType) -> (r: u32)
    ensures
        r == wire_type_code(t),
{
    match t {
        ParticleAttributeType::FLOAT => 0,
        ParticleAttributeType::INT => 1,
        ParticleAttributeType::INDEXEDSTR => 4,
        ParticleAttributeType::VECTOR => 5,
        ParticleAttributeType::NONE => 0,
    }
}

/// Whether two byte strings are equal.
pub fn same_bytes(a: &[u8], b: &[u8]) -> (r: bool)
    ensures
        r == (a@ == b@),
{
    if a.len() != b.len() {
        return false;
    }
    let mut i: usize = 0;
    while i < a.len()
        invariant
            a@.len() == b@.len(),
            i <= a@.len(),
            a@.subrange(0, i as int) == b@.subrange(0, i as int),
        decreases a@.len() - i,
    {
        if a[i] != b[i] {
            assert(a@[i as int] != b@[i as int]);
            return false;
        }
        assert(a@.subrange(0, i + 1) =~= a@.subrange(0, i as int).push(a@[i as int]));
        assert(b@.subrange(0, i + 1) =~= b@.subrange(0, i as int).push(b@[i as int]));
        i = i + 1;
    }
    assert(a@ =~= a@.subrange(0, i as int));
    assert(b@ =~= b@.subrange(0, i as int));
    true
}

/// Whether `name` is `position`.
pub fn is_position(name: &str) -> (r: bool)
    ensures
        r == (name.spec_bytes() == position_name()),
{
    let b = name.as_bytes();
    if b.len() != 8 {
        return false;
    }
    let r = b[0] == 0x70 && b[1] == 0x6f && b[2] == 0x73 && b[3] == 0x69 && b[4] == 0x74 && b[5]
        == 0x69 && b[6] == 0x6f && b[7] == 0x6e;
    if r {
        assert(b@ =~= position_name());
    } else {
        assert(b@ != position_name());
    }
    r
}

} // verus!
