//! The particle set: an attribute schema with one byte region per attribute.
use crate::attribute::{
    element_width, element_width_of, same_bytes, AttributeModel, FixedAttribute,
    FixedModel, ParticleAttribute, ParticleAttributeType, ProtocolError, SchemaError,
};
use crate::bytes::{le_u32, push_zeros, store_word, zeros};
use vstd::arithmetic::mul::lemma_mul_inequality;
use vstd::prelude::*;
use vstd::string::StringSliceAdditionalSpecFns;

verus! {

/// Index of a particle within a set.
pub type ParticleIndex = u64;

/// What a particle set is, as the contracts see it.
pub struct ParticlesModel {
    /// Number of particles.
    pub count: nat,
    /// Per-particle attributes, in schema order.
    pub attrs: Seq<AttributeModel>,
    /// Bytes per particle of each attribute.
    pub strides: Seq<nat>,
    /// Stored bytes of each attribute, particle after particle.
    pub regions: Seq<Seq<u8>>,
    /// Whole-dataset attributes. Writing their values is not supported, so
    /// no operation adds one and the list stays empty.
    pub fixed: Seq<FixedModel>,
    /// Attribute of the newest particle that the next sequential write fills.
    pub cursor_attr: nat,
    /// Byte offset, within that attribute's bytes of the newest particle, of the next write.
    pub cursor_off: nat,
}

/// Bytes per particle of an attribute.
pub open spec fn stride_of(a: AttributeModel) -> nat {
    a.count as nat * element_width(a.ptype)
}

/// The first attribute at or after `k` that stores any bytes, or `strides.len()`.
pub open spec fn next_slot(strides: Seq<nat>, k: nat) -> nat
    decreases strides.len() - k,
{
    if k >= strides.len() {
        strides.len()
    } else if strides[k as int] > 0 {
        k
    } else {
        next_slot(strides, k + 1)
    }
}

/// `s` with the four bytes at `off` replaced by the little-endian bytes of `v`.
pub open spec fn put_word(s: Seq<u8>, off: int, v: u32) -> Seq<u8> {
    s.subrange(0, off) + le_u32(v) + s.subrange(off + 4, s.len() as int)
}

/// Strides are whole words, at most 255 of them.
pub proof fn lemma_stride_words(a: AttributeModel)
    ensures
        stride_of(a) % 4 == 0,
        stride_of(a) <= 1020,
        stride_of(a) > 0 ==> stride_of(a) >= 4,
{
    let c = a.count as nat;
    let w = element_width(a.ptype);
    assert(c * w % 4 == 0 && c * w <= 1020 && (c * w > 0 ==> c * w >= 4)) by (nonlinear_arith)
        requires
            w == 0 || w == 4,
            c <= 255,
    ;
}

/// `next_slot` stops at an attribute that stores bytes, after skipping only
/// attributes that store none.
pub proof fn lemma_next_slot(strides: Seq<nat>, k: nat)
    requires
        k <= strides.len(),
    ensures
        k <= next_slot(strides, k) <= strides.len(),
        next_slot(strides, k) < strides.len() ==> strides[next_slot(strides, k) as int] > 0,
    decreases strides.len() - k,
{
    if k < strides.len() && strides[k as int] == 0 {
        lemma_next_slot(strides, k + 1);
    }
}

/// What one sequential write of `value` does to `m`: it is refused before
/// the first particle and once every component of the newest particle is
/// written; otherwise it fills the component under the cursor and moves the
/// cursor on, past attributes that store no bytes.
pub open spec fn sequential_write(
    m: ParticlesModel,
    value: u32,
    r: Result<(), ProtocolError>,
    after: ParticlesModel,
) -> bool {
    let a = m.cursor_attr as int;
    let next_off = m.cursor_off + 4;
    &&& r == Err::<(), ProtocolError>(ProtocolError::NoParticle) <==> m.count == 0
    &&& m.count > 0 && m.cursor_attr == m.attrs.len() ==> r == Err::<(), ProtocolError>(
        ProtocolError::RowComplete,
    )
    &&& m.count > 0 && m.cursor_attr < m.attrs.len() ==> r is Ok
    &&& r is Err ==> after == m
    &&& r is Ok ==> after == (ParticlesModel {
        regions: m.regions_with(a, (m.count - 1) * m.strides[a] + m.cursor_off, value),
        cursor_attr: if next_off < m.strides[a] {
            m.cursor_attr
        } else {
            next_slot(m.strides, m.cursor_attr + 1)
        },
        cursor_off: if next_off < m.strides[a] {
            next_off
        } else {
            0
        },
        ..m
    })
}

/// In every particle set, the stride of each attribute is its component
/// count times the width of its element type.
pub proof fn lemma_stride_is_count_times_width(m: ParticlesModel)
    requires
        m.wf(),
    ensures
        forall|i: int|
            0 <= i < m.attrs.len() ==> #[trigger] m.strides[i] == m.attrs[i].count as nat
                * element_width(m.attrs[i].ptype),
{
}

/// Adding a particle keeps every region rectangular: each holds exactly
/// the new particle count times its stride bytes.
pub proof fn lemma_add_particle_keeps_regions_rectangular(m: ParticlesModel)
    requires
        m.wf(),
        m.count < u64::MAX,
    ensures
        forall|i: int|
            0 <= i < m.attrs.len() ==> #[trigger] m.grown_regions()[i].len() == (m.count + 1)
                * m.strides[i],
{
    assert forall|i: int| 0 <= i < m.attrs.len() implies #[trigger] m.grown_regions()[i].len() == (
    m.count + 1) * m.strides[i] by {
        vstd::arithmetic::mul::lemma_mul_is_distributive_add_other_way(
            m.strides[i] as int,
            m.count as int,
            1,
        );
    }
}

/// Whether some attribute of `attrs` is named `name`.
pub open spec fn has_name(attrs: Seq<AttributeModel>, name: Seq<u8>) -> bool {
    exists|i: int| 0 <= i < attrs.len() && #[trigger] attrs[i].name == name
}

impl ParticlesModel {
    /// The invariant of a particle set.
    pub open spec fn wf(self) -> bool {
        &&& self.attrs.len() == self.strides.len()
        &&& self.attrs.len() == self.regions.len()
        &&& self.count <= u64::MAX
        &&& forall|i: int| 0 <= i < self.attrs.len() ==> #[trigger] self.attrs[i].index == i
        &&& forall|i: int|
            0 <= i < self.attrs.len() ==> #[trigger] self.strides[i] == stride_of(self.attrs[i])
        &&& forall|i: int|
            0 <= i < self.attrs.len() ==> #[trigger] self.regions[i].len() == self.count
                * self.strides[i]
        &&& forall|i: int, j: int|
            0 <= i < self.attrs.len() && 0 <= j < self.attrs.len() && i != j ==> #[trigger] self.attrs[i].name
                != #[trigger] self.attrs[j].name
        &&& self.cursor_attr <= self.attrs.len()
        &&& self.cursor_attr < self.attrs.len() ==> {
            &&& self.count > 0
            &&& self.cursor_off + 4 <= self.strides[self.cursor_attr as int]
            &&& self.cursor_off % 4 == 0
        }
        &&& self.cursor_attr == self.attrs.len() ==> self.cursor_off == 0
        &&& self.fixed.len() == 0
    }

    /// The attribute that handle `h` names: its position names an attribute
    /// of this schema, of the same name.
    pub open spec fn names(self, h: AttributeModel) -> bool {
        h.index < self.attrs.len() && self.attrs[h.index as int].name == h.name
    }

    /// Offset in its region of component `c` of particle `p` of attribute `a`.
    pub open spec fn offset(self, a: int, p: int, c: int) -> int {
        p * self.strides[a] + 4 * c
    }

    /// The regions after the word at `off` of region `a` holds `v`.
    pub open spec fn regions_with(self, a: int, off: int, v: u32) -> Seq<Seq<u8>> {
        self.regions.update(a, put_word(self.regions[a], off, v))
    }

    /// The regions after one more particle: each grows by its stride of zero bytes.
    pub open spec fn grown_regions(self) -> Seq<Seq<u8>> {
        Seq::new(self.regions.len(), |i: int| self.regions[i] + zeros(self.strides[i]))
    }
}

/// A particle set: attribute schema, per-attribute byte regions and a
/// particle counter.
#[derive(Debug)]
pub struct ParticlesSimple {
    particle_count: u64,
    attribute_data: Vec<Vec<u8>>,
    attributes: Vec<ParticleAttribute>,
    attribute_strides: Vec<usize>,
    fixed_attributes: Vec<FixedAttribute>,
    cursor_attr: usize,
    cursor_off: usize,
}

impl View for ParticlesSimple {
    type V = ParticlesModel;

    closed spec fn view(&self) -> ParticlesModel {
        ParticlesModel {
            count: self.particle_count as nat,
            attrs: self.attributes@.map_values(|a: ParticleAttribute| a@),
            strides: self.attribute_strides@.map_values(|s: usize| s as nat),
            regions: self.attribute_data@.map_values(|r: Vec<u8>| r@),
            fixed: self.fixed_attributes@.map_values(|f: FixedAttribute| f@),
            cursor_attr: self.cursor_attr as nat,
            cursor_off: self.cursor_off as nat,
        }
    }
}

impl ParticlesSimple {
    /// The invariant of a particle set.
    pub open spec fn wf(&self) -> bool {
        self@.wf()
    }

    /// Number of particles in the structure.
    pub fn num_particles(&self) -> (r: u64)
        ensures
            r == self@.count,
    {
        self.particle_count
    }

    /// Number of per-particle attributes.
    pub fn num_attributes(&self) -> (r: usize)
        ensures
            r == self@.attrs.len(),
    {
        self.attributes.len()
    }

    /// Number of fixed attributes.
    pub fn num_fixed_attributes(&self) -> (r: usize)
        ensures
            r == self@.fixed.len(),
    {
        self.fixed_attributes.len()
    }

    /// The attribute at position `i` of the schema.
    pub fn attribute(&self, i: usize) -> (r: ParticleAttribute)
        requires
            i < self@.attrs.len(),
        ensures
            r@ == self@.attrs[i as int],
    {
        self.attributes[i]
    }

    /// Bytes per particle of the attribute at position `i`.
    pub fn stride(&self, i: usize) -> (r: usize)
        requires
            i < self@.attrs.len(),
            self.wf(),
        ensures
            r == self@.strides[i as int],
    {
        self.attribute_strides[i]
    }

    /// The stored bytes of the attribute at position `i`.
    pub fn region(&self, i: usize) -> (r: &Vec<u8>)
        requires
            i < self@.attrs.len(),
            self.wf(),
        ensures
            r@ == self@.regions[i as int],
    {
        &self.attribute_data[i]
    }

    /// The attribute named `name`, if the schema has one.
    ///
    /// A scan of the schema in order, comparing names byte for byte: it is
    /// what lets the contract say exactly which attribute comes back and that
    /// names stay unique. A hashed index keyed by the names would answer in
    /// constant time, but its lookups on string keys carry no proof here.
    pub fn find_attribute(&self, name: &str) -> (r: Option<ParticleAttribute>)
        requires
            self.wf(),
        ensures
            r is None <==> !has_name(self@.attrs, name.spec_bytes()),
            r matches Some(h) ==> h@.index < self@.attrs.len() && h@ == self@.attrs[h@.index as int]
                && h@.name == name.spec_bytes(),
    {
        let target = name.as_bytes();
        let mut i: usize = 0;
        while i < self.attributes.len()
            invariant
                self.wf(),
                target@ == name.spec_bytes(),
                i <= self@.attrs.len(),
                forall|j: int| 0 <= j < i ==> #[trigger] self@.attrs[j].name != name.spec_bytes(),
            decreases self@.attrs.len() - i,
        {
            let a = self.attributes[i];
            assert(a@ == self@.attrs[i as int]);
            if same_bytes(a.name().as_bytes(), target) {
                return Some(a);
            }
            i = i + 1;
        }
        None
    }

    /// Adds an attribute to the particle with the provided name, type and
    /// count. Refused once particles exist, and for a name already declared.
    pub fn add_attribute(&mut self, attribute: &'static str, ptype: ParticleAttributeType, count: u8)
        -> (r: Result<ParticleAttribute, SchemaError>)
        requires
            old(self).wf(),
        ensures
            final(self).wf(),
            old(self)@.count > 0 ==> r == Err::<ParticleAttribute, SchemaError>(
                SchemaError::AfterParticles,
            ),
            old(self)@.count == 0 && has_name(old(self)@.attrs, attribute.spec_bytes()) ==> r
                == Err::<ParticleAttribute, SchemaError>(SchemaError::DuplicateName),
            r is Err ==> final(self)@ == old(self)@,
            r is Ok <==> old(self)@.count == 0 && !has_name(old(self)@.attrs, attribute.spec_bytes()),
            r matches Ok(h) ==> {
                &&& h@ == (AttributeModel {
                    ptype,
                    count,
                    name: attribute.spec_bytes(),
                    index: old(self)@.attrs.len(),
                })
                &&& final(self)@ == (ParticlesModel {
                    attrs: old(self)@.attrs.push(h@),
                    strides: old(self)@.strides.push(count as nat * element_width(ptype)),
                    regions: old(self)@.regions.push(Seq::empty()),
                    cursor_attr: old(self)@.attrs.len() + 1,
                    cursor_off: 0,
                    ..old(self)@
                })
            },
    {
        if self.particle_count > 0 {
            return Err(SchemaError::AfterParticles);
        }
        if self.find_attribute(attribute).is_some() {
            return Err(SchemaError::DuplicateName);
        }
        let len = self.attributes.len();
        let attr = ParticleAttribute::new(attribute, ptype, count, len);
        self.attributes.push(attr);
        let width = element_width_of(ptype);
        assert(count as usize * width <= 255 * 4) by (nonlinear_arith)
            requires
                width <= 4,
                count <= 255,
        ;
        let stride: usize = count as usize * width;
        self.attribute_strides.push(stride);
        self.attribute_data.push(Vec::new());
        self.cursor_attr = self.attributes.len();
        self.cursor_off = 0;
        proof {
            let m = self@;
            let o = old(self)@;
            assert(m.attrs =~= o.attrs.push(attr@));
            assert(m.strides =~= o.strides.push(count as nat * element_width(ptype)));
            assert(m.regions =~= o.regions.push(Seq::empty()));
            assert forall|i: int, j: int|
                0 <= i < m.attrs.len() && 0 <= j < m.attrs.len() && i != j implies #[trigger] m.attrs[i].name
                != #[trigger] m.attrs[j].name by {
                if i == len as int {
                    assert(o.attrs[j].name != attribute.spec_bytes());
                } else if j == len as int {
                    assert(o.attrs[i].name != attribute.spec_bytes());
                }
            }
        }
        Ok(attr)
    }

    /// The first attribute at or after `k` that stores any bytes.
    fn next_slot_from(&self, k: usize) -> (r: usize)
        requires
            k <= self@.strides.len(),
        ensures
            r == next_slot(self@.strides, k as nat),
    {
        let mut j: usize = k;
        while j < self.attribute_strides.len() && self.attribute_strides[j] == 0
            invariant
                k <= j <= self@.strides.len(),
                next_slot(self@.strides, j as nat) == next_slot(self@.strides, k as nat),
            decreases self@.strides.len() - j,
        {
            j = j + 1;
        }
        j
    }

    /// Adds a new particle and returns its index. Every attribute's region
    /// grows by its stride of zero bytes, and the sequential writer moves to
    /// the first component of the new particle.
    pub fn add_particle(&mut self) -> (r: ParticleIndex)
        requires
            old(self).wf(),
            old(self)@.count < u64::MAX,
        ensures
            final(self).wf(),
            r == old(self)@.count,
            final(self)@ == (ParticlesModel {
                count: old(self)@.count + 1,
                regions: old(self)@.grown_regions(),
                cursor_attr: next_slot(old(self)@.strides, 0),
                cursor_off: 0,
                ..old(self)@
            }),
    {
        let index: ParticleIndex = self.particle_count;
        let slot = self.next_slot_from(0);
        let n = self.attribute_data.len();
        let mut i: usize = 0;
        while i < n
            invariant
                old(self).wf(),
                n == old(self)@.regions.len(),
                i <= n,
                self.particle_count == old(self).particle_count,
                self.attributes == old(self).attributes,
                self.attribute_strides == old(self).attribute_strides,
                self.fixed_attributes == old(self).fixed_attributes,
                self.cursor_attr == old(self).cursor_attr,
                self.cursor_off == old(self).cursor_off,
                self@.regions.len() == n,
                forall|j: int| 0 <= j < i ==> #[trigger] self@.regions[j] == old(self)@.grown_regions()[j],
                forall|j: int| i <= j < n ==> #[trigger] self@.regions[j] == old(self)@.regions[j],
            decreases n - i,
        {
            let stride = self.attribute_strides[i];
            let ghost before = self@.regions;
            push_zeros(&mut self.attribute_data[i], stride);
            assert(self@.regions =~= before.update(i as int, before[i as int] + zeros(stride as nat)));
            i = i + 1;
        }
        self.particle_count = self.particle_count + 1;
        self.cursor_attr = slot;
        self.cursor_off = 0;
        proof {
            lemma_next_slot(self@.strides, 0);
            if slot < n {
                lemma_stride_words(self@.attrs[slot as int]);
            }
            assert(self.wf()) by {
                assert forall|j: int| 0 <= j < n implies #[trigger] self@.regions[j].len() == self@.count * self@.strides[j] by {
                    assert(self@.regions[j] == old(self)@.regions[j] + zeros(old(self)@.strides[j]));
                    vstd::arithmetic::mul::lemma_mul_is_distributive_add_other_way(
                        self@.strides[j] as int, old(self)@.count as int, 1);
                }
            }
        }
        proof {
            assert(self@.regions =~= old(self)@.grown_regions());
        }
        index
    }

    /// Stores `value` as component `component` of attribute `attr` of
    /// particle `particle`.
    pub fn write_value(
        &mut self,
        attr: &ParticleAttribute,
        particle: ParticleIndex,
        component: u8,
        value: u32,
    ) -> (r: Result<(), ProtocolError>)
        requires
            old(self).wf(),
        ensures
            final(self).wf(),
            r == Err::<(), ProtocolError>(ProtocolError::UnknownAttribute) <==> !old(self)@.names(
                attr@,
            ),
            old(self)@.names(attr@) && particle >= old(self)@.count ==> r == Err::<(), ProtocolError>(
                ProtocolError::ParticleOutOfRange,
            ),
            old(self)@.names(attr@) && particle < old(self)@.count && 4 * component + 4
                > old(self)@.strides[attr@.index as int] ==> r == Err::<(), ProtocolError>(
                ProtocolError::ComponentOutOfRange,
            ),
            old(self)@.names(attr@) && particle < old(self)@.count && 4 * component + 4
                <= old(self)@.strides[attr@.index as int] ==> r is Ok,
            r is Err ==> final(self)@ == old(self)@,
            r is Ok ==> final(self)@ == (ParticlesModel {
                regions: old(self)@.regions_with(
                    attr@.index as int,
                    old(self)@.offset(attr@.index as int, particle as int, component as int),
                    value,
                ),
                ..old(self)@
            }),
    {
        let i = attr.index();
        if i >= self.attributes.len() || !same_bytes(
            self.attributes[i].name().as_bytes(),
            attr.name().as_bytes(),
        ) {
            return Err(ProtocolError::UnknownAttribute);
        }
        if particle >= self.particle_count {
            return Err(ProtocolError::ParticleOutOfRange);
        }
        let stride = self.attribute_strides[i];
        if component as usize * 4 + 4 > stride {
            return Err(ProtocolError::ComponentOutOfRange);
        }
        proof {
            let m = self@;
            assert(m.regions[i as int].len() == m.count * stride);
            lemma_mul_inequality(particle as int + 1, m.count as int, stride as int);
            assert((particle as int + 1) * stride == particle as int * stride + stride) by (nonlinear_arith);
            assert(particle as int <= particle as int * stride) by (nonlinear_arith)
                requires stride >= 4;
        }
        assert(particle as int * stride + component as int * 4 + 4 <= self.attribute_data[i as int].len());
        let off: usize = particle as usize * stride + component as usize * 4;
        let ghost before = self@.regions;
        store_word(&mut self.attribute_data[i], off, value);
        assert(self@.regions =~= before.update(i as int, put_word(before[i as int], off as int, value)));
        Ok(())
    }

    /// Stores `value` in the next component of the newest particle, in
    /// schema order: all components of an attribute, then the next attribute
    /// that stores any bytes.
    pub fn write_next(&mut self, value: u32) -> (r: Result<(), ProtocolError>)
        requires
            old(self).wf(),
        ensures
            final(self).wf(),
            sequential_write(old(self)@, value, r, final(self)@),
    {
        if self.particle_count == 0 {
            return Err(ProtocolError::NoParticle);
        }
        let a = self.cursor_attr;
        if a >= self.attributes.len() {
            return Err(ProtocolError::RowComplete);
        }
        let stride = self.attribute_strides[a];
        let last: u64 = self.particle_count - 1;
        proof {
            let m = self@;
            assert(m.regions[a as int].len() == m.count * stride);
            assert((last as int + 1) * stride == last as int * stride + stride) by (nonlinear_arith);
            assert(last as int <= last as int * stride) by (nonlinear_arith)
                requires stride >= 4;
        }
        assert(last as int * stride + self.cursor_off + 4 <= self.attribute_data[a as int].len());
        let off: usize = last as usize * stride + self.cursor_off;
        let ghost before = self@.regions;
        store_word(&mut self.attribute_data[a], off, value);
        assert(self@.regions =~= before.update(a as int, put_word(before[a as int], off as int, value)));
        if self.cursor_off + 4 < stride {
            self.cursor_off = self.cursor_off + 4;
        } else {
            let next = self.next_slot_from(a + 1);
            proof {
                lemma_next_slot(self@.strides, (a + 1) as nat);
                if next < self@.attrs.len() {
                    lemma_stride_words(self@.attrs[next as int]);
                }
            }
            self.cursor_attr = next;
            self.cursor_off = 0;
        }
        proof {
            lemma_stride_words(self@.attrs[a as int]);
        }
        Ok(())
    }
}

/// Writes raw values into a particle set in schema order.
pub trait DataWriter<T> {
    /// Whether the writer is in a state that accepts writes.
    spec fn writable(&self) -> bool;

    /// Stores `data` in the next component of the newest particle.
    fn data_write(&mut self, data: &T) -> (r: Result<(), ProtocolError>)
        requires
            old(self).writable(),
        ensures
            final(self).writable(),
    ;
}

impl DataWriter<u32> for ParticlesSimple {
    open spec fn writable(&self) -> bool {
        self.wf()
    }

    fn data_write(&mut self, data: &u32) -> (r: Result<(), ProtocolError>)
        ensures
            sequential_write(old(self)@, *data, r, final(self)@),
    {
        self.write_next(*data)
    }
}

/// Creates empty particle sets.
pub struct ParticlesSimpleBuilder {}

impl ParticlesSimpleBuilder {
    pub fn new() -> ParticlesSimpleBuilder {
        ParticlesSimpleBuilder {}
    }

    /// An empty particle set: no attributes, no particles.
    pub fn finalize(self) -> (r: ParticlesSimple)
        ensures
            r.wf(),
            r@.count == 0,
            r@.attrs.len() == 0,
            r@.fixed.len() == 0,
    {
        let r = ParticlesSimple {
            particle_count: 0,
            attribute_data: Vec::new(),
            attributes: Vec::new(),
            attribute_strides: Vec::new(),
            fixed_attributes: Vec::new(),
            cursor_attr: 0,
            cursor_off: 0,
        };
        assert(r@.attrs =~= Seq::empty());
        r
    }
}

} // verus!
