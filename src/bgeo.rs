//! Encoding of a particle set as a BGEO (version 5) byte stream.
use crate::attribute::{
    is_position, position_name, wire_type_code, wire_type_code_of, AttributeModel,
    ParticleAttributeType, SchemaError,
};
use crate::bytes::{
    be_u16, be_u32, le_u32, le_u32_value, lemma_le_u32_round_trip, push_be_u16, push_be_u32,
    push_zeros, word_at, zeros,
};
use crate::particles::{has_name, put_word, ParticlesModel, ParticlesSimple};
use vstd::arithmetic::mul::lemma_mul_inequality;
use vstd::prelude::*;

verus! {

/// Bit pattern of the 32-bit float 1.0: the homogeneous coordinate written
/// after the third component of `position`.
pub const HOMOGENEOUS_ONE: u32 = 0x3f80_0000;

/// The magic `Bgeo` followed by the version character `V`.
pub open spec fn magic() -> Seq<u8> {
    seq![0x42u8, 0x67, 0x65, 0x6f, 0x56]
}

/// Magic, version and the eight counts.
pub open spec fn header(m: ParticlesModel) -> Seq<u8> {
    magic() + be_u32(5) + be_u32(m.count as u32) + be_u32(0) + be_u32(0) + be_u32(0) + be_u32(
        (m.attrs.len() - 1) as u32,
    ) + be_u32(0) + be_u32(0) + be_u32(m.fixed.len() as u32)
}

/// Definition of one attribute: its name, then the type code of an indexed
/// string, or the component count, the type code and a zero default per
/// component.
pub open spec fn attr_def(a: AttributeModel) -> Seq<u8> {
    if a.ptype == ParticleAttributeType::INDEXEDSTR {
        a.name + be_u32(4)
    } else {
        a.name + be_u16(a.count as u16) + be_u32(wire_type_code(a.ptype)) + zeros(4 * a.count as nat)
    }
}

/// Definitions of every attribute of `attrs` but `position`, in order.
pub open spec fn attr_defs(attrs: Seq<AttributeModel>) -> Seq<u8>
    decreases attrs.len(),
{
    if attrs.len() == 0 {
        Seq::empty()
    } else if attrs.last().name == position_name() {
        attr_defs(attrs.drop_last())
    } else {
        attr_defs(attrs.drop_last()) + attr_def(attrs.last())
    }
}

/// Wire bytes of component `c` of attribute `a` of particle `p`: the stored
/// word big-endian (raw for indexed strings, nothing for `NONE`), and after
/// the third component of a `position` vector the word of 1.0.
pub open spec fn component_bytes(m: ParticlesModel, a: int, p: int, c: int) -> Seq<u8> {
    let attr = m.attrs[a];
    let off = m.offset(a, p, c);
    let word = m.regions[a].subrange(off, off + 4);
    match attr.ptype {
        ParticleAttributeType::NONE => Seq::empty(),
        ParticleAttributeType::INDEXEDSTR => word,
        ParticleAttributeType::VECTOR => be_u32(le_u32_value(word)) + if attr.name == position_name()
            && c == 2 {
            be_u32(HOMOGENEOUS_ONE)
        } else {
            Seq::empty()
        },
        _ => be_u32(le_u32_value(word)),
    }
}

/// Wire bytes of the first `n` components of attribute `a` of particle `p`.
pub open spec fn attr_block(m: ParticlesModel, a: int, p: int, n: nat) -> Seq<u8>
    decreases n,
{
    if n == 0 {
        Seq::empty()
    } else {
        attr_block(m, a, p, (n - 1) as nat) + component_bytes(m, a, p, n - 1)
    }
}

/// Wire bytes of the first `k` attributes of particle `p`.
pub open spec fn particle_block(m: ParticlesModel, p: int, k: nat) -> Seq<u8>
    decreases k,
{
    if k == 0 {
        Seq::empty()
    } else {
        particle_block(m, p, (k - 1) as nat) + attr_block(m, k - 1, p, m.attrs[k - 1].count as nat)
    }
}

/// Wire bytes of the first `n` particles.
pub open spec fn data_block(m: ParticlesModel, n: nat) -> Seq<u8>
    decreases n,
{
    if n == 0 {
        Seq::empty()
    } else {
        data_block(m, (n - 1) as nat) + particle_block(m, n - 1, m.attrs.len())
    }
}

/// The end-of-stream marker.
pub open spec fn trailer() -> Seq<u8> {
    seq![0x00u8, 0xff]
}

/// The BGEO encoding of `m`, refused when no attribute is named `position`.
pub open spec fn encoding(m: ParticlesModel) -> Result<Seq<u8>, SchemaError> {
    if !has_name(m.attrs, position_name()) {
        Err(SchemaError::MissingPosition)
    } else {
        Ok(header(m) + attr_defs(m.attrs) + data_block(m, m.count) + trailer())
    }
}

/// Encoding depends on the particle set alone: the same set encodes to the
/// same bytes every time.
pub proof fn lemma_encoding_is_deterministic(a: ParticlesModel, b: ParticlesModel)
    requires
        a == b,
    ensures
        encoding(a) == encoding(b),
{
}

/// Encoding fails, with `MissingPosition`, exactly when no attribute is
/// named `position`.
pub proof fn lemma_missing_position_fails(m: ParticlesModel)
    ensures
        encoding(m) is Err <==> !has_name(m.attrs, position_name()),
        !has_name(m.attrs, position_name()) ==> encoding(m) == Err::<Seq<u8>, SchemaError>(
            SchemaError::MissingPosition,
        ),
{
}

/// A three-component `position` vector is written as four big-endian words
/// for every particle: its three stored components, then 1.0 whatever they
/// hold.
pub proof fn lemma_position_gets_homogeneous_one(m: ParticlesModel, a: int, p: int)
    requires
        m.wf(),
        0 <= a < m.attrs.len(),
        0 <= p < m.count,
        m.attrs[a].name == position_name(),
        m.attrs[a].ptype == ParticleAttributeType::VECTOR,
        m.attrs[a].count == 3,
    ensures
        attr_block(m, a, p, 3) == be_u32(le_u32_value(m.regions[a].subrange(p * 12, p * 12 + 4)))
            + be_u32(le_u32_value(m.regions[a].subrange(p * 12 + 4, p * 12 + 8))) + be_u32(
            le_u32_value(m.regions[a].subrange(p * 12 + 8, p * 12 + 12)),
        ) + be_u32(HOMOGENEOUS_ONE),
        attr_block(m, a, p, 3).len() == 16,
        attr_block(m, a, p, 3).subrange(12, 16) == be_u32(HOMOGENEOUS_ONE),
{
    assert(m.strides[a] == 12);
    reveal_with_fuel(attr_block, 4);
    assert(attr_block(m, a, p, 3) =~= be_u32(le_u32_value(m.regions[a].subrange(p * 12, p * 12 + 4)))
        + be_u32(le_u32_value(m.regions[a].subrange(p * 12 + 4, p * 12 + 8))) + be_u32(
        le_u32_value(m.regions[a].subrange(p * 12 + 8, p * 12 + 12)),
    ) + be_u32(HOMOGENEOUS_ONE));
    assert(attr_block(m, a, p, 3).subrange(12, 16) =~= be_u32(HOMOGENEOUS_ONE));
}

/// A float, vector or integer component stored with `write_value` is
/// encoded as that value's big-endian bytes.
pub proof fn lemma_written_value_is_encoded(m: ParticlesModel, a: int, p: int, c: int, v: u32)
    requires
        m.wf(),
        0 <= a < m.attrs.len(),
        0 <= p < m.count,
        0 <= c,
        4 * c + 4 <= m.strides[a],
        m.attrs[a].ptype != ParticleAttributeType::NONE,
        m.attrs[a].ptype != ParticleAttributeType::INDEXEDSTR,
    ensures
        component_bytes(
            ParticlesModel { regions: m.regions_with(a, m.offset(a, p, c), v), ..m },
            a,
            p,
            c,
        ).subrange(0, 4) == be_u32(v),
{
    let s = m.strides[a] as int;
    let off = m.offset(a, p, c);
    lemma_mul_inequality(p + 1, m.count as int, s);
    assert((p + 1) * s == p * s + s) by (nonlinear_arith);
    assert(off + 4 <= m.regions[a].len());
    let w = put_word(m.regions[a], off, v);
    assert(w.subrange(off, off + 4) =~= le_u32(v));
    lemma_le_u32_round_trip(v);
    let after = ParticlesModel { regions: m.regions_with(a, off, v), ..m };
    assert(component_bytes(after, a, p, c).subrange(0, 4) =~= be_u32(v));
}

/// Appends `bytes`.
fn push_bytes(out: &mut Vec<u8>, bytes: &[u8])
    ensures
        final(out)@ == old(out)@ + bytes@,
{
    let mut i: usize = 0;
    while i < bytes.len()
        invariant
            i <= bytes@.len(),
            out@ == old(out)@ + bytes@.subrange(0, i as int),
        decreases bytes@.len() - i,
    {
        out.push(bytes[i]);
        i = i + 1;
        assert(out@ =~= old(out)@ + bytes@.subrange(0, i as int));
    }
    assert(bytes@.subrange(0, i as int) =~= bytes@);
}

impl ParticlesSimple {
    /// Whether some attribute is named `position`.
    pub fn has_position(&self) -> (r: bool)
        requires
            self.wf(),
        ensures
            r == has_name(self@.attrs, position_name()),
    {
        let mut i: usize = 0;
        while i < self.num_attributes()
            invariant
                self.wf(),
                i <= self@.attrs.len(),
                forall|j: int| 0 <= j < i ==> #[trigger] self@.attrs[j].name != position_name(),
            decreases self@.attrs.len() - i,
        {
            let a = self.attribute(i);
            if is_position(a.name()) {
                return true;
            }
            i = i + 1;
        }
        false
    }

    /// Appends the wire bytes of component `c` of attribute `a` of particle `p`.
    fn push_component(&self, out: &mut Vec<u8>, a: usize, p: u64, c: u8, pos: bool)
        requires
            self.wf(),
            a < self@.attrs.len(),
            p < self@.count,
            c < self@.attrs[a as int].count,
            pos == (self@.attrs[a as int].name == position_name()),
        ensures
            final(out)@ == old(out)@ + component_bytes(self@, a as int, p as int, c as int),
    {
        let attr = self.attribute(a);
        let ptype = attr.ptype();
        if ptype == ParticleAttributeType::NONE {
            assert(old(out)@ + Seq::<u8>::empty() =~= old(out)@);
            return;
        }
        let stride = self.stride(a);
        let region = self.region(a);
        let ghost m = self@;
        proof {
            let n = attr@.count as int;
            assert(stride == n * 4);
            assert(m.regions[a as int].len() == m.count * stride);
            lemma_mul_inequality(p as int + 1, m.count as int, stride as int);
            assert((p as int + 1) * stride == p as int * stride + stride) by (nonlinear_arith);
            assert(p as int <= p as int * stride) by (nonlinear_arith)
                requires
                    stride >= 4,
            ;
            assert(c as int * 4 + 4 <= stride);
        }
        assert(p as int * stride + c as int * 4 + 4 <= region.len());
        let off: usize = p as usize * stride + c as usize * 4;
        if ptype == ParticleAttributeType::INDEXEDSTR {
            let word = vstd::slice::slice_subrange(region.as_slice(), off, off + 4);
            push_bytes(out, word);
        } else {
            let w = word_at(region.as_slice(), off);
            push_be_u32(out, w);
            if ptype == ParticleAttributeType::VECTOR && pos && c == 2 {
                push_be_u32(out, HOMOGENEOUS_ONE);
            }
        }
        assert(final(out)@ =~= old(out)@ + component_bytes(m, a as int, p as int, c as int));
    }

    /// Appends the definitions of every attribute but `position`.
    fn push_attr_defs(&self, out: &mut Vec<u8>)
        requires
            self.wf(),
        ensures
            final(out)@ == old(out)@ + attr_defs(self@.attrs),
    {
        let ghost m = self@;
        let n = self.num_attributes();
        let mut i: usize = 0;
        while i < n
            invariant
                self.wf(),
                m == self@,
                n == m.attrs.len(),
                i <= n,
                out@ == old(out)@ + attr_defs(m.attrs.take(i as int)),
            decreases n - i,
        {
            let a = self.attribute(i);
            let ghost before = out@;
            assert(m.attrs.take(i + 1).drop_last() =~= m.attrs.take(i as int));
            assert(m.attrs.take(i + 1).last() == a@);
            if !is_position(a.name()) {
                push_bytes(out, a.name().as_bytes());
                if a.ptype() == ParticleAttributeType::INDEXEDSTR {
                    push_be_u32(out, 4);
                } else {
                    push_be_u16(out, a.count() as u16);
                    push_be_u32(out, wire_type_code_of(a.ptype()));
                    push_zeros(out, 4 * a.count() as usize);
                }
                assert(out@ =~= before + attr_def(a@));
            }
            i = i + 1;
        }
        assert(m.attrs.take(n as int) =~= m.attrs);
    }

    /// Appends the wire bytes of particle `p`.
    fn push_particle(&self, out: &mut Vec<u8>, p: u64)
        requires
            self.wf(),
            p < self@.count,
        ensures
            final(out)@ == old(out)@ + particle_block(self@, p as int, self@.attrs.len()),
    {
        let ghost m = self@;
        let n = self.num_attributes();
        let mut a: usize = 0;
        while a < n
            invariant
                self.wf(),
                m == self@,
                n == m.attrs.len(),
                p < m.count,
                a <= n,
                out@ == old(out)@ + particle_block(m, p as int, a as nat),
            decreases n - a,
        {
            let attr = self.attribute(a);
            let pos = is_position(attr.name());
            let count = attr.count();
            let ghost start = out@;
            let mut c: u8 = 0;
            while c < count
                invariant
                    self.wf(),
                    m == self@,
                    a < n,
                    n == m.attrs.len(),
                    p < m.count,
                    count == m.attrs[a as int].count,
                    pos == (m.attrs[a as int].name == position_name()),
                    c <= count,
                    out@ == start + attr_block(m, a as int, p as int, c as nat),
                decreases count - c,
            {
                let ghost before = out@;
                self.push_component(out, a, p, c, pos);
                c = c + 1;
                assert(out@ =~= start + attr_block(m, a as int, p as int, c as nat));
            }
            a = a + 1;
            assert(out@ =~= old(out)@ + particle_block(m, p as int, a as nat));
        }
    }

    /// Encodes the particle set as a BGEO byte stream: header, attribute
    /// definitions, particle data and trailer. Refused when no attribute is
    /// named `position`. The header counts are 32-bit, so the set may hold at
    /// most `u32::MAX` particles and `u32::MAX` attributes besides `position`.
    pub fn encode(&self) -> (r: Result<Vec<u8>, SchemaError>)
        requires
            self.wf(),
            self@.count <= u32::MAX,
            self@.attrs.len() <= u32::MAX + 1,
        ensures
            r is Err <==> encoding(self@) is Err,
            r matches Ok(bytes) ==> encoding(self@) == Ok::<Seq<u8>, SchemaError>(bytes@),
            r matches Err(e) ==> encoding(self@) == Err::<Seq<u8>, SchemaError>(e),
    {
        if !self.has_position() {
            return Err(SchemaError::MissingPosition);
        }
        let ghost m = self@;
        let mut out: Vec<u8> = Vec::new();
        out.push(0x42);
        out.push(0x67);
        out.push(0x65);
        out.push(0x6f);
        out.push(0x56);
        push_be_u32(&mut out, 5);
        push_be_u32(&mut out, self.num_particles() as u32);
        push_be_u32(&mut out, 0);
        push_be_u32(&mut out, 0);
        push_be_u32(&mut out, 0);
        push_be_u32(&mut out, (self.num_attributes() - 1) as u32);
        push_be_u32(&mut out, 0);
        push_be_u32(&mut out, 0);
        push_be_u32(&mut out, self.num_fixed_attributes() as u32);
        assert(out@ =~= header(m));
        self.push_attr_defs(&mut out);
        let ghost prefix = out@;
        let count = self.num_particles();
        let mut p: u64 = 0;
        while p < count
            invariant
                self.wf(),
                m == self@,
                count == m.count,
                p <= count,
                out@ == prefix + data_block(m, p as nat),
            decreases count - p,
        {
            self.push_particle(&mut out, p);
            p = p + 1;
            assert(out@ =~= prefix + data_block(m, p as nat));
        }
        out.push(0x00);
        out.push(0xff);
        assert(out@ =~= header(m) + attr_defs(m.attrs) + data_block(m, m.count) + trailer());
        Ok(out)
    }
}

} // verus!
