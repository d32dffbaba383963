use partio::{
    DataWriter, ParticleAttributeType, ParticlesSimple, ParticlesSimpleBuilder, ProtocolError,
    SchemaError,
};

fn make_data() -> ParticlesSimple {
    let builder = ParticlesSimpleBuilder::new();
    let mut foo = builder.finalize();
    foo.add_attribute("position", ParticleAttributeType::VECTOR, 3).unwrap();
    foo.add_attribute("life", ParticleAttributeType::FLOAT, 2).unwrap();
    foo.add_attribute("id", ParticleAttributeType::INT, 1).unwrap();
    for i in 0..5u32 {
        let index = foo.add_particle();
        let pos_0: f32 = 0.1_f32 * i as f32;
        let pos_1: f32 = 0.1_f32 * (i + 1) as f32;
        let pos_2: f32 = 0.1_f32 * (i + 2) as f32;
        foo.data_write(&pos_0.to_bits()).unwrap();
        foo.data_write(&pos_1.to_bits()).unwrap();
        foo.data_write(&pos_2.to_bits()).unwrap();
        let life_0: f32 = -1.2_f32 + i as f32;
        let life_1: f32 = 10.0_f32;
        foo.data_write(&life_0.to_bits()).unwrap();
        foo.data_write(&life_1.to_bits()).unwrap();
        let id: u32 = index as u32;
        foo.data_write(&id).unwrap();
    }
    foo
}

fn be_u32_at(bytes: &[u8], off: usize) -> u32 {
    u32::from_be_bytes([bytes[off], bytes[off + 1], bytes[off + 2], bytes[off + 3]])
}

fn f32_be(v: f32) -> Vec<u8> {
    v.to_be_bytes().to_vec()
}

#[test]
fn it_works() {}

#[test]
fn empty_set_has_nothing() {
    let p = ParticlesSimpleBuilder::new().finalize();
    assert_eq!(p.num_particles(), 0);
    assert_eq!(p.num_attributes(), 0);
    assert_eq!(p.num_fixed_attributes(), 0);
}

#[test]
fn strides_are_count_times_width() {
    let mut p = ParticlesSimpleBuilder::new().finalize();
    p.add_attribute("position", ParticleAttributeType::VECTOR, 3).unwrap();
    p.add_attribute("life", ParticleAttributeType::FLOAT, 2).unwrap();
    p.add_attribute("id", ParticleAttributeType::INT, 1).unwrap();
    p.add_attribute("tag", ParticleAttributeType::INDEXEDSTR, 1).unwrap();
    p.add_attribute("void", ParticleAttributeType::NONE, 7).unwrap();
    assert_eq!(p.stride(0), 12);
    assert_eq!(p.stride(1), 8);
    assert_eq!(p.stride(2), 4);
    assert_eq!(p.stride(3), 4);
    assert_eq!(p.stride(4), 0);
}

#[test]
fn handles_carry_their_ordinal() {
    let mut p = ParticlesSimpleBuilder::new().finalize();
    let a = p.add_attribute("position", ParticleAttributeType::VECTOR, 3).unwrap();
    let b = p.add_attribute("life", ParticleAttributeType::FLOAT, 2).unwrap();
    assert_eq!(a.index(), 0);
    assert_eq!(b.index(), 1);
    assert_eq!(b.name(), "life");
    assert_eq!(b.count(), 2);
    assert_eq!(b.ptype(), ParticleAttributeType::FLOAT);
    assert_eq!(p.find_attribute("life").unwrap().index(), 1);
    assert!(p.find_attribute("mass").is_none());
}

#[test]
fn duplicate_attribute_name_is_refused() {
    let mut p = ParticlesSimpleBuilder::new().finalize();
    p.add_attribute("life", ParticleAttributeType::FLOAT, 2).unwrap();
    let r = p.add_attribute("life", ParticleAttributeType::INT, 1);
    assert_eq!(r.unwrap_err(), SchemaError::DuplicateName);
    assert_eq!(p.num_attributes(), 1);
}

#[test]
fn attribute_after_particles_is_refused() {
    let mut p = ParticlesSimpleBuilder::new().finalize();
    p.add_attribute("position", ParticleAttributeType::VECTOR, 3).unwrap();
    p.add_particle();
    let r = p.add_attribute("life", ParticleAttributeType::FLOAT, 2);
    assert_eq!(r.unwrap_err(), SchemaError::AfterParticles);
    assert_eq!(p.num_attributes(), 1);
}

#[test]
fn regions_stay_rectangular() {
    let mut p = ParticlesSimpleBuilder::new().finalize();
    p.add_attribute("position", ParticleAttributeType::VECTOR, 3).unwrap();
    p.add_attribute("id", ParticleAttributeType::INT, 1).unwrap();
    p.add_attribute("void", ParticleAttributeType::NONE, 2).unwrap();
    for n in 1..=4u64 {
        let index = p.add_particle();
        assert_eq!(index, n - 1);
        assert_eq!(p.num_particles(), n);
        for i in 0..p.num_attributes() {
            assert_eq!(p.region(i).len() as u64, n * p.stride(i) as u64);
        }
    }
    assert!(p.region(0).iter().all(|b| *b == 0));
}

#[test]
fn sequential_write_without_particle_is_refused() {
    let mut p = ParticlesSimpleBuilder::new().finalize();
    p.add_attribute("id", ParticleAttributeType::INT, 1).unwrap();
    assert_eq!(p.data_write(&7u32), Err(ProtocolError::NoParticle));
}

#[test]
fn sequential_write_past_row_is_refused() {
    let mut p = ParticlesSimpleBuilder::new().finalize();
    p.add_attribute("id", ParticleAttributeType::INT, 1).unwrap();
    p.add_particle();
    assert_eq!(p.data_write(&7u32), Ok(()));
    assert_eq!(p.data_write(&8u32), Err(ProtocolError::RowComplete));
    assert_eq!(p.region(0), &vec![7u8, 0, 0, 0]);
}

#[test]
fn sequential_write_skips_attributes_without_storage() {
    let mut p = ParticlesSimpleBuilder::new().finalize();
    p.add_attribute("void", ParticleAttributeType::NONE, 3).unwrap();
    p.add_attribute("id", ParticleAttributeType::INT, 1).unwrap();
    p.add_particle();
    assert_eq!(p.write_next(0x0102_0304), Ok(()));
    assert_eq!(p.region(1), &vec![4u8, 3, 2, 1]);
    assert_eq!(p.write_next(9), Err(ProtocolError::RowComplete));
}

#[test]
fn addressed_write_errors() {
    let mut p = ParticlesSimpleBuilder::new().finalize();
    let life = p.add_attribute("life", ParticleAttributeType::FLOAT, 2).unwrap();
    let mut q = ParticlesSimpleBuilder::new().finalize();
    let other = q.add_attribute("mass", ParticleAttributeType::FLOAT, 1).unwrap();
    p.add_particle();
    assert_eq!(p.write_value(&other, 0, 0, 1), Err(ProtocolError::UnknownAttribute));
    assert_eq!(p.write_value(&life, 1, 0, 1), Err(ProtocolError::ParticleOutOfRange));
    assert_eq!(p.write_value(&life, 0, 2, 1), Err(ProtocolError::ComponentOutOfRange));
    assert_eq!(p.write_value(&life, 0, 1, 0xaabb_ccdd), Ok(()));
    assert_eq!(p.region(0), &vec![0u8, 0, 0, 0, 0xdd, 0xcc, 0xbb, 0xaa]);
}

#[test]
fn header_fields() {
    let bytes = make_data().encode().unwrap();
    assert_eq!(&bytes[0..5], b"BgeoV");
    assert_eq!(be_u32_at(&bytes, 5), 5);
    assert_eq!(be_u32_at(&bytes, 9), 5);
    assert_eq!(be_u32_at(&bytes, 13), 0);
    assert_eq!(be_u32_at(&bytes, 17), 0);
    assert_eq!(be_u32_at(&bytes, 21), 0);
    assert_eq!(be_u32_at(&bytes, 25), 2);
    assert_eq!(be_u32_at(&bytes, 29), 0);
    assert_eq!(be_u32_at(&bytes, 33), 0);
    assert_eq!(be_u32_at(&bytes, 37), 0);
}

#[test]
fn attribute_definitions() {
    let bytes = make_data().encode().unwrap();
    let mut expected: Vec<u8> = Vec::new();
    expected.extend_from_slice(b"life");
    expected.extend_from_slice(&[0, 2]);
    expected.extend_from_slice(&[0, 0, 0, 0]);
    expected.extend_from_slice(&[0; 8]);
    expected.extend_from_slice(b"id");
    expected.extend_from_slice(&[0, 1]);
    expected.extend_from_slice(&[0, 0, 0, 1]);
    expected.extend_from_slice(&[0; 4]);
    assert_eq!(&bytes[41..71], &expected[..]);
}

#[test]
fn first_particle_block_and_trailer() {
    let bytes = make_data().encode().unwrap();
    assert_eq!(bytes.len(), 71 + 5 * 28 + 2);
    let mut expected: Vec<u8> = Vec::new();
    expected.extend(f32_be(0.0));
    expected.extend(f32_be(0.1));
    expected.extend(f32_be(0.2));
    expected.extend(f32_be(1.0));
    expected.extend(f32_be(-1.2));
    expected.extend(f32_be(10.0));
    expected.extend_from_slice(&0u32.to_be_bytes());
    assert_eq!(&bytes[71..99], &expected[..]);
    assert_eq!(&bytes[bytes.len() - 2..], &[0x00, 0xff]);
}

#[test]
fn last_particle_block() {
    let bytes = make_data().encode().unwrap();
    let start = 71 + 4 * 28;
    let mut expected: Vec<u8> = Vec::new();
    expected.extend(f32_be(0.1_f32 * 4.0));
    expected.extend(f32_be(0.1_f32 * 5.0));
    expected.extend(f32_be(0.1_f32 * 6.0));
    expected.extend(f32_be(1.0));
    expected.extend(f32_be(-1.2_f32 + 4.0));
    expected.extend(f32_be(10.0));
    expected.extend_from_slice(&4u32.to_be_bytes());
    assert_eq!(&bytes[start..start + 28], &expected[..]);
}

#[test]
fn position_gets_homogeneous_coordinate() {
    let mut p = ParticlesSimpleBuilder::new().finalize();
    let pos = p.add_attribute("position", ParticleAttributeType::VECTOR, 3).unwrap();
    p.add_particle();
    p.write_value(&pos, 0, 2, 7.5_f32.to_bits()).unwrap();
    let bytes = p.encode().unwrap();
    let data = &bytes[41..bytes.len() - 2];
    assert_eq!(data.len(), 16);
    assert_eq!(&data[8..12], &f32_be(7.5)[..]);
    assert_eq!(&data[12..16], &f32_be(1.0)[..]);
    assert_eq!(partio::HOMOGENEOUS_ONE, 1.0_f32.to_bits());
}

#[test]
fn missing_position_is_refused() {
    let mut p = ParticlesSimpleBuilder::new().finalize();
    p.add_attribute("life", ParticleAttributeType::FLOAT, 2).unwrap();
    p.add_particle();
    assert_eq!(p.encode(), Err(SchemaError::MissingPosition));
}

#[test]
fn encoding_twice_is_identical() {
    let p = make_data();
    assert_eq!(p.encode().unwrap(), p.encode().unwrap());
}

#[test]
fn int_words_are_written_big_endian() {
    let mut p = ParticlesSimpleBuilder::new().finalize();
    p.add_attribute("position", ParticleAttributeType::VECTOR, 3).unwrap();
    let id = p.add_attribute("id", ParticleAttributeType::INT, 1).unwrap();
    p.add_particle();
    p.write_value(&id, 0, 0, 0x0102_0304).unwrap();
    let bytes = p.encode().unwrap();
    let n = bytes.len();
    assert_eq!(&bytes[n - 6..n - 2], &[1, 2, 3, 4]);
}

#[test]
fn indexed_string_definition_and_raw_data() {
    let mut p = ParticlesSimpleBuilder::new().finalize();
    p.add_attribute("position", ParticleAttributeType::VECTOR, 3).unwrap();
    let tag = p.add_attribute("tag", ParticleAttributeType::INDEXEDSTR, 1).unwrap();
    p.add_particle();
    p.write_value(&tag, 0, 0, 0x0102_0304).unwrap();
    let bytes = p.encode().unwrap();
    assert_eq!(&bytes[41..48], &[b't', b'a', b'g', 0, 0, 0, 4]);
    let n = bytes.len();
    assert_eq!(&bytes[n - 6..n - 2], &[4, 3, 2, 1]);
}

#[test]
fn none_attribute_writes_no_data() {
    let mut p = ParticlesSimpleBuilder::new().finalize();
    p.add_attribute("position", ParticleAttributeType::VECTOR, 3).unwrap();
    p.add_attribute("v", ParticleAttributeType::NONE, 2).unwrap();
    p.add_particle();
    let bytes = p.encode().unwrap();
    // header 41, definition of "v": 1 + 2 + 4 + 8, one position block of 16, trailer 2
    assert_eq!(bytes.len(), 41 + 15 + 16 + 2);
    assert_eq!(&bytes[41..48], &[b'v', 0, 2, 0, 0, 0, 0]);
}
