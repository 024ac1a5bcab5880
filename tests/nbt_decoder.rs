use minecraft_regions_tool::chunk::{check_root, Chunk, ChunkScanError};
use minecraft_regions_tool::nbt::{decode, find_key, NBTError, NBTReader, NBTValue};
use std::io::Read;

fn named(tag: u8, name: &str) -> Vec<u8> {
    let mut out = vec![tag];
    out.extend_from_slice(&(name.len() as u16).to_be_bytes());
    out.extend_from_slice(name.as_bytes());
    out
}

/// A root compound with `levels - 1` compounds nested inside it.
fn nested(levels: usize) -> Vec<u8> {
    let mut out = vec![10u8, 0, 0];
    for _ in 1..levels {
        out.extend(named(10, "a"));
    }
    for _ in 0..levels {
        out.push(0);
    }
    out
}

#[test]
fn nesting_one_hundred_levels_decodes() {
    assert!(decode(&nested(100)).is_ok());
}

#[test]
fn nesting_one_hundred_and_one_levels_is_refused() {
    assert_eq!(decode(&nested(101)).unwrap_err(), NBTError::RecursionLimit);
    assert_eq!(decode(&nested(5000)).unwrap_err(), NBTError::RecursionLimit);
}

#[test]
fn scalar_values_decode_big_endian() {
    let mut d = vec![10u8, 0, 0];
    d.extend(named(1, "b"));
    d.push(0xfe);
    d.extend(named(2, "s"));
    d.extend_from_slice(&(-2i16).to_be_bytes());
    d.extend(named(3, "i"));
    d.extend_from_slice(&(-70000i32).to_be_bytes());
    d.extend(named(4, "l"));
    d.extend_from_slice(&(-5_000_000_000i64).to_be_bytes());
    d.extend(named(5, "f"));
    d.extend_from_slice(&1.5f32.to_bits().to_be_bytes());
    d.extend(named(6, "d"));
    d.extend_from_slice(&2.5f64.to_bits().to_be_bytes());
    d.extend(named(7, "ba"));
    d.extend_from_slice(&3u32.to_be_bytes());
    d.extend_from_slice(&[1, 2, 3]);
    d.extend(named(11, "ia"));
    d.extend_from_slice(&2u32.to_be_bytes());
    d.extend_from_slice(&7i32.to_be_bytes());
    d.extend_from_slice(&(-7i32).to_be_bytes());
    d.extend(named(12, "la"));
    d.extend_from_slice(&1u32.to_be_bytes());
    d.extend_from_slice(&(-9i64).to_be_bytes());
    d.extend(named(9, "list"));
    d.push(3);
    d.extend_from_slice(&2u32.to_be_bytes());
    d.extend_from_slice(&1i32.to_be_bytes());
    d.extend_from_slice(&2i32.to_be_bytes());
    d.push(0);
    let root = NBTReader::new(d).parse().unwrap();
    assert_eq!(root.len(), 10);
    assert!(matches!(root[0].1, NBTValue::Byte(0xfe)));
    assert!(matches!(root[1].1, NBTValue::Short(-2)));
    assert!(matches!(root[2].1, NBTValue::Int(-70000)));
    assert!(matches!(root[3].1, NBTValue::Long(-5_000_000_000)));
    match root[4].1 {
        NBTValue::Float(bits) => assert_eq!(f32::from_bits(bits), 1.5),
        _ => panic!("not a float"),
    }
    match root[5].1 {
        NBTValue::Double(bits) => assert_eq!(f64::from_bits(bits), 2.5),
        _ => panic!("not a double"),
    }
    assert!(matches!(root[6].1, NBTValue::ByteArray(3)));
    match &root[7].1 {
        NBTValue::IntArray(v) => assert_eq!(v, &vec![7, -7]),
        _ => panic!("not an int array"),
    }
    match &root[8].1 {
        NBTValue::LongArray(v) => assert_eq!(v, &vec![-9]),
        _ => panic!("not a long array"),
    }
    match &root[9].1 {
        NBTValue::List(v) => {
            assert_eq!(v.len(), 2);
            assert!(matches!(v[1], NBTValue::Int(2)));
        }
        _ => panic!("not a list"),
    }
    assert_eq!(find_key(&root, &"ia".to_string()), Some(7));
    assert_eq!(find_key(&root, &"zz".to_string()), None);
}

#[test]
fn duplicate_names_keep_the_last_value() {
    let mut d = vec![10u8, 0, 0];
    d.extend(named(1, "k"));
    d.push(1);
    d.extend(named(1, "k"));
    d.push(2);
    d.push(0);
    let root = decode(&d).unwrap();
    assert_eq!(root.len(), 1);
    assert!(matches!(root[0].1, NBTValue::Byte(2)));
}

#[test]
fn decoder_errors() {
    assert_eq!(decode(&[]).unwrap_err(), NBTError::UnexpectedEof);
    assert_eq!(decode(&[9, 0, 0, 0]).unwrap_err(), NBTError::MissingRootTag);
    assert_eq!(decode(&[10, 0, 0, 1, 0]).unwrap_err(), NBTError::UnexpectedEof);
    let mut bad_tag = vec![10u8, 0, 0];
    bad_tag.extend(named(13, "x"));
    assert_eq!(decode(&bad_tag).unwrap_err(), NBTError::InvalidTag(13));
    let bad_name = vec![10u8, 0, 0, 1, 0, 2, 0xc3, 0x28, 5, 0];
    assert_eq!(decode(&bad_name).unwrap_err(), NBTError::InvalidName);
    let mut bad_list = vec![10u8, 0, 0];
    bad_list.extend(named(9, "l"));
    bad_list.push(14);
    bad_list.extend_from_slice(&0u32.to_be_bytes());
    assert_eq!(decode(&bad_list).unwrap_err(), NBTError::InvalidTag(14));
}

#[test]
fn utf8_names_are_decoded() {
    let mut d = vec![10u8, 0, 0];
    d.extend(named(8, "größe"));
    d.extend_from_slice(&2u16.to_be_bytes());
    d.extend_from_slice("é".as_bytes());
    d.push(0);
    let root = decode(&d).unwrap();
    assert_eq!(root[0].0, "größe");
    match &root[0].1 {
        NBTValue::String(s) => assert_eq!(s, "é"),
        _ => panic!("not a string"),
    }
}

#[test]
fn level_checks() {
    let root = decode(&[10, 0, 0, 0]).unwrap();
    assert!(matches!(check_root(&root), Err(ChunkScanError::MissingTag(ref t)) if t == "Level"));
    let mut d = vec![10u8, 0, 0];
    d.extend(named(1, "Level"));
    d.push(1);
    d.push(0);
    let root = decode(&d).unwrap();
    assert!(matches!(check_root(&root), Err(ChunkScanError::InvalidFormat(ref t)) if t == "Level"));
    let mut d = vec![10u8, 0, 0];
    d.extend(named(10, "Level"));
    d.extend(named(3, "xPos"));
    d.extend_from_slice(&4i32.to_be_bytes());
    d.push(0);
    d.push(0);
    let root = decode(&d).unwrap();
    assert!(matches!(check_root(&root), Err(ChunkScanError::MissingTag(ref t)) if t == "zPos"));
}

#[test]
fn record_header_errors() {
    assert!(matches!(Chunk::from_buf_reader(&[0, 0, 0], 0), Err(ChunkScanError::IO)));
    assert!(matches!(
        Chunk::from_buf_reader(&[0, 0, 0, 0, 1], 0),
        Err(ChunkScanError::InvalidLength(0))
    ));
    assert!(matches!(
        Chunk::from_buf_reader(&[0, 8, 0, 1, 1], 0),
        Err(ChunkScanError::InvalidLength(524289))
    ));
    assert!(matches!(Chunk::from_buf_reader(&[0, 0, 0, 9], 0), Err(ChunkScanError::IO)));
    let c = Chunk::from_buf_reader(&[7, 0, 0, 0, 9, 2], 1).unwrap();
    assert_eq!(c.length, 9);
    assert_eq!(c.compression_type, 2);
}

#[test]
fn gzip_payload_is_validated() {
    let mut tree = vec![10u8, 0, 0];
    tree.extend(named(10, "Level"));
    for name in [
        "xPos", "zPos", "Sections", "LastUpdate", "InhabitedTime", "Heightmaps", "Entities",
        "TileEntities", "LiquidTicks", "PostProcessing", "Status", "Structures",
    ] {
        tree.extend(named(3, name));
        tree.extend_from_slice(&3i32.to_be_bytes());
    }
    tree.push(0);
    tree.push(0);
    let mut gz = Vec::new();
    flate2::read::GzEncoder::new(&tree[..], flate2::Compression::default())
        .read_to_end(&mut gz)
        .unwrap();
    let mut chunk = Chunk { length: 1, compression_type: 1, x_pos: None, z_pos: None };
    chunk.validate_nbt_data(&gz).unwrap();
    assert_eq!(chunk.x_pos, Some(3));
    assert_eq!(chunk.z_pos, Some(3));
    let mut raw = Chunk { length: 1, compression_type: 1, x_pos: None, z_pos: None };
    assert!(matches!(raw.validate_nbt_data(&tree), Err(ChunkScanError::IO)));
    let mut zl = Chunk { length: 1, compression_type: 2, x_pos: None, z_pos: None };
    assert!(matches!(zl.validate_nbt_data(&gz), Err(ChunkScanError::IO)));
    let mut plain = Chunk { length: 1, compression_type: 0, x_pos: None, z_pos: None };
    plain.validate_nbt_data(&tree).unwrap();
    assert_eq!(plain.x_pos, Some(3));
    let mut broken = Chunk { length: 1, compression_type: 0, x_pos: None, z_pos: None };
    assert!(matches!(
        broken.validate_nbt_data(&[8, 0, 0]),
        Err(ChunkScanError::NBTError(NBTError::MissingRootTag))
    ));
    assert_eq!(broken.x_pos, None);
}
