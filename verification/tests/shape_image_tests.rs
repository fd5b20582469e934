use raymarch::pack::PackedImage;
use raymarch::shape::Material;
use raymarch::shape_image::{build_image_table, decode_volume, encode_volume, ShapeImage, ShapeImages, VolumeError};

fn le32(v: u32) -> [u8; 4] {
    v.to_le_bytes()
}

#[test]
fn encode_produces_the_documented_layout() {
    let img = ShapeImage {
        size_bits: [1.5f32.to_bits(), 2.0f32.to_bits(), 0.25f32.to_bits()],
        width: 1,
        height: 1,
        depth: 2,
        data_bits: vec![0.5f32.to_bits(), (-0.5f32).to_bits()],
    };
    let bytes = encode_volume(&img);
    let mut expected = Vec::new();
    expected.extend_from_slice(&le32(1.5f32.to_bits()));
    expected.extend_from_slice(&le32(2.0f32.to_bits()));
    expected.extend_from_slice(&le32(0.25f32.to_bits()));
    expected.extend_from_slice(&le32(1));
    expected.extend_from_slice(&le32(1));
    expected.extend_from_slice(&le32(2));
    expected.extend_from_slice(&le32(0.5f32.to_bits()));
    expected.extend_from_slice(&le32((-0.5f32).to_bits()));
    assert_eq!(bytes, expected);
}

#[test]
fn decode_round_trips_an_encoded_volume() {
    let img = ShapeImage {
        size_bits: [10, 20, 30],
        width: 2,
        height: 3,
        depth: 1,
        data_bits: (0..6u32).collect(),
    };
    let bytes = encode_volume(&img);
    let back = decode_volume(&bytes).unwrap();
    assert_eq!(back.size_bits, img.size_bits);
    assert_eq!(back.width, 2);
    assert_eq!(back.height, 3);
    assert_eq!(back.depth, 1);
    assert_eq!(back.data_bits, img.data_bits);
}

#[test]
fn short_header_is_rejected() {
    assert!(matches!(decode_volume(&vec![]), Err(VolumeError::HeaderTooShort)));
    assert!(matches!(decode_volume(&vec![0u8; 23]), Err(VolumeError::HeaderTooShort)));
}

#[test]
fn inconsistent_sample_count_is_rejected() {
    // header says 1x1x2 samples but only one sample follows
    let mut bytes = Vec::new();
    bytes.extend_from_slice(&le32(0));
    bytes.extend_from_slice(&le32(0));
    bytes.extend_from_slice(&le32(0));
    bytes.extend_from_slice(&le32(1));
    bytes.extend_from_slice(&le32(1));
    bytes.extend_from_slice(&le32(2));
    bytes.extend_from_slice(&le32(42));
    assert!(matches!(decode_volume(&bytes), Err(VolumeError::SampleCountMismatch)));
    // trailing garbage of a non-sample size is rejected too
    bytes.extend_from_slice(&le32(43));
    bytes.push(0);
    assert!(matches!(decode_volume(&bytes), Err(VolumeError::SampleCountMismatch)));
}

#[test]
fn empty_volume_round_trips() {
    let img = ShapeImage {
        size_bits: [0, 0, 0],
        width: 0,
        height: 4,
        depth: 4,
        data_bits: vec![],
    };
    let bytes = encode_volume(&img);
    assert_eq!(bytes.len(), 24);
    let back = decode_volume(&bytes).unwrap();
    assert_eq!(back.data_bits.len(), 0);
}

#[test]
fn image_table_reuses_and_limits_textures() {
    let mut t = ShapeImages::new();
    t.add_image(100);
    t.add_image(200);
    t.add_image(100);
    // a third distinct volume exceeds the texture capacity
    t.add_image(300);
    assert_eq!(t.handles, vec![100, 200]);
    assert_eq!(t.slots, vec![Some(0), Some(1), Some(0), None]);
    assert_eq!(t.get_image_index(0), 0);
    assert_eq!(t.get_image_index(1), 1);
    assert_eq!(t.get_image_index(2), 0);
}

#[test]
fn table_built_from_packed_slots_matches_stepwise_adds() {
    let entry = |image: u64| PackedImage {
        image,
        inv_bits: [0u32; 16],
        scale_bits: 0,
        material: Material { red_bits: 0, green_bits: 0, blue_bits: 0 },
    };
    let images = vec![entry(5), entry(9), entry(5), entry(11)];
    let t = build_image_table(&images);
    assert_eq!(t.handles, vec![5, 9]);
    assert_eq!(t.slots, vec![Some(0), Some(1), Some(0), None]);
}
