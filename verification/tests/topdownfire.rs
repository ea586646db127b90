use bevy_zhuose_qi::topdownfire::{
    FireMaterial, FireTexture, FIRE_INTENSITY_1, FIRE_INTENSITY_2, FIRE_INTENSITY_3,
    FIRE_UNIFORM_SIZE,
};

fn sample_fire() -> FireMaterial {
    FireMaterial {
        base_color: [
            0.8f32.to_bits(),
            0.1f32.to_bits(),
            0.01f32.to_bits(),
            1.0f32.to_bits(),
        ],
        flame_height: 0.2f32.to_bits(),
        distorsion_level: 7.0f32.to_bits(),
        time: 3.25f32.to_bits(),
    }
}

#[test]
fn fire_intensities() {
    assert_eq!(FIRE_INTENSITY_1, 255);
    assert_eq!(FIRE_INTENSITY_2, 204);
    assert_eq!(FIRE_INTENSITY_3, 153);
}

#[test]
fn fire_buffer_byte_len_is_28() {
    assert_eq!(sample_fire().buffer_byte_len(), Some(28));
    assert_eq!(FIRE_UNIFORM_SIZE, 28);
}

#[test]
fn fire_write_buffer_bytes_lays_out_fields_in_order() {
    let m = sample_fire();
    let mut buffer = vec![0u8; 28];
    m.write_buffer_bytes(&mut buffer);
    let mut expected = Vec::new();
    for v in [0.8f32, 0.1, 0.01, 1.0, 0.2, 7.0, 3.25] {
        expected.extend_from_slice(&v.to_ne_bytes());
    }
    assert_eq!(buffer, expected);
}

#[test]
fn fire_write_buffer_bytes_leaves_tail_untouched() {
    let m = sample_fire();
    let mut buffer = vec![9u8; 40];
    m.write_buffer_bytes(&mut buffer);
    assert_eq!(&buffer[28..], &[9u8; 12]);
    assert_eq!(&buffer[24..28], &3.25f32.to_ne_bytes());
}

#[test]
fn fire_texture_from_texture() {
    let asset: FireTexture<u64> = FireTexture::from(42u64);
    assert_eq!(asset.texture, 42);
    let asset: FireTexture<u64> = 7u64.into();
    assert_eq!(asset, FireTexture { texture: 7 });
}
