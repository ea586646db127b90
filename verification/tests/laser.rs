use bevy_zhuose_qi::laser::{LaserMaterial, LASER_UNIFORM_SIZE};

fn sample_laser() -> LaserMaterial {
    LaserMaterial {
        base_color: [
            0.9f32.to_bits(),
            0.3f32.to_bits(),
            0.06f32.to_bits(),
            1.0f32.to_bits(),
        ],
        width: 2.0f32.to_bits(),
        time: 0.5f32.to_bits(),
    }
}

#[test]
fn laser_buffer_byte_len_is_24() {
    assert_eq!(sample_laser().buffer_byte_len(), Some(24));
    assert_eq!(LASER_UNIFORM_SIZE, 24);
}

#[test]
fn laser_write_buffer_bytes_lays_out_fields_in_order() {
    let m = sample_laser();
    let mut buffer = vec![0xAAu8; 24];
    m.write_buffer_bytes(&mut buffer);
    let mut expected = Vec::new();
    expected.extend_from_slice(&0.9f32.to_ne_bytes());
    expected.extend_from_slice(&0.3f32.to_ne_bytes());
    expected.extend_from_slice(&0.06f32.to_ne_bytes());
    expected.extend_from_slice(&1.0f32.to_ne_bytes());
    expected.extend_from_slice(&2.0f32.to_ne_bytes());
    expected.extend_from_slice(&0.5f32.to_ne_bytes());
    assert_eq!(buffer, expected);
}

#[test]
fn laser_write_buffer_bytes_leaves_tail_untouched() {
    let m = sample_laser();
    let mut buffer = vec![0x5Cu8; 32];
    m.write_buffer_bytes(&mut buffer);
    assert_eq!(&buffer[24..], &[0x5Cu8; 8]);
    assert_eq!(&buffer[16..20], &2.0f32.to_ne_bytes());
    assert_eq!(&buffer[20..24], &0.5f32.to_ne_bytes());
}

#[test]
fn laser_width_word_is_not_byte_swapped() {
    // 2.0 is 0x4000_0000: its bytes differ from those of the swapped word
    let m = LaserMaterial { base_color: [0; 4], width: 0x4000_0000, time: 0x0102_0304 };
    let mut buffer = vec![0u8; 24];
    m.write_buffer_bytes(&mut buffer);
    assert_eq!(&buffer[16..20], &0x4000_0000u32.to_ne_bytes());
    assert_eq!(&buffer[20..24], &0x0102_0304u32.to_ne_bytes());
    assert_ne!(&buffer[20..24], &0x0403_0201u32.to_ne_bytes());
    assert_eq!(&buffer[0..16], &[0u8; 16]);
}
