use raycaster::color::{decode_color, encode_color};

#[test]
fn encode_packs_red_first() {
    assert_eq!(encode_color(0x12, 0x34, 0x56, 0x78), 0x12345678);
}

#[test]
fn encode_of_single_channels() {
    assert_eq!(encode_color(0xFF, 0, 0, 0), 0xFF000000);
    assert_eq!(encode_color(0, 0xFF, 0, 0), 0x00FF0000);
    assert_eq!(encode_color(0, 0, 0xFF, 0), 0x0000FF00);
    assert_eq!(encode_color(0, 0, 0, 0xFF), 0x000000FF);
}

#[test]
fn encode_of_extremes() {
    assert_eq!(encode_color(0, 0, 0, 0), 0);
    assert_eq!(encode_color(255, 255, 255, 255), u32::MAX);
}

#[test]
fn decode_splits_red_first() {
    assert_eq!(decode_color(0x12345678), (0x12, 0x34, 0x56, 0x78));
}

#[test]
fn decode_of_extremes() {
    assert_eq!(decode_color(0), (0, 0, 0, 0));
    assert_eq!(decode_color(u32::MAX), (255, 255, 255, 255));
    assert_eq!(decode_color(0x5555FFFF), (0x55, 0x55, 0xFF, 0xFF));
}

#[test]
fn channels_survive_packing() {
    let values: [u8; 7] = [0, 1, 2, 127, 128, 254, 255];
    for &r in values.iter() {
        for &g in values.iter() {
            for &b in values.iter() {
                for &a in values.iter() {
                    assert_eq!(decode_color(encode_color(r, g, b, a)), (r, g, b, a));
                }
            }
        }
    }
}

#[test]
fn packed_values_survive_unpacking() {
    let mut hex: u32 = 1;
    for _ in 0..2000 {
        let (r, g, b, a) = decode_color(hex);
        assert_eq!(encode_color(r, g, b, a), hex);
        hex = hex.wrapping_mul(1664525).wrapping_add(1013904223);
    }
}
