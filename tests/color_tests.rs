use nxgui::color::RGBA8;

#[test]
fn encode_is_little_endian() {
    let c = RGBA8::new_rgba(0x11, 0x22, 0x33, 0x44);
    assert_eq!(c.encode(), 0x4433_2211);
    assert_eq!(RGBA8::encode_impl(1, 2, 3, 4), 0x0403_0201);
}

#[test]
fn decode_unpacks_bytes() {
    assert_eq!(RGBA8::decode(0xAABB_CCDD), (0xDD, 0xCC, 0xBB, 0xAA));
    let c = RGBA8::from(0x8001_FF00);
    assert_eq!((c.r, c.g, c.b, c.a), (0x00, 0xFF, 0x01, 0x80));
}

#[test]
fn decode_encode_round_trip() {
    let colors = [
        RGBA8::new_rgba(0, 0, 0, 0),
        RGBA8::new_rgba(255, 255, 255, 255),
        RGBA8::new_rgba(1, 128, 254, 7),
        RGBA8::new_rgb(12, 34, 56),
    ];
    for c in colors.iter() {
        assert_eq!(RGBA8::from(c.encode()), *c);
    }
    for raw in [0u32, 1, 0xFFFF_FFFF, 0x1234_5678, 0x8000_0001].iter() {
        assert_eq!(RGBA8::from(*raw).encode(), *raw);
    }
}

#[test]
fn new_rgb_is_opaque() {
    let c = RGBA8::new_rgb(1, 2, 3);
    assert_eq!((c.r, c.g, c.b, c.a), (1, 2, 3, 255));
}

#[test]
fn blend_opaque_self_keeps_color() {
    let c = RGBA8::new_rgba(10, 200, 99, 255);
    assert_eq!(c.blend_with(c), RGBA8::new_rgba(10, 200, 99, 255));
}

#[test]
fn blend_transparent_keeps_destination() {
    let c = RGBA8::new_rgba(10, 200, 99, 0);
    let d = RGBA8::new_rgba(70, 3, 250, 17);
    assert_eq!(c.blend_with(d), RGBA8::new_rgba(70, 3, 250, 255));
}

#[test]
fn blend_half_truncates() {
    let over = RGBA8::new_rgba(255, 0, 100, 128);
    let under = RGBA8::new_rgba(0, 0, 255, 255);
    // r: 255*128/255 = 128; b: (100*128 + 255*127)/255 = 177 (45185/255 = 177.2)
    assert_eq!(over.blend_with(under), RGBA8::new_rgba(128, 0, 177, 255));
    assert_eq!(RGBA8::blend_color_impl(255, 0, 1), 254);
}
