use ndlm::color::{parse_hex_u32, Color};

#[test]
fn pack_orders_opacity_red_green_blue() {
    let c = Color { red: 0x12, green: 0x34, blue: 0x56, opacity: 0x78 };
    assert_eq!(c.as_argb8888(), 0x7812_3456);
    assert_eq!(c.argb_bytes(), [0x78, 0x12, 0x34, 0x56]);
}

#[test]
fn red_packs_to_ffff0000() {
    assert_eq!(Color::rgb(255, 0, 0).as_argb8888(), 0xFFFF_0000);
}

#[test]
fn unpack_reads_each_byte() {
    let c = Color::from_argb8888(0x80FF_4001);
    assert_eq!(c, Color { red: 0xFF, green: 0x40, blue: 0x01, opacity: 0x80 });
}

#[test]
fn round_trip_over_many_colors() {
    for a in [0u8, 1, 127, 128, 254, 255] {
        for r in [0u8, 3, 100, 255] {
            for g in [0u8, 77, 200, 255] {
                for b in [0u8, 9, 128, 255] {
                    let c = Color { red: r, green: g, blue: b, opacity: a };
                    assert_eq!(Color::from_argb8888(c.as_argb8888()), c);
                }
            }
        }
    }
}

#[test]
fn blend_ends_and_middle() {
    let black = Color::black();
    let white = Color::white();
    assert_eq!(black.blend(&white, 0), black);
    assert_eq!(black.blend(&white, 255), white);
    let mid = black.blend(&white, 128);
    assert_eq!(mid, Color { red: 128, green: 128, blue: 128, opacity: 255 });
    let c = Color { red: 200, green: 10, blue: 0, opacity: 255 };
    let d = Color { red: 100, green: 250, blue: 255, opacity: 0 };
    // (200 * 155 + 100 * 100) / 255 = 160, (10 * 155 + 250 * 100) / 255 = 104,
    // (255 * 100) / 255 = 100, (255 * 155) / 255 = 155
    assert_eq!(c.blend(&d, 100), Color { red: 160, green: 104, blue: 100, opacity: 155 });
}

#[test]
fn named_colors() {
    assert_eq!(Color::white().as_argb8888(), 0xFFFF_FFFF);
    assert_eq!(Color::black().as_argb8888(), 0xFF00_0000);
    assert_eq!(Color::yellow(), Color { red: 191, green: 191, blue: 63, opacity: 255 });
}

#[test]
fn hex_colors_from_theme_text() {
    assert_eq!(Color::from_hex("0x102030"), Color::rgb(0x10, 0x20, 0x30));
    assert_eq!(Color::from_hex("0xFFaa00"), Color::rgb(0xFF, 0xAA, 0x00));
    assert_eq!(Color::from_hex("0x+1"), Color::rgb(0, 0, 1));
    assert_eq!(Color::from_hex("0xAB102030"), Color::rgb(0x10, 0x20, 0x30));
    // not a number, empty, or more than 32 bits: opaque red
    assert_eq!(Color::from_hex("0xzz"), Color::rgb(255, 0, 0));
    assert_eq!(Color::from_hex("0x"), Color::rgb(255, 0, 0));
    assert_eq!(Color::from_hex("0x100000000"), Color::rgb(255, 0, 0));
}

#[test]
fn hex_numbers() {
    assert_eq!(parse_hex_u32("ff"), Some(255));
    assert_eq!(parse_hex_u32("FFFFFFFF"), Some(u32::MAX));
    assert_eq!(parse_hex_u32("+"), None);
    assert_eq!(parse_hex_u32("1g"), None);
    assert_eq!(parse_hex_u32("000000000000001"), Some(1));
}
