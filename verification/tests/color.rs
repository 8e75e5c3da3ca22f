use balance_overlay::color::{parse_hex_color, shade, GRID_SHADE, TRACK_SHADE};

#[test]
fn hex_to_colorref_swaps_channels() {
    assert_eq!(parse_hex_color("FF0000"), 0x0000FF); // red stays red
    assert_eq!(parse_hex_color("#0000FF"), 0xFF0000);
    assert_eq!(parse_hex_color("FFFFFF"), 0xFFFFFF);
    assert_eq!(parse_hex_color("zzz"), 0x00FFFFFF); // garbage -> white
}

#[test]
fn shades_step_down_without_bleeding_between_channels() {
    assert_eq!(shade(0x000000, TRACK_SHADE), 0x000000);
    assert_eq!(shade(0xFFFFFF, TRACK_SHADE), 0x4F4F4F);
    assert_eq!(shade(0x0000FF, TRACK_SHADE), 0x00004F); // stays in its channel
    // Track is darker than grid, and both are darker than the fill.
    assert!(shade(0xFFFFFF, TRACK_SHADE) < shade(0xFFFFFF, GRID_SHADE));
    assert!(shade(0xFFFFFF, GRID_SHADE) < 0xFFFFFF);
}

/// What the standard library makes of the same text.
fn reference(hex: &str) -> u32 {
    let rgb = u32::from_str_radix(hex.trim_start_matches('#'), 16).unwrap_or(0x00FFFFFF);
    ((rgb & 0xFF) << 16) | (rgb & 0xFF00) | ((rgb >> 16) & 0xFF)
}

#[test]
fn odd_color_texts_read_as_the_standard_library_reads_them() {
    for hex in [
        "", "#", "##", "+", "-", "+FF", "-FF", "#+12", "+#12", "abcdef", "ABCDEF", "aBcDeF", "12345",
        "1234567", "12345678", "FFFFFFFF", "100000000", "0000000000FF", "12 ", " 12", "12g456",
        "0x1234", "\u{20AC}", "FFFFFFFFFFFFFFFFFFFFFFFFFFFFFFFFg", "##00FF00", "++1",
    ] {
        assert_eq!(parse_hex_color(hex), reference(hex), "{hex:?}");
    }
}

#[test]
fn a_leading_hash_changes_nothing() {
    for hex in ["123456", "", "zzz", "FFFFFF"] {
        assert_eq!(parse_hex_color(&format!("#{hex}")), parse_hex_color(hex));
    }
}

#[test]
fn swapping_twice_and_grey_are_harmless() {
    let once = parse_hex_color("123456");
    assert_eq!(once, 0x563412);
    assert_eq!(parse_hex_color(&format!("{once:06X}")), 0x123456);
    assert_eq!(parse_hex_color("7A7A7A"), 0x7A7A7A);
}

#[test]
fn shades_follow_the_formula_on_every_channel() {
    let want = |rgb: u32, num: u32| {
        let ch = |shift: u32| ((rgb >> shift) & 0xFF) * num / 16;
        ch(0) | (ch(8) << 8) | (ch(16) << 16)
    };
    for rgb in [0x010203, 0x80FF7F, 0xFFFFFF, 0xAB12CD, 0xFF123456] {
        for num in [0, 1, 5, 7, 15, 16, 17, 40, 1000] {
            assert_eq!(shade(rgb, num), want(rgb, num));
        }
    }
    assert_eq!(shade(0x102030, 16), 0x102030);
}
