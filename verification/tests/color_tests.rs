use piet_core::ty::{Codel, DirectionPointer, PietColor, PietError};

fn all_colors() -> Vec<PietColor> {
    vec![
        PietColor::LightRed,
        PietColor::LightYellow,
        PietColor::LightGreen,
        PietColor::LightCyan,
        PietColor::LightBlue,
        PietColor::LightMagenta,
        PietColor::Red,
        PietColor::Yellow,
        PietColor::Green,
        PietColor::Cyan,
        PietColor::Blue,
        PietColor::Magenta,
        PietColor::DarkRed,
        PietColor::DarkYellow,
        PietColor::DarkGreen,
        PietColor::DarkCyan,
        PietColor::DarkBlue,
        PietColor::DarkMagenta,
        PietColor::Black,
        PietColor::White,
    ]
}

#[test]
fn decode_round_trips_every_palette_color() {
    for c in all_colors() {
        let (r, g, b) = c.to_bytes();
        assert_eq!(PietColor::decode(r, g, b), Ok(c));
        // re-encoding the decoded color yields the original three bytes
        let decoded = PietColor::decode(r, g, b).unwrap();
        assert_eq!(decoded.to_bytes(), (r, g, b));
    }
}

#[test]
fn decode_expected_literals() {
    assert_eq!(PietColor::decode(0xFF, 0x00, 0x00), Ok(PietColor::Red));
    assert_eq!(PietColor::decode(0xC0, 0x00, 0x00), Ok(PietColor::DarkRed));
    assert_eq!(PietColor::decode(0xFF, 0xC0, 0xC0), Ok(PietColor::LightRed));
    assert_eq!(PietColor::decode(0x00, 0x00, 0x00), Ok(PietColor::Black));
    assert_eq!(PietColor::decode(0xFF, 0xFF, 0xFF), Ok(PietColor::White));
    assert_eq!(PietColor::decode(0xC0, 0x00, 0xC0), Ok(PietColor::DarkMagenta));
}

#[test]
fn decode_rejects_unknown_triplets() {
    assert_eq!(
        PietColor::decode(0x12, 0x34, 0x56),
        Err(PietError::UnrecognizedColor)
    );
    assert_eq!(
        PietColor::decode(0xFF, 0x00, 0x01),
        Err(PietError::UnrecognizedColor)
    );
    assert_eq!(
        PietColor::decode(0xC0, 0xC0, 0xC0),
        Err(PietError::UnrecognizedColor)
    );
}

#[test]
fn color_scale_matches_hue_lightness_grid() {
    assert_eq!(PietColor::LightRed.get_color_scale(), (0, 0));
    assert_eq!(PietColor::Red.get_color_scale(), (0, 1));
    assert_eq!(PietColor::DarkRed.get_color_scale(), (0, 2));
    assert_eq!(PietColor::LightYellow.get_color_scale(), (1, 0));
    assert_eq!(PietColor::Yellow.get_color_scale(), (1, 1));
    assert_eq!(PietColor::DarkYellow.get_color_scale(), (1, 2));
    assert_eq!(PietColor::LightGreen.get_color_scale(), (2, 0));
    assert_eq!(PietColor::Green.get_color_scale(), (2, 1));
    assert_eq!(PietColor::DarkGreen.get_color_scale(), (2, 2));
    assert_eq!(PietColor::LightCyan.get_color_scale(), (3, 0));
    assert_eq!(PietColor::Cyan.get_color_scale(), (3, 1));
    assert_eq!(PietColor::DarkCyan.get_color_scale(), (3, 2));
    assert_eq!(PietColor::LightBlue.get_color_scale(), (4, 0));
    assert_eq!(PietColor::Blue.get_color_scale(), (4, 1));
    assert_eq!(PietColor::DarkBlue.get_color_scale(), (4, 2));
    assert_eq!(PietColor::LightMagenta.get_color_scale(), (5, 0));
    assert_eq!(PietColor::Magenta.get_color_scale(), (5, 1));
    assert_eq!(PietColor::DarkMagenta.get_color_scale(), (5, 2));
}

#[test]
fn black_and_white_are_off_cycle() {
    for c in all_colors() {
        let cyclic = c != PietColor::Black && c != PietColor::White;
        assert_eq!(c.is_cyclic(), cyclic);
    }
}

#[test]
fn block_in_dir_moves_one_codel() {
    let c = Codel::new(3, 5);
    assert_eq!(c.block_in_dir(DirectionPointer::Right), Some(Codel::new(4, 5)));
    assert_eq!(c.block_in_dir(DirectionPointer::Left), Some(Codel::new(2, 5)));
    assert_eq!(c.block_in_dir(DirectionPointer::Up), Some(Codel::new(3, 4)));
    assert_eq!(c.block_in_dir(DirectionPointer::Down), Some(Codel::new(3, 6)));
}

#[test]
fn block_in_dir_has_no_negative_coordinates() {
    let origin = Codel::new(0, 0);
    assert_eq!(origin.block_in_dir(DirectionPointer::Left), None);
    assert_eq!(origin.block_in_dir(DirectionPointer::Up), None);
    assert_eq!(origin.block_in_dir(DirectionPointer::Right), Some(Codel::new(1, 0)));
    assert_eq!(origin.block_in_dir(DirectionPointer::Down), Some(Codel::new(0, 1)));
}
