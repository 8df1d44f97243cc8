use piet_core::image::PietImg;
use piet_core::ty::{Codel, PietColor, PietError};

fn build_image(width: u32, height: u32, colors: &[PietColor]) -> PietImg {
    assert_eq!(colors.len() as u32, width * height);
    let mut bytes: Vec<u8> = Vec::new();
    for c in colors {
        let (r, g, b) = c.to_bytes();
        bytes.push(r);
        bytes.push(g);
        bytes.push(b);
    }
    PietImg::new(1, width, height, bytes).unwrap()
}

#[test]
fn new_rejects_unknown_triplets() {
    let bytes = vec![0xFF, 0x00, 0x00, 0x10, 0x20, 0x30];
    let res = PietImg::new(1, 2, 1, bytes);
    assert!(matches!(res, Err(PietError::UnrecognizedColor)));
}

#[test]
fn new_accepts_a_valid_buffer() {
    let img = build_image(2, 1, &[PietColor::Red, PietColor::DarkRed]);
    assert_eq!(img.width, 2);
    assert_eq!(img.height, 1);
    assert_eq!(img.bytes.len(), 6);
}

#[test]
fn contains_is_the_bounds_test() {
    let img = build_image(2, 3, &[PietColor::Red; 6]);
    assert!(img.contains(Codel::new(0, 0)));
    assert!(img.contains(Codel::new(1, 2)));
    assert!(!img.contains(Codel::new(2, 0)));
    assert!(!img.contains(Codel::new(0, 3)));
}

#[test]
fn color_at_reads_row_major_pixels() {
    let img = build_image(
        2,
        2,
        &[PietColor::Red, PietColor::Green, PietColor::Blue, PietColor::White],
    );
    assert_eq!(img.color_at(Codel::new(0, 0)), Ok(PietColor::Red));
    assert_eq!(img.color_at(Codel::new(1, 0)), Ok(PietColor::Green));
    assert_eq!(img.color_at(Codel::new(0, 1)), Ok(PietColor::Blue));
    assert_eq!(img.color_at(Codel::new(1, 1)), Ok(PietColor::White));
    assert_eq!(img.color_at(Codel::new(2, 0)), Err(PietError::OutOfBounds));
    assert_eq!(img.color_at(Codel::new(0, 2)), Err(PietError::OutOfBounds));
}

#[test]
fn flood_fill_collects_the_connected_group() {
    // R R G
    // R G G
    // R R R
    let r = PietColor::Red;
    let g = PietColor::Green;
    let img = build_image(3, 3, &[r, r, g, r, g, g, r, r, r]);

    let ff = img.get_codels_in_block(Codel::new(0, 0));
    assert_eq!(ff.codels.len(), 6);
    for c in [
        Codel::new(0, 0),
        Codel::new(1, 0),
        Codel::new(0, 1),
        Codel::new(0, 2),
        Codel::new(1, 2),
        Codel::new(2, 2),
    ] {
        assert!(ff.codels.contains(&c));
    }
    assert!(!ff.codels.contains(&Codel::new(2, 0)));
    assert_eq!((ff.min_x, ff.max_x, ff.min_y, ff.max_y), (0, 2, 0, 2));

    let ff = img.get_codels_in_block(Codel::new(2, 0));
    assert_eq!(ff.codels.len(), 3);
    for c in [Codel::new(2, 0), Codel::new(1, 1), Codel::new(2, 1)] {
        assert!(ff.codels.contains(&c));
    }
    assert_eq!((ff.min_x, ff.max_x, ff.min_y, ff.max_y), (1, 2, 0, 1));
}

#[test]
fn flood_fill_of_a_singleton_region() {
    // a lone black codel surrounded by red
    let r = PietColor::Red;
    let k = PietColor::Black;
    let img = build_image(3, 3, &[r, r, r, r, k, r, r, r, r]);
    let ff = img.get_codels_in_block(Codel::new(1, 1));
    assert_eq!(ff.codels.len(), 1);
    assert!(ff.codels.contains(&Codel::new(1, 1)));
    assert_eq!((ff.min_x, ff.max_x, ff.min_y, ff.max_y), (1, 1, 1, 1));
}

#[test]
fn flood_fill_does_not_connect_diagonally() {
    // R G
    // G R
    let r = PietColor::Red;
    let g = PietColor::Green;
    let img = build_image(2, 2, &[r, g, g, r]);
    let ff = img.get_codels_in_block(Codel::new(0, 0));
    assert_eq!(ff.codels.len(), 1);
    assert!(!ff.codels.contains(&Codel::new(1, 1)));
}

#[test]
fn flood_fill_members_share_the_seed_color() {
    let r = PietColor::Red;
    let b = PietColor::Blue;
    let img = build_image(2, 2, &[r, b, b, b]);
    let ff = img.get_codels_in_block(Codel::new(1, 0));
    assert_eq!(ff.codels.len(), 3);
    for c in &ff.codels {
        assert_eq!(img.color_at(*c), Ok(PietColor::Blue));
    }
}
