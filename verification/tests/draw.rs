use bar_tray::draw::{premultiply, signed, stride};

#[test]
fn colours_are_scaled_by_alpha() {
    assert_eq!(premultiply(&vec![100, 200, 40, 128]), [50, 100, 20, 128]);
    assert_eq!(premultiply(&vec![255, 1, 254, 254]), [254, 0, 253, 254]);
}

#[test]
fn opaque_pixels_stay_and_transparent_ones_turn_black() {
    assert_eq!(premultiply(&vec![1, 2, 3, 255, 9, 8, 7, 0]), [1, 2, 3, 255, 0, 0, 0, 0]);
    assert_eq!(premultiply(&vec![9, 8, 7, 51, 4, 250, 6, 255]), [1, 1, 1, 51, 4, 250, 6, 255]);
}

#[test]
fn bytes_that_make_no_pixel_stay() {
    assert_eq!(premultiply(&vec![9, 9, 9, 0, 200, 100, 50]), [0, 0, 0, 0, 200, 100, 50]);
    assert_eq!(premultiply(&vec![7]), [7]);
    assert!(premultiply(&vec![]).is_empty());
}

#[test]
fn no_colour_exceeds_its_alpha() {
    for colour in 0..=255u8 {
        for alpha in 0..=255u8 {
            let out = premultiply(&vec![colour, colour, colour, alpha]);
            assert!(out[0] <= alpha && out[1] <= alpha && out[2] <= alpha);
            assert_eq!(out[3], alpha);
        }
    }
}

#[test]
fn rows_and_sizes_as_a_surface_takes_them() {
    assert_eq!(stride(22), 88);
    assert_eq!(stride(0), 0);
    assert_eq!(stride(0x2000_0000), i32::MIN);
    assert_eq!(stride(u32::MAX / 4), -4);
    assert_eq!(signed(22), 22);
    assert_eq!(signed(u32::MAX), -1);
}
