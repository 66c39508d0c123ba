use cadverse::qr::{qr_modules, qr_pixels, QrModules, QR_DARK, QR_LIGHT};

#[test]
fn qr_for_short_text_is_version_one() {
    let m = qr_modules(b"hello").expect("short data fits");
    assert_eq!(m.count, 21);
    assert_eq!(m.rows.len(), 21);
    assert!(m.rows.iter().all(|r| r.len() == 21));
    // finder pattern in the top-left corner
    assert_eq!(m.rows[0][..8].to_vec(), vec![true, true, true, true, true, true, true, false]);
    assert_eq!(m.rows[1][..8].to_vec(), vec![true, false, false, false, false, false, true, false]);
    assert_eq!(m.rows[2][..8].to_vec(), vec![true, false, true, true, true, false, true, false]);
    // finder pattern in the top-right corner
    assert_eq!(m.rows[0][13..].to_vec(), vec![false, true, true, true, true, true, true, true]);
}

#[test]
fn qr_for_too_much_data_is_none() {
    let data = vec![b'x'; 5000];
    assert!(qr_modules(&data).is_none());
}

#[test]
fn qr_pixels_place_modules_after_margin() {
    let m = QrModules { rows: vec![vec![true, false], vec![false, true]], count: 2 };
    let (image, side) = qr_pixels(&m, 1);
    assert_eq!(side, 6);
    assert_eq!(image.len(), 36);
    let at = |x: usize, y: usize| image[y * side + x];
    assert_eq!(at(2, 2), QR_DARK);
    assert_eq!(at(3, 2), QR_LIGHT);
    assert_eq!(at(2, 3), QR_LIGHT);
    assert_eq!(at(3, 3), QR_DARK);
    for i in 0..side {
        assert_eq!(at(i, 0), QR_LIGHT);
        assert_eq!(at(0, i), QR_LIGHT);
        assert_eq!(at(i, 5), QR_LIGHT);
        assert_eq!(at(5, i), QR_LIGHT);
    }
}

#[test]
fn qr_pixels_scale_modules_to_squares() {
    let m = QrModules { rows: vec![vec![true]], count: 1 };
    let (image, side) = qr_pixels(&m, 3);
    assert_eq!(side, 15);
    let dark: usize = image.iter().filter(|&&c| c == QR_DARK).count();
    assert_eq!(dark, 9);
    for y in 6..9 {
        for x in 6..9 {
            assert_eq!(image[y * side + x], QR_DARK);
        }
    }
}

#[test]
fn qr_pixels_draw_extra_modules_inside_window() {
    // a row longer than the code's size spills into the right margin
    let m = QrModules { rows: vec![vec![false, true, true]], count: 1 };
    let (image, side) = qr_pixels(&m, 1);
    assert_eq!(side, 5);
    assert_eq!(image[2 * side + 3], QR_DARK);
    assert_eq!(image[2 * side + 4], QR_DARK);
}

#[test]
fn qr_pixels_of_empty_code() {
    let m = QrModules { rows: vec![], count: 0 };
    let (image, side) = qr_pixels(&m, 2);
    assert_eq!(side, 8);
    assert!(image.iter().all(|&c| c == QR_LIGHT));
    let (image, side) = qr_pixels(&m, 0);
    assert_eq!(side, 0);
    assert!(image.is_empty());
}

#[test]
fn qr_whole_image_for_text() {
    let m = qr_modules(b"CADverse").unwrap();
    let (image, side) = qr_pixels(&m, 2);
    assert_eq!(side, (m.count + 4) * 2);
    // top-left module of the finder pattern is dark
    assert_eq!(image[4 * side + 4], QR_DARK);
    assert_eq!(image[5 * side + 5], QR_DARK);
    assert_eq!(image[3 * side + 3], QR_LIGHT);
}
