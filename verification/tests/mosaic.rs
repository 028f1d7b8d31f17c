use command_parser::mosaic::{mosaic_origin, mosaic_size, MARGIN};

#[test]
fn the_whole_is_three_pictures_and_two_margins_wide() {
    assert_eq!(MARGIN, 10);
    assert_eq!(mosaic_size(256, 256), Some((788, 788)));
    assert_eq!(mosaic_size(100, 50), Some((320, 170)));
    assert_eq!(mosaic_size(0, 0), Some((20, 20)));
    assert_eq!(mosaic_size(1, 0), Some((23, 20)));
}

#[test]
fn a_whole_that_does_not_fit_is_none() {
    // The largest side whose whole fits.
    let most = (u32::MAX - 20) / 3;
    assert_eq!(most, 1_431_655_758);
    assert_eq!(mosaic_size(most, 1), Some((4_294_967_294, 23)));
    assert_eq!(mosaic_size(most + 1, 1), None);
    assert_eq!(mosaic_size(1, most + 1), None);
    assert_eq!(mosaic_size(u32::MAX, u32::MAX), None);
    assert_eq!(mosaic_size(u32::MAX, 0), None);
}

#[test]
fn the_pictures_stand_row_by_row() {
    let origins: Vec<(u32, u32)> = (0..9).map(|i| mosaic_origin(i, 256, 128)).collect();
    assert_eq!(
        origins,
        vec![
            (0, 0),
            (266, 0),
            (532, 0),
            (0, 138),
            (266, 138),
            (532, 138),
            (0, 276),
            (266, 276),
            (532, 276),
        ]
    );
}

#[test]
fn every_picture_lies_within_the_whole_and_apart_from_the_others() {
    for (w, h) in [(1u32, 1u32), (256, 256), (7, 300), (1_431_655_758, 2)] {
        let (wide, high) = mosaic_size(w, h).unwrap();
        for i in 0..9 {
            let (x, y) = mosaic_origin(i, w, h);
            assert!(x as u64 + w as u64 <= wide as u64);
            assert!(y as u64 + h as u64 <= high as u64);
            for j in 0..9 {
                if i != j {
                    let (u, v) = mosaic_origin(j, w, h);
                    let apart_across =
                        x as u64 + w as u64 <= u as u64 || u as u64 + w as u64 <= x as u64;
                    let apart_down = y as u64 + h as u64 <= v as u64 || v as u64 + h as u64 <= y as u64;
                    assert!(apart_across || apart_down);
                }
            }
        }
    }
}

#[test]
fn pictures_without_size_stand_a_margin_apart() {
    assert_eq!(mosaic_origin(4, 0, 0), (10, 10));
    assert_eq!(mosaic_origin(8, 0, 0), (20, 20));
}
