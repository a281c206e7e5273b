use bevy_rand::prelude::WyRand;
use rand::SeedableRng;
use wayland_overlay_media_viewer::placement::{
    pick_pixel_ranges, pixel_center, place_at_random_position, total_pixels, PixelPick, ScreenPixels,
};

fn screens() -> Vec<ScreenPixels> {
    vec![
        ScreenPixels { min_x: 0, min_y: 0, width: 10, height: 4 },
        ScreenPixels { min_x: 10, min_y: -2, width: 6, height: 5 },
    ]
}

#[test]
fn total_pixels_adds_areas() {
    assert_eq!(total_pixels(&screens()), Some(70));
    assert_eq!(total_pixels(&vec![]), Some(0));
    let huge = vec![ScreenPixels { min_x: 0, min_y: 0, width: u32::MAX, height: u32::MAX }; 2];
    assert_eq!(total_pixels(&huge), None);
}

#[test]
fn pick_on_first_screen() {
    let p = pick_pixel_ranges(&screens(), (3, 2), 13).unwrap();
    // pixel 13 of a 10x4 screen: column 13 / 4 = 3, row 13 % 4 = 1
    assert_eq!(p, PixelPick { screen: 0, x_low: 0, x_high: 3, y_low: 0, y_high: 1, image_x: 3, image_y: 2 });
}

#[test]
fn pick_skips_to_second_screen() {
    let p = pick_pixel_ranges(&screens(), (2, 2), 52).unwrap();
    // 52 - 40 = 12 on a 6x5 screen: column 2, row 2
    assert_eq!(p, PixelPick { screen: 1, x_low: 0, x_high: 2, y_low: 0, y_high: 2, image_x: 2, image_y: 2 });
}

#[test]
fn pick_at_exact_area_stays_on_screen() {
    let p = pick_pixel_ranges(&screens(), (1, 1), 40).unwrap();
    assert_eq!(p.screen, 0);
    assert_eq!((p.x_low, p.x_high, p.y_low, p.y_high), (9, 9, 0, 0));
}

#[test]
fn oversized_image_is_clipped_to_zero() {
    let p = pick_pixel_ranges(&screens(), (8, 5), 60).unwrap();
    // width 8 fits the first screen but not the 6 wide second one; height 5 never fits 4
    assert_eq!((p.screen, p.image_x, p.image_y), (1, 0, 0));
    assert_eq!((p.x_low, p.x_high, p.y_low, p.y_high), (4, 4, 0, 0));
}

#[test]
fn pick_beyond_all_screens_is_none() {
    assert_eq!(pick_pixel_ranges(&screens(), (1, 1), 71), None);
}

#[test]
fn center_of_placed_image() {
    let s = screens()[1];
    let p = PixelPick { screen: 1, x_low: 0, x_high: 2, y_low: 0, y_high: 2, image_x: 3, image_y: 2 };
    assert_eq!(pixel_center(&s, &p, 2, 1), (2 + 10 + 1, 1 - 2 + 1));
}

#[test]
fn random_placement_stays_on_a_screen() {
    let sc = screens();
    let mut rng = WyRand::seed_from_u64(42);
    for _ in 0..200 {
        let (cx, cy) = place_at_random_position(&mut rng, &sc, (2, 2)).expect("first screen has rows");
        let corner = (cx - 1, cy - 1);
        let on_screen = sc.iter().any(|s| {
            corner.0 >= s.min_x as i64
                && corner.0 + 2 <= s.min_x as i64 + s.width as i64
                && corner.1 >= s.min_y as i64
                && corner.1 + 2 <= s.min_y as i64 + s.height as i64
        });
        assert!(on_screen, "{:?}", (cx, cy));
    }
}

#[test]
fn placed_image_covers_the_drawn_pixel() {
    let sc = screens();
    let p = pick_pixel_ranges(&sc, (3, 3), 25).unwrap();
    // 25 on the 10x4 screen is column 6, row 1
    for x in p.x_low..=p.x_high {
        for y in p.y_low..=p.y_high {
            assert!(x <= 6 && 6 <= x + p.image_x && x + p.image_x <= 10);
            assert!(y <= 1 && 1 <= y + p.image_y && y + p.image_y <= 4);
        }
    }
}

#[test]
fn random_corner_varies_within_its_range() {
    // one row of two pixels and a one pixel image: pixel 1 allows corners 0 and 1
    let sc = vec![ScreenPixels { min_x: 0, min_y: 0, width: 2, height: 1 }];
    let mut rng = WyRand::seed_from_u64(7);
    let mut seen = [false; 2];
    for _ in 0..100 {
        let (cx, cy) = place_at_random_position(&mut rng, &sc, (1, 1)).expect("first screen has rows");
        assert_eq!(cy, 0);
        assert!(cx == 0 || cx == 1);
        seen[cx as usize] = true;
    }
    assert!(seen[0] && seen[1]);
}

#[test]
fn empty_first_screen_fails_only_on_draw_zero() {
    // The first screen has a width but no rows: every draw but 0 skips it.
    let sc = vec![
        ScreenPixels { min_x: 0, min_y: 0, width: 5, height: 0 },
        ScreenPixels { min_x: 5, min_y: 0, width: 3, height: 3 },
    ];
    let mut rng = WyRand::seed_from_u64(3);
    let mut placed = 0;
    for _ in 0..200 {
        if let Some((cx, cy)) = place_at_random_position(&mut rng, &sc, (1, 1)) {
            assert!((5..8).contains(&cx) && (0..3).contains(&cy));
            placed += 1;
        }
    }
    assert!(placed > 0);
}
