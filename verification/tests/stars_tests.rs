use space_drift::buffer::Win32OffscreenBuffer;
use space_drift::color::Color;
use space_drift::draw::{blend, draw_star, fill_pixels};
use space_drift::stars::{
    scatter_stars, step_star, update_and_render, Palette, Star, MAX_STAR_RADIUS, MIN_STAR_RADIUS,
    NUMBER_OF_STARS, SPEED_FACTOR,
};
use space_drift::vector::V2;

const BLACK: Color = Color { r: 0, g: 0, b: 0, a: 255 };
const GOLD: Color = Color { r: 249, g: 217, b: 73, a: 255 };

fn night() -> Palette {
    Palette { background: BLACK, star: GOLD }
}

#[test]
fn default_palette() {
    let palette = Palette::default();
    assert_eq!(palette.background, Color { r: 64, g: 18, b: 139, a: 255 });
    assert_eq!(palette.star, Color { r: 249, g: 217, b: 73, a: 255 });
    assert_eq!(SPEED_FACTOR, 4);
    assert_eq!(MIN_STAR_RADIUS, 2);
    assert_eq!(MAX_STAR_RADIUS, 12);
    assert_eq!(NUMBER_OF_STARS, 60);
}

#[test]
fn drift_moves_down_by_speed_times_radius() {
    let star = Star { origin: V2 { x: 50_000, y: -5000 }, radius: 5 };
    assert_eq!(star.drift(100), Star { origin: V2 { x: 50_000, y: -3000 }, radius: 5 });
    assert_eq!(star.drift(0), star);
    assert_eq!(star.drift(16).origin.y, -4680);
    let big = Star { origin: V2 { x: 0, y: 0 }, radius: 11 };
    assert_eq!(big.drift(1000).origin.y, 44_000);
}

#[test]
fn drift_stops_at_the_end_of_the_range() {
    let star = Star { origin: V2 { x: 1, y: i64::MAX - 10 }, radius: 5 };
    assert_eq!(star.drift(100).origin.y, i64::MAX);
    let far = Star { origin: V2 { x: 1, y: 0 }, radius: i32::MAX };
    assert_eq!(far.drift(u64::MAX).origin.y, i64::MAX);
    let up = Star { origin: V2 { x: 1, y: 0 }, radius: i32::MIN };
    assert_eq!(up.drift(u64::MAX).origin.y, i64::MIN);
    assert_eq!(up.drift(1).origin.y, -8_589_934_592);
}

#[test]
fn has_left_once_the_upper_edge_of_the_star_is_below() {
    let star = Star { origin: V2 { x: 0, y: 105_000 }, radius: 5 };
    assert!(star.has_left(100));
    let nearly = Star { origin: V2 { x: 0, y: 104_999 }, radius: 5 };
    assert!(!nearly.has_left(100));
    let above = Star { origin: V2 { x: 0, y: -5000 }, radius: 5 };
    assert!(!above.has_left(100));
    assert!(!above.has_left(1));
}

#[test]
fn entering_star_stands_just_above_the_buffer() {
    let star = Star::enter(7, 12_345);
    assert_eq!(star, Star { origin: V2 { x: 12_345, y: -7000 }, radius: 7 });
    assert!(!star.has_left(1));
    assert_eq!(star.top_pixel(), -14);
    assert_eq!(star.left_pixel(), 5);
    assert_eq!(star.half_radius(), 3);
}

#[test]
fn half_radius_drops_its_fraction() {
    assert_eq!(Star { origin: V2 { x: 0, y: 0 }, radius: 5 }.half_radius(), 2);
    assert_eq!(Star { origin: V2 { x: 0, y: 0 }, radius: -5 }.half_radius(), -2);
    assert_eq!(Star { origin: V2 { x: 0, y: 0 }, radius: 0 }.half_radius(), 0);
}

#[test]
fn step_without_recycling_only_moves_the_star() {
    let mut rng = rand::thread_rng();
    let star = Star { origin: V2 { x: 50_000, y: 10_000 }, radius: 5 };
    let next = step_star(&star, 100, 100, 100, &mut rng);
    assert_eq!(next, Star { origin: V2 { x: 50_000, y: 12_000 }, radius: 5 });
}

#[test]
fn step_recycles_a_star_that_has_left() {
    let mut rng = rand::thread_rng();
    let star = Star { origin: V2 { x: 50_000, y: 104_000 }, radius: 5 };
    let mut radii = std::collections::BTreeSet::new();
    let mut columns = std::collections::BTreeSet::new();
    for _ in 0..2000 {
        let next = step_star(&star, 100, 100, 100, &mut rng);
        assert!(next.radius >= MIN_STAR_RADIUS && next.radius < MAX_STAR_RADIUS);
        assert_eq!(next.origin.y, -(next.radius as i64) * 1000);
        // half of the radius that the star had is 2
        assert!(next.origin.x >= -2000 && next.origin.x < 98_000);
        assert!(!next.has_left(100));
        radii.insert(next.radius);
        columns.insert(next.origin.x);
    }
    assert!(radii.len() > 1);
    assert!(columns.len() > 1);
}

#[test]
fn step_recycles_at_the_boundary_only() {
    let mut rng = rand::thread_rng();
    // after the fall the upper edge of the star is exactly at the lower edge
    let at = Star { origin: V2 { x: 0, y: 103_000 }, radius: 5 };
    let next = step_star(&at, 100, 100, 100, &mut rng);
    assert_eq!(next.origin.y, -(next.radius as i64) * 1000);
    // one unit less and the star stays
    let short = Star { origin: V2 { x: 0, y: 102_999 }, radius: 5 };
    assert_eq!(step_star(&short, 100, 100, 100, &mut rng).origin.y, 104_999);
}

#[test]
fn scattered_stars_fit_the_scene() {
    let mut rng = rand::thread_rng();
    let stars = scatter_stars(NUMBER_OF_STARS, 1920, 1080, &mut rng);
    assert_eq!(stars.len(), 60);
    let mut radii = std::collections::BTreeSet::new();
    for star in &stars {
        let r = star.radius as i64;
        assert!(star.radius >= 2 && star.radius < 12);
        assert!(star.origin.x >= -(r / 2) * 1000 && star.origin.x < (1920 - r / 2) * 1000);
        assert!(star.origin.y >= -r * 1000 && star.origin.y < (1080 - r) * 1000);
        radii.insert(star.radius);
    }
    assert!(radii.len() > 1);
    assert!(scatter_stars(0, 1, 1, &mut rng).is_empty());
    assert_eq!(scatter_stars(3, 1, 1, &mut rng).len(), 3);
}

#[test]
fn one_tick_of_a_star_entering_from_above() {
    let mut rng = rand::thread_rng();
    let mut buffer = Win32OffscreenBuffer::new(100, 100).unwrap();
    fill_pixels(0, 0, 100, 100, &BLACK, &mut buffer);
    let mut stars = vec![Star { origin: V2 { x: 50_000, y: -5000 }, radius: 5 }];
    update_and_render(&mut buffer, 100, &mut stars, &night(), &mut rng);
    // -5 + 4 * 5 * 0.1 = -3, and no recycling
    assert_eq!(stars, vec![Star { origin: V2 { x: 50_000, y: -3000 }, radius: 5 }]);
    // the square spans rows -8 to 1 and columns 45 to 54: only rows 0 and 1
    // of it are visible
    for y in 0..100 {
        for x in 0..100 {
            let got = buffer.get_pixel(x, y).unwrap();
            if y >= 2 || x < 45 || x > 54 {
                assert_eq!(got, BLACK);
            }
        }
    }
    // straight below the centre the distance is 3 and 4 pixels
    assert_eq!(buffer.get_pixel(50, 0), Some(Color { r: 99, g: 86, b: 29, a: 102 }));
    assert_eq!(buffer.get_pixel(50, 1), Some(Color { r: 49, g: 43, b: 14, a: 51 }));
    assert_eq!(buffer.get_pixel(50, 0), Some(blend(BLACK, &GOLD, 102)));
    // three columns aside in row 1 the distance is 5: the rim
    assert_eq!(buffer.get_pixel(53, 1), Some(Color { r: 0, g: 0, b: 0, a: 0 }));
    assert_eq!(buffer.get_pixel(47, 1), Some(Color { r: 0, g: 0, b: 0, a: 0 }));
    assert_eq!(buffer.get_pixel(52, 0), Some(blend(BLACK, &GOLD, 71)));
}

#[test]
fn tick_erases_before_it_draws() {
    let mut rng = rand::thread_rng();
    let palette = night();
    let mut buffer = Win32OffscreenBuffer::new(40, 40).unwrap();
    fill_pixels(0, 0, 40, 40, &BLACK, &mut buffer);
    let first = Star { origin: V2 { x: 15_000, y: 15_000 }, radius: 6 };
    let second = Star { origin: V2 { x: 22_000, y: 17_000 }, radius: 4 };
    draw_star(&first, &GOLD, &mut buffer);
    draw_star(&second, &GOLD, &mut buffer);
    let mut stars = vec![first, second];
    update_and_render(&mut buffer, 250, &mut stars, &palette, &mut rng);
    assert_eq!(stars[0].origin.y, 21_000);
    assert_eq!(stars[1].origin.y, 21_000);

    let mut expected = Win32OffscreenBuffer::new(40, 40).unwrap();
    fill_pixels(0, 0, 40, 40, &BLACK, &mut expected);
    draw_star(&stars[0], &GOLD, &mut expected);
    draw_star(&stars[1], &GOLD, &mut expected);
    assert_eq!(buffer.bits(), expected.bits());
}

#[test]
fn tick_keeps_the_number_of_stars_and_their_order() {
    let mut rng = rand::thread_rng();
    let mut buffer = Win32OffscreenBuffer::new(64, 48).unwrap();
    let mut stars = scatter_stars(25, 64, 48, &mut rng);
    for _ in 0..400 {
        let before = stars.clone();
        update_and_render(&mut buffer, 16, &mut stars, &Palette::default(), &mut rng);
        assert_eq!(stars.len(), 25);
        for (old, new) in before.iter().zip(stars.iter()) {
            let moved = old.drift(16);
            if moved.has_left(48) {
                assert_eq!(new.origin.y, -(new.radius as i64) * 1000);
                assert!(new.radius >= 2 && new.radius < 12);
                let half = (old.radius / 2) as i64;
                assert!(new.origin.x >= -half * 1000 && new.origin.x < (64 - half) * 1000);
            } else {
                assert_eq!(*new, moved);
            }
            assert!(!new.has_left(48));
        }
    }
}

#[test]
fn tick_without_stars_changes_nothing() {
    let mut rng = rand::thread_rng();
    let mut buffer = Win32OffscreenBuffer::new(8, 8).unwrap();
    let mut stars: Vec<Star> = Vec::new();
    update_and_render(&mut buffer, 16, &mut stars, &night(), &mut rng);
    assert!(stars.is_empty());
    assert!(buffer.bits().iter().all(|b| *b == 0));
}

#[test]
fn tick_with_a_long_frame_recycles() {
    let mut rng = rand::thread_rng();
    let mut buffer = Win32OffscreenBuffer::new(8, 8).unwrap();
    let mut stars = vec![Star { origin: V2 { x: 4000, y: 0 }, radius: 3 }];
    update_and_render(&mut buffer, u64::MAX, &mut stars, &night(), &mut rng);
    assert_eq!(stars[0].origin.y, -(stars[0].radius as i64) * 1000);
    assert!(stars[0].origin.x >= -1000 && stars[0].origin.x < 7000);
}
