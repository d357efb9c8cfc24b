use osk_typer::layout::{paint_regions, Bounds};

fn b(left: i32, top: i32, right: i32, bottom: i32) -> Bounds {
    Bounds { left, top, right, bottom }
}

#[test]
fn paint_regions_of_a_usual_bar() {
    let p = paint_regions(800, 120);
    assert_eq!(p.header, b(0, 0, 800, 34));
    assert_eq!(p.strip, b(0, 34, 800, 86));
    assert_eq!(p.footer, b(0, 86, 800, 120));
    assert_eq!(p.hint_y, 96);
    assert_eq!(p.separators.len(), 7);
    for (k, s) in p.separators.iter().enumerate() {
        let x = 100 * (k as i32 + 1);
        assert_eq!(*s, b(x, 38, x + 1, 82));
    }
}

#[test]
fn paint_regions_of_a_short_bar_keep_the_header() {
    let p = paint_regions(16, 50);
    assert_eq!(p.strip, b(0, 34, 16, 34));
    assert_eq!(p.footer, b(0, 34, 16, 50));
    assert_eq!(p.separators[0], b(2, 38, 3, 30));
    assert_eq!(p.hint_y, 44);
}

#[test]
fn paint_regions_round_toward_zero() {
    let p = paint_regions(-15, 100);
    assert_eq!(p.separators[0], b(-1, 38, 0, 62));
    assert_eq!(p.separators[6], b(-13, 38, -12, 62));
}

#[test]
fn paint_regions_at_the_size_limits() {
    let p = paint_regions(i32::MAX / 7, 100);
    assert_eq!(p.separators[0], b(38347922, 38, 38347923, 62));
    assert_eq!(p.separators[6], b(268435455, 38, 268435456, 62));
    let p = paint_regions(100, i32::MAX - 5);
    assert_eq!(p.footer, b(0, 2147483608, 100, 2147483642));
    assert_eq!(p.hint_y, 2147483618);
    assert_eq!(p.separators[3], b(50, 38, 51, 2147483604));
}
