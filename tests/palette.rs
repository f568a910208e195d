use doodles::{sort_for_display, sort_key_of, Hsv, Rgba};

fn rgba(r: u8, g: u8, b: u8, a: u8) -> Rgba {
    Rgba { r, g, b, a }
}

fn key(c: Rgba) -> (u8, u8) {
    Hsv::from_rgb(c.r, c.g, c.b).to_sort_key()
}

#[test]
fn sort_keys_of_primaries() {
    assert_eq!(key(rgba(255, 0, 0, 255)), (0, 255));
    assert_eq!(key(rgba(0, 255, 0, 255)), (2, 255));
    assert_eq!(key(rgba(0, 0, 255, 255)), (4, 255));
    assert_eq!(sort_key_of(rgba(0, 0, 255, 255)), 4 * 256 + 255);
}

#[test]
fn sort_keys_of_grays() {
    assert_eq!(key(rgba(0, 0, 0, 255)), (0, 0));
    assert_eq!(key(rgba(128, 128, 128, 255)), (0, 64));
    assert_eq!(key(rgba(255, 255, 255, 255)), (0, 128));
}

#[test]
fn sort_key_ignores_alpha() {
    assert_eq!(sort_key_of(rgba(10, 20, 30, 0)), sort_key_of(rgba(10, 20, 30, 255)));
}

#[test]
fn hue_near_full_turn_wraps_to_first_bucket() {
    assert_eq!(key(rgba(255, 0, 10, 255)).0, 0);
    assert_eq!(key(rgba(255, 0, 200, 255)).0, 5);
}

#[test]
fn lightness_mixes_saturation_and_value() {
    // max 200, min 100: (255 * 100 / 200 + 200) / 2 = 163.75
    assert_eq!(key(rgba(200, 100, 100, 255)), (0, 164));
}

#[test]
fn duplicate_reds_keep_their_order() {
    let red = rgba(255, 0, 0, 255);
    let blue = rgba(0, 0, 255, 255);
    assert_eq!(sort_for_display(&vec![red, red, blue], None, false), vec![red, red, blue]);
    let red_a = rgba(255, 0, 0, 255);
    let red_b = rgba(255, 0, 0, 128);
    assert_eq!(
        sort_for_display(&vec![blue, red_a, red_b], None, false),
        vec![red_a, red_b, blue]
    );
    assert_eq!(
        sort_for_display(&vec![red_b, blue, red_a], None, false),
        vec![red_b, red_a, blue]
    );
}

#[test]
fn sorting_twice_changes_nothing() {
    let colors = vec![
        rgba(0, 0, 255, 255),
        rgba(255, 255, 255, 255),
        rgba(255, 0, 0, 255),
        rgba(0, 255, 0, 255),
        rgba(40, 40, 40, 255),
    ];
    let once = sort_for_display(&colors, None, false);
    let twice = sort_for_display(&once, None, false);
    assert_eq!(once, twice);
    assert_eq!(
        once,
        vec![
            rgba(40, 40, 40, 255),
            rgba(255, 255, 255, 255),
            rgba(255, 0, 0, 255),
            rgba(0, 255, 0, 255),
            rgba(0, 0, 255, 255),
        ]
    );
}

#[test]
fn grays_order_by_lightness() {
    let white = rgba(255, 255, 255, 255);
    let black = rgba(0, 0, 0, 255);
    let gray = rgba(128, 128, 128, 255);
    assert_eq!(sort_for_display(&vec![white, black, gray], None, false), vec![black, gray, white]);
}

#[test]
fn empty_palette_stays_empty() {
    assert_eq!(sort_for_display(&vec![], None, true), Vec::<Rgba>::new());
}

#[test]
fn background_is_added_only_when_asked_and_new() {
    let red = rgba(255, 0, 0, 255);
    let black = rgba(0, 0, 0, 255);
    assert_eq!(sort_for_display(&vec![red], Some(black), true), vec![black, red]);
    assert_eq!(sort_for_display(&vec![red], Some(black), false), vec![red]);
    assert_eq!(sort_for_display(&vec![red, black], Some(black), true), vec![black, red]);
    assert_eq!(sort_for_display(&vec![], Some(black), true), vec![black]);
}
