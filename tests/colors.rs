use curses_backend::curses::find_closest;
use curses_backend::theme::{BaseColor, Color};

#[test]
fn terminal_default_is_minus_one() {
    assert_eq!(find_closest(&Color::TerminalDefault), -1);
}

#[test]
fn named_colors_follow_terminal_order() {
    let hues = [
        BaseColor::Black,
        BaseColor::Red,
        BaseColor::Green,
        BaseColor::Yellow,
        BaseColor::Blue,
        BaseColor::Magenta,
        BaseColor::Cyan,
        BaseColor::White,
    ];
    for (i, hue) in hues.iter().enumerate() {
        assert_eq!(find_closest(&Color::Dark(*hue)), i as i16);
        assert_eq!(find_closest(&Color::Light(*hue)), 8 + i as i16);
    }
}

#[test]
fn low_res_cube_corners() {
    assert_eq!(find_closest(&Color::RgbLowRes(0, 0, 0)), 16);
    assert_eq!(find_closest(&Color::RgbLowRes(5, 5, 5)), 16 + 36 * 5 + 6 * 5 + 5);
    assert_eq!(find_closest(&Color::RgbLowRes(5, 5, 5)), 231);
    assert_eq!(find_closest(&Color::RgbLowRes(1, 2, 3)), 16 + 36 + 12 + 3);
}

#[test]
fn gray_ramp_start() {
    assert_eq!(find_closest(&Color::Rgb(8, 8, 8)), 232);
    assert_eq!(find_closest(&Color::Rgb(18, 18, 18)), 233);
    assert_eq!(find_closest(&Color::Rgb(247, 247, 247)), 255);
}

#[test]
fn gray_below_ramp_start_takes_first_entry() {
    assert_eq!(find_closest(&Color::Rgb(1, 1, 1)), 232);
    assert_eq!(find_closest(&Color::Rgb(7, 7, 7)), 232);
}

#[test]
fn gray_past_ramp_end_goes_to_cube() {
    assert_eq!(find_closest(&Color::Rgb(248, 248, 248)), 231);
    assert_eq!(find_closest(&Color::Rgb(249, 249, 249)), 231);
    assert_eq!(find_closest(&Color::Rgb(250, 250, 250)), 231);
    assert_eq!(find_closest(&Color::Rgb(255, 255, 255)), 231);
}

#[test]
fn black_uses_the_cube() {
    assert_eq!(find_closest(&Color::Rgb(0, 0, 0)), 16);
}

#[test]
fn pure_red() {
    assert_eq!(find_closest(&Color::Rgb(255, 0, 0)), 196);
}

#[test]
fn cube_levels_round_down() {
    // 6 * 42 / 256 = 0 and 6 * 43 / 256 = 1
    assert_eq!(find_closest(&Color::Rgb(42, 0, 0)), 16);
    assert_eq!(find_closest(&Color::Rgb(43, 0, 0)), 52);
    assert_eq!(find_closest(&Color::Rgb(0, 128, 255)), 16 + 6 * 3 + 5);
}

#[test]
fn palette_indices_stay_in_range() {
    for r in 0..=255u8 {
        for g in [0u8, 1, 100, 200, 255] {
            let i = find_closest(&Color::Rgb(r, g, r));
            assert!((16..=255).contains(&i));
        }
    }
}
