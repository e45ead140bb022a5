use digital_rain::color::{Color, ColorExt};
use digital_rain::drop::{Op, RainDrop, RainDropPart};
use digital_rain::glyphs::{get_all_unicode_chars, get_random_char};

fn drop_at(length: u8, color: Color, speed: u8, y: u32) -> RainDrop {
    RainDrop { length, color, speed, y, x: 4, id: 0 }
}

#[test]
fn symbol_table_is_printable_ascii() {
    let all = get_all_unicode_chars();
    assert_eq!(all.len(), 94);
    assert_eq!(all[0], '!');
    assert_eq!(all[93], '~');
    assert!(all.iter().all(|c| c.is_ascii_graphic()));
    for k in 1..all.len() {
        assert_eq!(all[k] as u32, all[k - 1] as u32 + 1);
    }
}

#[test]
fn random_chars_stay_in_symbol_bands() {
    let mut letters = 0;
    let mut others = 0;
    for _ in 0..2000 {
        let c = get_random_char();
        let code = c as u32;
        assert!((33..=47).contains(&code) || (58..=126).contains(&code));
        assert!(!c.is_ascii_digit());
        if c.is_ascii_alphabetic() {
            letters += 1;
        } else {
            others += 1;
        }
    }
    assert!(letters > 0);
    assert!(others > 0);
}

#[test]
fn rgb_builds_an_rgb_colour() {
    assert_eq!(<Color as ColorExt>::rgb(1, 2, 3), Color::Rgb { r: 1, g: 2, b: 3 });
}

#[test]
fn parts_count_is_length_plus_one_with_white_last() {
    for length in [1u8, 2, 7, 19, 255] {
        for color in [Color::Rgb { r: 10, g: 200, b: 255 }, Color::Green, Color::AnsiValue(9)] {
            let d = drop_at(length, color, 1, 3);
            let parts = d.get_parts();
            assert_eq!(parts.len(), length as usize + 1);
            assert_eq!(parts[parts.len() - 1].1, Color::White);
        }
    }
}

#[test]
fn reset_colour_has_no_gradient_cells() {
    let d = drop_at(6, Color::Reset, 1, 3);
    let parts = d.get_parts();
    assert_eq!(parts.len(), 1);
    assert_eq!(parts[0], RainDropPart(d.get_char_for_part(0), Color::White));
}

#[test]
fn gradient_starts_black_at_offset_zero() {
    let d = drop_at(3, Color::Rgb { r: 255, g: 128, b: 10 }, 1, 5);
    let parts = d.get_parts();
    assert_eq!(parts[0].1, Color::Rgb { r: 0, g: 0, b: 0 });
    assert_eq!(parts[1].1, Color::Rgb { r: 85, g: 42, b: 3 });
    assert_eq!(parts[2].1, Color::Rgb { r: 170, g: 84, b: 6 });
    assert_eq!(parts[3].1, Color::White);
}

#[test]
fn gradient_steps_by_channel_over_length() {
    let length: u8 = 4;
    let (r, g, b) = (200u8, 100u8, 7u8);
    let d = drop_at(length, Color::Rgb { r, g, b }, 1, 5);
    let parts = d.get_parts();
    for i in 0..length {
        let expect = |c: u8| i.wrapping_mul(c / length);
        assert_eq!(parts[i as usize].1, Color::Rgb { r: expect(r), g: expect(g), b: expect(b) });
    }
    assert_eq!(parts[3].1, Color::Rgb { r: 150, g: 75, b: 3 });
}

#[test]
fn fixed_colour_is_kept_on_every_trailing_cell() {
    let d = drop_at(5, Color::DarkGreen, 1, 5);
    let parts = d.get_parts();
    for i in 0..5 {
        assert_eq!(parts[i].1, Color::DarkGreen);
        assert_eq!(parts[i].0, d.get_char_for_part(i));
    }
    assert_eq!(parts[5], RainDropPart(d.get_char_for_part(5), Color::White));
}

#[test]
fn glyph_comes_from_hash_of_id_row_and_offset() {
    let d = RainDrop { length: 3, color: Color::Green, speed: 1, y: 2, x: 0, id: 1 };
    // 31 * (1 + 2 + 3) = 186, and 186 % 94 = 92: code 33 + 92.
    assert_eq!(d.get_char_for_part(3), '}');
    let e = RainDrop { id: 0, y: 0, ..d };
    assert_eq!(e.get_char_for_part(0), '!');
    assert_eq!(d.get_char_for_part(3), d.get_char_for_part(3));
}

#[test]
fn exhaustion_boundary() {
    let h: u16 = 10;
    let d = drop_at(5, Color::Green, 1, 5 + h as u32);
    assert!(!d.is_end(h));
    let d = drop_at(5, Color::Green, 1, 5 + h as u32 + 1);
    assert!(d.is_end(h));
    let d = drop_at(5, Color::Green, 1, 2);
    assert!(!d.is_end(h));
}

#[test]
fn draw_far_below_screen_writes_nothing() {
    let d = drop_at(5, Color::Green, 1, 1000);
    assert!(d.draw(10).is_empty());
}

#[test]
fn draw_skips_cells_above_the_screen() {
    let d = drop_at(5, Color::Green, 1, 3);
    let parts = d.get_parts();
    let ops = d.draw(10);
    assert_eq!(ops.len(), 4);
    for (k, op) in ops.iter().enumerate() {
        let i = k + 2;
        assert_eq!(*op, Op::Paint { column: 4, row: k as u16, glyph: parts[i].0, color: parts[i].1 });
    }
}

#[test]
fn draw_clips_at_the_bottom() {
    let d = drop_at(4, Color::Red, 1, 12);
    let ops = d.draw(10);
    // rows 8 to 12; only 8 and 9 are on a ten-row screen
    assert_eq!(ops.len(), 2);
    assert!(matches!(ops[0], Op::Paint { row: 8, .. }));
    assert!(matches!(ops[1], Op::Paint { row: 9, .. }));
}

#[test]
fn clear_tail_blanks_the_rows_above_the_top_cell() {
    let d = drop_at(3, Color::Green, 2, 10);
    assert_eq!(d.clear_tail(), vec![Op::Blank { column: 4, row: 6 }, Op::Blank { column: 4, row: 5 }]);
    let d = RainDrop { length: 5, color: Color::Green, speed: 2, y: 20, x: 7, id: 0 };
    assert_eq!(d.clear_tail(), vec![Op::Blank { column: 7, row: 14 }, Op::Blank { column: 7, row: 13 }]);
}

#[test]
fn clear_tail_skips_rows_above_the_screen() {
    let d = drop_at(3, Color::Green, 2, 4);
    assert_eq!(d.clear_tail(), vec![Op::Blank { column: 4, row: 0 }]);
    let d = drop_at(3, Color::Green, 2, 3);
    assert!(d.clear_tail().is_empty());
    let d = drop_at(3, Color::Green, 2, 1);
    assert!(d.clear_tail().is_empty());
}

#[test]
fn fall_moves_by_speed() {
    let mut d = drop_at(3, Color::Green, 2, 10);
    d.fall();
    assert_eq!(d.y, 12);
    assert_eq!(d.x, 4);
}

#[test]
fn new_drop_starts_near_the_top() {
    for _ in 0..200 {
        let d = RainDrop::new(7, Color::Blue, 3, 9);
        assert!((1..8).contains(&d.y));
        assert!((1..3).contains(&d.speed));
        assert_eq!((d.length, d.color, d.x, d.id), (7, Color::Blue, 3, 9));
    }
}
