use lcd_display::display::LcdDisplay;
use lcd_display::geometry::{COLS, COL_LEN_BYTES, OFFSET, ROWS, ROW_BITS};
use lcd_display::grid::Pixel;
use lcd_display::packing::unpack_row;

fn rows_of(lcd: &LcdDisplay) -> Vec<[u8; COL_LEN_BYTES]> {
    (0..ROWS).map(|row| lcd.row_bytes(row).unwrap()).collect()
}

#[test]
fn geometry_of_the_panel() {
    assert_eq!(COLS, 180);
    assert_eq!(ROWS, 7);
    assert_eq!(OFFSET, 4);
    assert_eq!(COL_LEN_BYTES, (180 + 4) / 8 + 1);
    assert_eq!(COL_LEN_BYTES, 24);
    assert_eq!(ROW_BITS, 192);
}

#[test]
fn size_is_columns_by_rows() {
    let lcd = LcdDisplay::new();
    assert_eq!(lcd.size(), (180, 7));
}

#[test]
fn new_display_is_blank() {
    let lcd = LcdDisplay::new();
    for row in rows_of(&lcd) {
        assert_eq!(row, [0u8; COL_LEN_BYTES]);
    }
    for y in 0..ROWS as i32 {
        for x in 0..COLS as i32 {
            assert!(!lcd.pixel(x, y));
        }
    }
}

#[test]
fn origin_pixel_is_bit_four_of_byte_zero() {
    let mut lcd = LcdDisplay::new();
    lcd.set_pixel(0, 0, true);
    let row = lcd.row_bytes(0).unwrap();
    assert_eq!(row[0], 0x10);
    assert!(row[1..].iter().all(|byte| *byte == 0));
    for other in 1..ROWS {
        assert_eq!(lcd.row_bytes(other).unwrap(), [0u8; COL_LEN_BYTES]);
    }
}

#[test]
fn corner_pixel_is_bit_seven_of_byte_twenty_two() {
    let mut lcd = LcdDisplay::new();
    lcd.set_pixel(179, 6, true);
    let row = lcd.row_bytes(6).unwrap();
    let mut expected = [0u8; COL_LEN_BYTES];
    expected[22] = 0x80;
    assert_eq!(row, expected);
}

#[test]
fn pixel_reads_back_after_set() {
    let mut lcd = LcdDisplay::new();
    assert!(!lcd.pixel(3, 2));
    lcd.set_pixel(3, 2, true);
    assert!(lcd.pixel(3, 2));
    lcd.set_pixel(3, 2, false);
    assert!(!lcd.pixel(3, 2));
}

#[test]
fn last_write_to_a_coordinate_wins() {
    let mut lcd = LcdDisplay::new();
    lcd.set_pixel(10, 1, true);
    lcd.set_pixel(10, 1, false);
    lcd.set_pixel(10, 1, true);
    assert!(lcd.pixel(10, 1));
    lcd.set_pixel(10, 1, true);
    lcd.set_pixel(10, 1, false);
    assert!(!lcd.pixel(10, 1));
    assert_eq!(lcd.row_bytes(1).unwrap(), [0u8; COL_LEN_BYTES]);
}

#[test]
fn every_pixel_sits_at_its_own_bit() {
    for y in 0..ROWS {
        for x in 0..COLS {
            let mut lcd = LcdDisplay::new();
            lcd.set_pixel(x as i32, y as i32, true);
            let bit = x + OFFSET;
            for row in 0..ROWS {
                let mut expected = [0u8; COL_LEN_BYTES];
                if row == y {
                    expected[bit / 8] = 1 << (bit % 8);
                }
                assert_eq!(lcd.row_bytes(row).unwrap(), expected);
            }
            assert!(lcd.pixel(x as i32, y as i32));
        }
    }
}

#[test]
fn setting_a_pixel_leaves_its_neighbours() {
    let mut lcd = LcdDisplay::new();
    lcd.set_pixel(4, 3, true);
    lcd.set_pixel(5, 3, true);
    lcd.set_pixel(6, 3, true);
    // columns 4, 5, 6 are bits 8, 9, 10: the low three bits of byte 1
    assert_eq!(lcd.row_bytes(3).unwrap()[1], 0b0000_0111);
    lcd.set_pixel(5, 3, false);
    assert_eq!(lcd.row_bytes(3).unwrap()[1], 0b0000_0101);
    assert!(lcd.pixel(4, 3));
    assert!(!lcd.pixel(5, 3));
    assert!(lcd.pixel(6, 3));
}

#[test]
fn turning_off_a_dark_pixel_changes_nothing() {
    let mut lcd = LcdDisplay::new();
    lcd.set_pixel(20, 2, true);
    let before = rows_of(&lcd);
    lcd.set_pixel(21, 2, false);
    assert_eq!(rows_of(&lcd), before);
}

#[test]
fn out_of_range_pixels_are_ignored() {
    let mut lcd = LcdDisplay::new();
    lcd.set_pixel(0, 0, true);
    lcd.set_pixel(179, 6, true);
    lcd.set_pixel(90, 3, true);
    let before = rows_of(&lcd);
    let outside = [
        (-1, 0),
        (0, -1),
        (-1, -1),
        (180, 0),
        (0, 7),
        (180, 7),
        (179, 7),
        (180, 6),
        (184, 0),
        (188, 3),
        (191, 6),
        (-4, 0),
        (i32::MIN, 0),
        (0, i32::MIN),
        (i32::MAX, 0),
        (0, i32::MAX),
        (i32::MAX, i32::MAX),
        (i32::MIN, i32::MIN),
    ];
    for (x, y) in outside {
        lcd.set_pixel(x, y, true);
        assert_eq!(rows_of(&lcd), before);
        lcd.set_pixel(x, y, false);
        assert_eq!(rows_of(&lcd), before);
        assert!(!lcd.pixel(x, y));
    }
}

#[test]
fn padding_bits_stay_clear() {
    let mut lcd = LcdDisplay::new();
    for y in 0..ROWS as i32 {
        for x in 0..COLS as i32 {
            lcd.set_pixel(x, y, true);
        }
    }
    let mut full = [0xffu8; COL_LEN_BYTES];
    full[0] = 0xf0;
    full[23] = 0x00;
    for row in rows_of(&lcd) {
        assert_eq!(row, full);
    }
}

#[test]
fn clear_turns_every_pixel_off() {
    let mut lcd = LcdDisplay::new();
    for y in 0..ROWS as i32 {
        for x in 0..COLS as i32 {
            lcd.set_pixel(x, y, (x + y) % 3 != 0);
        }
    }
    lcd.clear();
    for y in 0..ROWS as i32 {
        for x in 0..COLS as i32 {
            assert!(!lcd.pixel(x, y));
        }
    }
    for row in rows_of(&lcd) {
        assert_eq!(row, [0u8; COL_LEN_BYTES]);
    }
}

#[test]
fn clear_then_draw_shows_only_what_was_drawn() {
    let mut lcd = LcdDisplay::new();
    lcd.set_pixel(7, 5, true);
    lcd.clear();
    lcd.set_pixel(8, 5, true);
    assert!(!lcd.pixel(7, 5));
    assert!(lcd.pixel(8, 5));
}

#[test]
fn packed_rows_unpack_to_the_pattern_drawn() {
    let lit = |x: usize, y: usize| (x * 7 + y * 13) % 5 < 2;
    let mut lcd = LcdDisplay::new();
    for y in 0..ROWS {
        for x in 0..COLS {
            lcd.set_pixel(x as i32, y as i32, lit(x, y));
        }
    }
    for y in 0..ROWS {
        let bytes = lcd.row_bytes(y).unwrap();
        let pixels = unpack_row(&bytes);
        assert_eq!(pixels.len(), COLS);
        for x in 0..COLS {
            assert_eq!(pixels[x], lit(x, y));
        }
    }
}

#[test]
fn unpack_row_reads_bit_x_plus_offset() {
    let mut bytes = [0u8; COL_LEN_BYTES];
    bytes[0] = 0x10;
    bytes[1] = 0x01;
    bytes[22] = 0x80;
    let pixels = unpack_row(&bytes);
    let lit: Vec<usize> = (0..COLS).filter(|x| pixels[*x]).collect();
    assert_eq!(lit, vec![0, 4, 179]);
}

#[test]
fn unpack_row_skips_the_padding() {
    let mut bytes = [0u8; COL_LEN_BYTES];
    bytes[0] = 0x0f;
    bytes[23] = 0xff;
    let pixels = unpack_row(&bytes);
    assert_eq!(pixels.len(), COLS);
    assert!(pixels.iter().all(|pixel| !*pixel));
}

#[test]
fn row_bytes_of_a_missing_row_is_none() {
    let lcd = LcdDisplay::new();
    assert!(lcd.row_bytes(ROWS - 1).is_some());
    assert!(lcd.row_bytes(ROWS).is_none());
    assert!(lcd.row_bytes(usize::MAX).is_none());
}

#[test]
fn draw_iter_applies_the_batch_in_order() {
    let mut lcd = LcdDisplay::new();
    let batch = [
        Pixel { x: 1, y: 1, on: true },
        Pixel { x: 2, y: 1, on: true },
        Pixel { x: 1, y: 1, on: false },
        Pixel { x: 3, y: 1, on: false },
        Pixel { x: 3, y: 1, on: true },
        Pixel { x: 200, y: 1, on: true },
        Pixel { x: 2, y: -3, on: true },
    ];
    assert!(lcd.draw_iter(&batch).is_ok());
    assert!(!lcd.pixel(1, 1));
    assert!(lcd.pixel(2, 1));
    assert!(lcd.pixel(3, 1));
    // columns 2 and 3 are bits 6 and 7 of byte 0
    let mut expected = [0u8; COL_LEN_BYTES];
    expected[0] = 0b1100_0000;
    assert_eq!(lcd.row_bytes(1).unwrap(), expected);
    for row in [0, 2, 3, 4, 5, 6] {
        assert_eq!(lcd.row_bytes(row).unwrap(), [0u8; COL_LEN_BYTES]);
    }
}

#[test]
fn draw_iter_of_nothing_changes_nothing() {
    let mut lcd = LcdDisplay::new();
    lcd.set_pixel(9, 4, true);
    let before = rows_of(&lcd);
    assert!(lcd.draw_iter(&[]).is_ok());
    assert_eq!(rows_of(&lcd), before);
}

#[test]
fn draw_iter_matches_set_pixel_one_by_one() {
    let batch: Vec<Pixel> = (0..400)
        .map(|i: i32| Pixel { x: (i * 37) % 200 - 10, y: (i * 11) % 9 - 1, on: i % 3 != 1 })
        .collect();
    let mut drawn = LcdDisplay::new();
    assert!(drawn.draw_iter(&batch).is_ok());
    let mut stepped = LcdDisplay::new();
    for pixel in &batch {
        stepped.set_pixel(pixel.x, pixel.y, pixel.on);
    }
    assert_eq!(rows_of(&drawn), rows_of(&stepped));
}
