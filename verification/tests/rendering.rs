use embedded_graphics::mock_display::MockDisplay;
use embedded_graphics::mono_font::MonoTextStyle;
use embedded_graphics::pixelcolor::BinaryColor;
use embedded_graphics::prelude::{
    Dimensions, DrawTarget, Drawable, OriginDimensions, Pixel, Point, Size,
};
use embedded_graphics::text::Text;
use embedded_vintage_fonts::FONT_6X8;
use lcd_display::geometry::{COLS, ROWS};
use lcd_display::{LcdDisplay, LcdDisplayError};

/// The driver as a target for the rendering library.
struct Surface(LcdDisplay);

impl DrawTarget for Surface {
    type Color = BinaryColor;
    type Error = LcdDisplayError;

    fn draw_iter<I>(&mut self, pixels: I) -> Result<(), Self::Error>
    where
        I: IntoIterator<Item = Pixel<Self::Color>>,
    {
        let batch: Vec<lcd_display::Pixel> = pixels
            .into_iter()
            .map(|Pixel(coord, colour)| lcd_display::Pixel {
                x: coord.x,
                y: coord.y,
                on: colour.is_on(),
            })
            .collect();
        self.0.draw_iter(&batch)
    }
}

impl OriginDimensions for Surface {
    fn size(&self) -> Size {
        let (width, height) = self.0.size();
        Size::new(width, height)
    }
}

#[test]
fn surface_reports_the_panel_dimensions() {
    let surface = Surface(LcdDisplay::new());
    assert_eq!(surface.size(), Size::new(180, 7));
    assert_eq!(surface.bounding_box().top_left, Point::new(0, 0));
    assert_eq!(surface.bounding_box().size, Size::new(180, 7));
}

#[test]
fn text_is_drawn_as_the_rendering_library_plots_it() {
    let style = MonoTextStyle::new(&FONT_6X8, BinaryColor::On);
    let text = Text::new("HUGE :-)", Point::new(0, 6), style);

    let mut surface = Surface(LcdDisplay::new());
    assert!(text.draw(&mut surface).is_ok());

    let mut mock: MockDisplay<BinaryColor> = MockDisplay::new();
    mock.set_allow_out_of_bounds_drawing(true);
    mock.set_allow_overdraw(true);
    text.draw(&mut mock).unwrap();

    let mut lit = 0;
    for y in 0..ROWS as i32 {
        for x in 0..64 {
            let expected = mock.get_pixel(Point::new(x, y)) == Some(BinaryColor::On);
            assert_eq!(surface.0.pixel(x, y), expected);
            if expected {
                lit += 1;
            }
        }
        for x in 64..COLS as i32 {
            assert!(!surface.0.pixel(x, y));
        }
    }
    assert!(lit > 0);
}

#[test]
fn text_past_the_edges_is_clipped() {
    let style = MonoTextStyle::new(&FONT_6X8, BinaryColor::On);
    let mut surface = Surface(LcdDisplay::new());
    let wide = Text::new("BORNHACK 2025 HUGE DISPLAY :-) AND MORE", Point::new(-3, 9), style);
    assert!(wide.draw(&mut surface).is_ok());
    let padded: Vec<_> = (0..ROWS).map(|row| surface.0.row_bytes(row).unwrap()).collect();
    for row in padded {
        assert_eq!(row[0] & 0x0f, 0);
        assert_eq!(row[23], 0);
    }
}
