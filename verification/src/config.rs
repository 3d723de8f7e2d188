//! Color configuration of the tray window.

use vstd::prelude::*;

verus! {

/// An RGBA color, eight bits per channel.
#[derive(Clone, Copy, Debug, Eq, PartialEq, Structural)]
pub struct Color {
    pub red: u8,
    pub green: u8,
    pub blue: u8,
    pub alpha: u8,
}

impl Color {
    /// The opaque color with the given `0xRRGGBB` value.
    pub fn from_rgb(rgb: u32) -> (r: Color)
        ensures
            r == (Color {
                red: ((rgb >> 16) & 0xff) as u8,
                green: ((rgb >> 8) & 0xff) as u8,
                blue: (rgb & 0xff) as u8,
                alpha: 255,
            }),
    {
        proof {
            assert(((rgb >> 16) & 0xff) < 256 && ((rgb >> 8) & 0xff) < 256 && (rgb & 0xff) < 256)
                by (bit_vector);
        }
        Color {
            red: ((rgb >> 16) & 0xff) as u8,
            green: ((rgb >> 8) & 0xff) as u8,
            blue: (rgb & 0xff) as u8,
            alpha: 255,
        }
    }
}

/// The colors of the window and of normal and selected items.
#[derive(Clone, Copy, Debug, Eq, PartialEq, Structural)]
pub struct ColorConfig {
    pub window_background: Color,
    pub normal_item_background: Color,
    pub normal_item_foreground: Color,
    pub selected_item_background: Color,
    pub selected_item_foreground: Color,
}

impl Default for ColorConfig {
    /// The built-in color scheme.
    fn default() -> (r: ColorConfig)
        ensures
            r == (ColorConfig {
                window_background: Color { red: 0x21, green: 0x27, blue: 0x2b, alpha: 255 },
                normal_item_background: Color { red: 0x36, green: 0x3f, blue: 0x45, alpha: 255 },
                normal_item_foreground: Color { red: 0xe8, green: 0xea, blue: 0xeb, alpha: 255 },
                selected_item_background: Color { red: 0x1c, green: 0x95, blue: 0xe6, alpha: 255 },
                selected_item_foreground: Color { red: 0xe8, green: 0xea, blue: 0xeb, alpha: 255 },
            }),
    {
        let r = ColorConfig {
            window_background: Color::from_rgb(0x21272b),
            normal_item_background: Color::from_rgb(0x363f45),
            normal_item_foreground: Color::from_rgb(0xe8eaeb),
            selected_item_background: Color::from_rgb(0x1c95e6),
            selected_item_foreground: Color::from_rgb(0xe8eaeb),
        };
        proof {
            assert((0x21272bu32 >> 16) & 0xff == 0x21 && (0x21272bu32 >> 8) & 0xff == 0x27
                && 0x21272bu32 & 0xff == 0x2b) by (bit_vector);
            assert((0x363f45u32 >> 16) & 0xff == 0x36 && (0x363f45u32 >> 8) & 0xff == 0x3f
                && 0x363f45u32 & 0xff == 0x45) by (bit_vector);
            assert((0xe8eaebu32 >> 16) & 0xff == 0xe8 && (0xe8eaebu32 >> 8) & 0xff == 0xea
                && 0xe8eaebu32 & 0xff == 0xeb) by (bit_vector);
            assert((0x1c95e6u32 >> 16) & 0xff == 0x1c && (0x1c95e6u32 >> 8) & 0xff == 0x95
                && 0x1c95e6u32 & 0xff == 0xe6) by (bit_vector);
        }
        r
    }
}

} // verus!
