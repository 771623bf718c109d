use vstd::prelude::*;

verus! {

/// Represents an RGB color.
#[derive(Debug, Copy, Clone, PartialEq, Eq, Structural)]
pub struct Color {
    pub r: u8,
    pub g: u8,
    pub b: u8,
}

/// The color of a pixel from what reading it gave: the pixel's channels, or black where the
/// read failed.
pub fn get_color(pixel: Result<(u8, u8, u8), String>) -> (c: Color)
    ensures
        match pixel {
            Ok((r, g, b)) => c == Color { r, g, b },
            Err(_) => c == Color { r: 0, g: 0, b: 0 },
        },
{
    match pixel {
        Ok((r, g, b)) => Color { r, g, b },
        Err(_) => Color { r: 0, g: 0, b: 0 },
    }
}

/// The name of an attack-button color: red where the red channel is above 200, else blue where
/// the blue channel is, else black.
pub open spec fn button_color_name(c: Color) -> Seq<char> {
    if c.r > 200 {
        "red"@
    } else if c.b > 200 {
        "blue"@
    } else {
        "black"@
    }
}

/// Returns "red", "blue" or "black" based on the attack button color.
pub fn check_button_color(c: Color) -> (r: &'static str)
    ensures
        r@ == button_color_name(c),
{
    if c.r > 200 {
        "red"
    } else if c.b > 200 {
        "blue"
    } else {
        "black"
    }
}

/// Holds coordinates for UI elements like buttons.
#[derive(Debug, Copy, Clone)]
pub struct Cords {
    pub home_button: (i32, i32),
    pub play_button: (i32, i32),
    pub attack_button: (i32, i32),
}

} // verus!
