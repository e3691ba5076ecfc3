//! Finds color literals in text: hexadecimal forms such as `#e7b911` and
//! functional forms such as `rgb(255, 100, 0)` or `hsl(0.48, 1., 0.45)`,
//! each reported with its 1-based line and column.
//!
//! Channels are carried as the bit patterns of IEEE-754 single-precision
//! numbers, and the arithmetic on such numbers is the caller's: a function
//! that reads a decimal number, and one that converts hue, saturation and
//! lightness to a color. Which texts are candidates, which arguments are
//! fractions and which dialect decides is settled here.

pub mod color;
pub mod fractional;
pub mod laws;
pub mod parser;
pub mod resolve;
pub mod text;

pub use color::{parse_standard, ColorError, ColorValue};
pub use fractional::{
    fractional_call, fractions_to_color, try_parse_gpui_color, unit_fraction, ColorSpace,
    FractionalCall,
};
pub use parser::{is_hex_char, match_color, node_for, parse, ColorNode};
pub use resolve::{first_success, try_parse_color};
