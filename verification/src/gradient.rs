//! What is taken from colorgrad: the samples of a ramp between two colors,
//! and the CSS notation of a color.

use colorgrad::{Color, Gradient, GradientBuilder, LinearGradient};
use vstd::prelude::*;

verus! {

/// Builds colorgrad's linear gradient between two CSS colors with
/// `GradientBuilder::html_colors` and `build`, and samples it with
/// `Gradient::colors`: for each sample the bit patterns of its red, green
/// and blue singles, or `None` where colorgrad rejects one of the two color
/// strings. Taken on trust: a gradient that was built yields exactly `count`
/// samples. Nothing is claimed about which strings are colors, nor about the
/// samples themselves: colorgrad computes them in floating point, and two
/// calls on the same strings need not agree to the last bit.
#[verifier::external_body]
pub(crate) fn sample_linear_ramp(first: &str, last: &str, count: usize) -> (ramp: Option<
    Vec<[u32; 3]>,
>)
    ensures
        ramp matches Some(samples) ==> samples@.len() == count,
{
    match GradientBuilder::new().html_colors(&[first, last]).build::<LinearGradient>() {
        Ok(gradient) => Some(
            gradient.colors(count).into_iter().map(
                |c| [c.r.to_bits(), c.g.to_bits(), c.b.to_bits()],
            ).collect(),
        ),
        Err(_) => None,
    }
}

/// The sixteen hexadecimal digits, in lower case.
pub open spec fn hex_digits() -> Seq<char> {
    seq!['0', '1', '2', '3', '4', '5', '6', '7', '8', '9', 'a', 'b', 'c', 'd', 'e', 'f']
}

/// A byte as two hexadecimal digits.
pub open spec fn byte_hex(byte: u8) -> Seq<char> {
    seq![hex_digits()[byte as int / 16], hex_digits()[byte as int % 16]]
}

/// An opaque color in CSS hex notation: `#rrggbb`.
pub open spec fn css_hex(red: u8, green: u8, blue: u8) -> Seq<char> {
    seq!['#'] + byte_hex(red) + byte_hex(green) + byte_hex(blue)
}

/// Formats an opaque color through colorgrad: `Color::from` on three bytes,
/// then `Color::to_css_hex`. Taken on trust: colorgrad hands the three bytes
/// back as they came, and writes them as `#rrggbb` in lower case, without an
/// alpha part.
#[verifier::external_body]
pub(crate) fn format_css_hex(red: u8, green: u8, blue: u8) -> (text: String)
    ensures
        text@ == css_hex(red, green, blue),
{
    Color::from((red, green, blue)).to_css_hex()
}

} // verus!
