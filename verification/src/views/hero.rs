//! The thermometer glyph shown in the panel and the hero banner.
use vstd::prelude::*;

use crate::text::{push_str, string_of};

verus! {

/// Everything of the glyph before its fill colour.
pub const SVG_HEAD: &'static str = "<svg xmlns=\"http://www.w3.org/2000/svg\" width=\"34\" height=\"34\" viewBox=\"0 0 16 16\" fill=\"";

/// Everything of the glyph after its fill colour.
pub const SVG_TAIL: &'static str = "\">\n  <path d=\"M10 5a2 2 0 1 0-4 0v4.2a3 3 0 1 0 4 0V5zm-2-1a1 1 0 0 1 1 1v4.5a.5.5 0 0 0 .2.4 2 2 0 1 1-2.4 0 .5.5 0 0 0 .2-.4V5a1 1 0 0 1 1-1zm0 7a1 1 0 1 0 0 2 1 1 0 0 0 0-2z\"/>\n</svg>";

/// A thermometer icon as SVG source, filled with `color_hex` (any CSS colour,
/// typically `#rrggbb`), so it can be recoloured per thermal state.
pub fn thermometer_svg(color_hex: &str) -> (svg: String)
    ensures
        svg@ == SVG_HEAD@ + color_hex@ + SVG_TAIL@,
{
    let mut out: Vec<char> = Vec::new();
    push_str(&mut out, SVG_HEAD);
    push_str(&mut out, color_hex);
    push_str(&mut out, SVG_TAIL);
    assert(out@ =~= SVG_HEAD@ + color_hex@ + SVG_TAIL@);
    string_of(&out)
}

} // verus!
