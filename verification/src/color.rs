use vstd::prelude::*;
use vstd::string::StringSliceAdditionalSpecFns;

verus! {

/// An RGBA color; each channel ranges over 0..=255, with 255 the full
/// channel. Immutable per entity after creation.
#[derive(Clone, Copy, PartialEq, Eq, Structural, Debug)]
pub struct Color {
    pub r: u8,
    pub g: u8,
    pub b: u8,
    pub a: u8,
}

impl Color {
    pub fn new(r: u8, g: u8, b: u8, a: u8) -> (c: Color)
        ensures
            c == (Color { r, g, b, a }),
    {
        Color { r, g, b, a }
    }
}

/// The opaque white of a fresh projectile.
pub open spec fn color_white() -> Color {
    Color { r: 255, g: 255, b: 255, a: 255 }
}

/// The red entry of the fixed palette.
pub open spec fn color_red() -> Color {
    Color { r: 255, g: 0, b: 0, a: 255 }
}

/// The green entry of the fixed palette.
pub open spec fn color_green() -> Color {
    Color { r: 0, g: 255, b: 0, a: 255 }
}

/// The blue entry of the fixed palette.
pub open spec fn color_blue() -> Color {
    Color { r: 0, g: 0, b: 255, a: 255 }
}

/// A fatal configuration failure: walker construction was handed a
/// color selector outside the palette.
#[derive(Clone, Copy, PartialEq, Eq, Structural, Debug)]
pub enum ConfigError {
    UnrecognizedColorSelector,
}

/// Whether two byte slices hold the same bytes.
pub fn bytes_eq(a: &[u8], b: &[u8]) -> (r: bool)
    ensures
        r == (a@ == b@),
{
    if a.len() != b.len() {
        return false;
    }
    let mut i: usize = 0;
    while i < a.len()
        invariant
            i <= a@.len(),
            a@.len() == b@.len(),
            forall|j: int| 0 <= j < i ==> a@[j] == b@[j],
        decreases a@.len() - i,
    {
        if a[i] != b[i] {
            return false;
        }
        i += 1;
    }
    proof {
        assert(a@ =~= b@);
    }
    true
}

/// The palette color a selector names, or the configuration error when
/// it names none.
pub open spec fn palette_spec(selector: &str) -> Result<Color, ConfigError> {
    if selector.spec_bytes() == "red".spec_bytes() {
        Ok(color_red())
    } else if selector.spec_bytes() == "green".spec_bytes() {
        Ok(color_green())
    } else if selector.spec_bytes() == "blue".spec_bytes() {
        Ok(color_blue())
    } else {
        Err(ConfigError::UnrecognizedColorSelector)
    }
}

/// Each of the three palette selectors names its own color: the
/// selectors' UTF-8 encodings have pairwise different lengths, so no
/// selector can take another's branch.
pub proof fn lemma_palette_selectors()
    ensures
        palette_spec("red") == Ok::<Color, ConfigError>(color_red()),
        palette_spec("green") == Ok::<Color, ConfigError>(color_green()),
        palette_spec("blue") == Ok::<Color, ConfigError>(color_blue()),
{
    reveal_strlit("red");
    reveal_strlit("green");
    reveal_strlit("blue");
    assert(vstd::utf8::is_ascii_chars("red"@));
    assert(vstd::utf8::is_ascii_chars("green"@));
    assert(vstd::utf8::is_ascii_chars("blue"@));
    vstd::utf8::is_ascii_chars_encode_utf8("red"@);
    vstd::utf8::is_ascii_chars_encode_utf8("green"@);
    vstd::utf8::is_ascii_chars_encode_utf8("blue"@);
    assert("red".spec_bytes().len() == 3);
    assert("green".spec_bytes().len() == 5);
    assert("blue".spec_bytes().len() == 4);
}

/// Looks a caller-supplied selector up in the fixed palette; an
/// unrecognized selector is reported, not fatal here, so that startup
/// alone decides to abort.
pub fn palette_color(selector: &str) -> (r: Result<Color, ConfigError>)
    ensures
        r == palette_spec(selector),
{
    let s = selector.as_bytes();
    if bytes_eq(s, "red".as_bytes()) {
        Ok(Color::new(255, 0, 0, 255))
    } else if bytes_eq(s, "green".as_bytes()) {
        Ok(Color::new(0, 255, 0, 255))
    } else if bytes_eq(s, "blue".as_bytes()) {
        Ok(Color::new(0, 0, 255, 255))
    } else {
        Err(ConfigError::UnrecognizedColorSelector)
    }
}

} // verus!
