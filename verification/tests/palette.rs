use random_walkers::color::{bytes_eq, palette_color, Color, ConfigError};

#[test]
fn palette_names_the_three_colors() {
    assert_eq!(
        palette_color("red"),
        Ok(Color { r: 255, g: 0, b: 0, a: 255 })
    );
    assert_eq!(
        palette_color("green"),
        Ok(Color { r: 0, g: 255, b: 0, a: 255 })
    );
    assert_eq!(
        palette_color("blue"),
        Ok(Color { r: 0, g: 0, b: 255, a: 255 })
    );
}

#[test]
fn palette_rejects_unknown_selectors() {
    assert_eq!(
        palette_color("purple"),
        Err(ConfigError::UnrecognizedColorSelector)
    );
    assert_eq!(palette_color(""), Err(ConfigError::UnrecognizedColorSelector));
    assert_eq!(
        palette_color("Red"),
        Err(ConfigError::UnrecognizedColorSelector)
    );
}

#[test]
fn byte_comparison_is_exact() {
    assert!(bytes_eq(b"abc", b"abc"));
    assert!(!bytes_eq(b"abc", b"abd"));
    assert!(!bytes_eq(b"abc", b"abcd"));
    assert!(bytes_eq(b"", b""));
}
