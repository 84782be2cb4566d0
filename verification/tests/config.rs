use dark_inject::config::{parse_hex_color, Colors, Config, HexColorError};

#[test]
fn default_colors_match_current_ahk_prototype() {
    let cfg = Config::default_colors();
    assert_eq!(cfg.colors.bg, 0x1E1E1E);
    assert_eq!(cfg.colors.text, 0xD4D4D4);
    assert_eq!(cfg.colors.line, 0x3C3C3C);
}

#[test]
fn default_colors_equal_built_in_palette() {
    assert_eq!(
        Config::default_colors(),
        Config { colors: Colors { bg: 0x1E1E1E, text: 0xD4D4D4, line: 0x3C3C3C } }
    );
}

#[test]
fn parses_prefixed_hex_colors() {
    assert_eq!(parse_hex_color("0x1E1E1E"), Ok(0x1E1E1E));
    assert_eq!(parse_hex_color("0XD4D4D4"), Ok(0xD4D4D4));
    assert_eq!(parse_hex_color("3c3c3c"), Ok(0x3C3C3C));
    assert_eq!(parse_hex_color("0xffffffff"), Ok(0xFFFF_FFFF));
    assert_eq!(parse_hex_color("+ff"), Ok(0xFF));
    assert_eq!(parse_hex_color("0x00000000000000001"), Ok(1));
}

#[test]
fn strips_repeated_prefixes_in_order() {
    assert_eq!(parse_hex_color("0x0x10"), Ok(0x10));
    assert_eq!(parse_hex_color("0x0X10"), Ok(0x10));
    assert_eq!(parse_hex_color("0X0X10"), Ok(0x10));
    // "0X" is stripped only after "0x", so a later "0x" is kept.
    assert_eq!(parse_hex_color("0X0x10"), Err(HexColorError::InvalidDigit));
}

#[test]
fn reports_empty_colors() {
    assert_eq!(parse_hex_color(""), Err(HexColorError::Empty));
    assert_eq!(parse_hex_color("0x"), Err(HexColorError::Empty));
    assert_eq!(parse_hex_color("0x0X"), Err(HexColorError::Empty));
}

#[test]
fn reports_invalid_digits() {
    assert_eq!(parse_hex_color("zz"), Err(HexColorError::InvalidDigit));
    assert_eq!(parse_hex_color("+"), Err(HexColorError::InvalidDigit));
    assert_eq!(parse_hex_color("-"), Err(HexColorError::InvalidDigit));
    assert_eq!(parse_hex_color("-1"), Err(HexColorError::InvalidDigit));
    assert_eq!(parse_hex_color(" 0x10"), Err(HexColorError::InvalidDigit));
    assert_eq!(parse_hex_color("12 "), Err(HexColorError::InvalidDigit));
    assert_eq!(parse_hex_color("1é"), Err(HexColorError::InvalidDigit));
}

#[test]
fn reports_overflow() {
    assert_eq!(parse_hex_color("100000000"), Err(HexColorError::PosOverflow));
    assert_eq!(parse_hex_color("0xFFFFFFFFF"), Err(HexColorError::PosOverflow));
    // the overflow is found before the bad digit after it
    assert_eq!(parse_hex_color("FFFFFFFFFz"), Err(HexColorError::PosOverflow));
    assert_eq!(parse_hex_color("FFFFFFFz"), Err(HexColorError::InvalidDigit));
}

#[test]
fn error_descriptions_match_integer_parsing() {
    assert_eq!(HexColorError::Empty.description(), "".parse::<u32>().unwrap_err().to_string());
    assert_eq!(
        HexColorError::InvalidDigit.description(),
        u32::from_str_radix("g", 16).unwrap_err().to_string()
    );
    assert_eq!(
        HexColorError::PosOverflow.description(),
        u32::from_str_radix("100000000", 16).unwrap_err().to_string()
    );
}

#[test]
fn parse_agrees_with_std_radix_parsing() {
    let samples = ["0", "7fffffff", "80000000", "FfFfFfFf", "+0", "++1", "1+", "abcdefg", "00000000000", "1_0"];
    for s in samples {
        let expected = u32::from_str_radix(s, 16).map_err(|e| e.to_string());
        let got = parse_hex_color(s).map_err(|e| e.description().to_string());
        assert_eq!(got, expected, "for {:?}", s);
    }
}
