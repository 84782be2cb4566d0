use dark_inject::win32::{decode_wide_lossy, to_wide, wide_to_string};

#[test]
fn test_to_wide() {
    assert_eq!(to_wide("abc"), vec![97u16, 98, 99, 0]);
}

#[test]
fn to_wide_encodes_surrogate_pairs() {
    assert_eq!(to_wide(""), vec![0u16]);
    assert_eq!(to_wide("é"), vec![0xE9u16, 0]);
    assert_eq!(to_wide("𝄞"), vec![0xD834u16, 0xDD1E, 0]);
    let s = "Local\\DarkInject1C_State";
    let expected: Vec<u16> = s.encode_utf16().chain(std::iter::once(0)).collect();
    assert_eq!(to_wide(s), expected);
}

#[test]
fn wide_to_string_stops_at_first_nul() {
    let mut buf = [0u16; 16];
    for (i, u) in "1cv8.exe".encode_utf16().enumerate() {
        buf[i] = u;
    }
    assert_eq!(wide_to_string(&buf), "1cv8.exe");
    assert_eq!(wide_to_string(&[0x41, 0x42]), "AB");
    assert_eq!(wide_to_string(&[0, 0x41]), "");
}

#[test]
fn wide_roundtrip_gives_back_the_string() {
    for s in ["", "SysTreeView32", "Журнал", "a𝄞b"] {
        assert_eq!(wide_to_string(&to_wide(s)), s);
    }
}

#[test]
fn lossy_decoding_replaces_unpaired_surrogates() {
    let units = [0x61u16, 0xD800, 0x62, 0xDC00, 0xD834, 0xDD1E, 0xD834];
    let expected: String = String::from_utf16_lossy(&units);
    let got: String = decode_wide_lossy(&units).into_iter().collect();
    assert_eq!(got, expected);
    assert_eq!(got, "a\u{FFFD}b\u{FFFD}𝄞\u{FFFD}");
}
