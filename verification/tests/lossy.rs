use dark_inject::lossy::{utf8_lossy, utf8_lossy_range};

#[test]
fn lossy_decoding_matches_std() {
    let samples: Vec<Vec<u8>> = vec![
        b"plain ascii".to_vec(),
        "Журнал 𝄞".as_bytes().to_vec(),
        vec![0xFF],
        vec![0xC0, 0x80],
        vec![0xE0, 0x80, 0x80],
        vec![0xE0, 0xA0],
        vec![0xE0, 0xA0, 0x41],
        vec![0xED, 0xA0, 0x80],
        vec![0xF0, 0x90, 0x80],
        vec![0xF0, 0x90, 0x80, 0x80, 0xF4, 0x90],
        vec![0xF5, 0x80, 0x41],
        vec![0x61, 0x80, 0xBF, 0x62],
        vec![0xC2],
        vec![0xEF, 0xBF, 0xBD, 0xFE],
    ];
    for s in &samples {
        assert_eq!(utf8_lossy(s), String::from_utf8_lossy(s).as_bytes(), "for {:?}", s);
    }
    let all: Vec<u8> = (0u8..=255).collect();
    assert_eq!(utf8_lossy(&all), String::from_utf8_lossy(&all).as_bytes());
}

#[test]
fn lossy_decoding_of_a_range() {
    let b = [0x41u8, 0xFF, 0x42, 0x43];
    assert_eq!(utf8_lossy_range(&b, 1, 3), vec![0xEF, 0xBF, 0xBD, 0x42]);
    assert!(utf8_lossy_range(&b, 2, 2).is_empty());
}
