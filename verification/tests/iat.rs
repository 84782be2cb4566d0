use dark_inject::iat::{import_directory, imports_in_module, ImportMatch};

fn put_u16(img: &mut [u8], off: usize, v: u16) {
    img[off..off + 2].copy_from_slice(&v.to_le_bytes());
}

fn put_u32(img: &mut [u8], off: usize, v: u32) {
    img[off..off + 4].copy_from_slice(&v.to_le_bytes());
}

fn put_u64(img: &mut [u8], off: usize, v: u64) {
    img[off..off + 8].copy_from_slice(&v.to_le_bytes());
}

fn put_str(img: &mut [u8], off: usize, s: &str) {
    img[off..off + s.len()].copy_from_slice(s.as_bytes());
    img[off + s.len()] = 0;
}

/// A small PE32+ image importing from GDI32.dll and USER32.dll.
fn sample_image() -> Vec<u8> {
    let mut img = vec![0u8; 0x400];
    put_u32(&mut img, 0x3C, 0x80);
    put_u32(&mut img, 0x80, 0x4550);
    put_u16(&mut img, 0x98, 0x20b);
    put_u32(&mut img, 0x98 + 112 + 8, 0x200);
    put_u32(&mut img, 0x98 + 112 + 12, 60);
    // descriptor 0: USER32.dll
    put_u32(&mut img, 0x200, 0x2A0);
    put_u32(&mut img, 0x200 + 12, 0x370);
    put_u32(&mut img, 0x200 + 16, 0x2C0);
    // descriptor 1: GDI32.dll
    put_u32(&mut img, 0x214, 0x240);
    put_u32(&mut img, 0x214 + 12, 0x300);
    put_u32(&mut img, 0x214 + 16, 0x280);
    // descriptor 2: terminator (zero)
    put_str(&mut img, 0x300, "GDI32.dll");
    put_str(&mut img, 0x370, "USER32.dll");
    put_u64(&mut img, 0x240, 0x310);
    put_u64(&mut img, 0x248, 0x8000_0000_0000_0005);
    put_u64(&mut img, 0x250, 0x330);
    put_u64(&mut img, 0x258, 0x350);
    put_u64(&mut img, 0x260, 0);
    put_str(&mut img, 0x312, "SetTextColor");
    put_str(&mut img, 0x332, "Other");
    put_str(&mut img, 0x352, "SetBkColor");
    put_u64(&mut img, 0x2A0, 0x390);
    put_u64(&mut img, 0x2A8, 0);
    put_str(&mut img, 0x392, "SetBkColor");
    img
}

const NAMES: [&str; 3] = ["SetBkColor", "SetTextColor", "CreateSolidBrush"];

#[test]
fn finds_import_directory_of_pe32_plus() {
    assert_eq!(import_directory(&sample_image()), Some((0x200, 60)));
}

#[test]
fn rejects_non_pe_images() {
    let mut img = sample_image();
    put_u32(&mut img, 0x80, 0x4551);
    assert_eq!(import_directory(&img), None);
    let mut img = sample_image();
    put_u16(&mut img, 0x98, 0x10b); // PE32
    assert_eq!(import_directory(&img), None);
    let mut img = sample_image();
    put_u32(&mut img, 0x98 + 120, 0);
    assert_eq!(import_directory(&img), None);
    let mut img = sample_image();
    put_u32(&mut img, 0x3C, 0x8000_0000);
    assert_eq!(import_directory(&img), None);
    assert_eq!(import_directory(&[]), None);
    assert_eq!(import_directory(&sample_image()[..0x100]), None);
}

#[test]
fn finds_named_imports_of_one_dll_ignoring_case() {
    let img = sample_image();
    let found = imports_in_module(&img, "gdi32.dll", &NAMES);
    assert_eq!(
        found,
        vec![
            ImportMatch { name_index: 1, first_thunk: 0x280, entry: 0 },
            ImportMatch { name_index: 0, first_thunk: 0x280, entry: 3 },
        ]
    );
    let found = imports_in_module(&img, "USER32.DLL", &NAMES);
    assert_eq!(found, vec![ImportMatch { name_index: 0, first_thunk: 0x2C0, entry: 0 }]);
    assert!(imports_in_module(&img, "cairo.dll", &NAMES).is_empty());
    assert!(imports_in_module(&img, "gdi32.dll", &[]).is_empty());
}

#[test]
fn skips_descriptors_without_name_table() {
    let mut img = sample_image();
    put_u32(&mut img, 0x214, 0);
    assert!(imports_in_module(&img, "gdi32.dll", &NAMES).is_empty());
}

#[test]
fn stops_at_a_descriptor_without_name() {
    let mut img = sample_image();
    put_u32(&mut img, 0x200 + 12, 0);
    assert!(imports_in_module(&img, "gdi32.dll", &NAMES).is_empty());
}

#[test]
fn truncated_image_ends_the_walk() {
    let img = sample_image();
    // the name table of GDI32.dll runs past the end of this view
    let short = &img[..0x258];
    assert_eq!(import_directory(short), Some((0x200, 60)));
    assert_eq!(
        imports_in_module(short, "gdi32.dll", &NAMES),
        Vec::<ImportMatch>::new()
    );
}

#[test]
fn names_are_decoded_lossily_before_comparison() {
    // DLL name with an invalid byte: decodes to U+FFFD followed by "a.dll".
    let mut img = sample_image();
    img[0x300] = 0xFF;
    img[0x301] = b'a';
    img[0x302] = b'.';
    img[0x303] = b'd';
    img[0x304] = b'l';
    img[0x305] = b'l';
    img[0x306] = 0;
    let targets = ["SetBkColor"];
    assert_eq!(
        imports_in_module(&img, "\u{FFFD}A.DLL", &targets),
        vec![ImportMatch { name_index: 0, first_thunk: 0x280, entry: 3 }]
    );
    assert!(imports_in_module(&img, "gdi32.dll", &targets).is_empty());
    // Function name "X" followed by a truncated three-byte sequence.
    let mut img = sample_image();
    img[0x332] = b'X';
    img[0x333] = 0xE0;
    img[0x334] = 0xA0;
    img[0x335] = 0;
    let targets = ["X\u{FFFD}"];
    assert_eq!(
        imports_in_module(&img, "gdi32.dll", &targets),
        vec![ImportMatch { name_index: 0, first_thunk: 0x280, entry: 2 }]
    );
}
