use dark_inject::cairohook::{cairo_import_names, cairo_target, CairoHookState, CairoTarget};
use dark_inject::config::Colors;
use dark_inject::patch::FoundImport;

#[test]
fn maps_cairo_import_names() {
    assert_eq!(cairo_target("cairo_set_source_rgb"), Some(CairoTarget::SetSourceRgb));
    assert_eq!(cairo_target("cairo_set_source_rgba"), Some(CairoTarget::SetSourceRgba));
    assert_eq!(cairo_target("cairo_fill"), None);
    assert_eq!(cairo_import_names(), ["cairo_set_source_rgb", "cairo_set_source_rgba"]);
}

#[test]
fn cairo_rescan_is_idempotent() {
    let mut st = CairoHookState::new();
    let scan = vec![
        FoundImport { name: "cairo_set_source_rgba".to_string(), slot: 40 },
        FoundImport { name: "cairo_set_source_rgb".to_string(), slot: 48 },
        FoundImport { name: "cairo_set_source_rgb".to_string(), slot: 48 },
    ];
    assert_eq!(
        st.install(&scan),
        vec![(40, CairoTarget::SetSourceRgba), (48, CairoTarget::SetSourceRgb)]
    );
    assert!(st.rescan(&scan).is_empty());
}

#[test]
fn cairo_set_active_colors_keeps_slots() {
    let mut st = CairoHookState::new();
    assert_eq!(st.active, Colors { bg: 0x1E1E1E, text: 0xD4D4D4, line: 0x3C3C3C });
    st.claim_slot("cairo_set_source_rgb", 1);
    st.set_active_colors(Colors { bg: 1, text: 2, line: 3 });
    assert_eq!(st.active, Colors { bg: 1, text: 2, line: 3 });
    assert!(st.patched.contains(1));
}
