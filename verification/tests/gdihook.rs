use dark_inject::config::Colors;
use dark_inject::gdihook::{
    channels, gdi_import_names, gdi_target, is_dark_foreground, is_light_background, GdiHookState,
    GdiTarget,
};
use dark_inject::patch::FoundImport;

#[test]
fn classifies_light_background_colors() {
    assert!(is_light_background(0x00FFFFFF));
    assert!(is_light_background(0x00C8D0D4));
    assert!(!is_light_background(0x00000000));
    assert!(!is_light_background(0x00FF0000));
}

#[test]
fn classifies_dark_foreground_colors() {
    assert!(is_dark_foreground(0x00000000));
    assert!(!is_dark_foreground(0x00FFFFFF));
    assert!(!is_dark_foreground(0x00FF0000));
}

#[test]
fn splits_colorref_channels() {
    assert_eq!(channels(0x00112233), (0x33, 0x22, 0x11));
    assert_eq!(channels(0xFFC8D0D4), (0xD4, 0xD0, 0xC8));
}

#[test]
fn light_and_dark_thresholds() {
    // all channels above 140 and sum above 510
    assert!(is_light_background(0x00ABABAB)); // 171 each
    assert!(!is_light_background(0x00AAAAAA)); // 170 each: sum 510
    assert!(!is_light_background(0x008C8C8C)); // 140 each: not above
    assert!(!is_light_background(0x00A9A9A9)); // 169 each: sum 507
    // dark: sum below 270 and spread below 40
    assert!(is_dark_foreground(0x00595959)); // 89 each
    assert!(!is_dark_foreground(0x005A5A5A)); // 90 each: sum 270
    assert!(!is_dark_foreground(0x00000028)); // spread 40
    assert!(is_dark_foreground(0x00000027));
}

#[test]
fn remaps_only_matching_colors() {
    let mut st = GdiHookState::new();
    st.set_active_colors(Colors { bg: 0x111111, text: 0xEEEEEE, line: 0x333333 });
    assert_eq!(st.background_for(0x00FFFFFF), 0x111111);
    assert_eq!(st.background_for(0x00FF0000), 0x00FF0000);
    assert_eq!(st.brush_for(0x00F0F0F0), 0x111111);
    assert_eq!(st.text_for(0x00000000), 0xEEEEEE);
    assert_eq!(st.text_for(0x000000FF), 0x000000FF);
    // idempotent
    assert_eq!(st.background_for(st.background_for(0x00FFFFFF)), 0x111111);
}

#[test]
fn default_state_uses_built_in_palette() {
    let st = GdiHookState::new();
    assert_eq!(st.active, Colors { bg: 0x1E1E1E, text: 0xD4D4D4, line: 0x3C3C3C });
    assert_eq!(st.background_for(0x00FFFFFF), 0x1E1E1E);
    assert_eq!(st.text_for(0x00101010), 0xD4D4D4);
}

#[test]
fn maps_gdi_import_names() {
    assert_eq!(gdi_target("SetBkColor"), Some(GdiTarget::SetBkColor));
    assert_eq!(gdi_target("SetTextColor"), Some(GdiTarget::SetTextColor));
    assert_eq!(gdi_target("CreateSolidBrush"), Some(GdiTarget::CreateSolidBrush));
    assert_eq!(gdi_target("setbkcolor"), None);
    assert_eq!(gdi_import_names(), ["SetBkColor", "SetTextColor", "CreateSolidBrush"]);
}

fn found(name: &str, slot: usize) -> FoundImport {
    FoundImport { name: name.to_string(), slot }
}

#[test]
fn gdi_rescan_never_redirects_a_slot_twice() {
    let mut st = GdiHookState::new();
    let scan = vec![found("SetBkColor", 0x1000), found("SetTextColor", 0x1008), found("Other", 0x1010)];
    let first = st.install(&scan);
    assert_eq!(first, vec![(0x1000, GdiTarget::SetBkColor), (0x1008, GdiTarget::SetTextColor)]);
    assert!(st.patched.contains(0x1010));
    let again = st.rescan(&scan);
    assert!(again.is_empty());
    let later = st.rescan(&[found("CreateSolidBrush", 0x2000), found("SetBkColor", 0x1000)]);
    assert_eq!(later, vec![(0x2000, GdiTarget::CreateSolidBrush)]);
}

#[test]
fn claim_slot_records_each_slot_once() {
    let mut st = GdiHookState::new();
    assert_eq!(st.claim_slot("SetBkColor", 7), Some(GdiTarget::SetBkColor));
    assert_eq!(st.claim_slot("SetBkColor", 7), None);
    assert_eq!(st.claim_slot("Nope", 8), None);
    assert_eq!(st.claim_slot("SetTextColor", 8), None);
}
