//! Colour rules of the GDI interception layer: which `COLORREF` values count
//! as a light background or a dark foreground, what they are replaced with,
//! and which imported GDI functions get redirected.
use vstd::prelude::*;
use crate::config::{Colors, default_palette};
use crate::patch::{
    PatchedSlots, FoundImport, spec_claim, spec_rescan, found_seq, comes_from_found,
    lemma_rescan_redirects_fresh,
};
use crate::text::str_equal;

verus! {

/// Red, green and blue channels of a `COLORREF` (`0x00BBGGRR`).
pub open spec fn spec_channels(color: u32) -> (u32, u32, u32) {
    ((color % 256) as u32, ((color / 256) % 256) as u32, ((color / 65536) % 256) as u32)
}

pub open spec fn min3(a: u32, b: u32, c: u32) -> u32 {
    if a <= b && a <= c {
        a
    } else if b <= c {
        b
    } else {
        c
    }
}

pub open spec fn max3(a: u32, b: u32, c: u32) -> u32 {
    if a >= b && a >= c {
        a
    } else if b >= c {
        b
    } else {
        c
    }
}

/// A light neutral colour (white, beige, light grey): every channel bright.
pub open spec fn spec_is_light_background(color: u32) -> bool {
    let (r, g, b) = spec_channels(color);
    min3(r, g, b) > 140 && r + g + b > 3 * 170
}

/// A dark neutral colour (black, dark grey): dark overall and of low
/// saturation, so that a saturated accent with one dark channel is not
/// taken for text.
pub open spec fn spec_is_dark_foreground(color: u32) -> bool {
    let (r, g, b) = spec_channels(color);
    r + g + b < 3 * 90 && max3(r, g, b) - min3(r, g, b) < 40
}

/// The channels of a `COLORREF`.
pub fn channels(color: u32) -> (rgb: (u32, u32, u32))
    ensures
        rgb == spec_channels(color),
{
    let r = color & 0xFF;
    let g = (color >> 8) & 0xFF;
    let b = (color >> 16) & 0xFF;
    assert(r == color % 256) by (bit_vector)
        requires
            r == color & 0xFF,
    ;
    assert(g == (color / 256) % 256) by (bit_vector)
        requires
            g == (color >> 8) & 0xFF,
    ;
    assert(b == (color / 65536) % 256) by (bit_vector)
        requires
            b == (color >> 16) & 0xFF,
    ;
    (r, g, b)
}

fn min_of(a: u32, b: u32, c: u32) -> (m: u32)
    ensures
        m == min3(a, b, c),
{
    if a <= b && a <= c {
        a
    } else if b <= c {
        b
    } else {
        c
    }
}

fn max_of(a: u32, b: u32, c: u32) -> (m: u32)
    ensures
        m == max3(a, b, c),
{
    if a >= b && a >= c {
        a
    } else if b >= c {
        b
    } else {
        c
    }
}

/// Whether a colour is a light neutral background.
pub fn is_light_background(color: u32) -> (r: bool)
    ensures
        r == spec_is_light_background(color),
{
    let (r, g, b) = channels(color);
    min_of(r, g, b) > 140 && (r + g + b) > 3 * 170
}

/// Whether a colour is a dark neutral foreground.
pub fn is_dark_foreground(color: u32) -> (r: bool)
    ensures
        r == spec_is_dark_foreground(color),
{
    let (r, g, b) = channels(color);
    let max = max_of(r, g, b);
    let min = min_of(r, g, b);
    (r + g + b) < 3 * 90 && (max - min) < 40
}

/// The background colour actually used: a light background becomes the
/// palette's background, anything else is kept.
pub open spec fn spec_background_for(active: Colors, color: u32) -> u32 {
    if spec_is_light_background(color) {
        active.bg
    } else {
        color
    }
}

/// The text colour actually used: a dark foreground becomes the palette's
/// text colour, anything else is kept.
pub open spec fn spec_text_for(active: Colors, color: u32) -> u32 {
    if spec_is_dark_foreground(color) {
        active.text
    } else {
        color
    }
}

/// The imported GDI functions that get redirected.
#[derive(Debug, Clone, Copy, PartialEq, Eq, Structural)]
pub enum GdiTarget {
    SetBkColor,
    SetTextColor,
    CreateSolidBrush,
}

/// The redirected function that an import name stands for.
pub open spec fn spec_gdi_target(name: Seq<char>) -> Option<GdiTarget> {
    if name == "SetBkColor"@ {
        Some(GdiTarget::SetBkColor)
    } else if name == "SetTextColor"@ {
        Some(GdiTarget::SetTextColor)
    } else if name == "CreateSolidBrush"@ {
        Some(GdiTarget::CreateSolidBrush)
    } else {
        None
    }
}

/// The GDI import names that a scan looks for.
pub fn gdi_import_names() -> (names: [&'static str; 3])
    ensures
        names[0]@ == "SetBkColor"@,
        names[1]@ == "SetTextColor"@,
        names[2]@ == "CreateSolidBrush"@,
{
    ["SetBkColor", "SetTextColor", "CreateSolidBrush"]
}

/// The redirected function for an import name.
pub fn gdi_target(name: &str) -> (t: Option<GdiTarget>)
    ensures
        t == spec_gdi_target(name@),
{
    if str_equal(name, "SetBkColor") {
        Some(GdiTarget::SetBkColor)
    } else if str_equal(name, "SetTextColor") {
        Some(GdiTarget::SetTextColor)
    } else if str_equal(name, "CreateSolidBrush") {
        Some(GdiTarget::CreateSolidBrush)
    } else {
        None
    }
}

/// The target of each import name, as a function.
pub open spec fn gdi_targets() -> spec_fn(Seq<char>) -> Option<GdiTarget> {
    |name: Seq<char>| spec_gdi_target(name)
}

/// State of the GDI layer: the palette in force and the slots already
/// redirected.
pub struct GdiHookState {
    pub active: Colors,
    pub patched: PatchedSlots,
}

impl GdiHookState {
    /// The built-in palette, nothing redirected.
    pub fn new() -> (s: GdiHookState)
        ensures
            s.active == default_palette(),
            s.patched@ == Set::<usize>::empty(),
    {
        GdiHookState {
            active: Colors { bg: 0x1E1E1E, text: 0xD4D4D4, line: 0x3C3C3C },
            patched: PatchedSlots::new(),
        }
    }

    /// Puts a palette in force.
    pub fn set_active_colors(&mut self, colors: Colors)
        ensures
            final(self).active == colors,
            final(self).patched@ == old(self).patched@,
    {
        self.active = colors;
    }

    /// The colour passed on for `SetBkColor`.
    pub fn background_for(&self, color: u32) -> (c: u32)
        ensures
            c == spec_background_for(self.active, color),
    {
        if is_light_background(color) {
            self.active.bg
        } else {
            color
        }
    }

    /// The colour passed on for `SetTextColor`.
    pub fn text_for(&self, color: u32) -> (c: u32)
        ensures
            c == spec_text_for(self.active, color),
    {
        if is_dark_foreground(color) {
            self.active.text
        } else {
            color
        }
    }

    /// The colour passed on for `CreateSolidBrush`.
    pub fn brush_for(&self, color: u32) -> (c: u32)
        ensures
            c == spec_background_for(self.active, color),
    {
        self.background_for(color)
    }

    /// Handles one import slot found by a scan: records it, and says which
    /// redirect to install, if any. A slot recorded before is left alone.
    pub fn claim_slot(&mut self, name: &str, slot: usize) -> (t: Option<GdiTarget>)
        ensures
            final(self).patched@ == spec_claim(old(self).patched@, slot).0,
            final(self).active == old(self).active,
            t == (if spec_claim(old(self).patched@, slot).1 {
                spec_gdi_target(name@)
            } else {
                None
            }),
    {
        if !self.patched.claim(slot) {
            return None;
        }
        gdi_target(name)
    }

    /// Handles every import slot found by a scan, in order: records each,
    /// and lists the redirects to install for the slots not recorded before.
    /// Safe to call again and again, as modules keep loading.
    pub fn rescan(&mut self, found: &[FoundImport]) -> (redirects: Vec<(usize, GdiTarget)>)
        ensures
            (final(self).patched@, redirects@) == spec_rescan(
                old(self).patched@,
                found_seq(found@),
                gdi_targets(),
            ),
            final(self).active == old(self).active,
    {
        let ghost fs = found_seq(found@);
        let mut out: Vec<(usize, GdiTarget)> = Vec::new();
        let mut i: usize = 0;
        assert(fs.take(0) =~= Seq::<(Seq<char>, usize)>::empty());
        while i < found.len()
            invariant
                0 <= i <= found.len(),
                fs == found_seq(found@),
                fs.len() == found.len(),
                self.active == old(self).active,
                (self.patched@, out@) == spec_rescan(old(self).patched@, fs.take(i as int), gdi_targets()),
            decreases found.len() - i,
        {
            let f = &found[i];
            assert(fs.take(i + 1).drop_last() == fs.take(i as int));
            assert(fs.take(i + 1).last() == (f.name@, f.slot));
            match self.claim_slot(f.name.as_str(), f.slot) {
                Some(t) => {
                    out.push((f.slot, t));
                },
                None => {},
            }
            i = i + 1;
        }
        assert(fs.take(found.len() as int) == fs);
        out
    }

    /// The first scan, right after injection.
    pub fn install(&mut self, found: &[FoundImport]) -> (redirects: Vec<(usize, GdiTarget)>)
        ensures
            (final(self).patched@, redirects@) == spec_rescan(
                old(self).patched@,
                found_seq(found@),
                gdi_targets(),
            ),
            final(self).active == old(self).active,
    {
        self.rescan(found)
    }
}

/// The red, green and blue bytes of a `COLORREF` are its three low bytes.
proof fn lemma_channels_bytes(color: u32)
    ensures
        spec_channels(color) == (color & 0xFF, (color >> 8) & 0xFF, (color >> 16) & 0xFF),
{
    assert(color & 0xFF == color % 256) by (bit_vector);
    assert((color >> 8) & 0xFF == (color / 256) % 256) by (bit_vector);
    assert((color >> 16) & 0xFF == (color / 65536) % 256) by (bit_vector);
}

/// A light background is a colour whose red, green and blue bytes are each
/// above 140 and sum to more than 510; a colour with any byte at 140 or
/// below keeps its value as background and as brush colour.
pub proof fn lemma_light_background_bytes(active: Colors, color: u32)
    ensures
        spec_is_light_background(color) <==> ((color & 0xFF) > 140 && ((color >> 8) & 0xFF) > 140
            && ((color >> 16) & 0xFF) > 140 && (color & 0xFF) + ((color >> 8) & 0xFF) + ((color
            >> 16) & 0xFF) > 510),
        (color & 0xFF) <= 140 || ((color >> 8) & 0xFF) <= 140 || ((color >> 16) & 0xFF) <= 140
            ==> spec_background_for(active, color) == color,
        spec_background_for(active, color) == (if spec_is_light_background(color) {
            active.bg
        } else {
            color
        }),
{
    lemma_channels_bytes(color);
}

/// A dark foreground is a colour whose red, green and blue bytes sum to
/// less than 270 and differ pairwise by less than 40; any other colour keeps
/// its value as text colour.
pub proof fn lemma_dark_foreground_bytes(active: Colors, color: u32)
    ensures
        spec_is_dark_foreground(color) <==> ({
            let r = (color & 0xFF) as int;
            let g = ((color >> 8) & 0xFF) as int;
            let b = ((color >> 16) & 0xFF) as int;
            &&& r + g + b < 270
            &&& -40 < r - g < 40
            &&& -40 < g - b < 40
            &&& -40 < r - b < 40
        }),
        !spec_is_dark_foreground(color) ==> spec_text_for(active, color) == color,
        spec_is_dark_foreground(color) ==> spec_text_for(active, color) == active.text,
{
    lemma_channels_bytes(color);
}

/// A colour is never both a light background and a dark foreground.
pub proof fn lemma_light_dark_disjoint(color: u32)
    ensures
        !(spec_is_light_background(color) && spec_is_dark_foreground(color)),
{
}

/// Replacing a background is idempotent: a replaced colour is not replaced
/// again with something else.
pub proof fn lemma_background_idempotent(active: Colors, color: u32)
    ensures
        spec_background_for(active, spec_background_for(active, color)) == spec_background_for(
            active,
            color,
        ),
{
}

/// Replacing a text colour is idempotent.
pub proof fn lemma_text_idempotent(active: Colors, color: u32)
    ensures
        spec_text_for(active, spec_text_for(active, color)) == spec_text_for(active, color),
{
}

/// With a palette whose background is not itself light, no light background
/// reaches the device context.
pub proof fn lemma_no_light_background_left(active: Colors, color: u32)
    requires
        !spec_is_light_background(active.bg),
    ensures
        !spec_is_light_background(spec_background_for(active, color)),
{
}

/// With a palette whose text colour is not itself dark, no dark foreground
/// reaches the device context.
pub proof fn lemma_no_dark_text_left(active: Colors, color: u32)
    requires
        !spec_is_dark_foreground(active.text),
    ensures
        !spec_is_dark_foreground(spec_text_for(active, color)),
{
}

/// The built-in palette has a background that is not light and a text
/// colour that is not dark.
pub proof fn lemma_default_palette_fits()
    ensures
        !spec_is_light_background(default_palette().bg),
        !spec_is_dark_foreground(default_palette().text),
{
    assert(spec_channels(0x1E1E1E) == (0x1Eu32, 0x1Eu32, 0x1Eu32));
    assert(spec_channels(0xD4D4D4) == (0xD4u32, 0xD4u32, 0xD4u32));
}

/// A rescan redirects every found slot that was not recorded before it
/// (nor found earlier in the same scan) and whose import name is one of the
/// redirected functions, to that function's hook; it redirects nothing
/// else.
pub proof fn lemma_gdi_rescan_redirects_fresh(patched: Set<usize>, found: Seq<(Seq<char>, usize)>)
    ensures
        forall|i: int|
            0 <= i < found.len() && !patched.contains(#[trigger] found[i].1) && (forall|j: int|
                0 <= j < i ==> found[j].1 != found[i].1) && gdi_targets()(found[i].0) is Some
                ==> spec_rescan(patched, found, gdi_targets()).1.contains(
                (found[i].1, gdi_targets()(found[i].0)->0),
            ),
        forall|r: int|
            0 <= r < spec_rescan(patched, found, gdi_targets()).1.len() ==> comes_from_found(
                patched,
                found,
                gdi_targets(),
                #[trigger] spec_rescan(patched, found, gdi_targets()).1[r],
            ),
{
    lemma_rescan_redirects_fresh(patched, found, gdi_targets());
}

} // verus!
