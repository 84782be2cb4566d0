//! Reading a loaded PE32+ module image: where its import directory is, and
//! which of its imports from a given DLL have one of the given names,
//! together with the import-address-table slot through which each is
//! called. The image is the module's bytes from its base address; every
//! read outside it ends the walk that needed it.
use vstd::prelude::*;
use vstd::string::StringSliceAdditionalSpecFns;
use crate::lossy::{spec_utf8_lossy, utf8_lossy_range};

verus! {

/// Whether `n` bytes at `off` lie inside the image.
pub open spec fn fits(img: Seq<u8>, off: int, n: int) -> bool {
    0 <= off && off + n <= img.len()
}

/// Little-endian 16-bit value at `off`.
pub open spec fn le16(img: Seq<u8>, off: int) -> int {
    img[off] + 256 * img[off + 1]
}

/// Little-endian 32-bit value at `off`.
pub open spec fn le32(img: Seq<u8>, off: int) -> int {
    img[off] + 256 * img[off + 1] + 65536 * img[off + 2] + 16777216 * img[off + 3]
}

/// Little-endian 64-bit value at `off`.
pub open spec fn le64(img: Seq<u8>, off: int) -> int {
    le32(img, off) + 4294967296 * le32(img, off + 4)
}

/// Offset of `e_lfanew` in the DOS header.
pub const E_LFANEW_OFFSET: u64 = 0x3C;

/// `"PE\0\0"`.
pub const PE_SIGNATURE: u32 = 0x4550;

/// Optional-header magic of PE32+.
pub const PE32_PLUS_MAGIC: u16 = 0x20b;

/// The import directory `(rva, size)` of a PE32+ image: from the NT header
/// that `e_lfanew` (a non-negative 32-bit offset) points to, the optional
/// header 24 bytes further, and its data directory entry 1 at offset 120 of
/// the optional header. `None` for another signature or magic, for an empty
/// entry, or where a field lies outside the image.
pub open spec fn spec_import_directory(img: Seq<u8>) -> Option<(u32, u32)> {
    if !fits(img, E_LFANEW_OFFSET as int, 4) {
        None
    } else {
        let nt = le32(img, E_LFANEW_OFFSET as int);
        if nt >= 0x8000_0000 {
            None
        } else if !fits(img, nt, 4) || le32(img, nt) != PE_SIGNATURE {
            None
        } else if !fits(img, nt + 24, 2) || le16(img, nt + 24) != PE32_PLUS_MAGIC {
            None
        } else if !fits(img, nt + 24 + 120, 8) {
            None
        } else {
            let rva = le32(img, nt + 144);
            let size = le32(img, nt + 148);
            if rva == 0 || size == 0 {
                None
            } else {
                Some((rva as u32, size as u32))
            }
        }
    }
}

/// The index of the zero byte that ends the string starting at `i`, if one
/// lies inside the image.
pub open spec fn cstr_end(img: Seq<u8>, i: int) -> Option<int>
    decreases img.len() - i,
{
    if i < 0 || i >= img.len() {
        None
    } else if img[i] == 0 {
        Some(i)
    } else {
        cstr_end(img, i + 1)
    }
}

/// A string end lies at or after its start and inside the image.
pub proof fn lemma_cstr_end_bounds(img: Seq<u8>, i: int)
    ensures
        cstr_end(img, i) matches Some(e) ==> 0 <= i <= e < img.len() && img[e] == 0,
    decreases img.len() - i,
{
    if 0 <= i < img.len() && img[i] != 0 {
        lemma_cstr_end_bounds(img, i + 1);
    }
}

/// ASCII lower case of a byte.
pub open spec fn ascii_lower(b: u8) -> u8 {
    if 65 <= b <= 90 {
        (b + 32) as u8
    } else {
        b
    }
}

/// Byte strings equal up to ASCII case.
pub open spec fn eq_ignore_ascii_case(a: Seq<u8>, b: Seq<u8>) -> bool {
    a.len() == b.len() && forall|i: int| 0 <= i < a.len() ==> ascii_lower(a[i]) == ascii_lower(b[i])
}

/// The first index at or after `k` whose name equals `name`.
pub open spec fn find_name_from(targets: Seq<Seq<u8>>, name: Seq<u8>, k: int) -> Option<int>
    decreases targets.len() - k,
{
    if k < 0 || k >= targets.len() {
        None
    } else if targets[k] == name {
        Some(k)
    } else {
        find_name_from(targets, name, k + 1)
    }
}

/// The bytes of each name.
pub open spec fn names_bytes(names: Seq<&str>) -> Seq<Seq<u8>> {
    names.map_values(|t: &str| t.spec_bytes())
}

/// An import found: which target name it matched, and where its slot is.
/// The slot lies `first_thunk + 8 * entry` bytes from the image base.
#[derive(Debug, Clone, Copy, PartialEq, Eq, Structural)]
pub struct ImportMatch {
    /// Index into the target names.
    pub name_index: usize,
    /// RVA of the import address table of the descriptor.
    pub first_thunk: u32,
    /// Index of the entry in that table.
    pub entry: usize,
}

/// What the import-name table entry `idx` contributes: a match where the
/// entry imports by name (top bit clear) and the name after the 2-byte
/// hint, decoded lossily as UTF-8, is one of the targets.
pub open spec fn thunk_entry_match(
    img: Seq<u8>,
    targets: Seq<Seq<u8>>,
    e: int,
    first_thunk: u32,
    idx: int,
) -> Seq<ImportMatch> {
    if e < 0x8000_0000_0000_0000 {
        match cstr_end(img, e + 2) {
            Some(end) => match find_name_from(targets, spec_utf8_lossy(img.subrange(e + 2, end)), 0) {
                Some(k) => seq![
                    ImportMatch { name_index: k as usize, first_thunk, entry: idx as usize },
                ],
                None => seq![],
            },
            None => seq![],
        }
    } else {
        seq![]
    }
}

/// The matches of an import-name table, from entry `idx` to the zero entry
/// that ends it (or to the end of the image).
pub open spec fn thunk_walk(
    img: Seq<u8>,
    targets: Seq<Seq<u8>>,
    name_table: int,
    first_thunk: u32,
    idx: int,
) -> Seq<ImportMatch>
    decreases img.len() - (name_table + 8 * idx),
{
    let off = name_table + 8 * idx;
    if !fits(img, off, 8) || idx < 0 {
        seq![]
    } else {
        let e = le64(img, off);
        if e == 0 {
            seq![]
        } else {
            thunk_entry_match(img, targets, e, first_thunk, idx) + thunk_walk(
                img,
                targets,
                name_table,
                first_thunk,
                idx + 1,
            )
        }
    }
}

/// The matches of the import descriptors from `i` on: each is 20 bytes
/// (name table RVA at 0, DLL name RVA at 12, address table RVA at 16); the
/// walk ends at a descriptor with no name, after `count` descriptors, or at
/// the end of the image. A descriptor counts when its DLL name, decoded
/// lossily as UTF-8, equals `dll` up to ASCII case and it has a name table.
pub open spec fn descriptor_walk(
    img: Seq<u8>,
    dll: Seq<u8>,
    targets: Seq<Seq<u8>>,
    dir: int,
    count: int,
    i: int,
) -> Seq<ImportMatch>
    decreases count - i,
{
    if i < 0 || i >= count {
        seq![]
    } else {
        let d = dir + 20 * i;
        if !fits(img, d, 20) {
            seq![]
        } else {
            let name_table = le32(img, d);
            let name = le32(img, d + 12);
            let first_thunk = le32(img, d + 16);
            if name == 0 {
                seq![]
            } else {
                let rest = descriptor_walk(img, dll, targets, dir, count, i + 1);
                let selected = match cstr_end(img, name) {
                    Some(end) => name_table != 0 && eq_ignore_ascii_case(
                        spec_utf8_lossy(img.subrange(name, end)),
                        dll,
                    ),
                    None => false,
                };
                if selected {
                    thunk_walk(img, targets, name_table, first_thunk as u32, 0) + rest
                } else {
                    rest
                }
            }
        }
    }
}

/// All imports of the image from `dll` whose names are among `targets`, in
/// descriptor order and table order.
pub open spec fn spec_imports_in_module(img: Seq<u8>, dll: Seq<u8>, targets: Seq<Seq<u8>>) -> Seq<
    ImportMatch,
> {
    match spec_import_directory(img) {
        None => seq![],
        Some((rva, size)) => descriptor_walk(img, dll, targets, rva as int, size as int / 20, 0),
    }
}

/// A name found by `find_name_from` is a target, at a valid index.
proof fn lemma_find_name_valid(targets: Seq<Seq<u8>>, name: Seq<u8>, k: int)
    requires
        0 <= k,
    ensures
        find_name_from(targets, name, k) matches Some(j) ==> k <= j < targets.len() && targets[j]
            == name,
    decreases targets.len() - k,
{
    if k < targets.len() && targets[k] != name {
        lemma_find_name_valid(targets, name, k + 1);
    }
}

/// Every match of a name table names one of the targets.
proof fn lemma_thunk_walk_valid(
    img: Seq<u8>,
    targets: Seq<Seq<u8>>,
    name_table: int,
    first_thunk: u32,
    idx: int,
)
    requires
        targets.len() <= usize::MAX,
    ensures
        forall|j: int|
            0 <= j < thunk_walk(img, targets, name_table, first_thunk, idx).len() ==> (
            #[trigger] thunk_walk(img, targets, name_table, first_thunk, idx)[j]).name_index
                < targets.len(),
    decreases img.len() - (name_table + 8 * idx),
{
    let off = name_table + 8 * idx;
    if fits(img, off, 8) && idx >= 0 {
        let e = le64(img, off);
        if e != 0 {
            lemma_thunk_walk_valid(img, targets, name_table, first_thunk, idx + 1);
            if e < 0x8000_0000_0000_0000 {
                if let Some(end) = cstr_end(img, e + 2) {
                    lemma_find_name_valid(targets, spec_utf8_lossy(img.subrange(e + 2, end)), 0);
                }
            }
            let here = thunk_entry_match(img, targets, e, first_thunk, idx);
            let rest = thunk_walk(img, targets, name_table, first_thunk, idx + 1);
            assert(thunk_walk(img, targets, name_table, first_thunk, idx) == here + rest);
            assert forall|j: int| 0 <= j < here.len() implies here[j].name_index < targets.len() by {
            }
        }
    }
}

/// Every match of the descriptors names one of the targets.
proof fn lemma_descriptor_walk_valid(
    img: Seq<u8>,
    dll: Seq<u8>,
    targets: Seq<Seq<u8>>,
    dir: int,
    count: int,
    i: int,
)
    requires
        targets.len() <= usize::MAX,
    ensures
        forall|j: int|
            0 <= j < descriptor_walk(img, dll, targets, dir, count, i).len() ==> (
            #[trigger] descriptor_walk(img, dll, targets, dir, count, i)[j]).name_index
                < targets.len(),
    decreases count - i,
{
    if 0 <= i < count {
        let d = dir + 20 * i;
        if fits(img, d, 20) && le32(img, d + 12) != 0 {
            lemma_descriptor_walk_valid(img, dll, targets, dir, count, i + 1);
            lemma_thunk_walk_valid(img, targets, le32(img, d), le32(img, d + 16) as u32, 0);
            let rest = descriptor_walk(img, dll, targets, dir, count, i + 1);
            let th = thunk_walk(img, targets, le32(img, d), le32(img, d + 16) as u32, 0);
            let all = descriptor_walk(img, dll, targets, dir, count, i);
            assert(all == rest || all == th + rest);
            assert forall|j: int| 0 <= j < all.len() implies (#[trigger] all[j]).name_index
                < targets.len() by {
                if all != rest {
                    if j < th.len() {
                        assert(all[j] == th[j]);
                    } else {
                        assert(all[j] == rest[j - th.len()]);
                    }
                }
            }
        }
    }
}

/// Only targets are reported: every match's index designates one of the
/// target names.
pub proof fn lemma_imports_name_targets(img: Seq<u8>, dll: Seq<u8>, targets: Seq<Seq<u8>>)
    requires
        targets.len() <= usize::MAX,
    ensures
        forall|j: int|
            0 <= j < spec_imports_in_module(img, dll, targets).len() ==> (
            #[trigger] spec_imports_in_module(img, dll, targets)[j]).name_index < targets.len(),
{
    if let Some((rva, size)) = spec_import_directory(img) {
        lemma_descriptor_walk_valid(img, dll, targets, rva as int, size as int / 20, 0);
    }
}

/// Where the import directory is read: the NT header at the signed 32-bit
/// offset stored at `0x3C` starts with the bytes `P E 0 0`; the optional
/// header follows the 4-byte signature and the 20-byte file header and
/// starts with the PE32+ magic bytes `0x0b 0x02`; its data directories start
/// at its offset 112, 8 bytes each, and entry 1 (imports) holds the RVA and
/// then the size. An image has an import directory exactly when all these
/// lie in the image, match, and the RVA and size are both non-zero.
pub proof fn lemma_import_directory_layout(img: Seq<u8>)
    ensures
        spec_import_directory(img) is Some <==> ({
            let nt = le32(img, 0x3C);
            let opt = nt + 4 + 20;
            let entry = opt + 112 + 8 * 1;
            &&& fits(img, 0x3C, 4)
            &&& nt < 0x8000_0000
            &&& fits(img, nt, 4)
            &&& img[nt] == 0x50 && img[nt + 1] == 0x45 && img[nt + 2] == 0 && img[nt + 3] == 0
            &&& fits(img, opt, 2)
            &&& img[opt] == 0x0b && img[opt + 1] == 0x02
            &&& fits(img, entry, 8)
            &&& le32(img, entry) != 0
            &&& le32(img, entry + 4) != 0
        }),
        spec_import_directory(img) matches Some((rva, size)) ==> ({
            let entry = le32(img, 0x3C) + 4 + 20 + 112 + 8 * 1;
            rva == le32(img, entry) && size == le32(img, entry + 4)
        }),
{
    if fits(img, 0x3C, 4) {
        let nt = le32(img, 0x3C);
        if 0 <= nt && fits(img, nt, 4) {
            assert(le32(img, nt) == 0x4550 <==> (img[nt] == 0x50 && img[nt + 1] == 0x45 && img[nt
                + 2] == 0 && img[nt + 3] == 0));
        }
        if 0 <= nt && fits(img, nt + 24, 2) {
            assert(le16(img, nt + 24) == 0x20b <==> (img[nt + 24] == 0x0b && img[nt + 25] == 0x02));
        }
    }
}

/// `find_name_from` finds the first target equal to `name`.
proof fn lemma_find_first(targets: Seq<Seq<u8>>, name: Seq<u8>, j: int, k: int)
    requires
        0 <= j <= k < targets.len(),
        targets[k] == name,
        forall|m: int| 0 <= m < k ==> targets[m] != name,
    ensures
        find_name_from(targets, name, j) == Some(k),
    decreases k - j,
{
    if j < k {
        lemma_find_first(targets, name, j + 1, k);
    }
}

/// An element of either part is an element of a concatenation.
proof fn lemma_contains_concat(a: Seq<ImportMatch>, b: Seq<ImportMatch>, x: ImportMatch)
    requires
        a.contains(x) || b.contains(x),
    ensures
        (a + b).contains(x),
{
    if a.contains(x) {
        let j = choose|j: int| 0 <= j < a.len() && a[j] == x;
        assert((a + b)[j] == x);
    } else {
        let j = choose|j: int| 0 <= j < b.len() && b[j] == x;
        assert((a + b)[a.len() + j] == x);
    }
}

/// The import-name table entry `idx` at `name_table` imports by name a
/// function called `targets[k]`, and no earlier target has that name.
pub open spec fn entry_imports_target(
    img: Seq<u8>,
    targets: Seq<Seq<u8>>,
    name_table: int,
    idx: int,
    k: int,
) -> bool {
    let e = le64(img, name_table + 8 * idx);
    &&& fits(img, name_table + 8 * idx, 8)
    &&& e != 0
    &&& e < 0x8000_0000_0000_0000
    &&& 0 <= k < targets.len()
    &&& cstr_end(img, e + 2) matches Some(end) && targets[k] == spec_utf8_lossy(
        img.subrange(e + 2, end),
    ) && forall|m: int| 0 <= m < k ==> targets[m] != spec_utf8_lossy(img.subrange(e + 2, end))
}

/// Every entry from `from` through `idx` of the table at `name_table` lies
/// in the image and is not the terminating zero entry.
pub open spec fn entries_before_live(img: Seq<u8>, name_table: int, from: int, idx: int) -> bool {
    forall|m: int| from <= m < idx ==> #[trigger] entry_live(img, name_table, m)
}

/// Entry `m` of the table at `name_table` lies in the image and is not zero.
pub open spec fn entry_live(img: Seq<u8>, name_table: int, m: int) -> bool {
    fits(img, name_table + 8 * m, 8) && le64(img, name_table + 8 * m) != 0
}

proof fn lemma_thunk_walk_complete(
    img: Seq<u8>,
    targets: Seq<Seq<u8>>,
    name_table: int,
    first_thunk: u32,
    from: int,
    idx: int,
    k: int,
)
    requires
        0 <= from <= idx,
        entries_before_live(img, name_table, from, idx),
        entry_imports_target(img, targets, name_table, idx, k),
    ensures
        thunk_walk(img, targets, name_table, first_thunk, from).contains(
            ImportMatch { name_index: k as usize, first_thunk, entry: idx as usize },
        ),
    decreases idx - from,
{
    let x = ImportMatch { name_index: k as usize, first_thunk, entry: idx as usize };
    let off = name_table + 8 * from;
    let e = le64(img, off);
    if from == idx {
        let end = cstr_end(img, e + 2)->0;
        lemma_find_first(targets, spec_utf8_lossy(img.subrange(e + 2, end)), 0, k);
        let here = thunk_entry_match(img, targets, e, first_thunk, from);
        assert(here[0] == x);
        lemma_contains_concat(here, thunk_walk(img, targets, name_table, first_thunk, from + 1), x);
    } else {
        assert(entry_live(img, name_table, from));
        lemma_thunk_walk_complete(img, targets, name_table, first_thunk, from + 1, idx, k);
        lemma_contains_concat(
            thunk_entry_match(img, targets, e, first_thunk, from),
            thunk_walk(img, targets, name_table, first_thunk, from + 1),
            x,
        );
    }
}

/// Descriptor `i` of the directory at `dir`, 20 bytes each, names a DLL
/// equal to `dll` up to ASCII case and has an import-name table.
pub open spec fn descriptor_selected(img: Seq<u8>, dll: Seq<u8>, dir: int, i: int) -> bool {
    let d = dir + 20 * i;
    let name = le32(img, d + 12);
    &&& fits(img, d, 20)
    &&& name != 0
    &&& le32(img, d) != 0
    &&& cstr_end(img, name) matches Some(end) && eq_ignore_ascii_case(
        spec_utf8_lossy(img.subrange(name, end)),
        dll,
    )
}

/// Every descriptor from `from` before `i` of the directory at `dir` lies in
/// the image and names a DLL.
pub open spec fn descriptors_before_named(img: Seq<u8>, dir: int, from: int, i: int) -> bool {
    forall|m: int| from <= m < i ==> #[trigger] descriptor_named(img, dir, m)
}

/// Descriptor `m` of the directory at `dir` lies in the image and names a
/// DLL.
pub open spec fn descriptor_named(img: Seq<u8>, dir: int, m: int) -> bool {
    fits(img, dir + 20 * m, 20) && le32(img, dir + 20 * m + 12) != 0
}

proof fn lemma_descriptor_walk_complete(
    img: Seq<u8>,
    dll: Seq<u8>,
    targets: Seq<Seq<u8>>,
    dir: int,
    count: int,
    from: int,
    i: int,
    x: ImportMatch,
)
    requires
        0 <= from <= i < count,
        descriptors_before_named(img, dir, from, i),
        descriptor_selected(img, dll, dir, i),
        thunk_walk(img, targets, le32(img, dir + 20 * i), le32(img, dir + 20 * i + 16) as u32, 0).contains(x),
    ensures
        descriptor_walk(img, dll, targets, dir, count, from).contains(x),
    decreases i - from,
{
    let d = dir + 20 * from;
    let rest = descriptor_walk(img, dll, targets, dir, count, from + 1);
    let th = thunk_walk(img, targets, le32(img, d), le32(img, d + 16) as u32, 0);
    if from == i {
        lemma_contains_concat(th, rest, x);
    } else {
        assert(descriptor_named(img, dir, from));
        lemma_descriptor_walk_complete(img, dll, targets, dir, count, from + 1, i, x);
        lemma_contains_concat(th, rest, x);
    }
}

/// No import is missed: for the import directory `(rva, size)` of the
/// image, every descriptor `i` with `20 * (i + 1) <= size` (20 bytes per
/// descriptor) that is reached, all earlier descriptors lying in the image
/// and naming a DLL, and that names `dll` and has a name table, reports
/// every entry `idx` of its name table that is reached (all earlier entries
/// in the image and non-zero) and imports `targets[k]` by name: with the
/// first such `k`, the descriptor's address-table RVA, and `idx`.
pub proof fn lemma_imports_complete(
    img: Seq<u8>,
    dll: Seq<u8>,
    targets: Seq<Seq<u8>>,
    rva: u32,
    size: u32,
    i: int,
    idx: int,
    k: int,
)
    requires
        spec_import_directory(img) == Some((rva, size)),
        0 <= i,
        20 * (i + 1) <= size,
        descriptors_before_named(img, rva as int, 0, i),
        descriptor_selected(img, dll, rva as int, i),
        0 <= idx,
        entries_before_live(img, le32(img, rva + 20 * i), 0, idx),
        entry_imports_target(img, targets, le32(img, rva + 20 * i), idx, k),
    ensures
        spec_imports_in_module(img, dll, targets).contains(
            ImportMatch {
                name_index: k as usize,
                first_thunk: le32(img, rva + 20 * i + 16) as u32,
                entry: idx as usize,
            },
        ),
{
    let d = rva + 20 * i;
    let ft = le32(img, d + 16) as u32;
    lemma_thunk_walk_complete(img, targets, le32(img, d), ft, 0, idx, k);
    assert(i < size as int / 20);
    lemma_descriptor_walk_complete(
        img,
        dll,
        targets,
        rva as int,
        size as int / 20,
        0,
        i,
        ImportMatch { name_index: k as usize, first_thunk: ft, entry: idx as usize },
    );
}

/// `find_name_from` skips only names that differ.
proof fn lemma_find_name_first(targets: Seq<Seq<u8>>, name: Seq<u8>, j: int)
    requires
        0 <= j,
    ensures
        find_name_from(targets, name, j) matches Some(k) ==> forall|m: int|
            j <= m < k ==> targets[m] != name,
    decreases targets.len() - j,
{
    if j < targets.len() && targets[j] != name {
        lemma_find_name_first(targets, name, j + 1);
    }
}

/// `x` reports entry `idx` of the name table at `name_table`, reached
/// through live entries, importing `targets[k]` by name, with the address
/// table at `first_thunk`.
pub open spec fn entry_witness(
    img: Seq<u8>,
    targets: Seq<Seq<u8>>,
    name_table: int,
    first_thunk: u32,
    idx: int,
    k: int,
    x: ImportMatch,
) -> bool {
    &&& 0 <= idx
    &&& entries_before_live(img, name_table, 0, idx)
    &&& entry_imports_target(img, targets, name_table, idx, k)
    &&& x == ImportMatch { name_index: k as usize, first_thunk, entry: idx as usize }
}

/// `x` reports some entry of the name table at `name_table`.
pub open spec fn entry_reported(
    img: Seq<u8>,
    targets: Seq<Seq<u8>>,
    name_table: int,
    first_thunk: u32,
    x: ImportMatch,
) -> bool {
    exists|idx: int, k: int| #[trigger] entry_witness(img, targets, name_table, first_thunk, idx, k, x)
}

proof fn lemma_thunk_walk_sound(
    img: Seq<u8>,
    targets: Seq<Seq<u8>>,
    name_table: int,
    first_thunk: u32,
    from: int,
)
    requires
        0 <= from,
        entries_before_live(img, name_table, 0, from),
    ensures
        forall|j: int|
            0 <= j < thunk_walk(img, targets, name_table, first_thunk, from).len() ==> entry_reported(
                img,
                targets,
                name_table,
                first_thunk,
                #[trigger] thunk_walk(img, targets, name_table, first_thunk, from)[j],
            ),
    decreases img.len() - (name_table + 8 * from),
{
    let off = name_table + 8 * from;
    let all = thunk_walk(img, targets, name_table, first_thunk, from);
    if fits(img, off, 8) {
        let e = le64(img, off);
        if e != 0 {
            assert(entry_live(img, name_table, from));
            assert(entries_before_live(img, name_table, 0, from + 1));
            lemma_thunk_walk_sound(img, targets, name_table, first_thunk, from + 1);
            let here = thunk_entry_match(img, targets, e, first_thunk, from);
            let rest = thunk_walk(img, targets, name_table, first_thunk, from + 1);
            assert(all == here + rest);
            if here.len() > 0 {
                let end = cstr_end(img, e + 2)->0;
                let name = spec_utf8_lossy(img.subrange(e + 2, end));
                lemma_find_name_valid(targets, name, 0);
                lemma_find_name_first(targets, name, 0);
                let k = find_name_from(targets, name, 0)->0;
                assert(entry_witness(img, targets, name_table, first_thunk, from, k, here[0]));
            }
            assert forall|j: int| 0 <= j < all.len() implies entry_reported(
                img,
                targets,
                name_table,
                first_thunk,
                #[trigger] all[j],
            ) by {
                if j < here.len() {
                    assert(all[j] == here[0]);
                } else {
                    assert(all[j] == rest[j - here.len()]);
                }
            }
        } else {
            assert(all.len() == 0);
        }
    } else {
        assert(all.len() == 0);
    }
}

/// `x` reports, from descriptor `i` of the directory at `dir` of `size`
/// bytes (20 bytes per descriptor), reached through named descriptors and
/// naming `dll` with a name table, entry `idx` of its name table importing
/// `targets[k]` by name.
pub open spec fn import_witness(
    img: Seq<u8>,
    dll: Seq<u8>,
    targets: Seq<Seq<u8>>,
    dir: int,
    size: int,
    i: int,
    idx: int,
    k: int,
    x: ImportMatch,
) -> bool {
    &&& 0 <= i
    &&& 20 * (i + 1) <= size
    &&& descriptors_before_named(img, dir, 0, i)
    &&& descriptor_selected(img, dll, dir, i)
    &&& entry_witness(
        img,
        targets,
        le32(img, dir + 20 * i),
        le32(img, dir + 20 * i + 16) as u32,
        idx,
        k,
        x,
    )
}

/// `x` reports some import of the directory at `dir` of `size` bytes.
pub open spec fn import_reported(
    img: Seq<u8>,
    dll: Seq<u8>,
    targets: Seq<Seq<u8>>,
    dir: int,
    size: int,
    x: ImportMatch,
) -> bool {
    exists|i: int, idx: int, k: int| #[trigger] import_witness(img, dll, targets, dir, size, i, idx, k, x)
}

proof fn lemma_descriptor_walk_sound(
    img: Seq<u8>,
    dll: Seq<u8>,
    targets: Seq<Seq<u8>>,
    dir: int,
    size: int,
    from: int,
)
    requires
        0 <= from,
        0 <= size,
        descriptors_before_named(img, dir, 0, from),
    ensures
        forall|j: int|
            0 <= j < descriptor_walk(img, dll, targets, dir, size / 20, from).len() ==> import_reported(
                img,
                dll,
                targets,
                dir,
                size,
                #[trigger] descriptor_walk(img, dll, targets, dir, size / 20, from)[j],
            ),
    decreases size / 20 - from,
{
    let count = size / 20;
    let d = dir + 20 * from;
    let all = descriptor_walk(img, dll, targets, dir, count, from);
    if from < count && fits(img, d, 20) && le32(img, d + 12) != 0 {
        assert(descriptor_named(img, dir, from));
        assert(descriptors_before_named(img, dir, 0, from + 1));
        lemma_descriptor_walk_sound(img, dll, targets, dir, size, from + 1);
        let nt = le32(img, d);
        let ft = le32(img, d + 16) as u32;
        let rest = descriptor_walk(img, dll, targets, dir, count, from + 1);
        let th = thunk_walk(img, targets, nt, ft, 0);
        assert(entries_before_live(img, nt, 0, 0));
        lemma_thunk_walk_sound(img, targets, nt, ft, 0);
        assert(20 * (from + 1) <= size);
        assert forall|j: int| 0 <= j < all.len() implies import_reported(
            img,
            dll,
            targets,
            dir,
            size,
            #[trigger] all[j],
        ) by {
            if all == rest {
            } else {
                assert(all == th + rest);
                if j < th.len() {
                    assert(all[j] == th[j]);
                    assert(entry_reported(img, targets, nt, ft, th[j]));
                    let (idx, k) = choose|idx: int, k: int|
                        #[trigger] entry_witness(img, targets, nt, ft, idx, k, th[j]);
                    assert(descriptor_selected(img, dll, dir, from));
                    assert(import_witness(img, dll, targets, dir, size, from, idx, k, all[j]));
                } else {
                    assert(all[j] == rest[j - th.len()]);
                }
            }
        }
    } else {
        assert(all.len() == 0);
    }
}

/// Nothing but such imports is reported: every match comes from a
/// descriptor `i` with `20 * (i + 1) <= size` for the import directory
/// `(rva, size)`, reached through named descriptors, naming `dll` and
/// having a name table, and stands for an entry `idx` of that name table,
/// reached through non-zero entries, that imports `targets[k]` by name with
/// no earlier target of that name; the match holds `k`, the descriptor's
/// address-table RVA, and `idx`.
pub proof fn lemma_imports_sound(
    img: Seq<u8>,
    dll: Seq<u8>,
    targets: Seq<Seq<u8>>,
    rva: u32,
    size: u32,
)
    ensures
        spec_import_directory(img) is None ==> spec_imports_in_module(img, dll, targets).len() == 0,
        spec_import_directory(img) == Some((rva, size)) ==> forall|j: int|
            0 <= j < spec_imports_in_module(img, dll, targets).len() ==> import_reported(
                img,
                dll,
                targets,
                rva as int,
                size as int,
                #[trigger] spec_imports_in_module(img, dll, targets)[j],
            ),
{
    if spec_import_directory(img) == Some((rva, size)) {
        assert(descriptors_before_named(img, rva as int, 0, 0));
        lemma_descriptor_walk_sound(img, dll, targets, rva as int, size as int, 0);
    }
}

/// Two byte strings are equal up to ASCII case exactly when they have the
/// same length and, position by position, their bytes are equal or are the
/// upper-case (`A`-`Z`) and lower-case forms of one letter.
pub proof fn lemma_ignore_case_letters(a: Seq<u8>, b: Seq<u8>)
    ensures
        eq_ignore_ascii_case(a, b) <==> (a.len() == b.len() && forall|i: int|
            0 <= i < a.len() ==> #[trigger] a[i] == b[i] || (65 <= a[i] <= 90 && b[i] == a[i] + 32)
                || (65 <= b[i] <= 90 && a[i] == b[i] + 32)),
{
}

/// Whether `n` bytes at `off` lie inside the image.
fn in_image(img: &[u8], off: u64, n: u64) -> (r: bool)
    ensures
        r == fits(img@, off as int, n as int),
{
    let len = img.len() as u64;
    off <= len && n <= len - off
}

fn read_u16(img: &[u8], off: u64) -> (v: u16)
    requires
        fits(img@, off as int, 2),
    ensures
        v == le16(img@, off as int),
{
    let o = off as usize;
    (img[o] as u16) + (img[o + 1] as u16) * 256
}

fn read_u32(img: &[u8], off: u64) -> (v: u32)
    requires
        fits(img@, off as int, 4),
    ensures
        v == le32(img@, off as int),
{
    let o = off as usize;
    (img[o] as u32) + (img[o + 1] as u32) * 256 + (img[o + 2] as u32) * 65536 + (img[o + 3] as u32)
        * 16777216
}

fn read_u64(img: &[u8], off: u64) -> (v: u64)
    requires
        fits(img@, off as int, 8),
    ensures
        v == le64(img@, off as int),
{
    let n = img.len();
    assert(off + 8 <= n);
    let lo = read_u32(img, off) as u64;
    let hi = read_u32(img, off + 4) as u64;
    lo + hi * 4294967296
}

/// Finds the import directory of an image.
pub fn import_directory(img: &[u8]) -> (r: Option<(u32, u32)>)
    ensures
        r == spec_import_directory(img@),
{
    if !in_image(img, E_LFANEW_OFFSET, 4) {
        return None;
    }
    let nt = read_u32(img, E_LFANEW_OFFSET) as u64;
    if nt >= 0x8000_0000 {
        return None;
    }
    if !in_image(img, nt, 4) || read_u32(img, nt) != PE_SIGNATURE {
        return None;
    }
    if !in_image(img, nt + 24, 2) || read_u16(img, nt + 24) != PE32_PLUS_MAGIC {
        return None;
    }
    if !in_image(img, nt + 24 + 120, 8) {
        return None;
    }
    let rva = read_u32(img, nt + 144);
    let size = read_u32(img, nt + 148);
    if rva == 0 || size == 0 {
        None
    } else {
        Some((rva, size))
    }
}

/// The index of the zero byte ending the string at `start`.
fn find_nul(img: &[u8], start: u64) -> (r: Option<usize>)
    ensures
        r matches Some(p) ==> cstr_end(img@, start as int) == Some(p as int),
        r is None ==> cstr_end(img@, start as int) is None,
{
    if start >= img.len() as u64 {
        return None;
    }
    let mut i = start as usize;
    while i < img.len()
        invariant
            start <= i <= img.len(),
            cstr_end(img@, i as int) == cstr_end(img@, start as int),
        decreases img.len() - i,
    {
        if img[i] == 0 {
            return Some(i);
        }
        i = i + 1;
    }
    None
}

fn lower(b: u8) -> (r: u8)
    ensures
        r == ascii_lower(b),
{
    if 65 <= b && b <= 90 {
        b + 32
    } else {
        b
    }
}

/// Whether `img[start..end]` equals `other` up to ASCII case.
fn range_eq_ignore_case(img: &[u8], start: usize, end: usize, other: &[u8]) -> (r: bool)
    requires
        start <= end <= img.len(),
    ensures
        r == eq_ignore_ascii_case(img@.subrange(start as int, end as int), other@),
{
    let ghost a = img@.subrange(start as int, end as int);
    if end - start != other.len() {
        return false;
    }
    let mut i: usize = 0;
    while i < other.len()
        invariant
            start <= end <= img.len(),
            end - start == other.len(),
            a == img@.subrange(start as int, end as int),
            0 <= i <= other.len(),
            forall|j: int| 0 <= j < i ==> ascii_lower(a[j]) == ascii_lower(other@[j]),
        decreases other.len() - i,
    {
        if lower(img[start + i]) != lower(other[i]) {
            assert(a[i as int] == img@[start + i]);
            return false;
        }
        assert(a[i as int] == img@[start + i]);
        i = i + 1;
    }
    true
}

/// Whether `img[start..end]` equals `other` exactly.
fn range_eq(img: &[u8], start: usize, end: usize, other: &[u8]) -> (r: bool)
    requires
        start <= end <= img.len(),
    ensures
        r == (img@.subrange(start as int, end as int) == other@),
{
    let ghost a = img@.subrange(start as int, end as int);
    if end - start != other.len() {
        return false;
    }
    let mut i: usize = 0;
    while i < other.len()
        invariant
            start <= end <= img.len(),
            end - start == other.len(),
            a == img@.subrange(start as int, end as int),
            0 <= i <= other.len(),
            forall|j: int| 0 <= j < i ==> a[j] == other@[j],
        decreases other.len() - i,
    {
        if img[start + i] != other[i] {
            assert(a[i as int] == img@[start + i]);
            return false;
        }
        assert(a[i as int] == img@[start + i]);
        i = i + 1;
    }
    assert(a =~= other@);
    true
}

/// The first target whose bytes equal `img[start..end]`.
fn find_name(img: &[u8], start: usize, end: usize, targets: &[&str]) -> (r: Option<usize>)
    requires
        start <= end <= img.len(),
    ensures
        match find_name_from(
            names_bytes(targets@),
            img@.subrange(start as int, end as int),
            0,
        ) {
            Some(k) => r == Some(k as usize),
            None => r is None,
        },
{
    let ghost tb = names_bytes(targets@);
    let ghost name = img@.subrange(start as int, end as int);
    let mut k: usize = 0;
    while k < targets.len()
        invariant
            start <= end <= img.len(),
            tb == names_bytes(targets@),
            name == img@.subrange(start as int, end as int),
            tb.len() == targets@.len(),
            0 <= k <= targets.len(),
            find_name_from(tb, name, k as int) == find_name_from(tb, name, 0),
        decreases targets.len() - k,
    {
        let t: &str = targets[k];
        assert(tb[k as int] == t.spec_bytes());
        if range_eq(img, start, end, t.as_bytes()) {
            return Some(k);
        }
        k = k + 1;
    }
    None
}

/// Appends the matches of one import-name table.
fn collect_thunks(
    img: &[u8],
    targets: &[&str],
    name_table: u32,
    first_thunk: u32,
    out: &mut Vec<ImportMatch>,
)
    ensures
        final(out)@ == old(out)@ + thunk_walk(
            img@,
            names_bytes(targets@),
            name_table as int,
            first_thunk,
            0,
        ),
{
    let ghost tb = names_bytes(targets@);
    let ghost start = old(out)@;
    let mut idx: u64 = 0;
    assert(out@ + thunk_walk(img@, tb, name_table as int, first_thunk, 0) == start + thunk_walk(
        img@,
        tb,
        name_table as int,
        first_thunk,
        0,
    ));
    loop
        invariant_except_break
            tb == names_bytes(targets@),
            idx == 0 || name_table + 8 * idx <= img.len(),
            out@ + thunk_walk(img@, tb, name_table as int, first_thunk, idx as int) == start
                + thunk_walk(img@, tb, name_table as int, first_thunk, 0),
        ensures
            out@ == start + thunk_walk(img@, tb, name_table as int, first_thunk, 0),
        decreases img@.len() - (name_table + 8 * idx),
    {
        let off: u64 = name_table as u64 + 8 * idx;
        if !in_image(img, off, 8) {
            assert(thunk_walk(img@, tb, name_table as int, first_thunk, idx as int) =~= seq![]);
            assert(out@ + seq![] =~= out@);
            break ;
        }
        let e = read_u64(img, off);
        if e == 0 {
            assert(thunk_walk(img@, tb, name_table as int, first_thunk, idx as int) =~= seq![]);
            assert(out@ + seq![] =~= out@);
            break ;
        }
        let ghost before = out@;
        let ghost here = thunk_entry_match(img@, tb, e as int, first_thunk, idx as int);
        if e < 0x8000_0000_0000_0000 {
            proof {
                lemma_cstr_end_bounds(img@, e + 2);
            }
            match find_nul(img, e + 2) {
                Some(end) => {
                    let s = (e + 2) as usize;
                    let name = utf8_lossy_range(img, s, end);
                    assert(name@.subrange(0, name@.len() as int) =~= name@);
                    match find_name(name.as_slice(), 0, name.len(), targets) {
                        Some(k) => {
                            out.push(ImportMatch { name_index: k, first_thunk, entry: idx as usize });
                        },
                        None => {},
                    }
                },
                None => {},
            }
        }
        assert(out@ =~= before + here);
        assert(before + thunk_walk(img@, tb, name_table as int, first_thunk, idx as int) =~= before
            + here + thunk_walk(img@, tb, name_table as int, first_thunk, idx + 1));
        idx = idx + 1;
    }
}

/// All imports of a module image from the DLL `target_dll` (compared up to
/// ASCII case) whose names are among `target_names`, with the slot of each.
/// Names in the image are decoded lossily as UTF-8 before they are
/// compared.
pub fn imports_in_module(img: &[u8], target_dll: &str, target_names: &[&str]) -> (r: Vec<
    ImportMatch,
>)
    ensures
        r@ == spec_imports_in_module(img@, target_dll.spec_bytes(), names_bytes(target_names@)),
{
    let ghost tb = names_bytes(target_names@);
    let ghost dll = target_dll.spec_bytes();
    let dll_bytes = target_dll.as_bytes();
    let mut out: Vec<ImportMatch> = Vec::new();
    let (rva, size) = match import_directory(img) {
        None => return out,
        Some(p) => p,
    };
    let count: u64 = (size / 20) as u64;
    let mut i: u64 = 0;
    assert(out@ + descriptor_walk(img@, dll, tb, rva as int, count as int, 0) =~= descriptor_walk(
        img@,
        dll,
        tb,
        rva as int,
        count as int,
        0,
    ));
    loop
        invariant_except_break
            tb == names_bytes(target_names@),
            dll == target_dll.spec_bytes(),
            dll_bytes@ == dll,
            count == size / 20,
            i <= count,
            out@ + descriptor_walk(img@, dll, tb, rva as int, count as int, i as int)
                == descriptor_walk(img@, dll, tb, rva as int, count as int, 0),
        ensures
            out@ == descriptor_walk(img@, dll, tb, rva as int, count as int, 0),
        decreases count - i,
    {
        let ghost rest_here = descriptor_walk(img@, dll, tb, rva as int, count as int, i as int);
        if i >= count {
            assert(out@ + seq![] =~= out@);
            break ;
        }
        let d: u64 = rva as u64 + 20 * i;
        if !in_image(img, d, 20) {
            assert(out@ + seq![] =~= out@);
            break ;
        }
        let name_table = read_u32(img, d);
        let name = read_u32(img, d + 12);
        let first_thunk = read_u32(img, d + 16);
        if name == 0 {
            assert(out@ + seq![] =~= out@);
            break ;
        }
        let name_off: u64 = name as u64;
        proof {
            lemma_cstr_end_bounds(img@, name_off as int);
        }
        let selected = match find_nul(img, name_off) {
            Some(end) => {
                assert(name_off <= end < img.len());
                name_table != 0 && {
                    let dll_name = utf8_lossy_range(img, name_off as usize, end);
                    assert(dll_name@.subrange(0, dll_name@.len() as int) =~= dll_name@);
                    range_eq_ignore_case(dll_name.as_slice(), 0, dll_name.len(), dll_bytes)
                }
            },
            None => false,
        };
        let ghost before = out@;
        if selected {
            collect_thunks(img, target_names, name_table, first_thunk, &mut out);
        }
        assert(before + rest_here =~= out@ + descriptor_walk(
            img@,
            dll,
            tb,
            rva as int,
            count as int,
            i + 1,
        ));
        i = i + 1;
    }
    out
}

} // verus!
