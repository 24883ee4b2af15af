//! Reading a MagicaVoxel `.vox` model: the bytes are parsed by `dot_vox`.

use vstd::prelude::*;

verus! {

/// One model of a `.vox` file.
pub struct VoxModel {
    /// Its extent in voxels, x, y, z.
    pub size: [u32; 3],
    /// Its voxels as `[x, y, z, i]`: a position and a 0-based palette index.
    pub voxels: Vec<[u8; 4]>,
}

/// The parts of a `.vox` file that models are built from.
pub struct VoxFile {
    /// The file's version number.
    pub version: u32,
    /// The models, in file order.
    pub models: Vec<VoxModel>,
    /// The palette as `[r, g, b, a]` (the default palette when the file has
    /// none).
    pub palette: Vec<[u8; 4]>,
    /// The map from a voxel's palette index to its place in the palette.
    pub index_map: Vec<u8>,
}

/// What a [`VoxModel`] holds.
pub struct VoxModelView {
    pub size: [u32; 3],
    pub voxels: Seq<[u8; 4]>,
}

/// What a [`VoxFile`] holds.
pub struct VoxFileView {
    pub version: u32,
    pub models: Seq<VoxModelView>,
    pub palette: Seq<[u8; 4]>,
    pub index_map: Seq<u8>,
}

impl View for VoxModel {
    type V = VoxModelView;

    open spec fn view(&self) -> VoxModelView {
        VoxModelView { size: self.size, voxels: self.voxels@ }
    }
}

impl View for VoxFile {
    type V = VoxFileView;

    open spec fn view(&self) -> VoxFileView {
        VoxFileView {
            version: self.version,
            models: self.models@.map_values(|m: VoxModel| m@),
            palette: self.palette@,
            index_map: self.index_map@,
        }
    }
}

/// Whether `b` is a continuation byte of UTF-8 (`10xxxxxx`).
pub open spec fn utf8_continuation(b: u8) -> bool {
    0x80 <= b <= 0xBF
}

/// The length of the well-formed UTF-8 sequence that starts `s`, or 0 when
/// none does (the table of well-formed byte sequences of the Unicode
/// standard: no overlong form, no surrogate, nothing above U+10FFFF).
pub open spec fn utf8_lead_len(s: Seq<u8>) -> nat {
    let b0 = s[0];
    if s.len() == 0 {
        0
    } else if b0 < 0x80 {
        1
    } else if 0xC2 <= b0 <= 0xDF && s.len() >= 2 && utf8_continuation(s[1]) {
        2
    } else if s.len() >= 3 && utf8_continuation(s[2]) && ((b0 == 0xE0 && 0xA0 <= s[1] <= 0xBF) || ((0xE1
        <= b0 <= 0xEC || 0xEE <= b0 <= 0xEF) && utf8_continuation(s[1])) || (b0 == 0xED && 0x80 <= s[1]
        <= 0x9F)) {
        3
    } else if s.len() >= 4 && utf8_continuation(s[2]) && utf8_continuation(s[3]) && ((b0 == 0xF0 && 0x90
        <= s[1] <= 0xBF) || (0xF1 <= b0 <= 0xF3 && utf8_continuation(s[1])) || (b0 == 0xF4 && 0x80 <= s[1]
        <= 0x8F)) {
        4
    } else {
        0
    }
}

/// Whether `s` is well-formed UTF-8.
pub open spec fn utf8_valid(s: Seq<u8>) -> bool
    decreases s.len(),
{
    if s.len() == 0 {
        true
    } else {
        let n = utf8_lead_len(s);
        n > 0 && n <= s.len() && utf8_valid(s.skip(n as int))
    }
}

/// The little-endian `u32` at byte `k` of `b`.
pub open spec fn le_u32_at(b: Seq<u8>, k: int) -> int {
    b[k] + b[k + 1] * 0x100 + b[k + 2] * 0x1_0000 + b[k + 3] * 0x100_0000
}

/// Whether `dot_vox::load_bytes` accepts `bytes`: the magic `VOX `, a
/// little-endian version, then a chunk header (a four-byte id that is UTF-8,
/// its content size, its children's size) whose content and children fit in
/// the bytes that follow it.
pub open spec fn vox_file_accepted(bytes: Seq<u8>) -> bool {
    &&& bytes.len() >= 20
    &&& bytes[0] == 0x56 && bytes[1] == 0x4F && bytes[2] == 0x58 && bytes[3] == 0x20
    &&& utf8_valid(bytes.subrange(8, 12))
    &&& 20 + le_u32_at(bytes, 12) + le_u32_at(bytes, 16) <= bytes.len()
}

/// What `dot_vox::load_bytes` parses from `bytes` (its version, models,
/// palette and index map), where it accepts them.
pub uninterp spec fn vox_file_contents(bytes: Seq<u8>) -> VoxFileView;

/// `dot_vox::load_bytes`, its result copied field by field into a
/// [`VoxFile`]. Claimed, from its parser: it returns `Ok` exactly when the
/// magic `VOX `, a four-byte version and the main chunk's header are there,
/// the header's id is UTF-8, and its stated content and children sizes fit in
/// the rest; what the chunk holds, and any bytes after it, never make it
/// fail. What it parses is a function of the bytes alone, named
/// [`vox_file_contents`]. On failure it returns the fixed message "Not a valid
/// MagicaVoxel .vox file". Left unsaid: what the parsed data holds for given
/// bytes, and that chunks nested deeper than the stack allows end the
/// process.
#[verifier::external_body]
fn load_vox_bytes(bytes: &[u8]) -> (r: Result<VoxFile, &'static str>)
    ensures
        r.is_ok() == vox_file_accepted(bytes@),
        r matches Ok(f) ==> f@ == vox_file_contents(bytes@),
        r matches Err(e) ==> e@ == "Not a valid MagicaVoxel .vox file"@,
{
    dot_vox::load_bytes(bytes).map(|d| VoxFile {
        version: d.version,
        models: d.models.iter().map(|m| VoxModel {
            size: [m.size.x, m.size.y, m.size.z],
            voxels: m.voxels.iter().map(|v| [v.x, v.y, v.z, v.i]).collect(),
        }).collect(),
        palette: d.palette.iter().map(|c| [c.r, c.g, c.b, c.a]).collect(),
        index_map: d.index_map,
    })
}

/// Why a model file could not be loaded: the parser's message.
#[derive(Clone, Copy, Debug, PartialEq, Eq)]
pub struct VoxLoadError {
    /// What the parser said.
    pub message: &'static str,
}

/// Parse the bytes of a `.vox` model file: the parsed file when `dot_vox`
/// accepts them (see [`vox_file_accepted`]), else its message.
pub fn parse_vox_file(bytes: &[u8]) -> (r: Result<VoxFile, VoxLoadError>)
    ensures
        r.is_ok() == vox_file_accepted(bytes@),
        r matches Ok(f) ==> f@ == vox_file_contents(bytes@),
        r matches Err(e) ==> e.message@ == "Not a valid MagicaVoxel .vox file"@,
{
    match load_vox_bytes(bytes) {
        Ok(data) => Ok(data),
        Err(message) => Err(VoxLoadError { message }),
    }
}

} // verus!
