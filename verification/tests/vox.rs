use naadf::vox::parse_vox_file;

const REFUSED: Option<&str> = Some("Not a valid MagicaVoxel .vox file");

fn refusal(bytes: &[u8]) -> Option<&'static str> {
    parse_vox_file(bytes).err().map(|e| e.message)
}

fn chunk(id: &[u8; 4], content: &[u8], children: &[u8]) -> Vec<u8> {
    let mut out = id.to_vec();
    out.extend_from_slice(&(content.len() as u32).to_le_bytes());
    out.extend_from_slice(&(children.len() as u32).to_le_bytes());
    out.extend_from_slice(content);
    out.extend_from_slice(children);
    out
}

fn vox_file(children: &[u8]) -> Vec<u8> {
    let mut out = b"VOX ".to_vec();
    out.extend_from_slice(&150u32.to_le_bytes());
    out.extend_from_slice(&chunk(b"MAIN", &[], children));
    out
}

#[test]
fn a_one_voxel_model_parses() {
    let mut size = Vec::new();
    for v in [2u32, 3, 4] {
        size.extend_from_slice(&v.to_le_bytes());
    }
    let mut xyzi = 1u32.to_le_bytes().to_vec();
    xyzi.extend_from_slice(&[1, 2, 3, 9]);
    let mut children = chunk(b"SIZE", &size, &[]);
    children.extend_from_slice(&chunk(b"XYZI", &xyzi, &[]));
    let data = parse_vox_file(&vox_file(&children)).expect("valid file");
    assert_eq!(data.version, 150);
    assert_eq!(data.models.len(), 1);
    assert_eq!(data.models[0].size, [2, 3, 4]);
    // The file stores 1-based colour indices; the parsed voxel holds them 0-based.
    assert_eq!(data.models[0].voxels, vec![[1, 2, 3, 8]]);
    // No palette chunk: the default palette of 256 colours.
    assert_eq!(data.palette.len(), 256);
}

#[test]
fn bytes_that_are_not_a_vox_file_are_refused() {
    assert_eq!(refusal(b"NOPE"), REFUSED);
    assert_eq!(refusal(&[]), REFUSED);
    // The right magic with a truncated header.
    assert_eq!(refusal(b"VOX \x96\x00"), REFUSED);
}

fn header(id: &[u8; 4], content_size: u32, children_size: u32) -> Vec<u8> {
    let mut out = b"VOX ".to_vec();
    out.extend_from_slice(&150u32.to_le_bytes());
    out.extend_from_slice(id);
    out.extend_from_slice(&content_size.to_le_bytes());
    out.extend_from_slice(&children_size.to_le_bytes());
    out
}

#[test]
fn acceptance_depends_on_the_header_alone() {
    // A bare main chunk header is a file with no models.
    let data = parse_vox_file(&header(b"MAIN", 0, 0)).expect("bare header");
    assert_eq!(data.models.len(), 0);
    // An unknown but UTF-8 id is accepted, and so are trailing bytes.
    let mut trailing = header(b"\xC3\xA9AB", 0, 0);
    trailing.extend_from_slice(b"junk");
    assert!(parse_vox_file(&trailing).is_ok());
    // Content that is not a valid chunk does not make it fail.
    let mut garbage = header(b"MAIN", 0, 3);
    garbage.extend_from_slice(&[1, 2, 3]);
    assert!(parse_vox_file(&garbage).is_ok());
}

#[test]
fn a_header_that_does_not_fit_is_refused() {
    // One byte short of a full header.
    assert_eq!(refusal(&header(b"MAIN", 0, 0)[..19]), REFUSED);
    // Wrong magic.
    let mut bad_magic = header(b"MAIN", 0, 0);
    bad_magic[3] = b'!';
    assert_eq!(refusal(&bad_magic), REFUSED);
    // An id that is not UTF-8.
    assert_eq!(refusal(&header(b"\xFFAIN", 0, 0)), REFUSED);
    // Stated sizes larger than what follows.
    let mut short = header(b"MAIN", 2, 1);
    short.extend_from_slice(&[0, 0]);
    assert_eq!(refusal(&short), REFUSED);
}
