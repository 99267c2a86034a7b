use wad::records::encode_vec;
use wad::{Archive, WadError, WadThing, WadVertex};

fn name64(s: &str) -> u64 {
    let mut b = [0u8; 8];
    for (i, c) in s.bytes().enumerate() {
        b[i] = c;
    }
    u64::from_le_bytes(b)
}

fn build_wad(lumps: &[(u64, Vec<u8>)]) -> Vec<u8> {
    let mut data: Vec<u8> = Vec::new();
    let mut entries: Vec<(u32, u32, u64)> = Vec::new();
    for (name, content) in lumps {
        let off = 12 + data.len();
        entries.push((off as u32, content.len() as u32, *name));
        data.extend_from_slice(content);
    }
    let dir_off = 12 + data.len();
    let mut bytes: Vec<u8> = Vec::new();
    bytes.extend_from_slice(b"IWAD");
    bytes.extend_from_slice(&(lumps.len() as u32).to_le_bytes());
    bytes.extend_from_slice(&(dir_off as u32).to_le_bytes());
    bytes.extend_from_slice(&data);
    for (off, size, name) in &entries {
        bytes.extend_from_slice(&off.to_le_bytes());
        bytes.extend_from_slice(&size.to_le_bytes());
        bytes.extend_from_slice(&name.to_le_bytes());
    }
    bytes
}

#[test]
fn open_accepts_minimal_container() {
    let bytes = build_wad(&[(name64("DEMO"), vec![1, 2, 3])]);
    let archive = Archive::open(bytes).expect("valid container");
    assert_eq!(archive.num_levels(), 0);
}

#[test]
fn open_rejects_bad_magic() {
    let mut bytes = build_wad(&[(name64("DEMO"), vec![1, 2, 3])]);
    bytes[0] = b'P';
    assert_eq!(Archive::open(bytes).err(), Some(WadError::Format));
}

#[test]
fn open_rejects_short_header() {
    assert_eq!(Archive::open(vec![b'I', b'W']).err(), Some(WadError::Format));
}

#[test]
fn open_rejects_truncated_directory() {
    let mut bytes = build_wad(&[(name64("DEMO"), vec![1, 2, 3])]);
    // Announce two entries while only one is stored.
    bytes[4..8].copy_from_slice(&2u32.to_le_bytes());
    assert_eq!(Archive::open(bytes).err(), Some(WadError::Format));
}

#[test]
fn open_rejects_things_as_first_entry() {
    let bytes = build_wad(&[(name64("THINGS"), vec![])]);
    assert_eq!(Archive::open(bytes).err(), Some(WadError::Format));
}

#[test]
fn level_boundary_precedes_things_lump() {
    let bytes = build_wad(&[
        (name64("E1M1"), vec![]),
        (name64("THINGS"), vec![]),
        (name64("E1M2"), vec![]),
        (name64("THINGS"), vec![]),
    ]);
    let archive = Archive::open(bytes).expect("valid container");
    assert_eq!(archive.num_levels(), 2);
    assert_eq!(archive.level_lump(0).unwrap().index(), 0);
    assert_eq!(archive.level_lump(1).unwrap().index(), 2);
}

#[test]
fn named_lump_last_occurrence_wins() {
    let bytes = build_wad(&[
        (name64("TWIN"), vec![1]),
        (name64("OTHER"), vec![2]),
        (name64("TWIN"), vec![3]),
    ]);
    let archive = Archive::open(bytes).expect("valid container");
    let reader = archive.named_lump(name64("TWIN")).unwrap().expect("present");
    assert_eq!(reader.index(), 2);
    // Both occurrences stay reachable by index.
    assert_eq!(archive.lump_by_index(0).unwrap().name(), name64("TWIN"));
    assert_eq!(archive.lump_by_index(2).unwrap().name(), name64("TWIN"));
}

#[test]
fn named_lump_absent_is_none() {
    let bytes = build_wad(&[(name64("DEMO"), vec![1])]);
    let archive = Archive::open(bytes).expect("valid container");
    assert!(archive.named_lump(name64("NOPE")).unwrap().is_none());
    assert_eq!(
        archive.required_named_lump(name64("NOPE")).err(),
        Some(WadError::MissingLump)
    );
}

#[test]
fn lump_by_index_out_of_range_is_missing() {
    let bytes = build_wad(&[(name64("DEMO"), vec![1])]);
    let archive = Archive::open(bytes).expect("valid container");
    assert_eq!(archive.lump_by_index(1).err(), Some(WadError::MissingLump));
}

#[test]
fn is_virtual_marks_zero_size_lumps() {
    let bytes = build_wad(&[(name64("MARKER"), vec![]), (name64("DATA"), vec![9])]);
    let archive = Archive::open(bytes).expect("valid container");
    assert!(archive.lump_by_index(0).unwrap().is_virtual());
    assert!(!archive.lump_by_index(1).unwrap().is_virtual());
}

#[test]
fn decode_vec_round_trips_things() {
    let things = vec![
        WadThing { x: -100, y: 37, angle: 90, thing_type: 1, flags: 7 },
        WadThing { x: 32000, y: -32000, angle: 270, thing_type: 3004, flags: 23 },
    ];
    let bytes = build_wad(&[(name64("THING"), encode_vec(&things))]);
    let archive = Archive::open(bytes).expect("valid container");
    let decoded: Vec<WadThing> = archive.lump_by_index(0).unwrap().decode_vec().unwrap();
    assert_eq!(decoded, things);
}

#[test]
fn decode_vec_round_trips_vertices() {
    let vertices = vec![
        WadVertex { x: 0, y: 0 },
        WadVertex { x: -1, y: 1 },
        WadVertex { x: i16::MIN, y: i16::MAX },
    ];
    let bytes = build_wad(&[(name64("VERTEXES"), encode_vec(&vertices))]);
    let archive = Archive::open(bytes).expect("valid container");
    let decoded: Vec<WadVertex> = archive.lump_by_index(0).unwrap().decode_vec().unwrap();
    assert_eq!(decoded, vertices);
}

#[test]
fn decode_vec_reports_size_mismatch_remainder() {
    // One byte short of two whole thing records.
    let content = vec![0u8; 19];
    let bytes = build_wad(&[(name64("BAD"), content)]);
    let archive = Archive::open(bytes).expect("valid container");
    let err = archive
        .lump_by_index(0)
        .unwrap()
        .decode_vec::<WadThing>()
        .err()
        .expect("size mismatch");
    assert_eq!(
        err,
        WadError::SizeMismatch { total: 19, element: 10, quotient: 1, remainder: 9 }
    );
}

#[test]
fn decode_vec_rejects_virtual_lump() {
    let bytes = build_wad(&[(name64("MARKER"), vec![])]);
    let archive = Archive::open(bytes).expect("valid container");
    let err = archive
        .lump_by_index(0)
        .unwrap()
        .decode_vec::<WadVertex>()
        .err()
        .expect("size mismatch");
    assert_eq!(
        err,
        WadError::SizeMismatch { total: 0, element: 4, quotient: 0, remainder: 0 }
    );
}

#[test]
fn decode_one_requires_exact_size() {
    let one = vec![WadVertex { x: 7, y: -9 }];
    let bytes = build_wad(&[(name64("ONE"), encode_vec(&one))]);
    let archive = Archive::open(bytes).expect("valid container");
    let decoded: WadVertex = archive.lump_by_index(0).unwrap().decode_one().unwrap();
    assert_eq!(decoded, one[0]);

    let two = vec![WadVertex { x: 1, y: 2 }, WadVertex { x: 3, y: 4 }];
    let bytes = build_wad(&[(name64("TWO"), encode_vec(&two))]);
    let archive = Archive::open(bytes).expect("valid container");
    let err = archive
        .lump_by_index(0)
        .unwrap()
        .decode_one::<WadVertex>()
        .err()
        .expect("size mismatch");
    assert_eq!(
        err,
        WadError::SizeMismatch { total: 8, element: 4, quotient: 2, remainder: 0 }
    );
}

#[test]
fn lump_range_outside_container_is_io_error() {
    let mut bytes = build_wad(&[(name64("DATA"), vec![1, 2, 3, 4])]);
    let dir_off = bytes.len() - 16;
    // Point the entry far past the end of the container.
    bytes[dir_off..dir_off + 4].copy_from_slice(&10_000u32.to_le_bytes());
    let archive = Archive::open(bytes).expect("metadata is still well-formed");
    let err = archive
        .lump_by_index(0)
        .unwrap()
        .decode_vec::<WadVertex>()
        .err()
        .expect("io error");
    assert_eq!(err, WadError::Io { index: 0 });
    let err = archive.lump_by_index(0).unwrap().read_bytes().err().expect("io error");
    assert_eq!(err, WadError::Io { index: 0 });
}

#[test]
fn read_bytes_returns_raw_range() {
    let bytes = build_wad(&[(name64("RAW"), vec![5, 6, 7, 8, 9])]);
    let archive = Archive::open(bytes).expect("valid container");
    assert_eq!(archive.lump_by_index(0).unwrap().read_bytes().unwrap(), vec![5, 6, 7, 8, 9]);
}

#[test]
fn read_bytes_into_appends() {
    let bytes = build_wad(&[(name64("RAW"), vec![5, 6])]);
    let archive = Archive::open(bytes).expect("valid container");
    let mut out = vec![1u8];
    archive.lump_by_index(0).unwrap().read_bytes_into(&mut out).unwrap();
    assert_eq!(out, vec![1, 5, 6]);
}

#[test]
fn read_blobs_chunks_the_lump() {
    let bytes = build_wad(&[(name64("BLOBS"), vec![1, 2, 3, 4, 5, 6])]);
    let archive = Archive::open(bytes).expect("valid container");
    let blobs = archive.lump_by_index(0).unwrap().read_blobs(3).unwrap();
    assert_eq!(blobs, vec![vec![1, 2, 3], vec![4, 5, 6]]);
    let err = archive.lump_by_index(0).unwrap().read_blobs(4).err().expect("size mismatch");
    assert_eq!(
        err,
        WadError::SizeMismatch { total: 6, element: 4, quotient: 1, remainder: 2 }
    );
}
