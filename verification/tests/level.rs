use wad::records::encode_vec;
use wad::{
    Archive, Level, NeighbourHeights, WadBBox, WadError, WadLinedef, WadNode, WadSector, WadSeg,
    WadSidedef, WadSubsector, WadThing, WadVertex,
};

fn lump_name(s: &str) -> u64 {
    let mut b = [0u8; 8];
    for (i, c) in s.bytes().enumerate() {
        b[i] = c;
    }
    u64::from_le_bytes(b)
}

fn make_wad(lumps: &[(u64, Vec<u8>)]) -> Vec<u8> {
    let mut data: Vec<u8> = Vec::new();
    let mut entries: Vec<(u32, u32, u64)> = Vec::new();
    for (name, content) in lumps {
        let off = 12 + data.len();
        entries.push((off as u32, content.len() as u32, *name));
        data.extend_from_slice(content);
    }
    let dir_off = 12 + data.len();
    let mut bytes: Vec<u8> = Vec::new();
    bytes.extend_from_slice(b"IWAD");
    bytes.extend_from_slice(&(lumps.len() as u32).to_le_bytes());
    bytes.extend_from_slice(&(dir_off as u32).to_le_bytes());
    bytes.extend_from_slice(&data);
    for (off, size, name) in &entries {
        bytes.extend_from_slice(&off.to_le_bytes());
        bytes.extend_from_slice(&size.to_le_bytes());
        bytes.extend_from_slice(&name.to_le_bytes());
    }
    bytes
}

fn line(start: u16, end: u16, right: i16, left: i16) -> WadLinedef {
    WadLinedef {
        start_vertex: start,
        end_vertex: end,
        flags: 0,
        special: 0,
        sector_tag: 0,
        right_side: right,
        left_side: left,
    }
}

fn side(sector: u16) -> WadSidedef {
    WadSidedef {
        x_offset: 0,
        y_offset: 0,
        upper_texture: 0,
        lower_texture: 0,
        middle_texture: 0,
        sector,
    }
}

fn sector(floor: i16, ceiling: i16, light: u16, tag: u16) -> WadSector {
    WadSector {
        floor_height: floor,
        ceiling_height: ceiling,
        floor_texture: 0,
        ceiling_texture: 0,
        light,
        sector_type: 0,
        tag,
    }
}

fn vertex(x: i16, y: i16) -> WadVertex {
    WadVertex { x, y }
}

fn thing(x: i16, y: i16) -> WadThing {
    WadThing { x, y, angle: 0, thing_type: 1, flags: 7 }
}

fn dummy_seg() -> WadSeg {
    WadSeg { start_vertex: 0, end_vertex: 1, angle: 0, linedef: 0, direction: 0, offset: 0 }
}

fn dummy_node() -> WadNode {
    let empty = WadBBox { top: 0, bottom: 0, left: 0, right: 0 };
    WadNode {
        line_x: 0,
        line_y: 0,
        step_x: 0,
        step_y: 0,
        right_bbox: empty,
        left_bbox: empty,
        right_child: 0,
        left_child: 0,
    }
}

fn level_wad(
    things: &Vec<WadThing>,
    linedefs: &Vec<WadLinedef>,
    sidedefs: &Vec<WadSidedef>,
    vertices: &Vec<WadVertex>,
    sectors: &Vec<WadSector>,
) -> Vec<u8> {
    let segs = vec![dummy_seg()];
    let subsectors = vec![WadSubsector { num_segs: 1, first_seg: 0 }];
    let nodes = vec![dummy_node()];
    make_wad(&[
        (lump_name("E1M1"), vec![]),
        (lump_name("THINGS"), encode_vec(things)),
        (lump_name("LINEDEFS"), encode_vec(linedefs)),
        (lump_name("SIDEDEFS"), encode_vec(sidedefs)),
        (lump_name("VERTEXES"), encode_vec(vertices)),
        (lump_name("SEGS"), encode_vec(&segs)),
        (lump_name("SSECTORS"), encode_vec(&subsectors)),
        (lump_name("NODES"), encode_vec(&nodes)),
        (lump_name("SECTORS"), encode_vec(sectors)),
    ])
}

/// A single square sector with the given tag, and the given things.
fn square_level(tag: u16, things: &Vec<WadThing>) -> Level {
    let vertices = vec![vertex(0, 0), vertex(64, 0), vertex(64, 64), vertex(0, 64)];
    let linedefs = vec![line(0, 1, 0, -1), line(1, 2, 0, -1), line(2, 3, 0, -1), line(3, 0, 0, -1)];
    let sidedefs = vec![side(0)];
    let sectors = vec![sector(0, 128, 160, tag)];
    let bytes = level_wad(things, &linedefs, &sidedefs, &vertices, &sectors);
    let archive = Archive::open(bytes).expect("valid container");
    assert_eq!(archive.num_levels(), 1);
    Level::from_archive(&archive, 0).expect("level loads")
}

/// Two sectors sharing the edge v1-v2: a left square (sector 0) and a
/// right square (sector 1).
fn two_room_level() -> Level {
    let vertices = vec![
        vertex(0, 0),
        vertex(64, 0),
        vertex(64, 64),
        vertex(0, 64),
        vertex(128, 0),
        vertex(128, 64),
    ];
    let linedefs = vec![
        line(0, 1, 0, -1),
        line(1, 2, 0, 1),
        line(2, 3, 0, -1),
        line(3, 0, 0, -1),
        line(1, 4, 1, -1),
        line(4, 5, 1, -1),
        line(5, 2, 1, -1),
    ];
    let sidedefs = vec![side(0), side(1)];
    let sectors = vec![sector(0, 128, 160, 0), sector(32, 100, 100, 0)];
    let things = vec![thing(32, 32)];
    let bytes = level_wad(&things, &linedefs, &sidedefs, &vertices, &sectors);
    let archive = Archive::open(bytes).expect("valid container");
    Level::from_archive(&archive, 0).expect("level loads")
}

#[test]
fn load_level_assigns_inner_thing_to_tagged_sector() {
    let level = square_level(5, &vec![thing(32, 32)]);
    assert_eq!(level.things_by_sector.get(&0), Some(&vec![0usize]));
    assert_eq!(level.things_in_sector(0), vec![thing(32, 32)]);
}

#[test]
fn load_level_excludes_outer_thing() {
    let level = square_level(5, &vec![thing(200, 200)]);
    assert_eq!(level.things_by_sector.get(&0), Some(&vec![]));
    assert_eq!(level.things_in_sector(0), vec![]);
}

#[test]
fn load_level_mixed_things() {
    let inner = thing(1, 1);
    let outer = thing(-5, 12);
    let inner2 = thing(63, 63);
    let level = square_level(9, &vec![inner, outer, inner2]);
    assert_eq!(level.things_by_sector.get(&0), Some(&vec![0usize, 2]));
    assert_eq!(level.things_in_sector(0), vec![inner, inner2]);
}

#[test]
fn untagged_sector_gets_no_entry() {
    let level = square_level(0, &vec![thing(32, 32)]);
    assert_eq!(level.things_by_sector.get(&0), None);
    assert_eq!(level.things_in_sector(0), vec![]);
}

#[test]
fn open_boundary_assigns_nothing() {
    // Two linedefs that do not close: the accumulated partial boundary is
    // degenerate and contains no thing strictly inside.
    let vertices = vec![vertex(0, 0), vertex(64, 0), vertex(64, 64), vertex(0, 64)];
    let linedefs = vec![line(0, 1, 0, -1), line(1, 2, 0, -1)];
    let sidedefs = vec![side(0)];
    let sectors = vec![sector(0, 128, 160, 4)];
    let things = vec![thing(32, 32)];
    let bytes = level_wad(&things, &linedefs, &sidedefs, &vertices, &sectors);
    let archive = Archive::open(bytes).expect("valid container");
    let level = Level::from_archive(&archive, 0).expect("level loads");
    assert_eq!(level.things_by_sector.get(&0), Some(&vec![]));
}

#[test]
fn tagged_sector_without_linedefs_is_skipped() {
    // Sector 1 is tagged but no linedef references it: it degrades to "no
    // things assigned" instead of failing the load.
    let vertices = vec![vertex(0, 0), vertex(64, 0), vertex(64, 64), vertex(0, 64)];
    let linedefs = vec![line(0, 1, 0, -1), line(1, 2, 0, -1), line(2, 3, 0, -1), line(3, 0, 0, -1)];
    let sidedefs = vec![side(0)];
    let sectors = vec![sector(0, 128, 160, 5), sector(0, 128, 160, 6)];
    let things = vec![thing(32, 32)];
    let bytes = level_wad(&things, &linedefs, &sidedefs, &vertices, &sectors);
    let archive = Archive::open(bytes).expect("valid container");
    let level = Level::from_archive(&archive, 0).expect("level loads");
    assert_eq!(level.things_by_sector.get(&0), Some(&vec![0usize]));
    assert_eq!(level.things_by_sector.get(&1), None);
}

#[test]
fn load_fails_on_short_sectors_lump() {
    let vertices = vec![vertex(0, 0), vertex(64, 0), vertex(64, 64), vertex(0, 64)];
    let linedefs = vec![line(0, 1, 0, -1)];
    let sidedefs = vec![side(0)];
    let sectors = vec![sector(0, 128, 160, 0)];
    let things = vec![thing(32, 32)];
    let mut bytes = level_wad(&things, &linedefs, &sidedefs, &vertices, &sectors);
    // Shorten the SECTORS lump (the last directory entry) by one byte.
    let dir_off = bytes.len() - 9 * 16;
    let last_size = dir_off + 8 * 16 + 4;
    bytes[last_size..last_size + 4].copy_from_slice(&25u32.to_le_bytes());
    let archive = Archive::open(bytes).expect("valid container");
    let err = Level::from_archive(&archive, 0).err().expect("short lump");
    assert_eq!(
        err,
        WadError::SizeMismatch { total: 25, element: 26, quotient: 0, remainder: 25 }
    );
}

#[test]
fn adjacency_is_symmetric_across_shared_linedef() {
    let level = two_room_level();
    let mut it = level.adjacent_sectors(0);
    assert_eq!(it.next(), Some(1));
    assert_eq!(it.next(), None);
    let mut it = level.adjacent_sectors(1);
    assert_eq!(it.next(), Some(0));
    assert_eq!(it.next(), None);
}

#[test]
fn adjacency_iterator_is_restartable() {
    let level = two_room_level();
    let mut first = level.adjacent_sectors(0);
    assert_eq!(first.next(), Some(1));
    let mut again = level.adjacent_sectors(0);
    assert_eq!(again.next(), Some(1));
}

#[test]
fn min_light_takes_darkest_neighbour() {
    let level = two_room_level();
    assert_eq!(level.sector_min_light(0), 100);
    assert_eq!(level.sector_min_light(1), 100);
}

#[test]
fn min_light_without_neighbours_is_own_light() {
    let level = square_level(0, &vec![thing(32, 32)]);
    assert_eq!(level.sector_min_light(0), 160);
}

#[test]
fn neighbour_heights_fold_single_neighbour() {
    let level = two_room_level();
    assert_eq!(
        level.neighbour_heights(0),
        Some(NeighbourHeights {
            lowest_floor: 32,
            next_floor: Some(32),
            highest_floor: 32,
            lowest_ceiling: 100,
            highest_ceiling: 100,
        })
    );
    // Sector 1's only neighbour has a lower floor, so no "next" floor.
    assert_eq!(
        level.neighbour_heights(1),
        Some(NeighbourHeights {
            lowest_floor: 0,
            next_floor: None,
            highest_floor: 0,
            lowest_ceiling: 128,
            highest_ceiling: 128,
        })
    );
}

#[test]
fn neighbour_heights_without_neighbours_is_absent() {
    let level = square_level(0, &vec![thing(32, 32)]);
    assert_eq!(level.neighbour_heights(0), None);
}

#[test]
fn vertex_lookup_and_bounds() {
    let level = two_room_level();
    assert_eq!(level.vertex(4), Some(vertex(128, 0)));
    assert_eq!(level.vertex(6), None);
}

#[test]
fn seg_cross_references() {
    let level = two_room_level();
    // A seg on linedef 1 (the shared edge), facing the right side.
    let seg = WadSeg { start_vertex: 1, end_vertex: 2, angle: 0, linedef: 1, direction: 0, offset: 0 };
    assert_eq!(level.seg_linedef(&seg), Some(line(1, 2, 0, 1)));
    assert_eq!(level.seg_vertices(&seg), Some((vertex(64, 0), vertex(64, 64))));
    assert_eq!(level.seg_sidedef(&seg), Some(side(0)));
    assert_eq!(level.seg_back_sidedef(&seg), Some(side(1)));
    assert_eq!(level.seg_sector(&seg), Some(sector(0, 128, 160, 0)));
    assert_eq!(level.seg_back_sector(&seg), Some(sector(32, 100, 100, 0)));
    // The same seg facing the left side swaps front and back.
    let flipped = WadSeg { direction: 1, ..seg };
    assert_eq!(level.seg_sidedef(&flipped), Some(side(1)));
    assert_eq!(level.seg_back_sidedef(&flipped), Some(side(0)));
    // A seg on a one-sided linedef has no back sidedef.
    let one_sided = WadSeg { start_vertex: 0, end_vertex: 1, angle: 0, linedef: 0, direction: 0, offset: 0 };
    assert_eq!(level.seg_sidedef(&one_sided), Some(side(0)));
    assert_eq!(level.seg_back_sidedef(&one_sided), None);
    // A dangling linedef id resolves to nothing.
    let dangling = WadSeg { start_vertex: 0, end_vertex: 1, angle: 0, linedef: 99, direction: 0, offset: 0 };
    assert_eq!(level.seg_linedef(&dangling), None);
    assert_eq!(level.seg_sector(&dangling), None);
}

#[test]
fn sidedef_resolution_honours_absent_ids() {
    let level = two_room_level();
    let shared = line(1, 2, 0, 1);
    assert_eq!(level.left_sidedef(&shared), Some(side(1)));
    assert_eq!(level.right_sidedef(&shared), Some(side(0)));
    let one_sided = line(0, 1, 0, -1);
    assert_eq!(level.left_sidedef(&one_sided), None);
    assert_eq!(level.right_sidedef(&one_sided), Some(side(0)));
}

#[test]
fn subsector_seg_runs() {
    let level = two_room_level();
    let ss = level.ssector(0).expect("subsector exists");
    assert_eq!(ss, WadSubsector { num_segs: 1, first_seg: 0 });
    assert_eq!(level.ssector_segs(ss), Some(vec![dummy_seg()]));
    assert_eq!(level.ssector(3), None);
    // A run past the end of the seg sequence is absent.
    let bad = WadSubsector { num_segs: 5, first_seg: 0 };
    assert_eq!(level.ssector_segs(bad), None);
}

#[test]
fn sector_and_sidedef_identities_are_positions() {
    let level = two_room_level();
    assert_eq!(level.sector_id(0), 0);
    assert_eq!(level.sector_id(1), 1);
    assert_eq!(level.sidedef_id(1), 1);
}

#[test]
fn load_fails_when_lump_block_is_incomplete() {
    // A level marker whose eight data lumps are not all present in the
    // directory: the load reports the missing lump.
    let bytes = make_wad(&[
        (lump_name("E1M1"), vec![]),
        (lump_name("THINGS"), encode_vec(&vec![thing(0, 0)])),
        (lump_name("LINEDEFS"), encode_vec(&vec![line(0, 1, 0, -1)])),
    ]);
    let archive = Archive::open(bytes).expect("valid container");
    assert_eq!(archive.num_levels(), 1);
    let err = Level::from_archive(&archive, 0).err().expect("missing lump");
    assert_eq!(err, WadError::MissingLump);
}

#[test]
fn linedef_bound_to_one_sector_on_both_sides_yields_no_neighbour() {
    // The shared edge's two sidedefs both bind sector 0: not "exactly one
    // side", so the sector is not its own neighbour.
    let vertices = vec![vertex(0, 0), vertex(64, 0), vertex(64, 64), vertex(0, 64)];
    let linedefs = vec![line(0, 1, 0, 0), line(1, 2, 0, -1), line(2, 3, 0, -1), line(3, 0, 0, -1)];
    let sidedefs = vec![side(0)];
    let sectors = vec![sector(0, 128, 160, 0)];
    let things = vec![thing(32, 32)];
    let bytes = level_wad(&things, &linedefs, &sidedefs, &vertices, &sectors);
    let archive = Archive::open(bytes).expect("valid container");
    let level = Level::from_archive(&archive, 0).expect("level loads");
    let mut it = level.adjacent_sectors(0);
    assert_eq!(it.next(), None);
    assert_eq!(level.sector_min_light(0), 160);
    assert_eq!(level.neighbour_heights(0), None);
}
