//! The eight fixed-size record types stored in a level's data lumps, the
//! `Record` trait they share (spec-level size and decoding, executable
//! decoding and encoding proved against it), and the derived view of a byte
//! range as a record sequence.
//!
//! Every multi-byte field is little-endian; the 8-byte fixed-width names
//! (texture references) are carried as the `u64` holding their bytes
//! little-endian, which keeps every field a plain integer.

use vstd::prelude::*;

use crate::bytes::{le_i16, le_u16, le_u64};
use crate::bytes::{push_i16, push_u16, push_u64, read_i16, read_u16, read_u64};
use crate::bytes::{lemma_le_i16_subrange, lemma_le_u16_subrange, lemma_le_u64_subrange};

verus! {

/// A fixed-size record that a lump stores as consecutive little-endian
/// fields. `decode_spec` gives the meaning of one record's bytes;
/// `decode_at` and `encode_into` are proved against it, so decoding an
/// encoding yields the record back.
pub trait Record: Sized {
    /// Size of one encoded record in bytes.
    spec fn size_spec() -> nat;

    /// The record denoted by `b` (meaningful when `b.len() == size_spec()`).
    spec fn decode_spec(b: Seq<u8>) -> Self;

    fn size() -> (n: usize)
        ensures
            n as nat == Self::size_spec(),
            n > 0,
    ;

    fn decode_at(b: &Vec<u8>, i: usize) -> (r: Self)
        requires
            i + Self::size_spec() <= b@.len(),
        ensures
            r == Self::decode_spec(b@.subrange(i as int, i + Self::size_spec())),
    ;

    fn encode_into(&self, out: &mut Vec<u8>)
        ensures
            final(out)@.len() == old(out)@.len() + Self::size_spec(),
            forall|j: int| 0 <= j < old(out)@.len() ==> final(out)@[j] == old(out)@[j],
            Self::decode_spec(
                final(out)@.subrange(old(out)@.len() as int, final(out)@.len() as int),
            ) == *self,
    ;
}

/// An object placed in the world: position, facing angle, semantic type
/// and spawn flags.
#[derive(Clone, Copy, PartialEq, Eq, Structural, Debug)]
pub struct WadThing {
    pub x: i16,
    pub y: i16,
    pub angle: i16,
    pub thing_type: i16,
    pub flags: i16,
}

impl Record for WadThing {
    open spec fn size_spec() -> nat {
        10
    }

    open spec fn decode_spec(b: Seq<u8>) -> Self {
        WadThing {
            x: le_i16(b, 0),
            y: le_i16(b, 2),
            angle: le_i16(b, 4),
            thing_type: le_i16(b, 6),
            flags: le_i16(b, 8),
        }
    }

    fn size() -> usize {
        10
    }

    fn decode_at(b: &Vec<u8>, i: usize) -> Self {
        let _n: usize = b.len();
        let r = WadThing {
            x: read_i16(b, i),
            y: read_i16(b, i + 2),
            angle: read_i16(b, i + 4),
            thing_type: read_i16(b, i + 6),
            flags: read_i16(b, i + 8),
        };
        proof {
            lemma_le_i16_subrange(b@, i as int, i + 10, 0);
            lemma_le_i16_subrange(b@, i as int, i + 10, 2);
            lemma_le_i16_subrange(b@, i as int, i + 10, 4);
            lemma_le_i16_subrange(b@, i as int, i + 10, 6);
            lemma_le_i16_subrange(b@, i as int, i + 10, 8);
        }
        r
    }

    fn encode_into(&self, out: &mut Vec<u8>) {
        let ghost l0 = out@.len() as int;
        push_i16(out, self.x);
        push_i16(out, self.y);
        push_i16(out, self.angle);
        push_i16(out, self.thing_type);
        push_i16(out, self.flags);
        proof {
            lemma_le_i16_subrange(out@, l0, l0 + 10, 0);
            lemma_le_i16_subrange(out@, l0, l0 + 10, 2);
            lemma_le_i16_subrange(out@, l0, l0 + 10, 4);
            lemma_le_i16_subrange(out@, l0, l0 + 10, 6);
            lemma_le_i16_subrange(out@, l0, l0 + 10, 8);
        }
    }
}

/// A directed wall segment between two vertices, with up to two sidedefs;
/// a sidedef id of -1 means "none".
#[derive(Clone, Copy, PartialEq, Eq, Structural, Debug)]
pub struct WadLinedef {
    pub start_vertex: u16,
    pub end_vertex: u16,
    pub flags: u16,
    pub special: u16,
    pub sector_tag: u16,
    pub right_side: i16,
    pub left_side: i16,
}

impl Record for WadLinedef {
    open spec fn size_spec() -> nat {
        14
    }

    open spec fn decode_spec(b: Seq<u8>) -> Self {
        WadLinedef {
            start_vertex: le_u16(b, 0),
            end_vertex: le_u16(b, 2),
            flags: le_u16(b, 4),
            special: le_u16(b, 6),
            sector_tag: le_u16(b, 8),
            right_side: le_i16(b, 10),
            left_side: le_i16(b, 12),
        }
    }

    fn size() -> usize {
        14
    }

    fn decode_at(b: &Vec<u8>, i: usize) -> Self {
        let _n: usize = b.len();
        let r = WadLinedef {
            start_vertex: read_u16(b, i),
            end_vertex: read_u16(b, i + 2),
            flags: read_u16(b, i + 4),
            special: read_u16(b, i + 6),
            sector_tag: read_u16(b, i + 8),
            right_side: read_i16(b, i + 10),
            left_side: read_i16(b, i + 12),
        };
        proof {
            lemma_le_u16_subrange(b@, i as int, i + 14, 0);
            lemma_le_u16_subrange(b@, i as int, i + 14, 2);
            lemma_le_u16_subrange(b@, i as int, i + 14, 4);
            lemma_le_u16_subrange(b@, i as int, i + 14, 6);
            lemma_le_u16_subrange(b@, i as int, i + 14, 8);
            lemma_le_i16_subrange(b@, i as int, i + 14, 10);
            lemma_le_i16_subrange(b@, i as int, i + 14, 12);
        }
        r
    }

    fn encode_into(&self, out: &mut Vec<u8>) {
        let ghost l0 = out@.len() as int;
        push_u16(out, self.start_vertex);
        push_u16(out, self.end_vertex);
        push_u16(out, self.flags);
        push_u16(out, self.special);
        push_u16(out, self.sector_tag);
        push_i16(out, self.right_side);
        push_i16(out, self.left_side);
        proof {
            lemma_le_u16_subrange(out@, l0, l0 + 14, 0);
            lemma_le_u16_subrange(out@, l0, l0 + 14, 2);
            lemma_le_u16_subrange(out@, l0, l0 + 14, 4);
            lemma_le_u16_subrange(out@, l0, l0 + 14, 6);
            lemma_le_u16_subrange(out@, l0, l0 + 14, 8);
            lemma_le_i16_subrange(out@, l0, l0 + 14, 10);
            lemma_le_i16_subrange(out@, l0, l0 + 14, 12);
        }
    }
}

/// One side of a linedef: texture offsets, the three texture name slots,
/// and the id of the sector the side faces.
#[derive(Clone, Copy, PartialEq, Eq, Structural, Debug)]
pub struct WadSidedef {
    pub x_offset: i16,
    pub y_offset: i16,
    pub upper_texture: u64,
    pub lower_texture: u64,
    pub middle_texture: u64,
    pub sector: u16,
}

impl Record for WadSidedef {
    open spec fn size_spec() -> nat {
        30
    }

    open spec fn decode_spec(b: Seq<u8>) -> Self {
        WadSidedef {
            x_offset: le_i16(b, 0),
            y_offset: le_i16(b, 2),
            upper_texture: le_u64(b, 4),
            lower_texture: le_u64(b, 12),
            middle_texture: le_u64(b, 20),
            sector: le_u16(b, 28),
        }
    }

    fn size() -> usize {
        30
    }

    fn decode_at(b: &Vec<u8>, i: usize) -> Self {
        let _n: usize = b.len();
        let r = WadSidedef {
            x_offset: read_i16(b, i),
            y_offset: read_i16(b, i + 2),
            upper_texture: read_u64(b, i + 4),
            lower_texture: read_u64(b, i + 12),
            middle_texture: read_u64(b, i + 20),
            sector: read_u16(b, i + 28),
        };
        proof {
            lemma_le_i16_subrange(b@, i as int, i + 30, 0);
            lemma_le_i16_subrange(b@, i as int, i + 30, 2);
            lemma_le_u64_subrange(b@, i as int, i + 30, 4);
            lemma_le_u64_subrange(b@, i as int, i + 30, 12);
            lemma_le_u64_subrange(b@, i as int, i + 30, 20);
            lemma_le_u16_subrange(b@, i as int, i + 30, 28);
        }
        r
    }

    fn encode_into(&self, out: &mut Vec<u8>) {
        let ghost l0 = out@.len() as int;
        push_i16(out, self.x_offset);
        push_i16(out, self.y_offset);
        push_u64(out, self.upper_texture);
        push_u64(out, self.lower_texture);
        push_u64(out, self.middle_texture);
        push_u16(out, self.sector);
        proof {
            lemma_le_i16_subrange(out@, l0, l0 + 30, 0);
            lemma_le_i16_subrange(out@, l0, l0 + 30, 2);
            lemma_le_u64_subrange(out@, l0, l0 + 30, 4);
            lemma_le_u64_subrange(out@, l0, l0 + 30, 12);
            lemma_le_u64_subrange(out@, l0, l0 + 30, 20);
            lemma_le_u16_subrange(out@, l0, l0 + 30, 28);
        }
    }
}

/// A planar map vertex.
#[derive(Clone, Copy, PartialEq, Eq, Structural, Debug)]
pub struct WadVertex {
    pub x: i16,
    pub y: i16,
}

impl Record for WadVertex {
    open spec fn size_spec() -> nat {
        4
    }

    open spec fn decode_spec(b: Seq<u8>) -> Self {
        WadVertex { x: le_i16(b, 0), y: le_i16(b, 2) }
    }

    fn size() -> usize {
        4
    }

    fn decode_at(b: &Vec<u8>, i: usize) -> Self {
        let _n: usize = b.len();
        let r = WadVertex { x: read_i16(b, i), y: read_i16(b, i + 2) };
        proof {
            lemma_le_i16_subrange(b@, i as int, i + 4, 0);
            lemma_le_i16_subrange(b@, i as int, i + 4, 2);
        }
        r
    }

    fn encode_into(&self, out: &mut Vec<u8>) {
        let ghost l0 = out@.len() as int;
        push_i16(out, self.x);
        push_i16(out, self.y);
        proof {
            lemma_le_i16_subrange(out@, l0, l0 + 4, 0);
            lemma_le_i16_subrange(out@, l0, l0 + 4, 2);
        }
    }
}

/// A linedef fragment used by the spatial partition tree; the direction
/// flag selects which of the owning linedef's sidedefs the seg faces.
#[derive(Clone, Copy, PartialEq, Eq, Structural, Debug)]
pub struct WadSeg {
    pub start_vertex: u16,
    pub end_vertex: u16,
    pub angle: u16,
    pub linedef: u16,
    pub direction: u16,
    pub offset: u16,
}

impl Record for WadSeg {
    open spec fn size_spec() -> nat {
        12
    }

    open spec fn decode_spec(b: Seq<u8>) -> Self {
        WadSeg {
            start_vertex: le_u16(b, 0),
            end_vertex: le_u16(b, 2),
            angle: le_u16(b, 4),
            linedef: le_u16(b, 6),
            direction: le_u16(b, 8),
            offset: le_u16(b, 10),
        }
    }

    fn size() -> usize {
        12
    }

    fn decode_at(b: &Vec<u8>, i: usize) -> Self {
        let _n: usize = b.len();
        let r = WadSeg {
            start_vertex: read_u16(b, i),
            end_vertex: read_u16(b, i + 2),
            angle: read_u16(b, i + 4),
            linedef: read_u16(b, i + 6),
            direction: read_u16(b, i + 8),
            offset: read_u16(b, i + 10),
        };
        proof {
            lemma_le_u16_subrange(b@, i as int, i + 12, 0);
            lemma_le_u16_subrange(b@, i as int, i + 12, 2);
            lemma_le_u16_subrange(b@, i as int, i + 12, 4);
            lemma_le_u16_subrange(b@, i as int, i + 12, 6);
            lemma_le_u16_subrange(b@, i as int, i + 12, 8);
            lemma_le_u16_subrange(b@, i as int, i + 12, 10);
        }
        r
    }

    fn encode_into(&self, out: &mut Vec<u8>) {
        let ghost l0 = out@.len() as int;
        push_u16(out, self.start_vertex);
        push_u16(out, self.end_vertex);
        push_u16(out, self.angle);
        push_u16(out, self.linedef);
        push_u16(out, self.direction);
        push_u16(out, self.offset);
        proof {
            lemma_le_u16_subrange(out@, l0, l0 + 12, 0);
            lemma_le_u16_subrange(out@, l0, l0 + 12, 2);
            lemma_le_u16_subrange(out@, l0, l0 + 12, 4);
            lemma_le_u16_subrange(out@, l0, l0 + 12, 6);
            lemma_le_u16_subrange(out@, l0, l0 + 12, 8);
            lemma_le_u16_subrange(out@, l0, l0 + 12, 10);
        }
    }
}

/// A leaf of the spatial partition tree: a contiguous run of segs.
#[derive(Clone, Copy, PartialEq, Eq, Structural, Debug)]
pub struct WadSubsector {
    pub num_segs: u16,
    pub first_seg: u16,
}

impl Record for WadSubsector {
    open spec fn size_spec() -> nat {
        4
    }

    open spec fn decode_spec(b: Seq<u8>) -> Self {
        WadSubsector { num_segs: le_u16(b, 0), first_seg: le_u16(b, 2) }
    }

    fn size() -> usize {
        4
    }

    fn decode_at(b: &Vec<u8>, i: usize) -> Self {
        let _n: usize = b.len();
        let r = WadSubsector { num_segs: read_u16(b, i), first_seg: read_u16(b, i + 2) };
        proof {
            lemma_le_u16_subrange(b@, i as int, i + 4, 0);
            lemma_le_u16_subrange(b@, i as int, i + 4, 2);
        }
        r
    }

    fn encode_into(&self, out: &mut Vec<u8>) {
        let ghost l0 = out@.len() as int;
        push_u16(out, self.num_segs);
        push_u16(out, self.first_seg);
        proof {
            lemma_le_u16_subrange(out@, l0, l0 + 4, 0);
            lemma_le_u16_subrange(out@, l0, l0 + 4, 2);
        }
    }
}

/// An axis-aligned bounding box of a partition-tree child.
#[derive(Clone, Copy, PartialEq, Eq, Structural, Debug)]
pub struct WadBBox {
    pub top: i16,
    pub bottom: i16,
    pub left: i16,
    pub right: i16,
}

/// An internal node of the spatial partition tree: the splitting line,
/// both children's bounding boxes and both child pointers.
#[derive(Clone, Copy, PartialEq, Eq, Structural, Debug)]
pub struct WadNode {
    pub line_x: i16,
    pub line_y: i16,
    pub step_x: i16,
    pub step_y: i16,
    pub right_bbox: WadBBox,
    pub left_bbox: WadBBox,
    pub right_child: u16,
    pub left_child: u16,
}

impl Record for WadNode {
    open spec fn size_spec() -> nat {
        28
    }

    open spec fn decode_spec(b: Seq<u8>) -> Self {
        WadNode {
            line_x: le_i16(b, 0),
            line_y: le_i16(b, 2),
            step_x: le_i16(b, 4),
            step_y: le_i16(b, 6),
            right_bbox: WadBBox {
                top: le_i16(b, 8),
                bottom: le_i16(b, 10),
                left: le_i16(b, 12),
                right: le_i16(b, 14),
            },
            left_bbox: WadBBox {
                top: le_i16(b, 16),
                bottom: le_i16(b, 18),
                left: le_i16(b, 20),
                right: le_i16(b, 22),
            },
            right_child: le_u16(b, 24),
            left_child: le_u16(b, 26),
        }
    }

    fn size() -> usize {
        28
    }

    fn decode_at(b: &Vec<u8>, i: usize) -> Self {
        let _n: usize = b.len();
        let r = WadNode {
            line_x: read_i16(b, i),
            line_y: read_i16(b, i + 2),
            step_x: read_i16(b, i + 4),
            step_y: read_i16(b, i + 6),
            right_bbox: WadBBox {
                top: read_i16(b, i + 8),
                bottom: read_i16(b, i + 10),
                left: read_i16(b, i + 12),
                right: read_i16(b, i + 14),
            },
            left_bbox: WadBBox {
                top: read_i16(b, i + 16),
                bottom: read_i16(b, i + 18),
                left: read_i16(b, i + 20),
                right: read_i16(b, i + 22),
            },
            right_child: read_u16(b, i + 24),
            left_child: read_u16(b, i + 26),
        };
        proof {
            lemma_le_i16_subrange(b@, i as int, i + 28, 0);
            lemma_le_i16_subrange(b@, i as int, i + 28, 2);
            lemma_le_i16_subrange(b@, i as int, i + 28, 4);
            lemma_le_i16_subrange(b@, i as int, i + 28, 6);
            lemma_le_i16_subrange(b@, i as int, i + 28, 8);
            lemma_le_i16_subrange(b@, i as int, i + 28, 10);
            lemma_le_i16_subrange(b@, i as int, i + 28, 12);
            lemma_le_i16_subrange(b@, i as int, i + 28, 14);
            lemma_le_i16_subrange(b@, i as int, i + 28, 16);
            lemma_le_i16_subrange(b@, i as int, i + 28, 18);
            lemma_le_i16_subrange(b@, i as int, i + 28, 20);
            lemma_le_i16_subrange(b@, i as int, i + 28, 22);
            lemma_le_u16_subrange(b@, i as int, i + 28, 24);
            lemma_le_u16_subrange(b@, i as int, i + 28, 26);
        }
        r
    }

    fn encode_into(&self, out: &mut Vec<u8>) {
        let ghost l0 = out@.len() as int;
        push_i16(out, self.line_x);
        push_i16(out, self.line_y);
        push_i16(out, self.step_x);
        push_i16(out, self.step_y);
        push_i16(out, self.right_bbox.top);
        push_i16(out, self.right_bbox.bottom);
        push_i16(out, self.right_bbox.left);
        push_i16(out, self.right_bbox.right);
        push_i16(out, self.left_bbox.top);
        push_i16(out, self.left_bbox.bottom);
        push_i16(out, self.left_bbox.left);
        push_i16(out, self.left_bbox.right);
        push_u16(out, self.right_child);
        push_u16(out, self.left_child);
        proof {
            lemma_le_i16_subrange(out@, l0, l0 + 28, 0);
            lemma_le_i16_subrange(out@, l0, l0 + 28, 2);
            lemma_le_i16_subrange(out@, l0, l0 + 28, 4);
            lemma_le_i16_subrange(out@, l0, l0 + 28, 6);
            lemma_le_i16_subrange(out@, l0, l0 + 28, 8);
            lemma_le_i16_subrange(out@, l0, l0 + 28, 10);
            lemma_le_i16_subrange(out@, l0, l0 + 28, 12);
            lemma_le_i16_subrange(out@, l0, l0 + 28, 14);
            lemma_le_i16_subrange(out@, l0, l0 + 28, 16);
            lemma_le_i16_subrange(out@, l0, l0 + 28, 18);
            lemma_le_i16_subrange(out@, l0, l0 + 28, 20);
            lemma_le_i16_subrange(out@, l0, l0 + 28, 22);
            lemma_le_u16_subrange(out@, l0, l0 + 28, 24);
            lemma_le_u16_subrange(out@, l0, l0 + 28, 26);
        }
    }
}

/// A floor/ceiling region: heights, texture names, light level, semantic
/// type and trigger tag (tag 0 means "no trigger group").
#[derive(Clone, Copy, PartialEq, Eq, Structural, Debug)]
pub struct WadSector {
    pub floor_height: i16,
    pub ceiling_height: i16,
    pub floor_texture: u64,
    pub ceiling_texture: u64,
    pub light: u16,
    pub sector_type: u16,
    pub tag: u16,
}

impl Record for WadSector {
    open spec fn size_spec() -> nat {
        26
    }

    open spec fn decode_spec(b: Seq<u8>) -> Self {
        WadSector {
            floor_height: le_i16(b, 0),
            ceiling_height: le_i16(b, 2),
            floor_texture: le_u64(b, 4),
            ceiling_texture: le_u64(b, 12),
            light: le_u16(b, 20),
            sector_type: le_u16(b, 22),
            tag: le_u16(b, 24),
        }
    }

    fn size() -> usize {
        26
    }

    fn decode_at(b: &Vec<u8>, i: usize) -> Self {
        let _n: usize = b.len();
        let r = WadSector {
            floor_height: read_i16(b, i),
            ceiling_height: read_i16(b, i + 2),
            floor_texture: read_u64(b, i + 4),
            ceiling_texture: read_u64(b, i + 12),
            light: read_u16(b, i + 20),
            sector_type: read_u16(b, i + 22),
            tag: read_u16(b, i + 24),
        };
        proof {
            lemma_le_i16_subrange(b@, i as int, i + 26, 0);
            lemma_le_i16_subrange(b@, i as int, i + 26, 2);
            lemma_le_u64_subrange(b@, i as int, i + 26, 4);
            lemma_le_u64_subrange(b@, i as int, i + 26, 12);
            lemma_le_u16_subrange(b@, i as int, i + 26, 20);
            lemma_le_u16_subrange(b@, i as int, i + 26, 22);
            lemma_le_u16_subrange(b@, i as int, i + 26, 24);
        }
        r
    }

    fn encode_into(&self, out: &mut Vec<u8>) {
        let ghost l0 = out@.len() as int;
        push_i16(out, self.floor_height);
        push_i16(out, self.ceiling_height);
        push_u64(out, self.floor_texture);
        push_u64(out, self.ceiling_texture);
        push_u16(out, self.light);
        push_u16(out, self.sector_type);
        push_u16(out, self.tag);
        proof {
            lemma_le_i16_subrange(out@, l0, l0 + 26, 0);
            lemma_le_i16_subrange(out@, l0, l0 + 26, 2);
            lemma_le_u64_subrange(out@, l0, l0 + 26, 4);
            lemma_le_u64_subrange(out@, l0, l0 + 26, 12);
            lemma_le_u16_subrange(out@, l0, l0 + 26, 20);
            lemma_le_u16_subrange(out@, l0, l0 + 26, 22);
            lemma_le_u16_subrange(out@, l0, l0 + 26, 24);
        }
    }
}

/// The record sequence denoted by a byte range: one record per
/// `T::size_spec()`-byte chunk, any trailing remainder ignored.
pub open spec fn records_of<T: Record>(b: Seq<u8>) -> Seq<T> {
    Seq::new(
        b.len() / T::size_spec(),
        |i: int| T::decode_spec(b.subrange(i * T::size_spec(), (i + 1) * T::size_spec())),
    )
}

/// Encode a record sequence back to bytes. Decoding the result gives the
/// sequence back (the round trip of the lump codec).
pub fn encode_vec<T: Record>(recs: &Vec<T>) -> (out: Vec<u8>)
    ensures
        out@.len() == recs@.len() * T::size_spec(),
        records_of::<T>(out@) == recs@,
{
    let ghost k = T::size_spec();
    let _rec_size: usize = T::size();
    let mut out: Vec<u8> = Vec::new();
    let n: usize = recs.len();
    proof {
        assert(0 * k == 0) by (nonlinear_arith);
    }
    for i in 0..n
        invariant
            n == recs@.len(),
            out@.len() == i * k,
            k == T::size_spec(),
            forall|j: int|
                0 <= j < i ==> T::decode_spec(
                    #[trigger] out@.subrange(j * k, (j + 1) * k),
                ) == recs@[j],
    {
        let ghost before = out@;
        recs[i].encode_into(&mut out);
        proof {
            assert(out@.len() == i * k + k);
            assert(i * k + k == (i + 1) * k) by (nonlinear_arith);
            assert forall|j: int| 0 <= j < i implies T::decode_spec(
                #[trigger] out@.subrange(j * k, (j + 1) * k),
            ) == recs@[j] by {
                assert((j + 1) * k <= i * k && 0 <= j * k && (j + 1) * k == j * k + k)
                    by (nonlinear_arith)
                    requires
                        0 <= j < i,
                        0 <= k,
                ;
                assert(out@.subrange(j * k, (j + 1) * k) =~= before.subrange(j * k, (j + 1) * k));
            }
            assert(out@.subrange(i * k, (i + 1) * k) =~= out@.subrange(
                before.len() as int,
                out@.len() as int,
            ));
        }
    }
    proof {
        assert(out@.len() / k == recs@.len()) by (nonlinear_arith)
            requires
                out@.len() == recs@.len() * k,
                0 < k,
        ;
        assert(records_of::<T>(out@) =~= recs@);
    }
    out
}

} // verus!
