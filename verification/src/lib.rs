//! Reader for the classic "IWAD" lump-archive format and for the level
//! topology stored in it: sectors, linedefs, sidedefs, vertices, segs,
//! subsectors, nodes and things, together with the derived queries
//! (sector adjacency, neighbour heights, sector membership of things).

pub mod bytes;
pub mod error;
pub mod records;
pub mod archive;
pub mod level;

pub use archive::{Archive, LumpInfo, LumpReader};
pub use error::WadError;
pub use level::{AdjacentSectorsIter, Level, NeighbourHeights};
pub use records::{
    Record, WadBBox, WadLinedef, WadNode, WadSector, WadSeg, WadSidedef, WadSubsector, WadThing,
    WadVertex,
};
