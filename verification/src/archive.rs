//! The lump-archive reader: header validation, directory parsing, the
//! name-to-index lookup with its last-wins override semantics, the level
//! boundary heuristic, and the typed random-access lump decoders.
//!
//! An archive is opened from the container's bytes; no lump contents are
//! inspected at open time, and a lump's byte range is checked against the
//! container only when the lump is read.

use vstd::prelude::*;

use indexmap::IndexMap;

use crate::bytes::{le_u32, le_u64, read_u32, read_u64};
use crate::error::WadError;
use crate::records::{records_of, Record};

verus! {

/// The 4-byte magic identifier "IWAD", read little-endian.
pub const IWAD_MAGIC: u32 = 0x4441_5749;

/// The fixed-width lump name "THINGS" (null-padded to 8 bytes), read
/// little-endian; a directory entry with this name marks the lump block of
/// a level, which starts one entry earlier.
pub const THINGS_NAME: u64 = 0x0000_5347_4e49_4854;

/// One directory entry: a lump's name (the 8 null-padded name bytes held
/// little-endian in a `u64`), its byte offset and its byte size.
#[derive(Clone, Copy, PartialEq, Eq, Structural, Debug)]
pub struct LumpInfo {
    pub name: u64,
    pub offset: u32,
    pub size: u32,
}

// ---------------------------------------------------------------------------
// Trusted boundary: the insertion-ordered name map comes from the indexmap
// crate. Its contents are named by `index_map_of`, and the three operations
// the reader needs carry the contracts that indexmap documents.
// ---------------------------------------------------------------------------

#[verifier::external_type_specification]
#[verifier::external_body]
#[verifier::reject_recursive_types(K)]
#[verifier::reject_recursive_types(V)]
#[verifier::reject_recursive_types(S)]
pub struct ExIndexMap<K, V, S>(IndexMap<K, V, S>);

/// The name lookup's concrete shape: lump name bits to directory index.
pub type NameIndexMap = IndexMap<u64, usize>;

/// What an `IndexMap` from lump names to directory indices holds.
pub uninterp spec fn index_map_of(m: NameIndexMap) -> Map<u64, usize>;

/// Relies on indexmap's `IndexMap::new`; nothing is assumed of the
/// result, which is emptied through `imap_clear` before use.
#[verifier::external_body]
fn imap_new() -> NameIndexMap {
    IndexMap::new()
}

/// The empty name lookup.
pub open spec fn empty_name_map() -> Map<u64, usize> {
    Map::empty()
}

/// Relies on indexmap's `IndexMap::clear`: removes every entry.
#[verifier::external_body]
fn imap_clear(m: &mut NameIndexMap)
    ensures
        index_map_of(*final(m)) == empty_name_map(),
{
    m.clear();
}

/// Relies on indexmap's `IndexMap::insert`: stores `v` under `k`,
/// overwriting the value of an existing equal key.
#[verifier::external_body]
fn imap_insert(m: &mut NameIndexMap, k: u64, v: usize)
    ensures
        index_map_of(*final(m)) == index_map_of(*old(m)).insert(k, v),
{
    m.insert(k, v);
}

/// Relies on indexmap's `IndexMap::get`: returns the value stored under an
/// equal key, if one is present.
#[verifier::external_body]
fn imap_get(m: &NameIndexMap, k: u64) -> (r: Option<usize>)
    ensures
        index_map_of(*m).contains_key(k) ==> r == Some(index_map_of(*m)[k]),
        !index_map_of(*m).contains_key(k) ==> r is None,
{
    m.get(&k).copied()
}

// ---------------------------------------------------------------------------
// The directory as a function of the container's bytes.
// ---------------------------------------------------------------------------

/// Number of lumps the header announces.
pub open spec fn spec_lump_count(b: Seq<u8>) -> u32 {
    le_u32(b, 4)
}

/// Byte offset of the directory the header announces.
pub open spec fn spec_dir_offset(b: Seq<u8>) -> u32 {
    le_u32(b, 8)
}

/// The directory entry decoded at position `i` of the directory starting
/// at byte offset `dir_off`.
pub open spec fn spec_lump_at(b: Seq<u8>, dir_off: int, i: int) -> LumpInfo {
    LumpInfo {
        name: le_u64(b, dir_off + 16 * i + 8),
        offset: le_u32(b, dir_off + 16 * i),
        size: le_u32(b, dir_off + 16 * i + 4),
    }
}

/// The whole directory the container's bytes denote.
pub open spec fn spec_directory(b: Seq<u8>) -> Seq<LumpInfo> {
    Seq::new(
        spec_lump_count(b) as nat,
        |i: int| spec_lump_at(b, spec_dir_offset(b) as int, i),
    )
}

/// A container that `open` accepts: enough bytes for the header, the right
/// magic, a directory that lies within the bytes, and no "THINGS" entry in
/// the very first directory position (which would put a level boundary
/// before the directory's start).
pub open spec fn spec_wad_ok(b: Seq<u8>) -> bool {
    &&& b.len() >= 12
    &&& le_u32(b, 0) == IWAD_MAGIC
    &&& spec_dir_offset(b) + 16 * spec_lump_count(b) <= b.len()
    &&& (spec_lump_count(b) > 0 ==> spec_lump_at(b, spec_dir_offset(b) as int, 0).name
        != THINGS_NAME)
}

/// The level boundaries found in the first `n` directory entries: each
/// entry named "THINGS" at position `i` records `i - 1`.
pub open spec fn spec_levels_upto(lumps: Seq<LumpInfo>, n: int) -> Seq<usize>
    decreases n,
{
    if n <= 0 {
        Seq::empty()
    } else if lumps[n - 1].name == THINGS_NAME && n >= 2 {
        spec_levels_upto(lumps, n - 1).push((n - 2) as usize)
    } else {
        spec_levels_upto(lumps, n - 1)
    }
}

/// All level boundaries of a directory.
pub open spec fn spec_levels(lumps: Seq<LumpInfo>) -> Seq<usize> {
    spec_levels_upto(lumps, lumps.len() as int)
}

/// The name lookup built from the first `n` directory entries; a later
/// entry with the same name overwrites the stored index (last wins).
pub open spec fn spec_name_map_upto(lumps: Seq<LumpInfo>, n: int) -> Map<u64, usize>
    decreases n,
{
    if n <= 0 {
        Map::empty()
    } else {
        spec_name_map_upto(lumps, n - 1).insert(lumps[n - 1].name, (n - 1) as usize)
    }
}

/// The name lookup of a whole directory.
pub open spec fn spec_name_map(lumps: Seq<LumpInfo>) -> Map<u64, usize> {
    spec_name_map_upto(lumps, lumps.len() as int)
}

/// A lump's byte range lies within the container.
pub open spec fn lump_in_bounds(b: Seq<u8>, info: LumpInfo) -> bool {
    info.offset + info.size <= b.len()
}

/// The byte range of a lump.
pub open spec fn lump_bytes(b: Seq<u8>, info: LumpInfo) -> Seq<u8> {
    b.subrange(info.offset as int, info.offset + info.size)
}

proof fn lemma_name_map_upto_in_range(lumps: Seq<LumpInfo>, n: int)
    requires
        0 <= n <= lumps.len(),
    ensures
        forall|k: u64|
            spec_name_map_upto(lumps, n).contains_key(k) ==> spec_name_map_upto(lumps, n)[k]
                < lumps.len(),
    decreases n,
{
    if n > 0 {
        lemma_name_map_upto_in_range(lumps, n - 1);
        assert forall|k: u64| spec_name_map_upto(lumps, n).contains_key(k)
            implies spec_name_map_upto(lumps, n)[k] < lumps.len() by {
            if k != lumps[n - 1].name {
                assert(spec_name_map_upto(lumps, n - 1).contains_key(k));
            }
        }
    }
}

proof fn lemma_levels_upto_in_range(lumps: Seq<LumpInfo>, n: int)
    requires
        0 <= n <= lumps.len(),
    ensures
        forall|j: int|
            0 <= j < spec_levels_upto(lumps, n).len() ==> #[trigger] spec_levels_upto(lumps, n)[j]
                < lumps.len(),
    decreases n,
{
    if n > 0 {
        lemma_levels_upto_in_range(lumps, n - 1);
        assert forall|j: int| 0 <= j < spec_levels_upto(lumps, n).len()
            implies #[trigger] spec_levels_upto(lumps, n)[j] < lumps.len() by {
            let prev = spec_levels_upto(lumps, n - 1);
            if j < prev.len() {
                assert(spec_levels_upto(lumps, n)[j] == prev[j]);
            }
        }
    }
}

/// A subrange of a subrange reads the enclosing sequence directly.
pub proof fn lemma_subrange_of_subrange(b: Seq<u8>, off: int, len: int, lo: int, hi: int)
    requires
        0 <= off,
        off + len <= b.len(),
        0 <= lo <= hi <= len,
    ensures
        b.subrange(off, off + len).subrange(lo, hi) == b.subrange(off + lo, off + hi),
{
    assert(b.subrange(off, off + len).subrange(lo, hi) =~= b.subrange(off + lo, off + hi));
}

// ---------------------------------------------------------------------------
// The archive.
// ---------------------------------------------------------------------------

/// An opened lump archive: the container's bytes, its parsed directory,
/// the level boundary list and the name lookup. Opening reads metadata
/// only; lump contents are decoded on demand through [`LumpReader`].
pub struct Archive {
    bytes: Vec<u8>,
    lumps: Vec<LumpInfo>,
    levels: Vec<usize>,
    index_map: NameIndexMap,
}

impl Archive {
    /// The container's bytes.
    pub closed spec fn contents(&self) -> Seq<u8> {
        self.bytes@
    }

    /// The parsed directory.
    pub closed spec fn lump_seq(&self) -> Seq<LumpInfo> {
        self.lumps@
    }

    /// The level boundary list.
    pub closed spec fn level_starts(&self) -> Seq<usize> {
        self.levels@
    }

    /// The name lookup.
    pub closed spec fn name_map(&self) -> Map<u64, usize> {
        index_map_of(self.index_map)
    }

    /// An archive is exactly the projection of a well-formed container's
    /// bytes: directory, level boundaries and name lookup all agree with
    /// the bytes.
    pub open spec fn wf(&self) -> bool {
        &&& spec_wad_ok(self.contents())
        &&& self.lump_seq() == spec_directory(self.contents())
        &&& self.level_starts() == spec_levels(self.lump_seq())
        &&& self.name_map() == spec_name_map(self.lump_seq())
    }

    /// Open an archive over a container's bytes. Succeeds exactly on
    /// well-formed containers ([`spec_wad_ok`]); everything else is a
    /// `Format` error, never a crash.
    pub fn open(bytes: Vec<u8>) -> (r: Result<Archive, WadError>)
        ensures
            spec_wad_ok(bytes@) ==> (r matches Ok(a) && a.wf() && a.contents() == bytes@),
            !spec_wad_ok(bytes@) ==> r == Err::<Archive, WadError>(WadError::Format),
    {
        let n: usize = bytes.len();
        if n < 12 {
            return Err(WadError::Format);
        }
        let magic: u32 = read_u32(&bytes, 0);
        if magic != IWAD_MAGIC {
            return Err(WadError::Format);
        }
        let count: u32 = read_u32(&bytes, 4);
        let dir_off: u32 = read_u32(&bytes, 8);
        if (dir_off as u64) + 16u64 * (count as u64) > n as u64 {
            return Err(WadError::Format);
        }
        let count_us: usize = count as usize;
        let mut lumps: Vec<LumpInfo> = Vec::new();
        let mut levels: Vec<usize> = Vec::new();
        let mut index_map: NameIndexMap = imap_new();
        imap_clear(&mut index_map);
        let ghost dir = spec_directory(bytes@);
        for i in 0..count_us
            invariant
                n == bytes@.len(),
                count_us == count as usize,
                dir == spec_directory(bytes@),
                dir.len() == count as nat,
                spec_lump_count(bytes@) == count,
                spec_dir_offset(bytes@) == dir_off,
                dir_off + 16 * (count as int) <= n,
                lumps@.len() == i,
                forall|j: int| 0 <= j < i ==> lumps@[j] == dir[j],
                levels@ == spec_levels_upto(dir, i as int),
                index_map_of(index_map) == spec_name_map_upto(dir, i as int),
                i > 0 ==> dir[0].name != THINGS_NAME,
        {
            let base: usize = (dir_off as usize) + 16 * i;
            let offset: u32 = read_u32(&bytes, base);
            let size: u32 = read_u32(&bytes, base + 4);
            let name: u64 = read_u64(&bytes, base + 8);
            imap_insert(&mut index_map, name, lumps.len());
            lumps.push(LumpInfo { name, offset, size });
            if name == THINGS_NAME {
                if i == 0 {
                    return Err(WadError::Format);
                }
                levels.push(i - 1);
            }
            proof {
                assert(lumps@[i as int] == dir[i as int]);
            }
        }
        proof {
            assert(lumps@ =~= dir);
            assert(spec_wad_ok(bytes@));
        }
        Ok(Archive { bytes, lumps, levels, index_map })
    }

    /// The container's size in bytes.
    pub fn container_len(&self) -> (r: usize)
        ensures
            r == self.contents().len(),
    {
        self.bytes.len()
    }

    /// How many level boundaries the directory holds.
    pub fn num_levels(&self) -> (r: usize)
        ensures
            r == self.level_starts().len(),
    {
        self.levels.len()
    }

    /// A reader for the lump at a directory index; `MissingLump` exactly
    /// when the index has no entry.
    pub fn lump_by_index<'a>(&'a self, index: usize) -> (r: Result<LumpReader<'a>, WadError>)
        requires
            self.wf(),
        ensures
            index < self.lump_seq().len() ==> (r matches Ok(lr) && lr.wf() && lr.archive_spec()
                == *self && lr.index_spec() == index),
            index >= self.lump_seq().len() ==> r == Err::<LumpReader<'a>, WadError>(
                WadError::MissingLump,
            ),
    {
        if index < self.lumps.len() {
            let info: LumpInfo = self.lumps[index];
            Ok(LumpReader { archive: self, info, index })
        } else {
            Err(WadError::MissingLump)
        }
    }

    /// A reader for the marker lump of a level boundary.
    pub fn level_lump<'a>(&'a self, level_index: usize) -> (r: Result<LumpReader<'a>, WadError>)
        requires
            self.wf(),
            level_index < self.level_starts().len(),
        ensures
            r matches Ok(lr) && lr.wf() && lr.archive_spec() == *self && lr.index_spec()
                == self.level_starts()[level_index as int],
    {
        proof {
            lemma_levels_upto_in_range(self.lump_seq(), self.lump_seq().len() as int);
        }
        let start: usize = self.levels[level_index];
        match self.lump_by_index(start) {
            Ok(lr) => Ok(lr),
            Err(e) => Err(e),
        }
    }

    /// A reader for the lump stored under a name, or `None` when the name
    /// is absent; with duplicate names the last directory entry wins.
    pub fn named_lump<'a>(&'a self, name: u64) -> (r: Result<Option<LumpReader<'a>>, WadError>)
        requires
            self.wf(),
        ensures
            self.name_map().contains_key(name) ==> (r matches Ok(Some(lr)) && lr.wf()
                && lr.archive_spec() == *self && lr.index_spec() == self.name_map()[name]),
            !self.name_map().contains_key(name) ==> r == Ok::<Option<LumpReader<'a>>, WadError>(
                None,
            ),
    {
        proof {
            lemma_name_map_upto_in_range(self.lump_seq(), self.lump_seq().len() as int);
        }
        match imap_get(&self.index_map, name) {
            Some(index) => match self.lump_by_index(index) {
                Ok(lr) => Ok(Some(lr)),
                Err(e) => Err(e),
            },
            None => Ok(None),
        }
    }

    /// A reader for a lump that must exist; `MissingLump` when the name is
    /// absent.
    pub fn required_named_lump<'a>(&'a self, name: u64) -> (r: Result<LumpReader<'a>, WadError>)
        requires
            self.wf(),
        ensures
            self.name_map().contains_key(name) ==> (r matches Ok(lr) && lr.wf()
                && lr.archive_spec() == *self && lr.index_spec() == self.name_map()[name]),
            !self.name_map().contains_key(name) ==> r == Err::<LumpReader<'a>, WadError>(
                WadError::MissingLump,
            ),
    {
        match self.named_lump(name) {
            Ok(Some(lr)) => Ok(lr),
            Ok(None) => Err(WadError::MissingLump),
            Err(e) => Err(e),
        }
    }
}

// ---------------------------------------------------------------------------
// The lump reader.
// ---------------------------------------------------------------------------

/// Random access to one directory entry's byte range. Every decoder
/// confines itself to that range; a range outside the container is an `Io`
/// error at read time, as the directory's invariant is checked lazily.
#[derive(Clone, Copy)]
pub struct LumpReader<'a> {
    archive: &'a Archive,
    info: LumpInfo,
    index: usize,
}

impl<'a> LumpReader<'a> {
    /// The archive this reader reads from.
    pub closed spec fn archive_spec(&self) -> Archive {
        *self.archive
    }

    /// This lump's directory index.
    pub closed spec fn index_spec(&self) -> usize {
        self.index
    }

    /// This lump's directory entry.
    pub closed spec fn info_spec(&self) -> LumpInfo {
        self.info
    }

    /// A reader is a directory entry of a well-formed archive.
    pub open spec fn wf(&self) -> bool {
        &&& self.archive_spec().wf()
        &&& self.index_spec() < self.archive_spec().lump_seq().len()
        &&& self.info_spec() == self.archive_spec().lump_seq()[self.index_spec() as int]
    }

    /// The lump's directory index.
    pub fn index(&self) -> (r: usize)
        ensures
            r == self.index_spec(),
    {
        self.index
    }

    /// The lump's name.
    pub fn name(&self) -> (r: u64)
        ensures
            r == self.info_spec().name,
    {
        self.info.name
    }

    /// Whether the lump is a zero-size marker ("virtual") lump.
    pub fn is_virtual(&self) -> (r: bool)
        ensures
            r == (self.info_spec().size == 0),
    {
        self.info.size == 0
    }

    /// Decode the lump as a sequence of fixed-size records. Succeeds
    /// exactly when the lump's size is a nonzero multiple of the record
    /// size and its range lies in the container; a bad size is a
    /// `SizeMismatch` carrying size, record size, quotient and remainder,
    /// and a range outside the container is an `Io` error.
    pub fn decode_vec<T: Record>(&self) -> (r: Result<Vec<T>, WadError>)
        requires
            self.wf(),
        ensures
            ({
                let info = self.info_spec();
                let b = self.archive_spec().contents();
                let k = T::size_spec() as int;
                match r {
                    Ok(v) => info.size > 0 && info.size as int % k == 0 && lump_in_bounds(b, info)
                        && v@ == records_of::<T>(lump_bytes(b, info)),
                    Err(WadError::SizeMismatch { total, element, quotient, remainder }) => (
                    info.size == 0 || info.size as int % k != 0) && total == info.size as usize
                        && element as int == k && quotient as int == info.size as int / k
                        && remainder as int == info.size as int % k,
                    Err(WadError::Io { index }) => info.size > 0 && info.size as int % k == 0
                        && !lump_in_bounds(b, info) && index == self.index_spec(),
                    Err(_) => false,
                }
            }),
    {
        let k: usize = T::size();
        let size: usize = self.info.size as usize;
        if size == 0 || size % k != 0 {
            return Err(
                WadError::SizeMismatch {
                    total: size,
                    element: k,
                    quotient: size / k,
                    remainder: size % k,
                },
            );
        }
        let b: &Vec<u8> = &self.archive.bytes;
        let n: usize = b.len();
        if (self.info.offset as u64) + (self.info.size as u64) > n as u64 {
            return Err(WadError::Io { index: self.index });
        }
        let offset: usize = self.info.offset as usize;
        let count: usize = size / k;
        proof {
            vstd::arithmetic::div_mod::lemma_fundamental_div_mod(size as int, k as int);
        }
        let mut v: Vec<T> = Vec::new();
        let ghost lb = lump_bytes(self.archive_spec().contents(), self.info_spec());
        for i in 0..count
            invariant
                b@ == self.archive_spec().contents(),
                n == b@.len(),
                offset == self.info_spec().offset,
                size == self.info_spec().size,
                count == size / k,
                k as nat == T::size_spec(),
                k > 0,
                count * k == size,
                offset + size <= n,
                lb == lump_bytes(self.archive_spec().contents(), self.info_spec()),
                v@.len() == i,
                forall|j: int|
                    0 <= j < i ==> v@[j] == T::decode_spec(
                        #[trigger] lb.subrange(j * (k as int), (j + 1) * (k as int)),
                    ),
        {
            proof {
                assert((i + 1) * k <= count * k && i * k + k == (i + 1) * k && 0 <= i * k)
                    by (nonlinear_arith)
                    requires
                        0 <= i < count,
                        0 < k,
                ;
            }
            let rec: T = T::decode_at(b, offset + i * k);
            v.push(rec);
            proof {
                lemma_subrange_of_subrange(
                    b@,
                    offset as int,
                    size as int,
                    i * (k as int),
                    (i + 1) * (k as int),
                );
                assert(b@.subrange(offset as int, offset + size) == lb);
                assert(v@[i as int] == T::decode_spec(
                    lb.subrange(i * (k as int), (i + 1) * (k as int)),
                ));
            }
        }
        proof {
            assert(lb.len() == size);
            assert(lb.len() / T::size_spec() == count) by (nonlinear_arith)
                requires
                    lb.len() == size,
                    count == size / k,
                    k as nat == T::size_spec(),
                    0 < k,
            ;
            assert(v@ =~= records_of::<T>(lb));
        }
        Ok(v)
    }

    /// Decode the lump as exactly one fixed-size record. Succeeds exactly
    /// when the lump's size equals the record size and its range lies in
    /// the container.
    pub fn decode_one<T: Record>(&self) -> (r: Result<T, WadError>)
        requires
            self.wf(),
        ensures
            ({
                let info = self.info_spec();
                let b = self.archive_spec().contents();
                let k = T::size_spec() as int;
                match r {
                    Ok(t) => info.size as int == k && lump_in_bounds(b, info) && t
                        == T::decode_spec(lump_bytes(b, info)),
                    Err(WadError::SizeMismatch { total, element, quotient, remainder }) => info.size
                        as int != k && total == info.size as usize && element as int == k
                        && quotient as int == info.size as int / k && remainder as int == info.size
                        as int % k,
                    Err(WadError::Io { index }) => info.size as int == k && !lump_in_bounds(
                        b,
                        info,
                    ) && index == self.index_spec(),
                    Err(_) => false,
                }
            }),
    {
        let k: usize = T::size();
        let size: usize = self.info.size as usize;
        if size != k {
            return Err(
                WadError::SizeMismatch {
                    total: size,
                    element: k,
                    quotient: size / k,
                    remainder: size % k,
                },
            );
        }
        let b: &Vec<u8> = &self.archive.bytes;
        let n: usize = b.len();
        if (self.info.offset as u64) + (self.info.size as u64) > n as u64 {
            return Err(WadError::Io { index: self.index });
        }
        let offset: usize = self.info.offset as usize;
        let t: T = T::decode_at(b, offset);
        proof {
            assert(b@.subrange(offset as int, offset + T::size_spec()) == lump_bytes(
                self.archive_spec().contents(),
                self.info_spec(),
            ));
        }
        Ok(t)
    }

    /// Read the lump as a sequence of fixed-size opaque blobs of
    /// `blob_size` bytes each; the same size contract as [`Self::decode_vec`].
    pub fn read_blobs(&self, blob_size: usize) -> (r: Result<Vec<Vec<u8>>, WadError>)
        requires
            self.wf(),
            blob_size > 0,
        ensures
            ({
                let info = self.info_spec();
                let b = self.archive_spec().contents();
                let k = blob_size as int;
                match r {
                    Ok(v) => info.size > 0 && info.size as int % k == 0 && lump_in_bounds(b, info)
                        && v@.len() == info.size as int / k && (forall|j: int|
                        0 <= j < v@.len() ==> #[trigger] v@[j]@ == lump_bytes(b, info).subrange(
                            j * k,
                            (j + 1) * k,
                        )),
                    Err(WadError::SizeMismatch { total, element, quotient, remainder }) => (
                    info.size == 0 || info.size as int % k != 0) && total == info.size as usize
                        && element == blob_size && quotient as int == info.size as int / k
                        && remainder as int == info.size as int % k,
                    Err(WadError::Io { index }) => info.size > 0 && info.size as int % k == 0
                        && !lump_in_bounds(b, info) && index == self.index_spec(),
                    Err(_) => false,
                }
            }),
    {
        let k: usize = blob_size;
        let size: usize = self.info.size as usize;
        if size == 0 || size % k != 0 {
            return Err(
                WadError::SizeMismatch {
                    total: size,
                    element: k,
                    quotient: size / k,
                    remainder: size % k,
                },
            );
        }
        let b: &Vec<u8> = &self.archive.bytes;
        let n: usize = b.len();
        if (self.info.offset as u64) + (self.info.size as u64) > n as u64 {
            return Err(WadError::Io { index: self.index });
        }
        let offset: usize = self.info.offset as usize;
        let count: usize = size / k;
        proof {
            vstd::arithmetic::div_mod::lemma_fundamental_div_mod(size as int, k as int);
        }
        let ghost lb = lump_bytes(self.archive_spec().contents(), self.info_spec());
        let mut v: Vec<Vec<u8>> = Vec::new();
        for i in 0..count
            invariant
                b@ == self.archive_spec().contents(),
                n == b@.len(),
                offset == self.info_spec().offset,
                size == self.info_spec().size,
                count == size / k,
                k > 0,
                count * k == size,
                offset + size <= n,
                lb == lump_bytes(self.archive_spec().contents(), self.info_spec()),
                v@.len() == i,
                forall|j: int|
                    0 <= j < i ==> #[trigger] v@[j]@ == lb.subrange(
                        j * (k as int),
                        (j + 1) * (k as int),
                    ),
        {
            proof {
                assert((i + 1) * k <= count * k && i * k + k == (i + 1) * k && 0 <= i * k)
                    by (nonlinear_arith)
                    requires
                        0 <= i < count,
                        0 < k,
                ;
            }
            let start: usize = offset + i * k;
            let mut blob: Vec<u8> = Vec::new();
            for t in 0..k
                invariant
                    b@ == self.archive_spec().contents(),
                    n == b@.len(),
                    start == offset + i * k,
                    start + k <= offset + size,
                    offset + size <= n,
                    blob@.len() == t,
                    forall|u: int| 0 <= u < t ==> blob@[u] == b@[start + u],
            {
                blob.push(b[start + t]);
            }
            v.push(blob);
            proof {
                lemma_subrange_of_subrange(
                    b@,
                    offset as int,
                    size as int,
                    i * (k as int),
                    (i + 1) * (k as int),
                );
                assert(b@.subrange(offset as int, offset + size) == lb);
                assert(v@[i as int]@ =~= lb.subrange(i * (k as int), (i + 1) * (k as int)));
            }
        }
        Ok(v)
    }

    /// Append the lump's raw bytes to `out`; `Io` (leaving `out` as it
    /// was) exactly when the lump's range lies outside the container.
    pub fn read_bytes_into(&self, out: &mut Vec<u8>) -> (r: Result<(), WadError>)
        requires
            self.wf(),
        ensures
            ({
                let info = self.info_spec();
                let b = self.archive_spec().contents();
                if lump_in_bounds(b, info) {
                    r is Ok && final(out)@ == old(out)@ + lump_bytes(b, info)
                } else {
                    r == Err::<(), WadError>(WadError::Io { index: self.index_spec() })
                        && final(out)@ == old(out)@
                }
            }),
    {
        let b: &Vec<u8> = &self.archive.bytes;
        let n: usize = b.len();
        if (self.info.offset as u64) + (self.info.size as u64) > n as u64 {
            return Err(WadError::Io { index: self.index });
        }
        let offset: usize = self.info.offset as usize;
        let size: usize = self.info.size as usize;
        let mut buf: Vec<u8> = Vec::new();
        for t in 0..size
            invariant
                b@ == self.archive_spec().contents(),
                n == b@.len(),
                offset == self.info_spec().offset,
                size == self.info_spec().size,
                offset + size <= n,
                buf@.len() == t,
                forall|u: int| 0 <= u < t ==> buf@[u] == b@[offset + u],
        {
            let byte: u8 = b[offset + t];
            buf.push(byte);
        }
        proof {
            assert(buf@ =~= lump_bytes(self.archive_spec().contents(), self.info_spec()));
        }
        out.append(&mut buf);
        Ok(())
    }

    /// The lump's raw bytes; `Io` exactly when its range lies outside the
    /// container.
    pub fn read_bytes(&self) -> (r: Result<Vec<u8>, WadError>)
        requires
            self.wf(),
        ensures
            ({
                let info = self.info_spec();
                let b = self.archive_spec().contents();
                if lump_in_bounds(b, info) {
                    r matches Ok(v) && v@ == lump_bytes(b, info)
                } else {
                    r == Err::<Vec<u8>, WadError>(WadError::Io { index: self.index_spec() })
                }
            }),
    {
        let mut out: Vec<u8> = Vec::new();
        match self.read_bytes_into(&mut out) {
            Ok(()) => {
                proof {
                    assert(out@ =~= lump_bytes(self.archive_spec().contents(), self.info_spec()));
                }
                Ok(out)
            },
            Err(e) => Err(e),
        }
    }
}

} // verus!
