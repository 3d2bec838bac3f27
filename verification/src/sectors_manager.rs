//! Where the sectors manager keeps the timestamp and write rank of each sector.
//!
//! Sector data lives in one file per sector. The metadata of all sectors lives
//! in numbered metadata files of `METADATAS_PER_FILE` records each; a record
//! is the sector index, the timestamp (both big-endian) and the write rank.
//! A sector keeps the slot it got on its first write; new sectors take the
//! next slot after all the slots in use.
use vstd::prelude::*;

use crate::bytes::{append_bytes, push_u64_be, read_u64_be, u64_be, u64_from_be, lemma_u64_be_roundtrip};
use crate::domain::{zero_sector, SectorIdx, SectorVec, SECTOR_VEC_SIZE};
use std::collections::HashMap;

verus! {

/// Bytes of one metadata record.
pub const METADATA_SIZE: usize = 17;

/// Records in one metadata file.
pub const METADATAS_PER_FILE: usize = SECTOR_VEC_SIZE / METADATA_SIZE;

/// Bytes of a full metadata file.
pub const METADATAS_FILE_SIZE: usize = METADATAS_PER_FILE * METADATA_SIZE;

/// The record of a sector's metadata.
pub open spec fn spec_metadata_record(idx: SectorIdx, timestamp: u64, write_rank: u8) -> Seq<u8> {
    u64_be(idx) + u64_be(timestamp) + seq![write_rank]
}

/// The sector index, timestamp and write rank of the record at `offset` in `file`.
pub open spec fn spec_metadata_info(file: Seq<u8>, offset: int) -> (SectorIdx, u64, u8) {
    (
        u64_from_be(file.subrange(offset, offset + 8)),
        u64_from_be(file.subrange(offset + 8, offset + 16)),
        file[offset + 16],
    )
}

/// Reads the record at `offset` in `vec`.
pub fn get_metadata_info(vec: &[u8], offset: usize) -> (info: (SectorIdx, u64, u8))
    requires
        offset + METADATA_SIZE <= vec.len(),
    ensures
        info == spec_metadata_info(vec@, offset as int),
{
    let sector_idx = read_u64_be(vec, offset);
    let timestamp = read_u64_be(vec, offset + 8);
    let write_rank = vec[offset + METADATA_SIZE - 1];
    (sector_idx, timestamp, write_rank)
}

/// The record of a sector's metadata.
pub fn metadata_record(idx: SectorIdx, timestamp: u64, write_rank: u8) -> (rec: Vec<u8>)
    ensures
        rec@ == spec_metadata_record(idx, timestamp, write_rank),
{
    let mut rec: Vec<u8> = Vec::new();
    push_u64_be(&mut rec, idx);
    push_u64_be(&mut rec, timestamp);
    rec.push(write_rank);
    assert(rec@ =~= spec_metadata_record(idx, timestamp, write_rank));
    rec
}

/// `file` with `rec` appended when `offset` is its end, or put in place of
/// the record at `offset` otherwise.
pub open spec fn spec_updated_file(file: Seq<u8>, offset: int, rec: Seq<u8>) -> Seq<u8> {
    if offset == file.len() {
        file + rec
    } else {
        file.subrange(0, offset) + rec + file.subrange(offset + METADATA_SIZE, file.len() as int)
    }
}

/// Writes `rec` into the metadata file content `val` at `offset`.
pub fn update_metadata_file(val: Vec<u8>, offset: usize, rec: &[u8]) -> (out: Vec<u8>)
    requires
        rec@.len() == METADATA_SIZE,
        offset == val@.len() || offset + METADATA_SIZE <= val@.len(),
    ensures
        out@ == spec_updated_file(val@, offset as int, rec@),
{
    let mut val = val;
    if offset == val.len() {
        append_bytes(&mut val, rec);
    } else {
        let ghost old_val = val@;
        let end = offset + METADATA_SIZE;
        let mut i: usize = offset;
        while i < end
            invariant
                end == offset + METADATA_SIZE,
                offset <= i <= offset + METADATA_SIZE,
                offset + METADATA_SIZE <= old_val.len(),
                rec@.len() == METADATA_SIZE,
                val@.len() == old_val.len(),
                forall|k: int| 0 <= k < offset ==> val@[k] == old_val[k],
                forall|k: int| offset <= k < i ==> val@[k] == rec@[k - offset],
                forall|k: int| i <= k < old_val.len() ==> val@[k] == old_val[k],
            decreases offset + METADATA_SIZE - i,
        {
            val.set(i, rec[i - offset]);
            i = i + 1;
        }
        assert(val@ =~= spec_updated_file(old_val, offset as int, rec@));
    }
    val
}

/// The content of a sector as read from storage: the stored bytes when the
/// sector has metadata and its file could be read, zeros otherwise (a write
/// that did not reach its metadata did not happen).
pub fn sector_from_storage(has_metadata: bool, stored: Option<Vec<u8>>) -> (s: SectorVec)
    ensures
        s@ == if has_metadata && stored is Some {
            stored.unwrap()@
        } else {
            zero_sector()
        },
{
    if has_metadata {
        match stored {
            Some(v) => SectorVec(v),
            None => SectorVec::new(),
        }
    } else {
        SectorVec::new()
    }
}

/// Timestamp and write rank as read from storage: those of the record at
/// `offset` when the sector has a slot and its metadata file could be read,
/// (0, 0) otherwise.
pub fn metadata_from_storage(offset: Option<usize>, file: Option<&[u8]>) -> (meta: (u64, u8))
    requires
        offset is Some && file is Some ==> offset.unwrap() + METADATA_SIZE <= file.unwrap().len(),
    ensures
        meta == match (offset, file) {
            (Some(o), Some(f)) => (spec_metadata_info(f@, o as int).1, spec_metadata_info(f@, o as int).2),
            _ => (0u64, 0u8),
        },
{
    match (offset, file) {
        (Some(o), Some(f)) => {
            let (_, timestamp, write_rank) = get_metadata_info(f, o);
            (timestamp, write_rank)
        },
        _ => (0, 0),
    }
}

// ---------------------------------------------------------------------------
// The index of metadata slots
// ---------------------------------------------------------------------------

/// The index after the first `n` records of metadata file `k` were read into `m`;
/// a later record of a sector replaces an earlier one.
pub open spec fn index_file(m: Map<SectorIdx, (usize, usize)>, file: Seq<u8>, k: usize, n: nat) -> Map<
    SectorIdx,
    (usize, usize),
>
    decreases n,
{
    if n == 0 {
        m
    } else {
        let offset = (n - 1) * METADATA_SIZE;
        index_file(m, file, k, (n - 1) as nat).insert(spec_metadata_info(file, offset).0, (k, offset as usize))
    }
}

/// The index after reading the first `count` metadata files.
pub open spec fn index_files(files: Seq<Seq<u8>>, count: nat) -> Map<SectorIdx, (usize, usize)>
    decreases count,
{
    if count == 0 {
        Map::empty()
    } else {
        let k = (count - 1) as nat;
        index_file(index_files(files, k), files[k as int], k as usize, files[k as int].len() / (METADATA_SIZE as nat))
    }
}

/// Total bytes of the first `count` metadata files.
pub open spec fn total_len(files: Seq<Seq<u8>>, count: nat) -> nat
    decreases count,
{
    if count == 0 {
        0
    } else {
        total_len(files, (count - 1) as nat) + files[count - 1].len()
    }
}

proof fn lemma_total_len_monotone(files: Seq<Seq<u8>>, a: nat, b: nat)
    requires
        a <= b,
    ensures
        total_len(files, a) <= total_len(files, b),
    decreases b,
{
    if a < b {
        lemma_total_len_monotone(files, a, (b - 1) as nat);
    }
}

pub open spec fn files_view(files: Seq<Vec<u8>>) -> Seq<Seq<u8>> {
    files.map_values(|f: Vec<u8>| f@)
}

/// For each sector with metadata, the metadata file and offset of its record,
/// and the number of bytes of metadata in use.
pub struct MetadataIndex {
    locations: HashMap<SectorIdx, (usize, usize)>,
    total_size: usize,
}

/// Model of `MetadataIndex`.
pub struct MetadataIndexModel {
    pub locations: Map<SectorIdx, (usize, usize)>,
    pub total_size: usize,
}

impl View for MetadataIndex {
    type V = MetadataIndexModel;

    closed spec fn view(&self) -> MetadataIndexModel {
        MetadataIndexModel { locations: self.locations@, total_size: self.total_size }
    }
}

impl MetadataIndexModel {
    /// Where the record of `idx` goes: its slot when it has one, the next free
    /// slot otherwise.
    pub open spec fn location_for(self, idx: SectorIdx) -> (usize, usize) {
        if self.locations.contains_key(idx) {
            self.locations[idx]
        } else {
            (
                (self.total_size / METADATAS_FILE_SIZE) as usize,
                (self.total_size % METADATAS_FILE_SIZE) as usize,
            )
        }
    }

    /// The index after the record of `idx` was written at `location`.
    pub open spec fn after_record(self, idx: SectorIdx, location: (usize, usize)) -> MetadataIndexModel {
        if self.locations.contains_key(idx) {
            self
        } else {
            MetadataIndexModel {
                locations: self.locations.insert(idx, location),
                total_size: (self.total_size + METADATA_SIZE) as usize,
            }
        }
    }
}

impl MetadataIndex {
    /// The index of the metadata files `files`, numbered from 0, as found on
    /// disk; each holds whole records.
    pub fn from_files(files: &Vec<Vec<u8>>) -> (index: Self)
        requires
            forall|i: int| 0 <= i < files@.len() ==> #[trigger] files@[i]@.len() % (METADATA_SIZE as nat) == 0,
            total_len(files_view(files@), files@.len() as nat) <= usize::MAX,
        ensures
            index@.locations == index_files(files_view(files@), files@.len() as nat),
            index@.total_size == total_len(files_view(files@), files@.len() as nat),
    {
        let ghost fv = files_view(files@);
        let mut locations: HashMap<SectorIdx, (usize, usize)> = HashMap::new();
        let mut total: usize = 0;
        let mut k: usize = 0;
        while k < files.len()
            invariant
                k <= files@.len(),
                fv == files_view(files@),
                fv.len() == files@.len(),
                forall|i: int| 0 <= i < files@.len() ==> #[trigger] files@[i]@.len() % (METADATA_SIZE as nat) == 0,
                total_len(fv, files@.len() as nat) <= usize::MAX,
                locations@ == index_files(fv, k as nat),
                total == total_len(fv, k as nat),
            decreases files@.len() - k,
        {
            let file = &files[k];
            assert(fv[k as int] == file@);
            proof {
                lemma_total_len_monotone(fv, (k + 1) as nat, files@.len() as nat);
            }
            total = total + file.len();
            let ghost base = index_files(fv, k as nat);
            let mut offset: usize = 0;
            assert(file@.len() % (METADATA_SIZE as nat) == 0);
            while offset < file.len()
                invariant
                    offset <= file@.len(),
                    offset % METADATA_SIZE == 0,
                    file@.len() % (METADATA_SIZE as nat) == 0,
                    locations@ == index_file(base, file@, k, (offset / METADATA_SIZE) as nat),
                decreases file@.len() - offset,
            {
                let (sector_idx, _, _) = get_metadata_info(file.as_slice(), offset);
                locations.insert(sector_idx, (k, offset));
                offset = offset + METADATA_SIZE;
            }
            k = k + 1;
        }
        MetadataIndex { locations, total_size: total }
    }

    /// The metadata slot of `idx`, when it has one.
    pub fn lookup(&self, idx: SectorIdx) -> (loc: Option<(usize, usize)>)
        ensures
            loc == if self@.locations.contains_key(idx) {
                Some(self@.locations[idx])
            } else {
                None
            },
    {
        match self.locations.get(&idx) {
            Some(loc) => Some(*loc),
            None => None,
        }
    }

    /// Where the record of `idx` goes.
    pub fn location_for(&self, idx: SectorIdx) -> (loc: (usize, usize))
        ensures
            loc == self@.location_for(idx),
    {
        match self.locations.get(&idx) {
            Some(loc) => *loc,
            None => (self.total_size / METADATAS_FILE_SIZE, self.total_size % METADATAS_FILE_SIZE),
        }
    }

    /// Whether the metadata in use can grow by one more record without
    /// overflowing its byte count.
    pub fn has_room(&self) -> (b: bool)
        ensures
            b == (self@.total_size + METADATA_SIZE <= usize::MAX),
    {
        self.total_size <= usize::MAX - METADATA_SIZE
    }

    /// Notes that the record of `idx` was written at `location`; a sector that
    /// had no slot gets this one.
    pub fn record_written(&mut self, idx: SectorIdx, location: (usize, usize))
        requires
            old(self)@.total_size + METADATA_SIZE <= usize::MAX,
        ensures
            final(self)@ == old(self)@.after_record(idx, location),
    {
        if !self.locations.contains_key(&idx) {
            self.locations.insert(idx, location);
            self.total_size = self.total_size + METADATA_SIZE;
        }
    }
}

// ---------------------------------------------------------------------------
// Laws
// ---------------------------------------------------------------------------

/// After the metadata of a sector is written where `location_for` says and
/// the index is told, the sector's slot is that location and its record
/// there reads back as the sector index, timestamp and write rank written.
pub proof fn lemma_metadata_read_after_write(
    index: MetadataIndexModel,
    idx: SectorIdx,
    timestamp: u64,
    write_rank: u8,
    file: Seq<u8>,
)
    requires
        index.total_size + METADATA_SIZE <= usize::MAX,
        index.location_for(idx).1 == file.len() || index.location_for(idx).1 + METADATA_SIZE
            <= file.len(),
    ensures
        ({
            let loc = index.location_for(idx);
            let new_file = spec_updated_file(file, loc.1 as int, spec_metadata_record(idx, timestamp, write_rank));
            let new_index = index.after_record(idx, loc);
            &&& new_index.locations.contains_key(idx)
            &&& new_index.locations[idx] == loc
            &&& loc.1 + METADATA_SIZE <= new_file.len()
            &&& spec_metadata_info(new_file, loc.1 as int) == (idx, timestamp, write_rank)
        }),
{
    let loc = index.location_for(idx);
    let off = loc.1 as int;
    let rec = spec_metadata_record(idx, timestamp, write_rank);
    let new_file = spec_updated_file(file, off, rec);
    lemma_u64_be_roundtrip(idx);
    lemma_u64_be_roundtrip(timestamp);
    assert(new_file.subrange(off, off + 8) =~= u64_be(idx));
    assert(new_file.subrange(off + 8, off + 16) =~= u64_be(timestamp));
    assert(new_file[off + 16] == write_rank);
}

/// Writing a record touches no other record of the same file: a record at
/// another slot reads back as before.
pub proof fn lemma_metadata_write_is_local(file: Seq<u8>, offset: int, rec: Seq<u8>, other: int)
    requires
        rec.len() == METADATA_SIZE,
        0 <= offset,
        offset == file.len() || offset + METADATA_SIZE <= file.len(),
        offset % (METADATA_SIZE as int) == 0,
        other % (METADATA_SIZE as int) == 0,
        0 <= other,
        other != offset,
        other + METADATA_SIZE <= file.len(),
    ensures
        spec_metadata_info(spec_updated_file(file, offset, rec), other) == spec_metadata_info(file, other),
{
    let new_file = spec_updated_file(file, offset, rec);
    assert(other + METADATA_SIZE <= offset || offset + METADATA_SIZE <= other);
    if offset == file.len() {
        assert(new_file == file + rec);
    } else {
        let a = file.subrange(0, offset);
        let b = file.subrange(offset + METADATA_SIZE, file.len() as int);
        assert(new_file == a + rec + b);
        assert(new_file.len() == file.len());
        assert forall|i: int| other <= i < other + METADATA_SIZE implies new_file[i] == file[i] by {
            if i < offset {
                assert(new_file[i] == a[i]);
            } else {
                assert(new_file[i] == b[i - offset - METADATA_SIZE]);
            }
        }
    }
    assert(new_file.subrange(other, other + 8) =~= file.subrange(other, other + 8));
    assert(new_file.subrange(other + 8, other + 16) =~= file.subrange(other + 8, other + 16));
}


// ---------------------------------------------------------------------------
// Writing a sector
// ---------------------------------------------------------------------------

/// The steps of writing a sector, in order.
#[derive(Debug, Clone, Copy, PartialEq, Eq)]
pub enum SectorWriteStep {
    /// Write the sector's data file.
    WriteData,
    /// Write the metadata file that holds the sector's record.
    WriteMetadata,
    /// Tell the index where the record is.
    Record,
    /// Nothing more to do.
    Done,
}

pub open spec fn spec_next_write_step(step: SectorWriteStep, ok: bool) -> SectorWriteStep {
    match step {
        SectorWriteStep::WriteData => if ok {
            SectorWriteStep::WriteMetadata
        } else {
            SectorWriteStep::Done
        },
        SectorWriteStep::WriteMetadata => if ok {
            SectorWriteStep::Record
        } else {
            SectorWriteStep::Done
        },
        _ => SectorWriteStep::Done,
    }
}

/// The step after `step`, which succeeded when `ok`: a failed file write ends
/// the write, so the metadata is written only after the data, and the index
/// learns of the record only after the metadata file was written.
pub fn next_write_step(step: SectorWriteStep, ok: bool) -> (next: SectorWriteStep)
    ensures
        next == spec_next_write_step(step, ok),
{
    match step {
        SectorWriteStep::WriteData => if ok {
            SectorWriteStep::WriteMetadata
        } else {
            SectorWriteStep::Done
        },
        SectorWriteStep::WriteMetadata => if ok {
            SectorWriteStep::Record
        } else {
            SectorWriteStep::Done
        },
        _ => SectorWriteStep::Done,
    }
}

/// The index is told of a sector's record exactly when both its data file
/// and its metadata file were written.
pub proof fn lemma_record_only_after_both_writes(data_ok: bool, metadata_ok: bool)
    ensures
        spec_next_write_step(spec_next_write_step(SectorWriteStep::WriteData, data_ok), metadata_ok)
            == SectorWriteStep::Record <==> data_ok && metadata_ok,
        !data_ok ==> spec_next_write_step(SectorWriteStep::WriteData, data_ok) == SectorWriteStep::Done,
{
}


/// A metadata record is 17 bytes: the sector index and the timestamp
/// big-endian, then the write rank; and a record read at an offset gives
/// back the index, timestamp and rank that were written there.
pub proof fn lemma_metadata_record_layout(idx: SectorIdx, timestamp: u64, write_rank: u8, file: Seq<u8>, offset: int)
    requires
        0 <= offset,
        offset + METADATA_SIZE <= file.len(),
        file.subrange(offset, offset + METADATA_SIZE) == spec_metadata_record(idx, timestamp, write_rank),
    ensures
        spec_metadata_record(idx, timestamp, write_rank).len() == 17,
        u64_from_be(spec_metadata_record(idx, timestamp, write_rank).subrange(0, 8)) == idx,
        u64_from_be(spec_metadata_record(idx, timestamp, write_rank).subrange(8, 16)) == timestamp,
        spec_metadata_record(idx, timestamp, write_rank)[16] == write_rank,
        spec_metadata_info(file, offset) == (idx, timestamp, write_rank),
{
    let rec = spec_metadata_record(idx, timestamp, write_rank);
    lemma_u64_be_roundtrip(idx);
    lemma_u64_be_roundtrip(timestamp);
    assert(rec.subrange(0, 8) =~= u64_be(idx));
    assert(rec.subrange(8, 16) =~= u64_be(timestamp));
    assert(file.subrange(offset, offset + 8) =~= rec.subrange(0, 8));
    assert(file.subrange(offset + 8, offset + 16) =~= rec.subrange(8, 16));
    assert(file[offset + 16] == rec[16]);
}

} // verus!
