//! The index of metadata slots agrees with the metadata files it describes,
//! across writes: rebuilding it from the files after a restart gives the index
//! the process had, so a restarted process reads back what was written.
use vstd::prelude::*;

use crate::bytes::{lemma_u64_be_roundtrip, u64_be};
use crate::domain::{zero_sector, SectorIdx};
use crate::sectors_manager::{
    index_file, index_files, lemma_metadata_read_after_write, lemma_metadata_write_is_local,
    spec_metadata_info, spec_metadata_record, spec_updated_file, total_len, MetadataIndexModel,
    METADATAS_FILE_SIZE, METADATA_SIZE,
};
use vstd::arithmetic::div_mod::lemma_fundamental_div_mod_converse;

verus! {

/// The sector index of the record in slot `j` of `f`.
pub open spec fn slot_sector(f: Seq<u8>, j: int) -> SectorIdx {
    spec_metadata_info(f, j * METADATA_SIZE).0
}

/// Number of whole records in `f`.
pub open spec fn records(f: Seq<u8>) -> nat {
    f.len() / (METADATA_SIZE as nat)
}

/// The metadata files as the sectors manager lays them out: whole records,
/// every file full but the last.
pub open spec fn compact(files: Seq<Seq<u8>>) -> bool {
    &&& forall|k: int| 0 <= k < files.len() ==> #[trigger] files[k].len() % (METADATA_SIZE as nat) == 0
    &&& forall|k: int| 0 <= k < files.len() - 1 ==> #[trigger] files[k].len() == METADATAS_FILE_SIZE
    &&& files.len() > 0 ==> files.last().len() <= METADATAS_FILE_SIZE
}

/// `index` is the index of `files`, as rebuilt from them.
pub open spec fn consistent(index: MetadataIndexModel, files: Seq<Seq<u8>>) -> bool {
    &&& compact(files)
    &&& index.locations == index_files(files, files.len())
    &&& index.total_size == total_len(files, files.len())
}

/// The metadata files after `rec` was written at `loc`: into file `loc.0`
/// when it exists, or as a new file after the last one.
pub open spec fn files_after_write(files: Seq<Seq<u8>>, loc: (usize, usize), rec: Seq<u8>) -> Seq<Seq<u8>> {
    if loc.0 < files.len() {
        files.update(loc.0 as int, spec_updated_file(files[loc.0 as int], loc.1 as int, rec))
    } else {
        files.push(spec_updated_file(Seq::empty(), loc.1 as int, rec))
    }
}

proof fn lemma_index_file_congruent(
    m: Map<SectorIdx, (usize, usize)>,
    f1: Seq<u8>,
    f2: Seq<u8>,
    k: usize,
    n: nat,
)
    requires
        forall|j: int| 0 <= j < n ==> #[trigger] slot_sector(f1, j) == slot_sector(f2, j),
    ensures
        index_file(m, f1, k, n) == index_file(m, f2, k, n),
    decreases n,
{
    if n > 0 {
        lemma_index_file_congruent(m, f1, f2, k, (n - 1) as nat);
        assert(slot_sector(f1, n - 1) == slot_sector(f2, n - 1));
    }
}

proof fn lemma_index_files_congruent(files1: Seq<Seq<u8>>, files2: Seq<Seq<u8>>, c: nat)
    requires
        c <= files1.len(),
        c <= files2.len(),
        forall|k: int| 0 <= k < c ==> #[trigger] records(files1[k]) == records(files2[k]),
        forall|k: int, j: int|
            0 <= k < c && 0 <= j < records(files1[k]) ==> #[trigger] slot_sector(files1[k], j) == slot_sector(
                files2[k],
                j,
            ),
    ensures
        index_files(files1, c) == index_files(files2, c),
    decreases c,
{
    if c > 0 {
        let k = (c - 1) as int;
        lemma_index_files_congruent(files1, files2, (c - 1) as nat);
        assert(records(files1[k]) == records(files2[k]));
        assert forall|j: int| 0 <= j < records(files1[k]) implies #[trigger] slot_sector(files1[k], j)
            == slot_sector(files2[k], j) by {}
        lemma_index_file_congruent(index_files(files1, (c - 1) as nat), files1[k], files2[k], k as usize, records(files1[k]));
    }
}

/// Every slot in the index holds a record of its sector.
pub open spec fn locations_valid(locations: Map<SectorIdx, (usize, usize)>, files: Seq<Seq<u8>>) -> bool {
    forall|idx: SectorIdx| #[trigger]
        locations.contains_key(idx) ==> {
            let (k, off) = locations[idx];
            &&& k < files.len()
            &&& off % METADATA_SIZE == 0
            &&& off + METADATA_SIZE <= files[k as int].len()
            &&& spec_metadata_info(files[k as int], off as int).0 == idx
        }
}

proof fn lemma_index_file_valid(m: Map<SectorIdx, (usize, usize)>, files: Seq<Seq<u8>>, k: usize, n: nat)
    requires
        locations_valid(m, files),
        k < files.len(),
        n * METADATA_SIZE <= files[k as int].len(),
        n * METADATA_SIZE <= usize::MAX,
    ensures
        locations_valid(index_file(m, files[k as int], k, n), files),
    decreases n,
{
    if n > 0 {
        lemma_index_file_valid(m, files, k, (n - 1) as nat);
    }
}

proof fn lemma_index_files_valid(files: Seq<Seq<u8>>, c: nat)
    requires
        c <= files.len(),
        files.len() <= usize::MAX,
        forall|k: int| 0 <= k < files.len() ==> #[trigger] files[k].len() <= usize::MAX,
    ensures
        locations_valid(index_files(files, c), files),
    decreases c,
{
    if c > 0 {
        let k = (c - 1) as int;
        lemma_index_files_valid(files, (c - 1) as nat);
        let l = files[k].len();
        assert(l <= usize::MAX);
        assert((l / 17) * 17 <= l) by (nonlinear_arith);
        assert(records(files[k]) * METADATA_SIZE <= files[k].len());
        lemma_index_file_valid(index_files(files, (c - 1) as nat), files, k as usize, records(files[k]));
    }
}

proof fn lemma_total_len_compact(files: Seq<Seq<u8>>, c: nat)
    requires
        c <= files.len(),
        forall|k: int| 0 <= k < c - 1 ==> #[trigger] files[k].len() == METADATAS_FILE_SIZE,
    ensures
        c > 0 ==> total_len(files, c) == (c - 1) * METADATAS_FILE_SIZE + files[c - 1].len(),
        c == 0 ==> total_len(files, c) == 0,
    decreases c,
{
    assert(METADATAS_FILE_SIZE == 4080);
    if c > 1 {
        lemma_total_len_compact(files, (c - 1) as nat);
        assert(files[c - 2].len() == METADATAS_FILE_SIZE);
        let t = total_len(files, (c - 1) as nat);
        assert(total_len(files, c) == t + files[c - 1].len());
        assert(t == (c - 2) * 4080 + 4080);
        assert((c - 2) * 4080 + 4080 == (c - 1) * 4080);
    } else if c == 1 {
        assert(total_len(files, 0) == 0);
        assert(total_len(files, 1) == files[0].len());
    }
}

proof fn lemma_total_len_prefix(files1: Seq<Seq<u8>>, files2: Seq<Seq<u8>>, c: nat)
    requires
        c <= files1.len(),
        c <= files2.len(),
        forall|k: int| 0 <= k < c ==> #[trigger] files1[k].len() == files2[k].len(),
    ensures
        total_len(files1, c) == total_len(files2, c),
    decreases c,
{
    if c > 0 {
        lemma_total_len_prefix(files1, files2, (c - 1) as nat);
    }
}

proof fn lemma_new_slot(files: Seq<Seq<u8>>, total: usize)
    requires
        compact(files),
        total == total_len(files, files.len()),
    ensures
        ({
            let file = total / METADATAS_FILE_SIZE;
            let off = total % METADATAS_FILE_SIZE;
            &&& file <= files.len()
            &&& file < files.len() ==> (file == files.len() - 1 && off == files[file as int].len()
                && files[file as int].len() < METADATAS_FILE_SIZE)
            &&& file == files.len() ==> (off == 0 && (files.len() == 0 || files.last().len()
                == METADATAS_FILE_SIZE))
        }),
{
    let n = files.len();
    lemma_total_len_compact(files, n);
    if n == 0 {
        lemma_fundamental_div_mod_converse(total as int, METADATAS_FILE_SIZE as int, 0, 0);
    } else {
        let l = files[n - 1].len();
        if l < METADATAS_FILE_SIZE {
            lemma_fundamental_div_mod_converse(total as int, METADATAS_FILE_SIZE as int, n - 1, l as int);
        } else {
            assert(total == n * METADATAS_FILE_SIZE) by (nonlinear_arith)
                requires
                    total == (n - 1) * METADATAS_FILE_SIZE + l,
                    l == METADATAS_FILE_SIZE,
            ;
            lemma_fundamental_div_mod_converse(total as int, METADATAS_FILE_SIZE as int, n as int, 0);
        }
    }
}

/// Appending a record to a file indexes its sector at the new slot.
proof fn lemma_index_file_append(m: Map<SectorIdx, (usize, usize)>, f: Seq<u8>, rec: Seq<u8>, k: usize, idx: SectorIdx)
    requires
        f.len() % (METADATA_SIZE as nat) == 0,
        rec.len() == METADATA_SIZE,
        spec_metadata_info(rec, 0).0 == idx,
        f.len() + METADATA_SIZE <= usize::MAX,
    ensures
        index_file(m, f + rec, k, records(f + rec)) == index_file(m, f, k, records(f)).insert(idx, (k, f.len() as usize)),
{
    let g = f + rec;
    let n = records(f);
    assert(records(g) == n + 1);
    assert forall|j: int| 0 <= j < n implies #[trigger] slot_sector(g, j) == slot_sector(f, j) by {
        assert(g.subrange(j * METADATA_SIZE, j * METADATA_SIZE + 8) =~= f.subrange(j * METADATA_SIZE, j * METADATA_SIZE + 8));
    }
    lemma_index_file_congruent(m, g, f, k, n);
    assert(g.subrange(f.len() as int, f.len() as int + 8) =~= rec.subrange(0, 8));
    assert(n * METADATA_SIZE == f.len());
}

proof fn lemma_files_fit(files: Seq<Seq<u8>>)
    requires
        compact(files),
    ensures
        forall|k: int| 0 <= k < files.len() ==> #[trigger] files[k].len() <= usize::MAX,
{
    assert forall|k: int| 0 <= k < files.len() implies #[trigger] files[k].len() <= usize::MAX by {
        if k < files.len() - 1 {
            assert(files[k].len() == METADATAS_FILE_SIZE);
        } else {
            assert(files.last().len() <= METADATAS_FILE_SIZE);
        }
    }
}

/// A sector that has a slot: its record is replaced, the files keep their
/// sectors per slot, so the rebuilt index does not change.
#[verifier::spinoff_prover]
#[verifier::rlimit(50)]
proof fn lemma_overwrite_consistent(
    index: MetadataIndexModel,
    files: Seq<Seq<u8>>,
    idx: SectorIdx,
    timestamp: u64,
    write_rank: u8,
)
    requires
        consistent(index, files),
        files.len() <= usize::MAX,
        index.locations.contains_key(idx),
        index.total_size + METADATA_SIZE <= usize::MAX,
    ensures
        ({
            let loc = index.location_for(idx);
            let rec = spec_metadata_record(idx, timestamp, write_rank);
            &&& loc.0 < files.len()
            &&& loc.1 + METADATA_SIZE <= files[loc.0 as int].len()
            &&& consistent(index.after_record(idx, loc), files_after_write(files, loc, rec))
        }),
{
    let loc = index.location_for(idx);
    let rec = spec_metadata_record(idx, timestamp, write_rank);
    let n = files.len();
    let new_files = files_after_write(files, loc, rec);
    lemma_files_fit(files);
    lemma_index_files_valid(files, n);
    let (k, off) = loc;
    let f = files[k as int];
    let g = spec_updated_file(f, off as int, rec);
    assert(g.len() == f.len());
    assert forall|j: int| 0 <= j < records(f) implies #[trigger] slot_sector(g, j) == slot_sector(f, j) by {
        if j * METADATA_SIZE == off {
            lemma_metadata_read_after_write(index, idx, timestamp, write_rank, f);
        } else {
            assert((j * 17) % 17 == 0) by (nonlinear_arith);
            assert(j * 17 + 17 <= f.len()) by (nonlinear_arith)
                requires
                    0 <= j < f.len() / 17,
            ;
            lemma_metadata_write_is_local(f, off as int, rec, j * METADATA_SIZE);
        }
    }
    assert forall|i: int| 0 <= i < n implies #[trigger] records(files[i]) == records(new_files[i]) by {}
    assert forall|i: int, j: int| 0 <= i < n && 0 <= j < records(files[i]) implies #[trigger] slot_sector(
        files[i],
        j,
    ) == slot_sector(new_files[i], j) by {
        if i == k {
            assert(slot_sector(g, j) == slot_sector(f, j));
        }
    }
    lemma_index_files_congruent(files, new_files, n);
    lemma_total_len_prefix(files, new_files, n);
    assert(forall|i: int| 0 <= i < n ==> #[trigger] new_files[i].len() == files[i].len());
}

/// A new sector whose slot is at the end of the last file.
#[verifier::spinoff_prover]
#[verifier::rlimit(50)]
proof fn lemma_append_consistent(
    index: MetadataIndexModel,
    files: Seq<Seq<u8>>,
    idx: SectorIdx,
    timestamp: u64,
    write_rank: u8,
)
    requires
        consistent(index, files),
        files.len() <= usize::MAX,
        !index.locations.contains_key(idx),
        index.location_for(idx).0 < files.len(),
        index.location_for(idx).0 == files.len() - 1,
        index.location_for(idx).1 == files[files.len() - 1].len(),
        files[files.len() - 1].len() < METADATAS_FILE_SIZE,
        index.total_size + METADATA_SIZE <= usize::MAX,
    ensures
        ({
            let loc = index.location_for(idx);
            let rec = spec_metadata_record(idx, timestamp, write_rank);
            consistent(index.after_record(idx, loc), files_after_write(files, loc, rec))
        }),
{
    let loc = index.location_for(idx);
    let rec = spec_metadata_record(idx, timestamp, write_rank);
    let n = files.len();
    let new_files = files_after_write(files, loc, rec);
    let k = loc.0;
    let f = files[k as int];
    let g = f + rec;
    lemma_u64_be_roundtrip(idx);
    assert(rec.subrange(0, 8) =~= u64_be(idx));
    assert(spec_updated_file(f, loc.1 as int, rec) == g);
    assert(new_files[k as int] == g);
    assert forall|i: int| 0 <= i < n - 1 implies #[trigger] records(files[i]) == records(new_files[i]) by {}
    assert forall|i: int, j: int| 0 <= i < n - 1 && 0 <= j < records(files[i]) implies #[trigger] slot_sector(
        files[i],
        j,
    ) == slot_sector(new_files[i], j) by {}
    lemma_index_files_congruent(files, new_files, (n - 1) as nat);
    lemma_index_file_append(index_files(files, (n - 1) as nat), f, rec, k, idx);
    lemma_total_len_prefix(files, new_files, (n - 1) as nat);
    assert(index_files(new_files, n) == index_files(files, n).insert(idx, loc));
    assert(f.len() % 17 == 0);
    assert(g.len() % 17 == 0);
    assert forall|i: int| 0 <= i < new_files.len() - 1 implies #[trigger] new_files[i].len() == METADATAS_FILE_SIZE by {
        assert(new_files[i] == files[i]);
    }
}

/// A new sector whose slot opens a new file.
#[verifier::spinoff_prover]
#[verifier::rlimit(50)]
proof fn lemma_new_file_consistent(
    index: MetadataIndexModel,
    files: Seq<Seq<u8>>,
    idx: SectorIdx,
    timestamp: u64,
    write_rank: u8,
)
    requires
        consistent(index, files),
        files.len() < usize::MAX,
        !index.locations.contains_key(idx),
        index.location_for(idx).0 == files.len(),
        index.location_for(idx).1 == 0,
        files.len() == 0 || files.last().len() == METADATAS_FILE_SIZE,
        index.total_size + METADATA_SIZE <= usize::MAX,
    ensures
        ({
            let loc = index.location_for(idx);
            let rec = spec_metadata_record(idx, timestamp, write_rank);
            consistent(index.after_record(idx, loc), files_after_write(files, loc, rec))
        }),
{
    let loc = index.location_for(idx);
    let rec = spec_metadata_record(idx, timestamp, write_rank);
    let n = files.len();
    let new_files = files_after_write(files, loc, rec);
    lemma_u64_be_roundtrip(idx);
    assert(rec.subrange(0, 8) =~= u64_be(idx));
    assert(spec_updated_file(Seq::<u8>::empty(), 0, rec) =~= Seq::<u8>::empty() + rec);
    assert(new_files[n as int] == Seq::<u8>::empty() + rec);
    assert forall|i: int| 0 <= i < n implies #[trigger] records(files[i]) == records(new_files[i]) by {}
    assert forall|i: int, j: int| 0 <= i < n && 0 <= j < records(files[i]) implies #[trigger] slot_sector(
        files[i],
        j,
    ) == slot_sector(new_files[i], j) by {}
    lemma_index_files_congruent(files, new_files, n);
    lemma_index_file_append(index_files(files, n), Seq::<u8>::empty(), rec, n as usize, idx);
    assert(index_file(index_files(files, n), Seq::<u8>::empty(), n as usize, 0) == index_files(files, n));
    lemma_total_len_prefix(files, new_files, n);
    assert(index_files(new_files, n + 1) == index_files(files, n).insert(idx, loc));
    assert forall|i: int| 0 <= i < new_files.len() - 1 implies #[trigger] new_files[i].len() == METADATAS_FILE_SIZE by {
        assert(new_files[i] == files[i]);
        if i < n - 1 {
        } else {
            assert(files.last() == files[i]);
        }
    }
}

/// Writing the metadata of a sector where the index says keeps the index
/// equal to the index rebuilt from the files, and the files laid out as
/// they were.
pub proof fn lemma_write_keeps_index_consistent(
    index: MetadataIndexModel,
    files: Seq<Seq<u8>>,
    idx: SectorIdx,
    timestamp: u64,
    write_rank: u8,
)
    requires
        consistent(index, files),
        files.len() < usize::MAX,
        index.total_size + METADATA_SIZE <= usize::MAX,
    ensures
        ({
            let loc = index.location_for(idx);
            let rec = spec_metadata_record(idx, timestamp, write_rank);
            let file = if loc.0 < files.len() {
                files[loc.0 as int]
            } else {
                Seq::<u8>::empty()
            };
            &&& loc.0 <= files.len()
            &&& loc.1 == file.len() || loc.1 + METADATA_SIZE <= file.len()
            &&& consistent(index.after_record(idx, loc), files_after_write(files, loc, rec))
        }),
{
    if index.locations.contains_key(idx) {
        lemma_overwrite_consistent(index, files, idx, timestamp, write_rank);
    } else {
        lemma_new_slot(files, index.total_size);
        if index.location_for(idx).0 < files.len() {
            lemma_append_consistent(index, files, idx, timestamp, write_rank);
        } else {
            lemma_new_file_consistent(index, files, idx, timestamp, write_rank);
        }
    }
}

/// After a restart, the index rebuilt from the metadata files finds every
/// sector's record where the files hold it: a sector reads back the
/// timestamp and write rank of its last write.
pub proof fn lemma_restart_reads_last_write(
    index: MetadataIndexModel,
    files: Seq<Seq<u8>>,
    idx: SectorIdx,
    timestamp: u64,
    write_rank: u8,
)
    requires
        consistent(index, files),
        files.len() < usize::MAX,
        index.total_size + METADATA_SIZE <= usize::MAX,
    ensures
        ({
            let loc = index.location_for(idx);
            let new_files = files_after_write(files, loc, spec_metadata_record(idx, timestamp, write_rank));
            let rebuilt = index_files(new_files, new_files.len());
            &&& rebuilt.contains_key(idx)
            &&& rebuilt[idx] == loc
            &&& spec_metadata_info(new_files[loc.0 as int], loc.1 as int) == (idx, timestamp, write_rank)
        }),
{
    let loc = index.location_for(idx);
    let rec = spec_metadata_record(idx, timestamp, write_rank);
    lemma_write_keeps_index_consistent(index, files, idx, timestamp, write_rank);
    let file = if loc.0 < files.len() {
        files[loc.0 as int]
    } else {
        Seq::<u8>::empty()
    };
    lemma_metadata_read_after_write(index, idx, timestamp, write_rank, file);
    let new_files = files_after_write(files, loc, rec);
    assert(new_files[loc.0 as int] == spec_updated_file(file, loc.1 as int, rec));
}

/// A fresh process starts with an empty index and no metadata files, which
/// agree; and the index that `MetadataIndex::from_files` rebuilds from files
/// that agree with an index is that index.
pub proof fn lemma_rebuilt_index_is_the_kept_one(index: MetadataIndexModel, files: Seq<Seq<u8>>)
    ensures
        consistent(
            MetadataIndexModel { locations: Map::empty(), total_size: 0 },
            Seq::<Seq<u8>>::empty(),
        ),
        consistent(index, files) ==> (MetadataIndexModel {
            locations: index_files(files, files.len()),
            total_size: total_len(files, files.len()) as usize,
        }) == index,
{
    assert(index_files(Seq::<Seq<u8>>::empty(), 0) == Map::<SectorIdx, (usize, usize)>::empty());
}


// ---------------------------------------------------------------------------
// The whole drive
// ---------------------------------------------------------------------------

/// What the sectors manager keeps on disk: the data file of each sector that
/// has one, and the metadata files.
pub struct DriveModel {
    pub data: Map<SectorIdx, Seq<u8>>,
    pub files: Seq<Seq<u8>>,
}

/// The index a sectors manager builds when it starts on `d`.
pub open spec fn drive_index(d: DriveModel) -> MetadataIndexModel {
    MetadataIndexModel {
        locations: index_files(d.files, d.files.len()),
        total_size: total_len(d.files, d.files.len()) as usize,
    }
}

/// What `read_data` returns: the data file of a sector that has a record,
/// zeros otherwise (as `sector_from_storage` decides).
pub open spec fn drive_read_data(index: MetadataIndexModel, d: DriveModel, idx: SectorIdx) -> Seq<u8> {
    if index.locations.contains_key(idx) && d.data.contains_key(idx) {
        d.data[idx]
    } else {
        zero_sector()
    }
}

/// What `read_metadata` returns: timestamp and write rank of the sector's
/// record, (0, 0) for a sector without one (as `metadata_from_storage` decides).
pub open spec fn drive_read_metadata(index: MetadataIndexModel, d: DriveModel, idx: SectorIdx) -> (u64, u8) {
    if index.locations.contains_key(idx) {
        let (k, off) = index.locations[idx];
        (spec_metadata_info(d.files[k as int], off as int).1, spec_metadata_info(d.files[k as int], off as int).2)
    } else {
        (0u64, 0u8)
    }
}

/// The index and the drive after a write of sector `idx` whose file writes
/// succeeded: its data file, then its record where `location_for` says, then
/// the index.
pub open spec fn drive_after_write(
    index: MetadataIndexModel,
    d: DriveModel,
    idx: SectorIdx,
    data: Seq<u8>,
    timestamp: u64,
    write_rank: u8,
) -> (MetadataIndexModel, DriveModel) {
    let loc = index.location_for(idx);
    (
        index.after_record(idx, loc),
        DriveModel {
            data: d.data.insert(idx, data),
            files: files_after_write(d.files, loc, spec_metadata_record(idx, timestamp, write_rank)),
        },
    )
}

/// A write of a sector reads back: afterwards the sector's data and metadata
/// are what was written, every other sector reads as before, and a sectors
/// manager started afresh on the drive builds the same index, so it reads the
/// same.
#[verifier::spinoff_prover]
#[verifier::rlimit(80)]
pub proof fn lemma_drive_write_then_read(
    index: MetadataIndexModel,
    d: DriveModel,
    idx: SectorIdx,
    data: Seq<u8>,
    timestamp: u64,
    write_rank: u8,
    other: SectorIdx,
)
    requires
        consistent(index, d.files),
        d.files.len() < usize::MAX,
        index.total_size + METADATA_SIZE <= usize::MAX,
        other != idx,
    ensures
        ({
            let (i2, d2) = drive_after_write(index, d, idx, data, timestamp, write_rank);
            &&& consistent(i2, d2.files)
            &&& drive_index(d2) == i2
            &&& drive_read_data(i2, d2, idx) == data
            &&& drive_read_metadata(i2, d2, idx) == (timestamp, write_rank)
            &&& drive_read_data(i2, d2, other) == drive_read_data(index, d, other)
            &&& drive_read_metadata(i2, d2, other) == drive_read_metadata(index, d, other)
        }),
{
    let (i2, d2) = drive_after_write(index, d, idx, data, timestamp, write_rank);
    let loc = index.location_for(idx);
    let rec = spec_metadata_record(idx, timestamp, write_rank);
    let files = d.files;
    lemma_write_keeps_index_consistent(index, files, idx, timestamp, write_rank);
    lemma_rebuilt_index_is_the_kept_one(i2, d2.files);
    lemma_restart_reads_last_write(index, files, idx, timestamp, write_rank);
    assert(i2.locations[idx] == loc);
    if index.locations.contains_key(other) {
        lemma_files_fit(files);
        lemma_index_files_valid(files, files.len());
        let (k, off) = index.locations[other];
        assert(i2.locations[other] == (k, off));
        assert(spec_metadata_info(files[k as int], off as int).0 == other);
        let file = if loc.0 < files.len() {
            files[loc.0 as int]
        } else {
            Seq::<u8>::empty()
        };
        if loc.0 as int == k as int {
            if index.locations.contains_key(idx) {
                assert(spec_metadata_info(files[k as int], loc.1 as int).0 == idx);
                assert(loc.1 != off);
                assert(loc.1 % METADATA_SIZE == 0);
            } else {
                lemma_new_slot(files, index.total_size);
                assert(loc.1 == files[k as int].len());
                assert(files[k as int].len() % (METADATA_SIZE as nat) == 0);
            }
            assert(rec.len() == METADATA_SIZE);
            lemma_metadata_write_is_local(file, loc.1 as int, rec, off as int);
            assert(d2.files[k as int] == spec_updated_file(file, loc.1 as int, rec));
        } else {
            assert(d2.files[k as int] == files[k as int]);
        }
    }
}

} // verus!
