use assignment_2_solution::sectors_manager::{
    get_metadata_info, metadata_from_storage, metadata_record, sector_from_storage, update_metadata_file,
    next_write_step, MetadataIndex, SectorWriteStep, METADATAS_FILE_SIZE, METADATAS_PER_FILE, METADATA_SIZE,
};

/// Metadata files kept in memory, written the way the sectors manager writes them.
struct Disk {
    files: Vec<Option<Vec<u8>>>,
    index: MetadataIndex,
}

impl Disk {
    fn new() -> Self {
        Disk { files: vec![], index: MetadataIndex::from_files(&vec![]) }
    }

    fn restore(files: Vec<Option<Vec<u8>>>) -> Self {
        let present: Vec<Vec<u8>> = files.iter().map_while(|f| f.clone()).collect();
        Disk { index: MetadataIndex::from_files(&present), files }
    }

    fn write(&mut self, idx: u64, timestamp: u64, write_rank: u8) {
        let (file, offset) = self.index.location_for(idx);
        while self.files.len() <= file {
            self.files.push(None);
        }
        let val = self.files[file].clone().unwrap_or_default();
        let rec = metadata_record(idx, timestamp, write_rank);
        self.files[file] = Some(update_metadata_file(val, offset, &rec));
        self.index.record_written(idx, (file, offset));
    }

    fn read_metadata(&self, idx: u64) -> (u64, u8) {
        match self.index.lookup(idx) {
            None => metadata_from_storage(None, None),
            Some((file, offset)) => {
                metadata_from_storage(Some(offset), self.files.get(file).and_then(|f| f.as_deref()))
            }
        }
    }
}

#[test]
fn read_before_write() {
    let disk = Disk::new();
    assert_eq!(disk.read_metadata(1), (0, 0));
    let data = sector_from_storage(disk.index.lookup(1).is_some(), None);
    assert_eq!(data.0.len(), 4096);
    assert_eq!(data.0, vec![0; 4096]);
}

#[test]
fn drive_can_store_data() {
    let mut disk = Disk::new();
    for i in 1..350 {
        disk.write(i, i, 1);
    }
    for i in 1..350 {
        assert_eq!(disk.read_metadata(i), (i, 1));
        let data = sector_from_storage(disk.index.lookup(i).is_some(), Some(vec![2; 4096]));
        assert_eq!(data.0, vec![2; 4096]);
    }
    // 349 records fill one file and start the next
    assert_eq!(disk.files.len(), 2);
    assert_eq!(disk.files[0].as_ref().unwrap().len(), METADATAS_FILE_SIZE);
    assert_eq!(disk.files[1].as_ref().unwrap().len(), (349 - METADATAS_PER_FILE) * METADATA_SIZE);
}

#[test]
fn drive_can_restore_data() {
    let mut disk = Disk::new();
    for i in 1..20 {
        disk.write(i, i, 1);
    }
    let mut disk2 = Disk::restore(disk.files.clone());
    for i in 10..30 {
        disk2.write(i, i + 10, 2);
    }
    for i in 1..10 {
        assert_eq!(disk2.read_metadata(i), (i, 1));
    }
    for i in 10..30 {
        assert_eq!(disk2.read_metadata(i), (i + 10, 2));
    }
    // rewritten sectors keep their slot
    assert_eq!(disk2.files[0].as_ref().unwrap().len(), 29 * METADATA_SIZE);
}

#[test]
fn metadata_record_layout() {
    let rec = metadata_record(0x0102, 0x0a0b0c, 9);
    assert_eq!(rec, vec![0, 0, 0, 0, 0, 0, 1, 2, 0, 0, 0, 0, 0, 0x0a, 0x0b, 0x0c, 9]);
    assert_eq!(get_metadata_info(&rec, 0), (0x0102, 0x0a0b0c, 9));
    let mut file = vec![0xff; METADATA_SIZE];
    file.extend_from_slice(&rec);
    assert_eq!(get_metadata_info(&file, METADATA_SIZE), (0x0102, 0x0a0b0c, 9));
}

#[test]
fn update_metadata_file_appends_or_replaces() {
    let a = metadata_record(1, 1, 1);
    let b = metadata_record(2, 2, 2);
    let c = metadata_record(3, 3, 3);
    let file = update_metadata_file(vec![], 0, &a);
    let file = update_metadata_file(file, METADATA_SIZE, &b);
    assert_eq!(file.len(), 2 * METADATA_SIZE);
    let file = update_metadata_file(file, 0, &c);
    assert_eq!(get_metadata_info(&file, 0), (3, 3, 3));
    assert_eq!(get_metadata_info(&file, METADATA_SIZE), (2, 2, 2));
}

#[test]
fn index_from_files_keeps_last_record_of_a_sector() {
    let mut file0 = metadata_record(5, 1, 1);
    file0.extend(metadata_record(6, 1, 1));
    let file1 = metadata_record(5, 2, 2);
    let index = MetadataIndex::from_files(&vec![file0, file1]);
    assert_eq!(index.lookup(5), Some((1, 0)));
    assert_eq!(index.lookup(6), Some((0, METADATA_SIZE)));
    assert_eq!(index.lookup(7), None);
    // a new sector goes after the 3 records in use
    assert_eq!(index.location_for(7), (0, 3 * METADATA_SIZE));
    assert!(index.has_room());
}

#[test]
fn sector_data_needs_metadata() {
    assert_eq!(sector_from_storage(false, Some(vec![1; 4096])).0, vec![0; 4096]);
    assert_eq!(sector_from_storage(true, Some(vec![1; 4096])).0, vec![1; 4096]);
    assert_eq!(sector_from_storage(true, None).0, vec![0; 4096]);
    assert_eq!(metadata_from_storage(Some(0), None), (0, 0));
}

#[test]
fn sector_writes_stop_at_the_first_failure() {
    assert_eq!(next_write_step(SectorWriteStep::WriteData, true), SectorWriteStep::WriteMetadata);
    assert_eq!(next_write_step(SectorWriteStep::WriteData, false), SectorWriteStep::Done);
    assert_eq!(next_write_step(SectorWriteStep::WriteMetadata, true), SectorWriteStep::Record);
    assert_eq!(next_write_step(SectorWriteStep::WriteMetadata, false), SectorWriteStep::Done);
    assert_eq!(next_write_step(SectorWriteStep::Record, true), SectorWriteStep::Done);
}
