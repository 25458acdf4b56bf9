use maelstrom_core::layer_fs::{FileAttributes, FileData, FileDataInput, FileId,
    FileMetadataReader, FileMetadataWriter, FileType};

#[test]
fn file_metadata_round_trips_through_the_tables() {
    let mut writer = FileMetadataWriter::new(7);
    let dir_attrs = FileAttributes { size: 0, mode: 0o555, mtime: 1705000271 };
    let dir_id = writer.insert_file(FileType::Directory, dir_attrs, FileDataInput::Empty);
    assert_eq!(dir_id, FileId { layer: 7, offset: 1 });

    let file_attrs = FileAttributes { size: 11, mode: 0o644, mtime: 1705000271 };
    let file_id = writer.insert_file(
        FileType::RegularFile,
        file_attrs,
        FileDataInput::Inline(b"hello world".to_vec()),
    );

    let big_attrs = FileAttributes { size: 1 << 20, mode: 0o444, mtime: 1705000271 };
    let big_id = writer.insert_file(
        FileType::RegularFile,
        big_attrs,
        FileDataInput::Digest { digest: vec![0xab; 32], offset: 0, length: 1 << 20 },
    );

    assert_eq!(writer.inline_data, b"hello world".to_vec());

    let reader =
        FileMetadataReader::new(7, writer.file_table.clone(), writer.attr_table.clone())
            .unwrap();

    let (t, a) = reader.get_attr(dir_id).unwrap();
    assert_eq!(t, FileType::Directory);
    assert_eq!(a, dir_attrs);

    let (t, a) = reader.get_attr(file_id).unwrap();
    assert_eq!(t, FileType::RegularFile);
    assert_eq!(a, file_attrs);
    let (t, d) = reader.get_data(file_id).unwrap();
    assert_eq!(t, FileType::RegularFile);
    assert_eq!(d, FileData::Inline { offset: 0, length: 11 });

    let (_, d) = reader.get_data(big_id).unwrap();
    assert_eq!(
        d,
        FileData::Digest { digest: vec![0xab; 32], offset: 0, length: 1 << 20 }
    );
    let (_, a) = reader.get_attr(big_id).unwrap();
    assert_eq!(a, big_attrs);
}

#[test]
fn reader_rejects_foreign_tables() {
    // Too short for a header.
    assert!(FileMetadataReader::new(1, vec![0; 4], vec![0; 8]).is_err());
    // A version this codec does not write.
    let mut bad = vec![0u8; 8];
    bad[0] = 9;
    assert!(FileMetadataReader::new(1, bad, vec![0; 8]).is_err());
}

#[test]
fn reader_rejects_dangling_ids() {
    let writer = FileMetadataWriter::new(3);
    let reader =
        FileMetadataReader::new(3, writer.file_table.clone(), writer.attr_table.clone())
            .unwrap();
    assert!(reader.get_attr(FileId { layer: 3, offset: 1 }).is_err());
    assert!(reader.get_data(FileId { layer: 3, offset: 0 }).is_err());
}

#[test]
fn update_attributes_overwrites_in_place() {
    let mut writer = FileMetadataWriter::new(1);
    let a0 = FileAttributes { size: 1, mode: 0o644, mtime: 10 };
    let id = writer.insert_file(FileType::RegularFile, a0, FileDataInput::Empty);
    let id2 = writer.insert_file(
        FileType::RegularFile,
        FileAttributes { size: 2, mode: 0o600, mtime: 20 },
        FileDataInput::Empty,
    );
    let a1 = FileAttributes { size: 77, mode: 0o755, mtime: 30 };
    writer.update_attributes(id, a1).unwrap();
    let reader =
        FileMetadataReader::new(1, writer.file_table.clone(), writer.attr_table.clone())
            .unwrap();
    let (_, got) = reader.get_attr(id).unwrap();
    assert_eq!(got, a1);
    // The neighboring record is untouched.
    let (_, other) = reader.get_attr(id2).unwrap();
    assert_eq!(other, FileAttributes { size: 2, mode: 0o600, mtime: 20 });
}
