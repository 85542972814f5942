use cab::{CabinetBuilder, CabinetWriter, CompressionType, DateTime, FileBuilder, FolderBuilder};

fn write_all(writer: &mut CabinetWriter, mut data: &[u8]) {
    while !data.is_empty() {
        let n = writer.write_file_data(data).unwrap();
        data = &data[n..];
    }
}

fn build_single_folder(
    ctype: CompressionType,
    files: Vec<(&str, &[u8])>,
    datetime: DateTime,
) -> Vec<u8> {
    let mut builder = CabinetBuilder::new();
    let mut folder = FolderBuilder::new(ctype);
    for (name, _) in files.iter() {
        let mut file = FileBuilder::new((*name).to_string());
        file.set_datetime(datetime);
        folder.add_file(file);
    }
    builder.add_folder(folder);
    let mut writer = builder.build().unwrap();
    while let Some(file_writer) = writer.next_file().unwrap() {
        let data = files
            .iter()
            .find(|(name, _)| *name == file_writer.file_name())
            .map(|(_, data)| *data)
            .unwrap();
        write_all(&mut writer, data);
    }
    writer.finish().unwrap().0
}

#[test]
fn write_uncompressed_cabinet_with_one_file() {
    let datetime = DateTime::new(1997, 3, 12, 11, 13, 52).unwrap();
    let output = build_single_folder(
        CompressionType::Uncompressed,
        vec![("hi.txt", b"Hello, world!\n")],
        datetime,
    );
    let expected: &[u8] = b"MSCF\0\0\0\0\x59\0\0\0\0\0\0\0\
        \x2c\0\0\0\0\0\0\0\x03\x01\x01\0\x01\0\0\0\0\0\0\0\
        \x43\0\0\0\x01\0\0\0\
        \x0e\0\0\0\0\0\0\0\0\0\x6c\x22\xba\x59\x20\0hi.txt\0\
        \x4c\x1a\x2e\x7f\x0e\0\x0e\0Hello, world!\n";
    assert_eq!(output.as_slice(), expected);
}

#[test]
fn write_uncompressed_cabinet_with_two_files() {
    let datetime = DateTime::new(2018, 1, 6, 15, 19, 42).unwrap();
    let output = build_single_folder(
        CompressionType::Uncompressed,
        vec![("hi.txt", b"Hello, world!\n"), ("bye.txt", b"See you later!\n")],
        datetime,
    );
    let expected: &[u8] = b"MSCF\0\0\0\0\x80\0\0\0\0\0\0\0\
        \x2c\0\0\0\0\0\0\0\x03\x01\x01\0\x02\0\0\0\0\0\0\0\
        \x5b\0\0\0\x01\0\0\0\
        \x0e\0\0\0\0\0\0\0\0\0\x26\x4c\x75\x7a\x20\0hi.txt\0\
        \x0f\0\0\0\x0e\0\0\0\0\0\x26\x4c\x75\x7a\x20\0bye.txt\0\
        \x1a\x54\x09\x35\x1d\0\x1d\0Hello, world!\nSee you later!\n";
    assert_eq!(output.as_slice(), expected);
}

#[test]
fn write_uncompressed_cabinet_with_non_ascii_filename() {
    let datetime = DateTime::new(1997, 3, 12, 11, 13, 52).unwrap();
    let output = build_single_folder(
        CompressionType::Uncompressed,
        vec![("\u{2603}.txt", b"Snowman!\n")],
        datetime,
    );
    let expected: &[u8] = b"MSCF\0\0\0\0\x55\0\0\0\0\0\0\0\
        \x2c\0\0\0\0\0\0\0\x03\x01\x01\0\x01\0\0\0\0\0\0\0\
        \x44\0\0\0\x01\0\0\0\
        \x09\0\0\0\0\0\0\0\0\0\x6c\x22\xba\x59\xa0\0\xe2\x98\x83.txt\0\
        \x3d\x0f\x08\x56\x09\0\x09\0Snowman!\n";
    assert_eq!(output.as_slice(), expected);
}

#[test]
fn too_many_folders_is_rejected() {
    let mut builder = CabinetBuilder::new();
    for _ in 0..0x10000 {
        builder.add_folder(FolderBuilder::new(CompressionType::Uncompressed));
    }
    let err = builder.build().err().unwrap();
    assert!(err.message().contains("folders"));
}

#[test]
fn oversized_header_reserve_is_rejected() {
    let mut builder = CabinetBuilder::new();
    builder.set_reserve_data(vec![0u8; 60001]);
    let err = builder.build().err().unwrap();
    assert!(err.message().contains("reserve"));
}

#[test]
fn oversized_folder_reserve_is_rejected() {
    let mut builder = CabinetBuilder::new();
    let mut folder = FolderBuilder::new(CompressionType::Uncompressed);
    folder.set_reserve_data(vec![0u8; 256]);
    builder.add_folder(folder);
    assert!(builder.build().is_err());
}

#[test]
fn quantum_write_is_rejected() {
    let mut builder = CabinetBuilder::new();
    let mut folder = FolderBuilder::new(CompressionType::Quantum(3, 16));
    folder.add_file(FileBuilder::new("q.bin".to_string()));
    builder.add_folder(folder);
    let mut writer = builder.build().unwrap();
    let err = writer.next_file().err().unwrap();
    assert!(matches!(err, cab::CabError::InvalidInput(_)));
}

#[test]
fn lzx_write_is_rejected() {
    let mut builder = CabinetBuilder::new();
    let mut folder = FolderBuilder::new(CompressionType::Lzx(21));
    folder.add_file(FileBuilder::new("l.bin".to_string()));
    builder.add_folder(folder);
    let mut writer = builder.build().unwrap();
    let err = writer.next_file().err().unwrap();
    assert!(matches!(err, cab::CabError::Unsupported(_)));
}
