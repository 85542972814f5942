use cab::{Cabinet, CabinetBuilder, CabinetWriter, CompressionType, FileBuilder, FolderBuilder,
          SeekPos};

fn write_all(writer: &mut CabinetWriter, mut data: &[u8]) {
    while !data.is_empty() {
        let n = writer.write_file_data(data).unwrap();
        data = &data[n..];
    }
}

fn build_one_file_cabinet(ctype: CompressionType, name: &str, data: &[u8]) -> Vec<u8> {
    let mut builder = CabinetBuilder::new();
    let mut folder = FolderBuilder::new(ctype);
    folder.add_file(FileBuilder::new(name.to_string()));
    builder.add_folder(folder);
    let mut writer = builder.build().unwrap();
    while let Some(_file_writer) = writer.next_file().unwrap() {
        write_all(&mut writer, data);
    }
    writer.finish().unwrap().0
}

fn seek_and_read_back(ctype: CompressionType) {
    let original_string = lipsum::lipsum(30000);
    let original_bytes = original_string.as_bytes();

    let cab_file = build_one_file_cabinet(ctype, "lorem_ipsum.txt", original_bytes);
    match ctype {
        CompressionType::Uncompressed => assert!(cab_file.len() > original_bytes.len()),
        _ => assert!(cab_file.len() < original_bytes.len()),
    }

    let cabinet = Cabinet::new(cab_file).unwrap();
    let mut file_reader = cabinet.read_file("lorem_ipsum.txt").unwrap();
    let mut offset: usize = 1000;
    while offset < original_bytes.len() {
        let start = file_reader.seek(SeekPos::End(-(offset as i64))).unwrap();
        let output = file_reader.read(1000);
        assert_eq!(output.len(), 1000);
        assert_eq!(output.as_slice(), &original_bytes[(start as usize)..][..1000]);
        offset += 1000;
    }
}

#[test]
fn seek_within_big_uncompressed_file() {
    seek_and_read_back(CompressionType::Uncompressed);
}

#[test]
fn seek_within_big_mszipped_file() {
    seek_and_read_back(CompressionType::MsZip);
}

#[test]
fn seek_within_empty_file() {
    let cab_file = build_one_file_cabinet(CompressionType::Uncompressed, "empty.txt", b"");

    let cabinet = Cabinet::new(cab_file).unwrap();
    for folder in cabinet.folder_entries().iter() {
        assert_eq!(folder.num_data_blocks(), 0);
    }
    let mut file_reader = cabinet.read_file("empty.txt").unwrap();
    file_reader.seek(SeekPos::Start(0)).unwrap();
    let data = file_reader.read_to_end();
    assert!(data.is_empty());
}

#[test]
fn seek_out_of_bounds_is_rejected() {
    let cab_file = build_one_file_cabinet(CompressionType::Uncompressed, "hi.txt", b"hello");
    let cabinet = Cabinet::new(cab_file).unwrap();
    let mut file_reader = cabinet.read_file("hi.txt").unwrap();
    assert!(file_reader.seek(SeekPos::Start(6)).is_err());
    assert!(file_reader.seek(SeekPos::Current(-1)).is_err());
    assert!(file_reader.seek(SeekPos::End(1)).is_err());
    assert_eq!(file_reader.seek(SeekPos::End(-5)).unwrap(), 0);
    assert_eq!(file_reader.read_to_end(), b"hello");
}
