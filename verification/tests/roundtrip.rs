use cab::{Cabinet, CabinetBuilder, CabinetWriter, CompressionType, DateTime, FileBuilder,
          FolderBuilder};
use rand::RngCore;
use rand::SeedableRng;

fn write_all(writer: &mut CabinetWriter, mut data: &[u8]) {
    while !data.is_empty() {
        let n = writer.write_file_data(data).unwrap();
        data = &data[n..];
    }
}

fn build_one_file_cabinet(ctype: CompressionType, file: FileBuilder, data: &[u8]) -> Vec<u8> {
    let mut builder = CabinetBuilder::new();
    let mut folder = FolderBuilder::new(ctype);
    folder.add_file(file);
    builder.add_folder(folder);
    let mut writer = builder.build().unwrap();
    while let Some(_file_writer) = writer.next_file().unwrap() {
        write_all(&mut writer, data);
    }
    writer.finish().unwrap().0
}

#[test]
fn cabinet_with_one_small_uncompressed_text_file() {
    let original = lipsum::lipsum(500);
    let datetime = DateTime::new(2063, 4, 5, 23, 14, 38).unwrap();

    let mut file_builder = FileBuilder::new("lorem_ipsum.txt".to_string());
    file_builder.set_datetime(datetime);
    file_builder.set_is_read_only(true);
    file_builder.set_is_system(true);
    file_builder.set_is_archive(false);
    let cab_file =
        build_one_file_cabinet(CompressionType::Uncompressed, file_builder, original.as_bytes());

    let cabinet = Cabinet::new(cab_file).unwrap();
    {
        let file_entry = cabinet.get_file_entry("lorem_ipsum.txt").unwrap();
        assert_eq!(file_entry.datetime(), Some(datetime));
        assert!(file_entry.is_read_only());
        assert!(!file_entry.is_hidden());
        assert!(file_entry.is_system());
        assert!(!file_entry.is_archive());
    }
    let output = cabinet.read_file("lorem_ipsum.txt").unwrap().read_to_end();
    assert_eq!(String::from_utf8_lossy(&output), original);
}

#[test]
fn cabinet_with_one_small_mszipped_text_file() {
    let original = lipsum::lipsum(500);

    let file_builder = FileBuilder::new("lorem_ipsum.txt".to_string());
    let cab_file =
        build_one_file_cabinet(CompressionType::MsZip, file_builder, original.as_bytes());

    let cabinet = Cabinet::new(cab_file).unwrap();
    assert_eq!(cabinet.folder_entries()[0].compression_type(), CompressionType::MsZip);
    let output = cabinet.read_file("lorem_ipsum.txt").unwrap().read_to_end();
    assert_eq!(String::from_utf8_lossy(&output), original);
}

#[test]
fn cabinet_with_one_big_uncompressed_text_file() {
    let original = lipsum::lipsum(30000);

    let file_builder = FileBuilder::new("lorem_ipsum.txt".to_string());
    let cab_file =
        build_one_file_cabinet(CompressionType::Uncompressed, file_builder, original.as_bytes());
    assert!(cab_file.len() > original.len());

    let cabinet = Cabinet::new(cab_file).unwrap();
    {
        let folder = &cabinet.folder_entries()[0];
        assert_eq!(folder.compression_type(), CompressionType::Uncompressed);
        assert!(folder.num_data_blocks() > 1);
        let file = &folder.file_entries()[0];
        assert_eq!(file.uncompressed_size() as usize, original.len());
    }
    let output = cabinet.read_file("lorem_ipsum.txt").unwrap().read_to_end();
    assert_eq!(output.len(), original.len());
    assert_eq!(String::from_utf8_lossy(&output), original);
}

#[test]
fn cabinet_with_one_big_mszipped_text_file() {
    let original = lipsum::lipsum(30000);

    let file_builder = FileBuilder::new("lorem_ipsum.txt".to_string());
    let cab_file =
        build_one_file_cabinet(CompressionType::MsZip, file_builder, original.as_bytes());
    assert!(cab_file.len() < original.len());

    let cabinet = Cabinet::new(cab_file).unwrap();
    {
        let folder = &cabinet.folder_entries()[0];
        assert_eq!(folder.compression_type(), CompressionType::MsZip);
        let file = &folder.file_entries()[0];
        assert_eq!(file.uncompressed_size() as usize, original.len());
    }
    let output = cabinet.read_file("lorem_ipsum.txt").unwrap().read_to_end();
    assert_eq!(output.len(), original.len());
    assert_eq!(String::from_utf8_lossy(&output), original);
}

fn random_data_roundtrip(num_bytes: usize, ctype: CompressionType) {
    let mut original = vec![0; num_bytes];
    rand::rngs::SmallRng::from_entropy().fill_bytes(&mut original);

    let file_builder = FileBuilder::new("binary".to_string());
    let cab_file = build_one_file_cabinet(ctype, file_builder, &original);

    let cabinet = Cabinet::new(cab_file).unwrap();
    {
        let folder = &cabinet.folder_entries()[0];
        assert_eq!(folder.compression_type(), ctype);
        assert!((folder.num_data_blocks() as usize) >= (num_bytes / 0x8000));
        let file = &folder.file_entries()[0];
        assert_eq!(file.name(), "binary");
        assert_eq!(file.uncompressed_size() as usize, original.len());
    }
    let output = cabinet.read_file("binary").unwrap().read_to_end();
    assert_eq!(output, original);
}

#[test]
fn cabinet_with_one_small_uncompressed_binary_file() {
    random_data_roundtrip(10_000, CompressionType::Uncompressed);
}

#[test]
fn cabinet_with_one_small_mszipped_binary_file() {
    random_data_roundtrip(10_000, CompressionType::MsZip);
}

#[test]
fn cabinet_with_one_big_uncompressed_binary_file() {
    random_data_roundtrip(1_000_000, CompressionType::Uncompressed);
}

#[test]
fn cabinet_with_one_big_mszipped_binary_file() {
    random_data_roundtrip(1_000_000, CompressionType::MsZip);
}

#[test]
fn cabinet_with_two_folders() {
    let mut builder = CabinetBuilder::new();
    let mut folder = FolderBuilder::new(CompressionType::Uncompressed);
    folder.add_file(FileBuilder::new("a.txt".to_string()));
    builder.add_folder(folder);
    let mut folder = FolderBuilder::new(CompressionType::MsZip);
    folder.add_file(FileBuilder::new("b.txt".to_string()));
    builder.add_folder(folder);
    let mut writer = builder.build().unwrap();
    while let Some(file_writer) = writer.next_file().unwrap() {
        let data: &[u8] = if file_writer.file_name() == "a.txt" {
            b"alpha"
        } else {
            b"beta beta"
        };
        write_all(&mut writer, data);
    }
    let cab_file = writer.finish().unwrap().0;

    let cabinet = Cabinet::new(cab_file).unwrap();
    assert_eq!(cabinet.folder_entries().len(), 2);
    assert_eq!(cabinet.read_file("a.txt").unwrap().read_to_end(), b"alpha");
    assert_eq!(cabinet.read_file("b.txt").unwrap().read_to_end(), b"beta beta");
}

#[test]
fn total_size_field_matches_length() {
    let file_builder = FileBuilder::new("x".to_string());
    let cab_file = build_one_file_cabinet(CompressionType::Uncompressed, file_builder, b"x bytes");
    let total = u32::from_le_bytes([cab_file[8], cab_file[9], cab_file[10], cab_file[11]]);
    assert_eq!(total as usize, cab_file.len());
}
