use cab::Cabinet;

#[test]
fn read_uncompressed_cabinet_with_one_file() {
    let binary: &[u8] = b"MSCF\0\0\0\0\x59\0\0\0\0\0\0\0\
        \x2c\0\0\0\0\0\0\0\x03\x01\x01\0\x01\0\0\0\x34\x12\0\0\
        \x43\0\0\0\x01\0\0\0\
        \x0e\0\0\0\0\0\0\0\0\0\x6c\x22\xba\x59\x01\0hi.txt\0\
        \x4c\x1a\x2e\x7f\x0e\0\x0e\0Hello, world!\n";
    assert_eq!(binary.len(), 0x59);
    let cabinet = Cabinet::new(binary.to_vec()).unwrap();
    assert_eq!(cabinet.cabinet_set_id(), 0x1234);
    assert_eq!(cabinet.cabinet_set_index(), 0);
    assert!(cabinet.reserve_data().is_empty());
    assert_eq!(cabinet.folder_entries().len(), 1);
    {
        let file = cabinet.get_file_entry("hi.txt").unwrap();
        assert_eq!(file.name(), "hi.txt");
        assert!(!file.is_name_utf());
        assert!(file.is_read_only());
        assert!(!file.is_hidden());
        assert!(!file.is_system());
        assert!(!file.is_archive());
        assert!(!file.is_exec());
        let dt = file.datetime().unwrap();
        assert_eq!(dt.year, 1997);
        assert_eq!(dt.month, 3);
        assert_eq!(dt.day, 12);
        assert_eq!(dt.hour, 11);
        assert_eq!(dt.minute, 13);
        assert_eq!(dt.second, 52);
    }

    let data = cabinet.read_folder(0).unwrap().read_to_end();
    assert_eq!(data, b"Hello, world!\n");

    let data = cabinet.read_file("hi.txt").unwrap().read_to_end();
    assert_eq!(data, b"Hello, world!\n");
}

#[test]
fn read_uncompressed_cabinet_with_two_files() {
    let binary: &[u8] = b"MSCF\0\0\0\0\x80\0\0\0\0\0\0\0\
        \x2c\0\0\0\0\0\0\0\x03\x01\x01\0\x02\0\0\0\x34\x12\0\0\
        \x5b\0\0\0\x01\0\0\0\
        \x0e\0\0\0\0\0\0\0\0\0\x6c\x22\xe7\x59\x01\0hi.txt\0\
        \x0f\0\0\0\x0e\0\0\0\0\0\x6c\x22\xe7\x59\x01\0bye.txt\0\
        \0\0\0\0\x1d\0\x1d\0Hello, world!\nSee you later!\n";
    assert_eq!(binary.len(), 0x80);
    let cabinet = Cabinet::new(binary.to_vec()).unwrap();

    let data = cabinet.read_folder(0).unwrap().read_to_end();
    assert_eq!(data, b"Hello, world!\nSee you later!\n");

    let data = cabinet.read_file("hi.txt").unwrap().read_to_end();
    assert_eq!(data, b"Hello, world!\n");

    let data = cabinet.read_file("bye.txt").unwrap().read_to_end();
    assert_eq!(data, b"See you later!\n");
}

#[test]
fn read_uncompressed_cabinet_with_two_data_blocks() {
    let binary: &[u8] = b"MSCF\0\0\0\0\x61\0\0\0\0\0\0\0\
        \x2c\0\0\0\0\0\0\0\x03\x01\x01\0\x01\0\0\0\x34\x12\0\0\
        \x43\0\0\0\x02\0\0\0\
        \x0e\0\0\0\0\0\0\0\0\0\x6c\x22\xba\x59\x01\0hi.txt\0\
        \0\0\0\0\x06\0\x06\0Hello,\
        \0\0\0\0\x08\0\x08\0 world!\n";
    assert_eq!(binary.len(), 0x61);
    let cabinet = Cabinet::new(binary.to_vec()).unwrap();
    assert_eq!(cabinet.folder_entries().len(), 1);
    assert_eq!(cabinet.folder_entries()[0].num_data_blocks(), 2);

    let data = cabinet.read_folder(0).unwrap().read_to_end();
    assert_eq!(data, b"Hello, world!\n");

    let data = cabinet.read_file("hi.txt").unwrap().read_to_end();
    assert_eq!(data, b"Hello, world!\n");
}

#[test]
fn read_mszip_cabinet_with_one_file() {
    let binary: &[u8] = b"MSCF\0\0\0\0\x61\0\0\0\0\0\0\0\
        \x2c\0\0\0\0\0\0\0\x03\x01\x01\0\x01\0\0\0\x34\x12\0\0\
        \x43\0\0\0\x01\0\x01\0\
        \x0e\0\0\0\0\0\0\0\0\0\x6c\x22\xe7\x59\x01\0hi.txt\0\
        \0\0\0\0\x16\0\x0e\0\
        CK\xf3H\xcd\xc9\xc9\xd7Q(\xcf/\xcaIQ\xe4\x02\x00$\xf2\x04\x94";
    assert_eq!(binary.len(), 0x61);
    let cabinet = Cabinet::new(binary.to_vec()).unwrap();
    assert_eq!(cabinet.cabinet_set_id(), 0x1234);
    assert_eq!(cabinet.cabinet_set_index(), 0);
    assert!(cabinet.reserve_data().is_empty());
    assert_eq!(cabinet.folder_entries().len(), 1);

    let data = cabinet.read_folder(0).unwrap().read_to_end();
    assert_eq!(data, b"Hello, world!\n");

    let data = cabinet.read_file("hi.txt").unwrap().read_to_end();
    assert_eq!(data, b"Hello, world!\n");
}

#[test]
fn read_mszip_cabinet_with_two_files() {
    let binary: &[u8] = b"MSCF\0\0\0\0\x88\0\0\0\0\0\0\0\
        \x2c\0\0\0\0\0\0\0\x03\x01\x01\0\x02\0\0\0\x34\x12\0\0\
        \x5b\0\0\0\x01\0\x01\0\
        \x0e\0\0\0\0\0\0\0\0\0\x6c\x22\xe7\x59\x01\0hi.txt\0\
        \x0f\0\0\0\x0e\0\0\0\0\0\x6c\x22\xe7\x59\x01\0bye.txt\0\
        \0\0\0\0\x25\0\x1d\0CK\xf3H\xcd\xc9\xc9\xd7Q(\xcf/\xcaIQ\xe4\
        \nNMU\xa8\xcc/U\xc8I,I-R\xe4\x02\x00\x93\xfc\t\x91";
    assert_eq!(binary.len(), 0x88);
    let cabinet = Cabinet::new(binary.to_vec()).unwrap();

    let data = cabinet.read_folder(0).unwrap().read_to_end();
    assert_eq!(data, b"Hello, world!\nSee you later!\n");

    let data = cabinet.read_file("hi.txt").unwrap().read_to_end();
    assert_eq!(data, b"Hello, world!\n");

    let data = cabinet.read_file("bye.txt").unwrap().read_to_end();
    assert_eq!(data, b"See you later!\n");
}

#[test]
fn read_lzx_cabinet_with_two_files() {
    let binary: &[u8] = b"\x4d\x53\x43\x46\x00\x00\x00\x00\x97\x00\x00\x00\x00\x00\x00\
        \x00\x2c\x00\x00\x00\x00\x00\x00\x00\x03\x01\x01\x00\x02\x00\
        \x00\x00\x2d\x05\x00\x00\x5b\x00\x00\x00\x01\x00\x03\x13\x0f\
        \x00\x00\x00\x00\x00\x00\x00\x00\x00\x21\x53\x0d\xb2\x20\x00\
        \x68\x69\x2e\x74\x78\x74\x00\x10\x00\x00\x00\x0f\x00\x00\x00\
        \x00\x00\x21\x53\x0b\xb2\x20\x00\x62\x79\x65\x2e\x74\x78\x74\
        \x00\x5c\xef\x2a\xc7\x34\x00\x1f\x00\x5b\x80\x80\x8d\x00\x30\
        \xf0\x01\x10\x00\x00\x00\x01\x00\x00\x00\x01\x00\x00\x00\x48\
        \x65\x6c\x6c\x6f\x2c\x20\x77\x6f\x72\x6c\x64\x21\x0d\x0a\x53\
        \x65\x65\x20\x79\x6f\x75\x20\x6c\x61\x74\x65\x72\x21\x0d\x0a\
        \x00";
    assert_eq!(binary.len(), 0x97);
    let cabinet = Cabinet::new(binary.to_vec()).unwrap();

    let data = cabinet.read_folder(0).unwrap().read_to_end();
    assert_eq!(data, b"Hello, world!\r\nSee you later!\r\n");

    let data = cabinet.read_file("hi.txt").unwrap().read_to_end();
    assert_eq!(data, b"Hello, world!\r\n");

    let data = cabinet.read_file("bye.txt").unwrap().read_to_end();
    assert_eq!(data, b"See you later!\r\n");
}

#[test]
fn read_uncompressed_cabinet_with_non_ascii_filename() {
    let binary: &[u8] = b"MSCF\0\0\0\0\x55\0\0\0\0\0\0\0\
        \x2c\0\0\0\0\0\0\0\x03\x01\x01\0\x01\0\0\0\0\0\0\0\
        \x44\0\0\0\x01\0\0\0\
        \x09\0\0\0\0\0\0\0\0\0\x6c\x22\xba\x59\xa0\0\xe2\x98\x83.txt\0\
        \x3d\x0f\x08\x56\x09\0\x09\0Snowman!\n";
    assert_eq!(binary.len(), 0x55);
    let cabinet = Cabinet::new(binary.to_vec()).unwrap();
    {
        let file_entry = cabinet.get_file_entry("\u{2603}.txt").unwrap();
        assert_eq!(file_entry.name(), "\u{2603}.txt");
        assert!(file_entry.is_name_utf());
    }
    {
        let data = cabinet.read_file("\u{2603}.txt").unwrap().read_to_end();
        assert_eq!(data, b"Snowman!\n");
    }
}

#[test]
fn lzx_largest_window_read_is_rejected() {
    // The two-file LZX fixture with its window exponent raised from 19 to
    // 25: recognized on parse, refused on decode.
    let mut binary: Vec<u8> = b"\x4d\x53\x43\x46\x00\x00\x00\x00\x97\x00\x00\x00\x00\x00\x00\
        \x00\x2c\x00\x00\x00\x00\x00\x00\x00\x03\x01\x01\x00\x02\x00\
        \x00\x00\x2d\x05\x00\x00\x5b\x00\x00\x00\x01\x00\x03\x13\x0f\
        \x00\x00\x00\x00\x00\x00\x00\x00\x00\x21\x53\x0d\xb2\x20\x00\
        \x68\x69\x2e\x74\x78\x74\x00\x10\x00\x00\x00\x0f\x00\x00\x00\
        \x00\x00\x21\x53\x0b\xb2\x20\x00\x62\x79\x65\x2e\x74\x78\x74\
        \x00\x5c\xef\x2a\xc7\x34\x00\x1f\x00\x5b\x80\x80\x8d\x00\x30\
        \xf0\x01\x10\x00\x00\x00\x01\x00\x00\x00\x01\x00\x00\x00\x48\
        \x65\x6c\x6c\x6f\x2c\x20\x77\x6f\x72\x6c\x64\x21\x0d\x0a\x53\
        \x65\x65\x20\x79\x6f\x75\x20\x6c\x61\x74\x65\x72\x21\x0d\x0a\
        \x00"
        .to_vec();
    binary[43] = 0x19;
    let cabinet = Cabinet::new(binary).unwrap();
    assert_eq!(
        cabinet.folder_entries()[0].compression_type(),
        cab::CompressionType::Lzx(25)
    );
    let err = cabinet.read_file("hi.txt").err().unwrap();
    assert!(matches!(err, cab::CabError::Unsupported(_)));
}

#[test]
fn bad_file_signature_is_rejected() {
    let err = Cabinet::new(b"MSCG\0\0\0\0\x59\0\0\0\0\0\0\0\0\0\0\0\0\0\0\0\0\0\0\0\0\0\0\0\0\0\0\0\0\0\0\0".to_vec()).err().unwrap();
    assert!(err.message().contains("signature"));
}

#[test]
fn unsupported_version_is_rejected() {
    let binary: &[u8] = b"MSCF\0\0\0\0\x59\0\0\0\0\0\0\0\
        \x2c\0\0\0\0\0\0\0\x04\x01\x01\0\x01\0\0\0\x34\x12\0\0";
    assert!(Cabinet::new(binary.to_vec()).is_err());
}

#[test]
fn folder_index_out_of_bounds_is_rejected() {
    // As the one-file fixture, but the file names folder 2 of 1.
    let mut binary: Vec<u8> = b"MSCF\0\0\0\0\x59\0\0\0\0\0\0\0\
        \x2c\0\0\0\0\0\0\0\x03\x01\x01\0\x01\0\0\0\x34\x12\0\0\
        \x43\0\0\0\x01\0\0\0\
        \x0e\0\0\0\0\0\0\0\0\0\x6c\x22\xba\x59\x01\0hi.txt\0\
        \x4c\x1a\x2e\x7f\x0e\0\x0e\0Hello, world!\n"
        .to_vec();
    binary[0x2c + 8] = 2;
    assert!(Cabinet::new(binary).is_err());
}

#[test]
fn corrupted_block_checksum_is_rejected() {
    let mut binary: Vec<u8> = b"MSCF\0\0\0\0\x59\0\0\0\0\0\0\0\
        \x2c\0\0\0\0\0\0\0\x03\x01\x01\0\x01\0\0\0\x34\x12\0\0\
        \x43\0\0\0\x01\0\0\0\
        \x0e\0\0\0\0\0\0\0\0\0\x6c\x22\xba\x59\x01\0hi.txt\0\
        \x4c\x1a\x2e\x7f\x0e\0\x0e\0Hello, world!\n"
        .to_vec();
    let last = binary.len() - 1;
    binary[last] = b'?';
    let cabinet = Cabinet::new(binary).unwrap();
    let err = cabinet.read_file("hi.txt").err().unwrap();
    assert!(err.message().contains("Checksum error in data block 0"));
    assert!(err.message().contains("expected 0x7f2e1a4c"));
}

#[test]
fn missing_file_is_not_found() {
    let binary: &[u8] = b"MSCF\0\0\0\0\x59\0\0\0\0\0\0\0\
        \x2c\0\0\0\0\0\0\0\x03\x01\x01\0\x01\0\0\0\x34\x12\0\0\
        \x43\0\0\0\x01\0\0\0\
        \x0e\0\0\0\0\0\0\0\0\0\x6c\x22\xba\x59\x01\0hi.txt\0\
        \x4c\x1a\x2e\x7f\x0e\0\x0e\0Hello, world!\n";
    let cabinet = Cabinet::new(binary.to_vec()).unwrap();
    assert!(cabinet.get_file_entry("nope.txt").is_none());
    assert!(cabinet.read_file("nope.txt").is_err());
}
