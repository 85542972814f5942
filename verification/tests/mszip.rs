use cab::{MsZipCompressor, MsZipDecompressor};
use rand::RngCore;
use rand::SeedableRng;

const BLOCK: usize = 0x8000;

#[test]
fn read_compressed_data() {
    let input: &[u8] = b"CK%\xcc\xd1\t\x031\x0c\x04\xd1V\xb6\x80#\x95\xa4\
          \t\xc5\x12\xc7\x82e\xfb,\xa9\xff\x18\xee{x\xf3\x9d\xdb\x1c\\Q\
          \x0e\x9d}n\x04\x13\xe2\x96\x17\xda\x1ca--kC\x94\x8b\xd18nX\xe7\
          \x89az\x00\x8c\x15>\x15i\xbe\x0e\xe6hTj\x8dD%\xba\xfc\xce\x1e\
          \x96\xef\xda\xe0r\x0f\x81t>%\x9f?\x12]-\x87";
    let expected: &[u8] =
        b"Lorem ipsum dolor sit amet, consectetur adipiscing elit, sed \
          do eiusmod tempor incididunt ut labore et dolore magna aliqua.";
    assert!(input.len() < expected.len());
    let mut decompressor = MsZipDecompressor::new();
    let output = decompressor.decompress_block(input, expected.len()).unwrap();
    assert_eq!(output, expected);
}

fn repeating_data(size: usize) -> Vec<u8> {
    let modulus = 251; // a prime number no bigger than u8::MAX
    (0..size).map(|index| (index % modulus) as u8).collect::<Vec<u8>>()
}

fn random_data(size: usize) -> Vec<u8> {
    let mut rd = vec![0; size];
    rand::rngs::SmallRng::from_entropy().fill_bytes(&mut rd);
    rd
}

fn do_lib_compress(mut data: &[u8]) -> Vec<(usize, Vec<u8>)> {
    let mut blocks = Vec::<(usize, Vec<u8>)>::new();
    let mut compressor = MsZipCompressor::new();
    while data.len() > BLOCK {
        let slice = &data[0..BLOCK];
        let compressed = compressor.compress_block(slice, false).unwrap();
        blocks.push((slice.len(), compressed));
        data = &data[slice.len()..];
    }
    let compressed = compressor.compress_block(data, true).unwrap();
    blocks.push((data.len(), compressed));
    blocks
}

fn do_lib_decompress(blocks: Vec<(usize, Vec<u8>)>) -> Vec<u8> {
    let mut output = Vec::<u8>::new();
    let mut decompressor = MsZipDecompressor::new();
    for (size, compressed) in blocks.into_iter() {
        output.append(&mut decompressor.decompress_block(&compressed, size).unwrap());
    }
    output
}

fn round_trip(original: &[u8]) {
    let compressed = do_lib_compress(original);
    assert_eq!(do_lib_decompress(compressed).as_slice(), original);
}

#[test]
fn lorem_ipsum_lib_round_trip() {
    round_trip(
        b"Lorem ipsum dolor sit amet, consectetur adipiscing elit, sed \
          do eiusmod tempor incididunt ut labore et dolore magna aliqua.",
    );
}

#[test]
fn one_block_exactly_lib_round_trip() {
    round_trip(&repeating_data(BLOCK));
}

#[test]
fn one_block_less_a_byte_lib_round_trip() {
    round_trip(&repeating_data(BLOCK - 1));
}

#[test]
fn one_block_plus_a_byte_lib_round_trip() {
    round_trip(&repeating_data(BLOCK + 1));
}

#[test]
fn zeros_one_block_lib_round_trip() {
    round_trip(&[0u8; 1000]);
}

#[test]
fn zeros_two_blocks_lib_round_trip() {
    round_trip(&vec![0u8; BLOCK + 1000]);
}

#[test]
fn zeros_many_blocks_lib_round_trip() {
    round_trip(&vec![0u8; BLOCK * 10]);
}

#[test]
fn repeating_one_block_lib_round_trip() {
    round_trip(&repeating_data(1000));
}

#[test]
fn repeating_two_blocks_lib_round_trip() {
    round_trip(&repeating_data(BLOCK + 1000));
}

#[test]
fn repeating_many_blocks_lib_round_trip() {
    round_trip(&repeating_data(BLOCK * 10));
}

#[test]
fn random_one_block_lib_round_trip() {
    round_trip(&random_data(1000));
}

#[test]
fn random_two_blocks_lib_round_trip() {
    round_trip(&random_data(BLOCK + 1000));
}

#[test]
fn random_many_blocks_lib_round_trip() {
    round_trip(&random_data(BLOCK * 10));
}

#[test]
fn verified_round_trip_driver() {
    // The library's own round-trip function over an arbitrary splitting.
    let pieces: Vec<Vec<u8>> =
        vec![repeating_data(BLOCK), repeating_data(137), Vec::new(), repeating_data(BLOCK - 1)];
    let mut expected = Vec::new();
    for p in pieces.iter() {
        expected.extend_from_slice(p);
    }
    let out = cab::mszip::mszip_round_trip(&pieces).unwrap();
    assert_eq!(out, expected);
}

#[test]
fn bad_block_signature_is_rejected() {
    let mut decompressor = MsZipDecompressor::new();
    let err = decompressor.decompress_block(b"XY\x01\x03\x00\xfc\xffabc", 3).err().unwrap();
    assert!(err.message().contains("signature"));
}

#[test]
fn wrong_uncompressed_size_is_rejected() {
    let mut compressor = MsZipCompressor::new();
    let block = compressor.compress_block(b"Hello, world!\n", true).unwrap();
    let mut decompressor = MsZipDecompressor::new();
    assert!(decompressor.decompress_block(&block, 15).is_err());
}
