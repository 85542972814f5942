use cab::CompressionType;

#[test]
fn compression_type_to_bitfield() {
    assert_eq!(CompressionType::Uncompressed.to_bitfield(), 0x0);
    assert_eq!(CompressionType::MsZip.to_bitfield(), 0x1);
    assert_eq!(CompressionType::Quantum(7, 20).to_bitfield(), 0x1472);
    assert_eq!(CompressionType::Lzx(21).to_bitfield(), 0x1503);
}

#[test]
fn compression_type_from_bitfield() {
    assert_eq!(CompressionType::from_bitfield(0x0).unwrap(), CompressionType::Uncompressed);
    assert_eq!(CompressionType::from_bitfield(0x1).unwrap(), CompressionType::MsZip);
    assert_eq!(CompressionType::from_bitfield(0x1472).unwrap(), CompressionType::Quantum(7, 20));
    assert_eq!(CompressionType::from_bitfield(0x1503).unwrap(), CompressionType::Lzx(21));
}

#[test]
fn quantum_fields_clamp_on_encode() {
    assert_eq!(CompressionType::Quantum(0, 5).to_bitfield(), 0x0a12);
    assert_eq!(CompressionType::Quantum(9, 30).to_bitfield(), 0x1572);
}

#[test]
fn invalid_bitfields_are_rejected() {
    // Scheme nibbles past LZX, and out-of-range Quantum and LZX fields.
    assert!(CompressionType::from_bitfield(0x4).is_err());
    assert!(CompressionType::from_bitfield(0x0002).is_err());
    assert!(CompressionType::from_bitfield(0x1602).is_err());
    assert!(CompressionType::from_bitfield(0x0e03).is_err());
    assert!(CompressionType::from_bitfield(0x1a03).is_err());
}
