use cab::Checksum;

#[test]
fn empty_checksum() {
    assert_eq!(Checksum::new().value(), 0);
}

#[test]
fn simple_checksums() {
    let mut checksum = Checksum::new();
    checksum.update(b"\x0e\0\x0e\0Hello, world!\n");
    assert_eq!(checksum.value(), 0x7f2e1a4c);

    let mut checksum = Checksum::new();
    checksum.update(b"\x1d\0\x1d\0Hello, world!\nSee you later!\n");
    assert_eq!(checksum.value(), 0x3509541a);
}

#[test]
fn checksum_from_cab_spec() {
    // This comes from the example cabinet file found in the CAB spec.
    let mut checksum = Checksum::new();
    checksum.update(
        b"\x97\0\x97\0#include <stdio.h>\r\n\r\n\
          void main(void)\r\n{\r\n    \
          printf(\"Hello, world!\\n\");\r\n}\r\n\
          #include <stdio.h>\r\n\r\n\
          void main(void)\r\n{\r\n    \
          printf(\"Welcome!\\n\");\r\n}\r\n\r\n",
    );
    assert_eq!(checksum.value(), 0x30a65abd);
}

#[test]
fn checksum_tail_lengths() {
    // One, two and three trailing bytes take the prescribed byte swaps.
    let mut c = Checksum::new();
    c.update(b"\x01");
    assert_eq!(c.value(), 0x01);

    let mut c = Checksum::new();
    c.update(b"\x01\x02");
    assert_eq!(c.value(), 0x0102);

    let mut c = Checksum::new();
    c.update(b"\x01\x02\x03");
    assert_eq!(c.value(), 0x010203);

    let mut c = Checksum::new();
    c.update(b"\x01\x02\x03\x04");
    assert_eq!(c.value(), 0x04030201);
}

#[test]
fn checksum_split_updates_match_one_update() {
    let mut a = Checksum::new();
    a.update(b"\x0e\0\x0e\0Hello,");
    a.update(b" world!\n");
    let mut b = Checksum::new();
    b.update(b"\x0e\0\x0e\0Hello, world!\n");
    assert_eq!(a.value(), b.value());
}
