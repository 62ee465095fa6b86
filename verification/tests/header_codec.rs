use bootkit::header::{Header, EXTENT_OFFSET, HEADER_SIZE};

#[test]
fn header_takes_sixteen_bytes() {
    assert_eq!(HEADER_SIZE, 16);
    assert_eq!(EXTENT_OFFSET, 8);
}

#[test]
fn stored_header_is_flags_padding_and_little_endian_extent() {
    let mut mem = vec![0xEEu8; 20];
    Header { is_sentinel: true, is_occupied: false, extent: 0x0102 }.store(&mut mem, 2);
    assert_eq!(mem, vec![0xEE, 0xEE, 1, 0, 0, 0, 0, 0, 0, 0, 2, 1, 0, 0, 0, 0, 0, 0, 0xEE, 0xEE]);
    Header { is_sentinel: false, is_occupied: true, extent: 0x0A0B0C0D }.store(&mut mem, 4);
    assert_eq!(mem, vec![0xEE, 0xEE, 1, 0, 0, 1, 0, 0, 0, 0, 0, 0, 0x0D, 0x0C, 0x0B, 0x0A, 0, 0, 0, 0]);
}

#[test]
fn load_gives_back_what_store_wrote() {
    let mut mem = vec![0x55u8; 64];
    let headers = [
        Header { is_sentinel: false, is_occupied: false, extent: 0 },
        Header { is_sentinel: true, is_occupied: true, extent: 1 },
        Header { is_sentinel: false, is_occupied: true, extent: 255 },
        Header { is_sentinel: true, is_occupied: false, extent: 256 },
        Header { is_sentinel: false, is_occupied: false, extent: 0x1234_5678 },
        Header { is_sentinel: true, is_occupied: true, extent: usize::MAX },
    ];
    for (k, h) in headers.iter().enumerate() {
        let at = 3 * k;
        h.store(&mut mem, at);
        assert_eq!(Header::load(&mem, at), *h);
    }
}

#[test]
fn load_reads_any_sixteen_bytes() {
    let mem: Vec<u8> = vec![7, 0, 9, 9, 9, 9, 9, 9, 0x10, 0x20, 0, 0, 0, 0, 0, 0];
    assert_eq!(Header::load(&mem, 0), Header { is_sentinel: true, is_occupied: false, extent: 0x2010 });
}
