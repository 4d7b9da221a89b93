use rflasher::ch341a::{cs_packet, reverse_byte, spi_stream_answer, spi_stream_out};

#[test]
fn test_reverse_byte() {
    assert_eq!(reverse_byte(0x01), 0x80);
    assert_eq!(reverse_byte(0x9C), 0x39);
    assert_eq!(reverse_byte(0xA5), 0xA5);
    assert_eq!(reverse_byte(0xF0), 0x0F);
}

#[test]
fn test_spi_stream_out_single_packet() {
    let cs = [0u8; 32];
    let out = spi_stream_out(&cs, &[0x01, 0x02], 2);
    let mut want = vec![0u8; 32];
    want.extend_from_slice(&[0xA8, 0x80, 0x40, 0xFF, 0xFF]);
    assert_eq!(out, want);
}

#[test]
fn test_spi_stream_out_splits_at_31_bytes() {
    let cs = [0x11u8; 32];
    let data = vec![0x01u8; 40];
    let out = spi_stream_out(&cs, &data, 0);
    assert_eq!(out.len(), 32 + 1 + 31 + 1 + 9);
    assert_eq!(out[32], 0xA8);
    assert!(out[33..64].iter().all(|&b| b == 0x80));
    assert_eq!(out[64], 0xA8);
    assert!(out[65..].iter().all(|&b| b == 0x80));
}

#[test]
fn test_spi_stream_out_empty() {
    let cs = [0x22u8; 32];
    assert_eq!(spi_stream_out(&cs, &[], 0), vec![0x22u8; 32]);
}

#[test]
fn test_spi_stream_answer() {
    let rbuf = [0x55, 0x66, 0x01, 0x80];
    assert_eq!(spi_stream_answer(&rbuf, 2, 2), vec![0x80, 0x01]);
}

#[test]
fn test_cs_packet() {
    let p = cs_packet(0);
    assert_eq!(&p[..6], &[0xAB, 0xB7, 0xB7, 0xB7, 0xB6, 0x20]);
    assert!(p[6..].iter().all(|&b| b == 0));
    let q = cs_packet(30);
    assert_eq!(q[0], 0xAB);
    assert!(q[1..30].iter().all(|&b| b == 0xB7));
    assert_eq!(&q[30..], &[0xB6, 0x20]);
    let r = cs_packet(3);
    assert_eq!(&r[..8], &[0xAB, 0xB7, 0xB7, 0xB7, 0xB7, 0xB7, 0xB6, 0x20]);
}
