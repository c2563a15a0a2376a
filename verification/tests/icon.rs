use flodo::icon::{adler32, crc32, encode_png, zlib_stored};

fn be32(b: &[u8]) -> u32 {
    u32::from_be_bytes([b[0], b[1], b[2], b[3]])
}

#[test]
fn png_is_well_formed() {
    let size = 32u32;
    let px: Vec<u8> = (0..size * size * 4).map(|i| (i % 251) as u8).collect();
    let bytes = encode_png(&px, size, size);
    assert_eq!(&bytes[..8], &[0x89, b'P', b'N', b'G', 0x0d, 0x0a, 0x1a, 0x0a]);
    assert_eq!(&bytes[12..16], b"IHDR");
    assert_eq!(&bytes[16..20], &32u32.to_be_bytes());
    assert_eq!(&bytes[20..24], &32u32.to_be_bytes());
    assert_eq!(&bytes[bytes.len() - 8..bytes.len() - 4], b"IEND");
}

#[test]
fn every_chunk_carries_a_correct_crc() {
    let px = vec![7u8; 4 * 3 * 2];
    let bytes = encode_png(&px, 3, 2);
    let mut at = 8;
    let mut kinds = Vec::new();
    while at < bytes.len() {
        let len = be32(&bytes[at..]) as usize;
        let kind_and_data = &bytes[at + 4..at + 8 + len];
        let crc = be32(&bytes[at + 8 + len..]);
        assert_eq!(crc, crc32(0xffff_ffff, kind_and_data) ^ 0xffff_ffff);
        kinds.push(String::from_utf8(bytes[at + 4..at + 8].to_vec()).unwrap());
        at += 12 + len;
    }
    assert_eq!(at, bytes.len());
    assert_eq!(kinds, vec!["IHDR", "IDAT", "IEND"]);
}

#[test]
fn the_scanlines_are_filtered_rows_of_pixels() {
    let px: Vec<u8> = (1..=16).collect();
    let bytes = encode_png(&px, 2, 2);
    // IHDR is 8 + 25 bytes; IDAT's data starts after its length and kind.
    let idat = 8 + 25;
    let len = be32(&bytes[idat..]) as usize;
    let z = &bytes[idat + 8..idat + 8 + len];
    let raw = &z[7..z.len() - 4];
    let mut want = vec![0u8];
    want.extend_from_slice(&px[..8]);
    want.push(0);
    want.extend_from_slice(&px[8..]);
    assert_eq!(raw, &want[..]);
}

#[test]
fn stored_blocks_carry_every_byte() {
    let data: Vec<u8> = (0..140_000u32).map(|i| i as u8).collect();
    let z = zlib_stored(&data);
    let mut at = 2;
    let mut seen = Vec::new();
    loop {
        let last = z[at] == 1;
        let len = u16::from_le_bytes([z[at + 1], z[at + 2]]) as usize;
        let nlen = u16::from_le_bytes([z[at + 3], z[at + 4]]);
        assert_eq!(nlen, !(len as u16), "NLEN is not LEN's complement");
        seen.extend_from_slice(&z[at + 5..at + 5 + len]);
        at += 5 + len;
        if last {
            break;
        }
    }
    assert_eq!(seen, data);
    assert_eq!(at + 4, z.len(), "adler32 should be the only thing left");
}

#[test]
fn checksums_match_their_published_values() {
    assert_eq!(crc32(0xffff_ffff, b"IEND") ^ 0xffff_ffff, 0xae42_6082);
    assert_eq!(crc32(0xffff_ffff, b"123456789") ^ 0xffff_ffff, 0xcbf4_3926);
    assert_eq!(crc32(7, b""), 7);
    assert_eq!(adler32(b"Wikipedia"), 0x11e6_0398);
    assert_eq!(adler32(b""), 1);
}

#[test]
fn an_empty_stream_is_one_final_empty_block() {
    let z = zlib_stored(&[]);
    assert_eq!(z, vec![0x78, 0x01, 1, 0, 0, 0xff, 0xff, 0, 0, 0, 1]);
}

#[test]
fn a_stored_stream_is_five_bytes_per_block_around_the_data() {
    for n in [0usize, 1, 65535, 65536, 131070, 131071] {
        let data = vec![7u8; n];
        let blocks = if n == 0 { 1 } else { n.div_ceil(65535) };
        let z = zlib_stored(&data);
        assert_eq!(z.len(), 2 + 5 * blocks + n + 4, "n = {n}");
        assert_eq!(&z[..2], &[0x78, 0x01]);
        assert_eq!(z[2], if n <= 65535 { 1 } else { 0 });
        assert_eq!(be32(&z[z.len() - 4..]), adler32(&data));
    }
}
