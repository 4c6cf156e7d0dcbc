use tpt_diskview::icon::{adler32, crc32, make_png_bytes, make_rgba_data, write_chunk};

fn be32(b: &[u8]) -> u32 {
    u32::from_be_bytes([b[0], b[1], b[2], b[3]])
}

#[test]
fn crc32_check_value() {
    assert_eq!(crc32(b"123456789"), 0xCBF4_3926);
    assert_eq!(crc32(b""), 0);
    assert_eq!(crc32(b"IEND"), 0xAE42_6082);
}

#[test]
fn adler32_check_value() {
    assert_eq!(adler32(b"Wikipedia"), 0x11E6_0398);
    assert_eq!(adler32(b""), 1);
}

#[test]
fn chunk_layout() {
    let mut out = vec![9u8];
    write_chunk(&mut out, b"tEXt", b"ab");
    assert_eq!(out.len(), 1 + 4 + 4 + 2 + 4);
    assert_eq!(&out[1..5], &[0, 0, 0, 2]);
    assert_eq!(&out[5..9], b"tEXt");
    assert_eq!(&out[9..11], b"ab");
    assert_eq!(be32(&out[11..15]), crc32(b"tEXtab"));
}

#[test]
fn png_one_pixel() {
    let png = make_png_bytes(1, 1);
    assert_eq!(&png[0..8], &[137, 80, 78, 71, 13, 10, 26, 10]);
    // IHDR
    assert_eq!(be32(&png[8..12]), 13);
    assert_eq!(&png[12..16], b"IHDR");
    assert_eq!(be32(&png[16..20]), 1);
    assert_eq!(be32(&png[20..24]), 1);
    assert_eq!(&png[24..29], &[8, 6, 0, 0, 0]);
    assert_eq!(be32(&png[29..33]), crc32(&png[12..29]));
    // IDAT: one stored block of 5 bytes, then the Adler-32 of the raw data
    let raw = [0u8, 0x60, 0x34, 0x0F, 0xFF];
    assert_eq!(be32(&png[33..37]), 5 + 5 + 4);
    assert_eq!(&png[37..41], b"IDAT");
    assert_eq!(&png[41..46], &[1, 5, 0, 0xFA, 0xFF]);
    assert_eq!(&png[46..51], &raw);
    assert_eq!(be32(&png[51..55]), adler32(&raw));
    // IEND
    let n = png.len();
    assert_eq!(&png[n - 12..], &[0, 0, 0, 0, 73, 69, 78, 68, 0xAE, 0x42, 0x60, 0x82]);
}

#[test]
fn png_large_image_uses_several_blocks() {
    let png = make_png_bytes(256, 256);
    let raw_len = 256 * (1 + 4 * 256);
    let blocks = (raw_len + 65534) / 65535;
    let idat_len = raw_len + 5 * blocks + 4;
    assert_eq!(png.len(), 8 + 25 + (12 + idat_len) + 12);
    assert_eq!(be32(&png[33..37]) as usize, idat_len);
    // first block is not final and full
    assert_eq!(&png[41..46], &[0, 0xFF, 0xFF, 0, 0]);
}

#[test]
fn png_empty_image_has_one_empty_block() {
    let png = make_png_bytes(0, 0);
    assert_eq!(&png[41..46], &[1, 0, 0, 0xFF, 0xFF]);
    assert_eq!(be32(&png[46..50]), 1);
}

#[test]
fn rgba_data_layout() {
    let d = make_rgba_data(3, 2);
    assert_eq!(d.len(), 24);
    for px in d.chunks(4) {
        assert_eq!(px, &[0x0F, 0x34, 0x60, 0xFF]);
    }
    assert!(make_rgba_data(0, 5).is_empty());
}

#[test]
fn ico_file_holds_png_entries() {
    let ico = tpt_diskview::icon::make_ico_bytes(&vec![32, 256]).unwrap();
    assert_eq!(&ico[0..6], &[0, 0, 1, 0, 2, 0]);
    assert_eq!(ico[6], 32);
    assert_eq!(ico[7], 32);
    assert_eq!(ico[22], 0);
    assert_eq!(ico[23], 0);
    let offset = u32::from_le_bytes([ico[18], ico[19], ico[20], ico[21]]) as usize;
    assert_eq!(offset, 6 + 16 * 2);
    assert_eq!(&ico[offset..offset + 8], &[137, 80, 78, 71, 13, 10, 26, 10]);
    let size0 = u32::from_le_bytes([ico[14], ico[15], ico[16], ico[17]]) as usize;
    let offset1 = u32::from_le_bytes([ico[34], ico[35], ico[36], ico[37]]) as usize;
    assert_eq!(offset1, offset + size0);
    assert_eq!(tpt_diskview::icon::make_ico_bytes(&vec![]).unwrap(), vec![0, 0, 1, 0, 0, 0]);
}
