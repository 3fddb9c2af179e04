use compression::prelude::{DecodeExt, ZlibDecoder};
use hexpng::crc32::hash;
use hexpng::png::{
    assemble_png, chunk, chunk_checksum, generate_data, generate_png, idat_data, ihdr_data,
};

#[test]
fn test_generate_png_data() {
    let expected_width = 10;
    let expected_height = 10;
    let png_data = generate_png(235, 35, 35, 127).unwrap();

    let compressed_width = u32::from_be_bytes(png_data[16..20].try_into().unwrap());
    let compressed_height = u32::from_be_bytes(png_data[20..24].try_into().unwrap());

    assert!(compressed_width == expected_width && compressed_height == expected_height, "png dimensions doesn't match");

    let decompressed_data = png_data[41..png_data.len()-12].to_vec().decode(&mut ZlibDecoder::new()).collect::<Result<Vec<u8>, _>>().unwrap();
    assert!(decompressed_data[..9].to_vec() == vec![0, 235, 35, 35, 127, 235, 35, 35, 127], "png data is corrupted");
}

#[test]
fn pixel_rows_start_with_the_filter_byte() {
    assert_eq!(generate_data(1, 2, 3, 4, 2, 2), vec![0, 1, 2, 3, 4, 1, 2, 3, 4, 0, 1, 2, 3, 4, 1, 2, 3, 4]);
    assert_eq!(generate_data(9, 8, 7, 6, 1, 3), vec![0, 9, 8, 7, 6, 0, 9, 8, 7, 6, 0, 9, 8, 7, 6]);
}

#[test]
fn pixel_rows_of_an_empty_image() {
    assert_eq!(generate_data(1, 2, 3, 4, 5, 0), Vec::<u8>::new());
    assert_eq!(generate_data(1, 2, 3, 4, 0, 3), vec![0, 0, 0]);
}

#[test]
fn pixel_rows_of_the_fixed_size() {
    let data = generate_data(235, 35, 35, 127, 10, 10);
    assert_eq!(data.len(), 410);
    for row in 0..10 {
        assert_eq!(data[row * 41], 0);
        for px in 0..10 {
            assert_eq!(&data[row * 41 + 1 + 4 * px..row * 41 + 5 + 4 * px], &[235, 35, 35, 127]);
        }
    }
}

#[test]
fn header_payload_is_thirteen_bytes() {
    assert_eq!(ihdr_data(10, 10, 8, 6), vec![0, 0, 0, 10, 0, 0, 0, 10, 8, 6, 0, 0, 0]);
    assert_eq!(
        ihdr_data(0x01020304, 0xA0B0C0D0, 16, 2),
        vec![0x01, 0x02, 0x03, 0x04, 0xA0, 0xB0, 0xC0, 0xD0, 16, 2, 0, 0, 0]
    );
}

#[test]
fn chunk_checksum_is_the_checksum_of_type_and_payload() {
    assert_eq!(chunk_checksum(b"IEND", b""), 0xAE426082);
    assert_eq!(chunk_checksum(b"IDAT", &[1, 2, 3]), 0x533717AD);
    assert_eq!(chunk_checksum(b"tEXt", b"abc"), hash(b"tEXtabc"));
    assert_eq!(chunk_checksum(b"tEXt", b"abc"), 0xFC859B88);
    assert_eq!(chunk_checksum(b"", b""), 0);
}

#[test]
fn end_chunk_is_the_known_twelve_bytes() {
    assert_eq!(chunk(b"IEND", b""), vec![0, 0, 0, 0, 0x49, 0x45, 0x4E, 0x44, 0xAE, 0x42, 0x60, 0x82]);
}

#[test]
fn chunk_frames_length_type_payload_checksum() {
    assert_eq!(
        chunk(b"IDAT", &[1, 2, 3]),
        vec![0, 0, 0, 3, 0x49, 0x44, 0x41, 0x54, 1, 2, 3, 0x53, 0x37, 0x17, 0xAD]
    );
    let payload = vec![7u8; 300];
    let framed = chunk(b"IDAT", &payload);
    assert_eq!(framed.len(), 312);
    assert_eq!(&framed[..4], &[0, 0, 1, 44]);
    assert_eq!(&framed[8..308], &payload[..]);
}

#[test]
fn header_chunk_of_the_fixed_size() {
    assert_eq!(
        chunk(b"IHDR", &ihdr_data(10, 10, 8, 6)),
        vec![
            0, 0, 0, 13, 0x49, 0x48, 0x44, 0x52, 0, 0, 0, 10, 0, 0, 0, 10, 8, 6, 0, 0, 0, 0x8D,
            0x32, 0xCF, 0xBD
        ]
    );
}

#[test]
fn encoder_output_is_a_zlib_stream() {
    // one byte, as the encoder's own documentation gives it
    assert_eq!(
        idat_data(vec![b'a']),
        Ok(vec![0x78, 0xDA, 0x4B, 0x04, 0x00, 0x00, 0x62, 0x00, 0x62])
    );
}

#[test]
fn encoder_output_decodes_to_the_input() {
    let data = generate_data(10, 20, 30, 40, 10, 10);
    let packed = idat_data(data.clone()).unwrap();
    assert_ne!(packed, data);
    assert_eq!(&packed[..2], &[0x78, 0xDA]);
    let unpacked = packed.decode(&mut ZlibDecoder::new()).collect::<Result<Vec<u8>, _>>().unwrap();
    assert_eq!(unpacked, data);
}

#[test]
fn file_around_given_rows() {
    let idat = [0x78u8, 0xDA, 0x4B, 0x04, 0x00, 0x00, 0x62, 0x00, 0x62];
    let png = assemble_png(&idat);
    let mut expected = vec![0x89, b'P', b'N', b'G', b'\r', b'\n', 0x1A, b'\n'];
    expected.extend_from_slice(&chunk(b"IHDR", &[0, 0, 0, 10, 0, 0, 0, 10, 8, 6, 0, 0, 0]));
    expected.extend_from_slice(&chunk(b"IDAT", &idat));
    expected.extend_from_slice(&chunk(b"IEND", b""));
    assert_eq!(png, expected);
    assert_eq!(png.len(), 8 + 25 + 21 + 12);
    assert_eq!(&png[33..41], &[0, 0, 0, 9, b'I', b'D', b'A', b'T']);
}

#[test]
fn file_is_the_assembly_of_the_encoded_rows() {
    let png = generate_png(1, 2, 3, 255).unwrap();
    let idat = idat_data(generate_data(1, 2, 3, 255, 10, 10)).unwrap();
    assert_eq!(png, assemble_png(&idat));
    assert_eq!(&png[..8], &[0x89, 0x50, 0x4E, 0x47, 0x0D, 0x0A, 0x1A, 0x0A]);
    assert_eq!(&png[png.len() - 12..], &[0, 0, 0, 0, 0x49, 0x45, 0x4E, 0x44, 0xAE, 0x42, 0x60, 0x82]);
    // every row of the file decodes to the colour
    let rows = png[41..png.len() - 12].to_vec().decode(&mut ZlibDecoder::new()).collect::<Result<Vec<u8>, _>>().unwrap();
    assert_eq!(rows, generate_data(1, 2, 3, 255, 10, 10));
}

#[test]
fn data_chunk_checksum_covers_type_and_stream() {
    let png = generate_png(0, 0, 0, 0).unwrap();
    let end = png.len() - 12;
    let stored = u32::from_be_bytes(png[end - 4..end].try_into().unwrap());
    assert_eq!(stored, hash(&png[37..end - 4]));
    let length = u32::from_be_bytes(png[33..37].try_into().unwrap());
    assert_eq!(length as usize, end - 4 - 41);
}
