use minifs::bytes::{find_bytes, get_offset, read_be_u32, read_string};
use minifs::minifs::{accept_chunk, decompress_chunk, DecompressedFile};
use minifs::{MiniFs, ParseError, ToCEntry, ToFEntry};

const WORD: u32 = 0x5D00_0080;

fn be(v: u32) -> [u8; 4] {
    v.to_be_bytes()
}

/// Lays out a header, a name table, the two tables, the configuration word
/// and the chunk payload, after `prefix`.
fn build_image(
    prefix: &[u8],
    names: &[u8],
    files: &[[u32; 5]],
    chunks: &[[u32; 3]],
    word: u32,
    payload: &[u8],
) -> Vec<u8> {
    let mut out = prefix.to_vec();
    let mut header = vec![0u8; 32];
    header[..6].copy_from_slice(b"MINIFS");
    header[0x14..0x18].copy_from_slice(&be(files.len() as u32));
    header[0x1c..0x20].copy_from_slice(&be(names.len() as u32));
    out.extend_from_slice(&header);
    out.extend_from_slice(names);
    for f in files {
        for v in f {
            out.extend_from_slice(&be(*v));
        }
    }
    for c in chunks {
        for v in c {
            out.extend_from_slice(&be(*v));
        }
    }
    out.extend_from_slice(&be(word));
    out.extend_from_slice(payload);
    out
}

fn compress(data: &[u8]) -> Vec<u8> {
    lzma::compress(data, 6).unwrap()
}

/// One file `dir/file.txt` holding `content`, in one chunk.
fn single_file_image(content: &[u8], offset: u32, len: u32) -> Vec<u8> {
    let names = b"dir\0file.txt\0";
    let packed = compress(content);
    build_image(
        b"",
        names,
        &[[0, 4, 0, offset, len]],
        &[[4, packed.len() as u32, content.len() as u32]],
        WORD,
        &packed,
    )
}

fn extract_all(image: Vec<u8>) -> Result<Vec<DecompressedFile>, ParseError> {
    MiniFs::parse(image)?.extract()
}

#[test]
fn missing_signature_is_invalid_header() {
    assert!(matches!(MiniFs::parse(vec![]), Err(ParseError::InvalidHeader)));
    assert!(matches!(MiniFs::parse(vec![0u8; 200]), Err(ParseError::InvalidHeader)));
    assert!(matches!(MiniFs::parse(b"MINIF".to_vec()), Err(ParseError::InvalidHeader)));
    assert!(matches!(MiniFs::parse(b"xxMINIxFS".to_vec()), Err(ParseError::InvalidHeader)));
}

#[test]
fn wrong_configuration_word_is_unsupported() {
    let image = build_image(b"", b"a\0", &[[0, 0, 0, 0, 1]], &[[4, 1, 1]], 0x5D00_0081, &[0]);
    assert!(matches!(MiniFs::parse(image), Err(ParseError::UnsupportedVersion)));
    let image = build_image(b"firmware", b"a\0", &[[0, 0, 0, 0, 1]], &[[4, 1, 1]], 0, &[0]);
    assert!(matches!(MiniFs::parse(image), Err(ParseError::UnsupportedVersion)));
}

#[test]
fn truncated_header_is_corrupt() {
    let mut image = b"MINIFS".to_vec();
    image.extend_from_slice(&[0u8; 25]);
    assert!(matches!(MiniFs::parse(image), Err(ParseError::Corrupt)));
}

#[test]
fn truncated_tables_are_corrupt() {
    let full = build_image(b"", b"a\0", &[[0, 0, 0, 0, 1]], &[[4, 1, 1]], WORD, &[]);
    // cut inside the file table, inside the chunk table, inside the word
    for cut in [40usize, 60, 68, full.len() - 1] {
        let image = full[..cut].to_vec();
        assert!(matches!(MiniFs::parse(image), Err(ParseError::Corrupt)), "cut {cut}");
    }
    assert!(MiniFs::parse(full).is_ok());
}

#[test]
fn header_is_found_inside_a_larger_image() {
    let image = build_image(b"bootloader MINI", b"a\0", &[[0, 0, 0, 0, 0]], &[[4, 0, 0]], WORD, &[]);
    let fs = MiniFs::parse(image).unwrap();
    assert_eq!(fs.get_header_start(), 15);
    assert_eq!(fs.get_files_no(), 1);
}

#[test]
fn empty_file_table_yields_no_files() {
    let image = build_image(b"", b"", &[], &[], WORD, &[]);
    let fs = MiniFs::parse(image).unwrap();
    assert_eq!(fs.get_files_no(), 0);
    assert_eq!(fs.get_chunks_no(), 0);
    assert_eq!(fs.decompress_chunks().unwrap().len(), 0);
    assert_eq!(fs.extract().unwrap().len(), 0);
}

#[test]
fn round_trip_single_file() {
    let image = single_file_image(b"hello, minifs", 0, 13);
    let fs = MiniFs::parse(image).unwrap();
    assert_eq!(fs.get_header_start(), 0);
    let files = fs.extract().unwrap();
    assert_eq!(files.len(), 1);
    assert_eq!(files[0].path, "dir");
    assert_eq!(files[0].filename, "file.txt");
    assert_eq!(files[0].data, b"hello, minifs".to_vec());
}

#[test]
fn files_spread_over_chunks_keep_table_order() {
    let c0 = b"aaaabbbbbbcc";
    let c1 = b"dddddeee";
    let p0 = compress(c0);
    let p1 = compress(c1);
    let mut payload = p0.clone();
    payload.extend_from_slice(&p1);
    let names = b"root\0a\0b\0c\0d\0e\0";
    let files = [
        [0, 5, 0, 0, 4],
        [0, 7, 0, 4, 6],
        [0, 9, 0, 10, 2],
        [0, 11, 1, 0, 5],
        [0, 13, 1, 5, 3],
    ];
    let chunks = [
        [4, p0.len() as u32, c0.len() as u32],
        [4 + p0.len() as u32, p1.len() as u32, c1.len() as u32],
    ];
    let image = build_image(b"\xff\xff", names, &files, &chunks, WORD, &payload);
    let out = extract_all(image).unwrap();
    assert_eq!(out.len(), 5);
    let got: Vec<(String, Vec<u8>)> = out.into_iter().map(|f| (f.filename, f.data)).collect();
    assert_eq!(
        got,
        vec![
            ("a".to_string(), b"aaaa".to_vec()),
            ("b".to_string(), b"bbbbbb".to_vec()),
            ("c".to_string(), b"cc".to_vec()),
            ("d".to_string(), b"ddddd".to_vec()),
            ("e".to_string(), b"eee".to_vec()),
        ]
    );
}

#[test]
fn chunk_count_follows_largest_index() {
    // the last entry names chunk 0, the largest index is 1
    let c0 = b"xy";
    let c1 = b"z";
    let p0 = compress(c0);
    let p1 = compress(c1);
    let mut payload = p0.clone();
    payload.extend_from_slice(&p1);
    let files = [[0, 0, 1, 0, 1], [0, 0, 0, 0, 2]];
    let chunks = [
        [4, p0.len() as u32, 2],
        [4 + p0.len() as u32, p1.len() as u32, 1],
    ];
    let image = build_image(b"", b"n\0", &files, &chunks, WORD, &payload);
    let out = extract_all(image).unwrap();
    assert_eq!(out[0].data, b"z".to_vec());
    assert_eq!(out[1].data, b"xy".to_vec());
}

#[test]
fn range_ending_at_chunk_end_succeeds() {
    let out = extract_all(single_file_image(b"0123456789", 6, 4)).unwrap();
    assert_eq!(out[0].data, b"6789".to_vec());
}

#[test]
fn range_one_past_chunk_end_is_corrupt() {
    let r = extract_all(single_file_image(b"0123456789", 6, 5));
    assert!(matches!(r, Err(ParseError::Corrupt)));
    let r = extract_all(single_file_image(b"0123456789", 11, 0));
    assert!(matches!(r, Err(ParseError::Corrupt)));
}

#[test]
fn unterminated_name_is_corrupt() {
    // the file name points at the last three bytes of the buffer, "xyz"
    let mut payload = compress(b"");
    let chunk = [4, payload.len() as u32, 0];
    payload.extend_from_slice(b"xyz");
    let mut image = build_image(b"", b"dir\0", &[[0, 0, 0, 0, 0]], &[chunk], WORD, &payload);
    let name_offset = (image.len() - 3 - 32) as u32;
    image[32 + 4 + 4..32 + 4 + 8].copy_from_slice(&be(name_offset));
    assert!(matches!(extract_all(image.clone()), Err(ParseError::Corrupt)));
    // the same name, terminated, is accepted
    image.push(0);
    let out = extract_all(image).unwrap();
    assert_eq!(out[0].filename, "xyz");
    let image = build_image(b"", b"dir\0", &[[0, 400, 0, 0, 0]], &[chunk], WORD, &payload);
    assert!(matches!(extract_all(image), Err(ParseError::Corrupt)));
}

#[test]
fn chunk_outside_buffer_is_corrupt() {
    let image = build_image(b"", b"a\0", &[[0, 0, 0, 0, 1]], &[[4, 100, 1]], WORD, &[1, 2]);
    assert!(matches!(extract_all(image), Err(ParseError::Corrupt)));
}

#[test]
fn wrong_decompressed_size_is_corrupt_chunk() {
    let packed = compress(b"abcdef");
    let image = build_image(
        b"",
        b"a\0",
        &[[0, 0, 0, 0, 1]],
        &[[4, packed.len() as u32, 7]],
        WORD,
        &packed,
    );
    assert!(matches!(extract_all(image), Err(ParseError::CorruptChunk)));
}

#[test]
fn undecodable_chunk_is_corrupt_chunk() {
    let image = build_image(b"", b"a\0", &[[0, 0, 0, 0, 1]], &[[4, 5, 1]], WORD, b"junk!");
    assert!(matches!(extract_all(image), Err(ParseError::CorruptChunk)));
}

#[test]
fn decompression_is_deterministic() {
    let data: Vec<u8> = (0..1000u32).map(|i| (i * 7 % 251) as u8).collect();
    let packed = compress(&data);
    let a = decompress_chunk(&packed, 1000).unwrap();
    let b = decompress_chunk(&packed, 1000).unwrap();
    assert_eq!(a, b);
    assert_eq!(a, data);
    assert!(matches!(decompress_chunk(&packed, 999), Err(ParseError::CorruptChunk)));
    assert!(matches!(decompress_chunk(b"not lzma", 3), Err(ParseError::CorruptChunk)));
}

#[test]
fn accept_chunk_checks_size() {
    assert_eq!(accept_chunk(Some(vec![1, 2, 3]), 3).unwrap(), vec![1, 2, 3]);
    assert!(matches!(accept_chunk(Some(vec![1, 2, 3]), 2), Err(ParseError::CorruptChunk)));
    assert!(matches!(accept_chunk(None, 0), Err(ParseError::CorruptChunk)));
}

#[test]
fn shared_chunk_is_decompressed_once() {
    let c0 = b"0123456789";
    let p0 = compress(c0);
    let files: Vec<[u32; 5]> = (0..10u32).map(|i| [0, 0, 0, i, 1]).collect();
    let image = build_image(b"", b"f\0", &files, &[[4, p0.len() as u32, 10]], WORD, &p0);
    let fs = MiniFs::parse(image).unwrap();
    assert_eq!(fs.get_files_no(), 10);
    assert_eq!(fs.get_chunks_no(), 1);
    let chunks = fs.decompress_chunks().unwrap();
    assert_eq!(chunks, vec![c0.to_vec()]);
    let out = fs.assemble(&chunks).unwrap();
    assert_eq!(out.len(), 10);
    for (i, f) in out.iter().enumerate() {
        assert_eq!(f.data, vec![b'0' + i as u8]);
    }
}

#[test]
fn assemble_uses_given_chunks() {
    let image = build_image(b"", b"p\0q\0", &[[0, 2, 1, 1, 2], [2, 0, 0, 0, 1]], &[[4, 0, 0], [4, 0, 0]], WORD, &[]);
    let fs = MiniFs::parse(image).unwrap();
    let out = fs.assemble(&vec![b"A".to_vec(), b"xyz".to_vec()]).unwrap();
    assert_eq!((out[0].path.as_str(), out[0].filename.as_str()), ("p", "q"));
    assert_eq!(out[0].data, b"yz".to_vec());
    assert_eq!((out[1].path.as_str(), out[1].filename.as_str()), ("q", "p"));
    assert_eq!(out[1].data, b"A".to_vec());
    assert!(matches!(fs.assemble(&vec![b"A".to_vec()]), Err(ParseError::Corrupt)));
}

#[test]
fn names_keep_raw_bytes() {
    let image = build_image(b"", b"d\xe9j\xe0\0f\0", &[[0, 5, 0, 0, 0]], &[[4, 0, 0]], WORD, &[]);
    let fs = MiniFs::parse(image).unwrap();
    let out = fs.assemble(&vec![vec![]]).unwrap();
    assert_eq!(out[0].path, "d\u{e9}j\u{e0}");
}

#[test]
fn table_records_decode_big_endian() {
    let tof = ToFEntry::parse([0, 0, 0, 1, 0, 0, 1, 0, 0, 1, 0, 0, 1, 0, 0, 0, 0xff, 0xff, 0xff, 0xfe]);
    assert_eq!(tof.ton_path_offset, 1);
    assert_eq!(tof.ton_file_name_offset, 0x100);
    assert_eq!(tof.chunk_number, 0x10000);
    assert_eq!(tof.offset_in_chunk, 0x1000000);
    assert_eq!(tof.file_size, 0xffff_fffe);
    let toc = ToCEntry::parse([0x12, 0x34, 0x56, 0x78, 0, 0, 0, 9, 0x80, 0, 0, 0]);
    assert_eq!(toc.chunk_offset, 0x1234_5678);
    assert_eq!(toc.chunk_size, 9);
    assert_eq!(toc.decompressed_size, 0x8000_0000);
}

#[test]
fn byte_helpers() {
    assert_eq!(find_bytes(b"abcabc", b"ca"), Some(2));
    assert_eq!(find_bytes(b"abcabc", b"abc"), Some(0));
    assert_eq!(find_bytes(b"ab", b"abc"), None);
    assert_eq!(find_bytes(b"abcab", b"bb"), None);
    assert_eq!(read_be_u32(&[9, 0x5d, 0, 0, 0x80], 1), 0x5D00_0080);
    assert_eq!(get_offset(b"abcdef", 2, 3), Some(b"cde".to_vec()));
    assert_eq!(get_offset(b"abcdef", 3, 3), Some(b"def".to_vec()));
    assert_eq!(get_offset(b"abcdef", 4, 3), None);
    assert_eq!(get_offset(b"abcdef", 7, 0), None);
    assert_eq!(read_string(b"ab\0cd\0", 3), Some("cd".to_string()));
    assert_eq!(read_string(b"ab\0cd\0", 2), Some(String::new()));
    assert_eq!(read_string(b"ab\0cd", 3), None);
    assert_eq!(read_string(b"ab", 7), None);
}

/// "minifs round trip" as a raw LZMA stream whose first four bytes are the
/// configuration word.
const ALONE_CHUNK: [u8; 41] = [
    0x5d, 0x00, 0x00, 0x80, 0x00, 0xff, 0xff, 0xff, 0xff, 0xff, 0xff, 0xff, 0xff, 0x00, 0x36,
    0x9a, 0x4a, 0x1f, 0x65, 0xba, 0x68, 0x00, 0xb1, 0x3a, 0x55, 0x66, 0x15, 0x06, 0x12, 0xca,
    0x57, 0x49, 0x6a, 0xe1, 0xc4, 0xff, 0xff, 0xbd, 0x24, 0x00, 0x00,
];

#[test]
fn minimal_image_with_word_in_chunk() {
    let d = b"minifs round trip";
    let mut image = b"MINIFS".to_vec();
    image.extend_from_slice(&[0u8; 14]);
    image.extend_from_slice(&be(1));
    image.extend_from_slice(&[0u8; 4]);
    image.extend_from_slice(&be(4));
    image.extend_from_slice(b"a\0b\0");
    for v in [0, 2, 0, 0, d.len() as u32, 0, ALONE_CHUNK.len() as u32, d.len() as u32] {
        image.extend_from_slice(&be(v));
    }
    image.extend_from_slice(&ALONE_CHUNK);
    let fs = MiniFs::parse(image).unwrap();
    assert_eq!(fs.get_files_no(), 1);
    assert_eq!(fs.get_chunks_no(), 1);
    let out = fs.extract().unwrap();
    assert_eq!(out.len(), 1);
    assert_eq!(out[0].path, "a");
    assert_eq!(out[0].filename, "b");
    assert_eq!(out[0].data, d.to_vec());
}
