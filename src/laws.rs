//! Properties of decoding that hold for every input.
use vstd::prelude::*;
use crate::bytes::{
    be_word, be_word_at, c_string_at, is_first_match, lemma_first_match_unique, matches_at, terminator,
    widen,
};
use crate::codec::lzma_decoded;
use crate::entries::ToFEntry;
use crate::error::ParseError;
use crate::minifs::{
    assembly_ok, chunk_count_of, chunk_sizes_match, chunks_in_bounds, compressed_chunk,
    data_in_bounds, data_of, decoded_chunks, file_resolves, file_table_of, filename_of,
    files_no_of, header_start_of, image_of, is_assembly, magic, max_chunk_number, parse_outcome,
    path_of, raw_offset_of, DecompressedFile, MiniFsView, HEADER_SIZE, LZMA_CONFIGURATION_WORD,
};

verus! {

/// The largest chunk index is at least every referenced index, and is one of
/// them when there is any.
pub proof fn lemma_max_chunk_number(files: Seq<ToFEntry>)
    ensures
        -1 <= max_chunk_number(files) <= u32::MAX,
        forall|k: int| 0 <= k < files.len() ==> files[k].chunk_number <= max_chunk_number(files),
        files.len() > 0 ==> exists|k: int|
            0 <= k < files.len() && files[k].chunk_number == max_chunk_number(files),
    decreases files.len(),
{
    if files.len() > 0 {
        let rest = files.drop_last();
        lemma_max_chunk_number(rest);
        assert forall|k: int| 0 <= k < files.len() implies files[k].chunk_number
            <= max_chunk_number(files) by {
            if k < files.len() - 1 {
                assert(files[k] == rest[k]);
            }
        }
        if max_chunk_number(files) != files.last().chunk_number {
            let k = choose|k: int|
                0 <= k < rest.len() && rest[k].chunk_number == max_chunk_number(rest);
            assert(files[k] == rest[k]);
        }
    }
}

/// A buffer in which the signature occurs nowhere is rejected with
/// `InvalidHeader`.
pub proof fn lemma_no_signature_invalid_header(c: Seq<u8>)
    requires
        forall|i: int| !matches_at(c, magic(), i),
    ensures
        parse_outcome(c) == Err::<MiniFsView, ParseError>(ParseError::InvalidHeader),
{
}

/// A buffer that holds the signature, whose header, tables and configuration
/// word fit in it, but whose configuration word is not the supported one, is
/// rejected with `UnsupportedVersion`.
pub proof fn lemma_wrong_configuration_word(c: Seq<u8>)
    requires
        exists|i: int| matches_at(c, magic(), i),
        image_of(c).len() >= HEADER_SIZE,
        raw_offset_of(image_of(c)) + 4 <= image_of(c).len(),
        be_word_at(image_of(c), raw_offset_of(image_of(c))) != LZMA_CONFIGURATION_WORD,
    ensures
        parse_outcome(c) == Err::<MiniFsView, ParseError>(ParseError::UnsupportedVersion),
{
    lemma_max_chunk_number(file_table_of(image_of(c)));
}

/// A decoded image holds one file-table entry per file declared in the
/// header, and an assembly of it yields one record per entry, the k-th record
/// being built from the k-th entry.
pub proof fn lemma_one_record_per_entry(
    c: Seq<u8>,
    v: MiniFsView,
    d: Seq<Seq<u8>>,
    out: Seq<DecompressedFile>,
)
    requires
        parse_outcome(c) == Ok::<MiniFsView, ParseError>(v),
        is_assembly(out, v, d),
    ensures
        out.len() == v.files.len(),
        out.len() == files_no_of(image_of(c)),
        forall|k: int|
            0 <= k < out.len() ==> v.files[k] == file_table_of(image_of(c))[k] && path_of(v, k)
                == Some(#[trigger] out[k].path@) && out[k].data@ == d[v.files[k].chunk_number as int].subrange(
                v.files[k].offset_in_chunk as int,
                v.files[k].offset_in_chunk + v.files[k].file_size,
            ),
{
    lemma_max_chunk_number(file_table_of(image_of(c)));
}

/// Decompressing equal bytes yields equal output.
pub proof fn lemma_decode_deterministic(a: Seq<u8>, b: Seq<u8>)
    requires
        a == b,
    ensures
        lzma_decoded(a) == lzma_decoded(b),
{
}

/// Some file of `files` keeps its bytes in chunk `j`.
pub open spec fn references_chunk(files: Seq<ToFEntry>, j: int) -> bool {
    exists|f: int| 0 <= f < files.len() && files[f].chunk_number == j
}

/// When the files reference exactly the chunk indices `0..k`, the image has
/// `k` chunks and `k` chunks are decompressed, however many files share them.
pub proof fn lemma_each_chunk_decoded_once(c: Seq<u8>, v: MiniFsView, k: nat)
    requires
        parse_outcome(c) == Ok::<MiniFsView, ParseError>(v),
        forall|f: int| 0 <= f < v.files.len() ==> v.files[f].chunk_number < k,
        forall|j: int| 0 <= j < k ==> #[trigger] references_chunk(v.files, j),
    ensures
        v.chunks.len() == k,
        decoded_chunks(v).len() == k,
{
    let files = v.files;
    lemma_max_chunk_number(files);
    if k > 0 {
        let j = k - 1;
        assert(references_chunk(files, j));
        let f = choose|f: int| 0 <= f < files.len() && files[f].chunk_number == j;
    }
    if files.len() > 0 {
        let f = choose|f: int| 0 <= f < files.len() && files[f].chunk_number == max_chunk_number(files);
    }
    assert(chunk_count_of(files) == k);
}

/// A file whose range ends exactly at its chunk's end fits in the chunk; one
/// that ends a byte later does not, and then the image cannot be assembled.
pub proof fn lemma_range_boundary(v: MiniFsView, d: Seq<Seq<u8>>, k: int)
    requires
        0 <= k < v.files.len(),
        v.files[k].chunk_number < d.len(),
    ensures
        v.files[k].offset_in_chunk + v.files[k].file_size == d[v.files[k].chunk_number as int].len()
            ==> data_in_bounds(v, d, k),
        v.files[k].offset_in_chunk + v.files[k].file_size == d[v.files[k].chunk_number as int].len()
            + 1 ==> !data_in_bounds(v, d, k) && !assembly_ok(v, d),
{
    assert(!data_in_bounds(v, d, k) ==> !file_resolves(v, d, k));
}

/// A string with no zero byte between its start and the end of the buffer
/// has no value.
pub proof fn lemma_unterminated_string(s: Seq<u8>, i: int)
    requires
        forall|j: int| i <= j < s.len() ==> s[j] != 0,
    ensures
        c_string_at(s, i) is None,
    decreases s.len() - i,
{
    if 0 <= i < s.len() {
        lemma_unterminated_string(s, i + 1);
    }
}

/// An image in which the path or the file name of a file is not terminated
/// before the end of the buffer cannot be assembled.
pub proof fn lemma_unterminated_name_rejected(v: MiniFsView, d: Seq<Seq<u8>>, k: int)
    requires
        0 <= k < v.files.len(),
        (forall|j: int| v.ton_offset + v.files[k].ton_path_offset <= j < v.content.len() ==> v.content[j] != 0)
            || (forall|j: int|
            v.ton_offset + v.files[k].ton_file_name_offset <= j < v.content.len() ==> v.content[j] != 0),
    ensures
        !assembly_ok(v, d),
{
    if forall|j: int|
        v.ton_offset + v.files[k].ton_path_offset <= j < v.content.len() ==> v.content[j] != 0 {
        lemma_unterminated_string(v.content, v.ton_offset + v.files[k].ton_path_offset);
    } else {
        lemma_unterminated_string(v.content, v.ton_offset + v.files[k].ton_file_name_offset);
    }
    assert(!file_resolves(v, d, k));
}

/// The four bytes of `x`, most significant first.
pub open spec fn be_bytes(x: u32) -> Seq<u8> {
    seq![
        (x / 0x1000000) as u8,
        ((x / 0x10000) % 0x100) as u8,
        ((x / 0x100) % 0x100) as u8,
        (x % 0x100) as u8,
    ]
}

proof fn lemma_be_bytes(x: u32)
    ensures
        be_word(be_bytes(x)[0], be_bytes(x)[1], be_bytes(x)[2], be_bytes(x)[3]) == x,
{
    let a = x as int;
    assert(a == (a / 0x1000000) * 0x1000000 + ((a / 0x10000) % 0x100) * 0x10000 + ((a / 0x100)
        % 0x100) * 0x100 + a % 0x100) by (nonlinear_arith)
        requires
            0 <= a < 0x1_0000_0000,
    ;
}

/// The smallest image with one file: a header declaring one file and a
/// name table of four bytes holding `a` and `b`, one file entry (path at 0,
/// name at 2, chunk 0, offset 0, `size` bytes), one chunk entry (offset 0,
/// `c.len()` compressed bytes, `size` decompressed bytes), then the chunk `c`,
/// which opens the raw chunk region.
pub open spec fn minimal_image(c: Seq<u8>, size: u32) -> Seq<u8> {
    magic() + Seq::new(14, |i: int| 0u8) + be_bytes(1) + Seq::new(4, |i: int| 0u8) + be_bytes(4)
        + seq![0x61u8, 0u8, 0x62u8, 0u8] + be_bytes(0) + be_bytes(2) + be_bytes(0) + be_bytes(0)
        + be_bytes(size) + be_bytes(0) + be_bytes(c.len() as u32) + be_bytes(size) + c
}

/// The minimal image over a chunk `c` that opens with the configuration word
/// and decompresses to `d` decodes to one file, with path `a`, name `b` and
/// content `d`.
#[verifier::rlimit(100)]
#[verifier::spinoff_prover]
pub proof fn lemma_minimal_image_round_trip(c: Seq<u8>, d: Seq<u8>)
    requires
        4 <= c.len() <= u32::MAX,
        d.len() <= u32::MAX,
        c.subrange(0, 4) == be_bytes(LZMA_CONFIGURATION_WORD),
        d == lzma_decoded(c),
    ensures
        parse_outcome(minimal_image(c, d.len() as u32)) matches Ok(v) && {
            &&& v.header_start == 0
            &&& v.files.len() == 1
            &&& v.chunks.len() == 1
            &&& chunks_in_bounds(v)
            &&& compressed_chunk(v, 0) == c
            &&& decoded_chunks(v) == seq![d]
            &&& chunk_sizes_match(v, decoded_chunks(v))
            &&& assembly_ok(v, decoded_chunks(v))
            &&& path_of(v, 0) == Some(widen(seq![0x61u8]))
            &&& filename_of(v, 0) == Some(widen(seq![0x62u8]))
            &&& data_of(v, decoded_chunks(v), 0) == d
        },
{
    let size = d.len() as u32;
    let img = minimal_image(c, size);
    let pre = img.subrange(0, 68);
    assert(img.len() == 68 + c.len());
    let b1 = be_bytes(1);
    let b4 = be_bytes(4);
    let b0 = be_bytes(0);
    let b2 = be_bytes(2);
    let bs = be_bytes(size);
    let bc = be_bytes(c.len() as u32);
    lemma_be_bytes(1);
    lemma_be_bytes(4);
    lemma_be_bytes(0);
    lemma_be_bytes(2);
    lemma_be_bytes(size);
    lemma_be_bytes(c.len() as u32);
    lemma_be_bytes(LZMA_CONFIGURATION_WORD);
    assert(img =~= seq![
        0x4Du8, 0x49u8, 0x4Eu8, 0x49u8, 0x46u8, 0x53u8,
        0u8, 0u8, 0u8, 0u8, 0u8, 0u8, 0u8, 0u8, 0u8, 0u8, 0u8, 0u8, 0u8, 0u8,
        b1[0], b1[1], b1[2], b1[3], 0u8, 0u8, 0u8, 0u8, b4[0], b4[1], b4[2], b4[3],
        0x61u8, 0u8, 0x62u8, 0u8,
        b0[0], b0[1], b0[2], b0[3], b2[0], b2[1], b2[2], b2[3], b0[0], b0[1], b0[2], b0[3],
        b0[0], b0[1], b0[2], b0[3], bs[0], bs[1], bs[2], bs[3],
        b0[0], b0[1], b0[2], b0[3], bc[0], bc[1], bc[2], bc[3], bs[0], bs[1], bs[2], bs[3],
    ] + c);
    assert(img.subrange(0, 6) =~= magic());
    assert(matches_at(img, magic(), 0));
    assert(is_first_match(img, magic(), 0));
    lemma_first_match_unique(img, magic(), header_start_of(img), 0);
    assert(image_of(img) =~= img);
    assert(files_no_of(img) == 1);
    let files = file_table_of(img);
    assert(files[0].chunk_number == 0);
    assert(files.len() == 1);
    assert(files.drop_last() =~= Seq::<ToFEntry>::empty());
    assert(max_chunk_number(files.drop_last()) == -1);
    assert(max_chunk_number(files) == 0);
    assert(raw_offset_of(img) == 68);
    assert(img.subrange(68, 72) =~= c.subrange(0, 4));
    assert(be_word_at(img, 68) == LZMA_CONFIGURATION_WORD);
    let v = parse_outcome(img)->Ok_0;
    assert(compressed_chunk(v, 0) =~= c);
    assert(decoded_chunks(v) =~= seq![d]);
    assert(terminator(img, 33) == Some(33int));
    assert(terminator(img, 32) == Some(33int));
    assert(c_string_at(img, 32) == Some(widen(img.subrange(32, 33))));
    assert(img.subrange(32, 33) =~= seq![0x61u8]);
    assert(terminator(img, 35) == Some(35int));
    assert(terminator(img, 34) == Some(35int));
    assert(c_string_at(img, 34) == Some(widen(img.subrange(34, 35))));
    assert(img.subrange(34, 35) =~= seq![0x62u8]);
    assert(file_resolves(v, decoded_chunks(v), 0));
    assert(d.subrange(0, d.len() as int) =~= d);
}

} // verus!
