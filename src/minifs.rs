//! Locating, indexing and extracting a minifs image.
use vstd::prelude::*;
use crate::bytes::{
    be_word_at, c_string_at, find_bytes, get_offset, is_first_match, lemma_first_match_unique,
    matches_at, read_be_u32, read_string,
};
use crate::codec::{lzma_decoded, lzma_decompress};
use crate::entries::{
    toc_entry_at, tof_entry_at, ToCEntry, ToFEntry, TOC_ENTRY_SIZE, TOF_ENTRY_SIZE,
};
use crate::error::ParseError;

verus! {

/// Size in bytes of the header that precedes the name table.
pub const HEADER_SIZE: usize = 32;

/// The compression configuration word that opens the raw chunk region.
pub const LZMA_CONFIGURATION_WORD: u32 = 0x5D000080;

/// The signature `MINIFS` that opens the header.
pub open spec fn magic() -> Seq<u8> {
    seq![0x4Du8, 0x49u8, 0x4Eu8, 0x49u8, 0x46u8, 0x53u8]
}

/// The signature occurs somewhere in `c`.
pub open spec fn header_found(c: Seq<u8>) -> bool {
    exists|i: int| matches_at(c, magic(), i)
}

/// Position of the first occurrence of the signature in `c`.
pub open spec fn header_start_of(c: Seq<u8>) -> int {
    choose|i: int| is_first_match(c, magic(), i)
}

/// The bytes of `c` from the header on.
pub open spec fn image_of(c: Seq<u8>) -> Seq<u8> {
    c.subrange(header_start_of(c), c.len() as int)
}

/// Number of files declared by the header of `img`.
pub open spec fn files_no_of(img: Seq<u8>) -> int {
    be_word_at(img, 0x14)
}

/// Size of the name table declared by the header of `img`.
pub open spec fn ton_size_of(img: Seq<u8>) -> int {
    be_word_at(img, 0x1c)
}

/// Where the file table starts in `img`.
pub open spec fn tof_offset_of(img: Seq<u8>) -> int {
    HEADER_SIZE + ton_size_of(img)
}

/// Where the chunk table starts in `img`.
pub open spec fn toc_offset_of(img: Seq<u8>) -> int {
    tof_offset_of(img) + TOF_ENTRY_SIZE * files_no_of(img)
}

/// The file table of `img`, in table order.
pub open spec fn file_table_of(img: Seq<u8>) -> Seq<ToFEntry> {
    Seq::new(
        files_no_of(img) as nat,
        |k: int| tof_entry_at(img, tof_offset_of(img) + TOF_ENTRY_SIZE * k),
    )
}

/// The largest chunk index that `files` reference, or -1 when there are none.
pub open spec fn max_chunk_number(files: Seq<ToFEntry>) -> int
    decreases files.len(),
{
    if files.len() == 0 {
        -1
    } else {
        let m = max_chunk_number(files.drop_last());
        if m < files.last().chunk_number {
            files.last().chunk_number as int
        } else {
            m
        }
    }
}

/// Number of chunks: one more than the largest chunk index referenced.
pub open spec fn chunk_count_of(files: Seq<ToFEntry>) -> int {
    max_chunk_number(files) + 1
}

/// Where the raw chunk region starts in `img`.
pub open spec fn raw_offset_of(img: Seq<u8>) -> int {
    toc_offset_of(img) + TOC_ENTRY_SIZE * chunk_count_of(file_table_of(img))
}

/// The chunk table of `img`, in table order.
pub open spec fn chunk_table_of(img: Seq<u8>) -> Seq<ToCEntry> {
    Seq::new(
        chunk_count_of(file_table_of(img)) as nat,
        |k: int| toc_entry_at(img, toc_offset_of(img) + TOC_ENTRY_SIZE * k),
    )
}

/// A decoded image: its bytes from the header on, where it stood in the
/// buffer, where its regions start, and its two tables.
pub struct MiniFsView {
    pub content: Seq<u8>,
    pub header_start: int,
    pub ton_offset: int,
    pub tof_offset: int,
    pub toc_offset: int,
    pub raw_chunks_offset: int,
    pub files: Seq<ToFEntry>,
    pub chunks: Seq<ToCEntry>,
}

/// What decoding the buffer `c` yields.
pub open spec fn parse_outcome(c: Seq<u8>) -> Result<MiniFsView, ParseError> {
    if !header_found(c) {
        Err(ParseError::InvalidHeader)
    } else {
        let img = image_of(c);
        if img.len() < HEADER_SIZE || toc_offset_of(img) > img.len() || raw_offset_of(img) + 4
            > img.len() {
            Err(ParseError::Corrupt)
        } else if be_word_at(img, raw_offset_of(img)) != LZMA_CONFIGURATION_WORD {
            Err(ParseError::UnsupportedVersion)
        } else {
            Ok(
                MiniFsView {
                    content: img,
                    header_start: header_start_of(c),
                    ton_offset: HEADER_SIZE as int,
                    tof_offset: tof_offset_of(img),
                    toc_offset: toc_offset_of(img),
                    raw_chunks_offset: raw_offset_of(img),
                    files: file_table_of(img),
                    chunks: chunk_table_of(img),
                },
            )
        }
    }
}

/// Where the compressed bytes of chunk `i` start in the image.
pub open spec fn chunk_start(v: MiniFsView, i: int) -> int {
    v.raw_chunks_offset + v.chunks[i].chunk_offset
}

/// The compressed bytes of chunk `i` lie inside the image.
pub open spec fn chunk_in_bounds(v: MiniFsView, i: int) -> bool {
    chunk_start(v, i) + v.chunks[i].chunk_size <= v.content.len()
}

/// Every chunk's compressed bytes lie inside the image.
pub open spec fn chunks_in_bounds(v: MiniFsView) -> bool {
    forall|i: int| 0 <= i < v.chunks.len() ==> chunk_in_bounds(v, i)
}

/// The compressed bytes of chunk `i`.
pub open spec fn compressed_chunk(v: MiniFsView, i: int) -> Seq<u8> {
    v.content.subrange(chunk_start(v, i), chunk_start(v, i) + v.chunks[i].chunk_size)
}

/// Each chunk decompressed, by chunk index.
pub open spec fn decoded_chunks(v: MiniFsView) -> Seq<Seq<u8>> {
    Seq::new(v.chunks.len(), |i: int| lzma_decoded(compressed_chunk(v, i)))
}

/// Every chunk of `d` has the size that the chunk table declares for it.
pub open spec fn chunk_sizes_match(v: MiniFsView, d: Seq<Seq<u8>>) -> bool {
    d.len() == v.chunks.len() && forall|i: int|
        0 <= i < d.len() ==> d[i].len() == v.chunks[i].decompressed_size
}

/// The directory path of file `k`, if its string is terminated.
pub open spec fn path_of(v: MiniFsView, k: int) -> Option<Seq<char>> {
    c_string_at(v.content, v.ton_offset + v.files[k].ton_path_offset)
}

/// The file name of file `k`, if its string is terminated.
pub open spec fn filename_of(v: MiniFsView, k: int) -> Option<Seq<char>> {
    c_string_at(v.content, v.ton_offset + v.files[k].ton_file_name_offset)
}

/// The byte range of file `k` lies inside its chunk in `d`.
pub open spec fn data_in_bounds(v: MiniFsView, d: Seq<Seq<u8>>, k: int) -> bool {
    let f = v.files[k];
    f.chunk_number < d.len() && f.offset_in_chunk + f.file_size <= d[f.chunk_number as int].len()
}

/// The bytes of file `k`, cut out of its chunk in `d`.
pub open spec fn data_of(v: MiniFsView, d: Seq<Seq<u8>>, k: int) -> Seq<u8> {
    let f = v.files[k];
    d[f.chunk_number as int].subrange(
        f.offset_in_chunk as int,
        f.offset_in_chunk + f.file_size,
    )
}

/// File `k` can be assembled from the chunks `d`.
pub open spec fn file_resolves(v: MiniFsView, d: Seq<Seq<u8>>, k: int) -> bool {
    path_of(v, k) is Some && filename_of(v, k) is Some && data_in_bounds(v, d, k)
}

/// Every file can be assembled from the chunks `d`.
pub open spec fn assembly_ok(v: MiniFsView, d: Seq<Seq<u8>>) -> bool {
    forall|k: int| 0 <= k < v.files.len() ==> file_resolves(v, d, k)
}

/// `out` is file `k` as assembled from the chunks `d`.
pub open spec fn is_assembled_file(
    out: DecompressedFile,
    v: MiniFsView,
    d: Seq<Seq<u8>>,
    k: int,
) -> bool {
    &&& path_of(v, k) == Some(out.path@)
    &&& filename_of(v, k) == Some(out.filename@)
    &&& out.data@ == data_of(v, d, k)
}

/// `out` holds every file, in file-table order, as assembled from `d`.
pub open spec fn is_assembly(out: Seq<DecompressedFile>, v: MiniFsView, d: Seq<Seq<u8>>) -> bool {
    out.len() == v.files.len() && forall|k: int|
        0 <= k < out.len() ==> is_assembled_file(#[trigger] out[k], v, d, k)
}

/// A file extracted from the image.
pub struct DecompressedFile {
    /// Directory path, relative to the image's root.
    pub path: String,
    /// File name.
    pub filename: String,
    /// Content.
    pub data: Vec<u8>,
}

/// Accepts a decompressed chunk when there is one and it has the declared size.
pub fn accept_chunk(decoded: Option<Vec<u8>>, declared: u32) -> (r: Result<Vec<u8>, ParseError>)
    ensures
        match decoded {
            Some(v) => if v@.len() == declared {
                r matches Ok(w) && w@ == v@
            } else {
                r == Err::<Vec<u8>, ParseError>(ParseError::CorruptChunk)
            },
            None => r == Err::<Vec<u8>, ParseError>(ParseError::CorruptChunk),
        },
{
    match decoded {
        Some(v) => if v.len() == declared as usize {
            Ok(v)
        } else {
            Err(ParseError::CorruptChunk)
        },
        None => Err(ParseError::CorruptChunk),
    }
}

/// Decompresses one chunk and checks that it has the declared size.
pub fn decompress_chunk(compressed: &[u8], declared: u32) -> (r: Result<Vec<u8>, ParseError>)
    ensures
        match r {
            Ok(v) => v@ == lzma_decoded(compressed@) && v@.len() == declared,
            Err(e) => e == ParseError::CorruptChunk,
        },
        lzma_decoded(compressed@).len() != declared ==> r is Err,
{
    let decoded = match lzma_decompress(compressed) {
        Ok(v) => Some(v),
        Err(_) => None,
    };
    accept_chunk(decoded, declared)
}

struct MiniFsOffsets {
    /// Table of names
    pub ton_offset: usize,
    /// Table of files
    pub tof_offset: usize,
    /// Table of chunks
    pub toc_offset: usize,
    /// Raw chunks
    pub raw_chunks_offset: usize,
}

/// An indexed minifs image, ready for extraction.
pub struct MiniFs {
    content: Vec<u8>,
    header_start: usize,
    offsets: MiniFsOffsets,
    files: Vec<ToFEntry>,
    chunks: Vec<ToCEntry>,
}

impl View for MiniFs {
    type V = MiniFsView;

    closed spec fn view(&self) -> MiniFsView {
        MiniFsView {
            content: self.content@,
            header_start: self.header_start as int,
            ton_offset: self.offsets.ton_offset as int,
            tof_offset: self.offsets.tof_offset as int,
            toc_offset: self.offsets.toc_offset as int,
            raw_chunks_offset: self.offsets.raw_chunks_offset as int,
            files: self.files@,
            chunks: self.chunks@,
        }
    }
}

/// Largest chunk index in `files` plus one, or zero when `files` is empty.
fn chunk_count(files: &Vec<ToFEntry>) -> (r: u64)
    ensures
        r as int == chunk_count_of(files@),
        r <= 0x1_0000_0000,
{
    let mut count: u64 = 0;
    let mut k: usize = 0;
    while k < files.len()
        invariant
            k <= files@.len(),
            count as int == chunk_count_of(files@.subrange(0, k as int)),
            count <= 0x1_0000_0000,
        decreases files@.len() - k,
    {
        let c: u64 = files[k].chunk_number as u64;
        proof {
            assert(files@.subrange(0, k + 1).drop_last() =~= files@.subrange(0, k as int));
        }
        if count < c + 1 {
            count = c + 1;
        }
        k = k + 1;
    }
    assert(files@.subrange(0, k as int) =~= files@);
    count
}

impl MiniFs {
    /// The name table follows the header, and the raw chunk region starts
    /// inside the image.
    #[verifier::type_invariant]
    spec fn inv(&self) -> bool {
        &&& self.offsets.ton_offset == HEADER_SIZE
        &&& self.offsets.raw_chunks_offset + 4 <= self.content@.len()
    }

    /// Finds the header in `content`, decodes the file and chunk tables and
    /// checks the compression configuration word.
    pub fn parse(content: Vec<u8>) -> (r: Result<Self, ParseError>)
        ensures
            match r {
                Ok(fs) => parse_outcome(content@) == Ok::<MiniFsView, ParseError>(fs@),
                Err(e) => parse_outcome(content@) == Err::<MiniFsView, ParseError>(e),
            },
    {
        let signature: [u8; 6] = [0x4D, 0x49, 0x4E, 0x49, 0x46, 0x53];
        assert(signature@ =~= magic());
        let header_start = match find_bytes(content.as_slice(), signature.as_slice()) {
            Some(h) => h,
            None => {
                return Err(ParseError::InvalidHeader);
            },
        };
        proof {
            let h = header_start_of(content@);
            assert(is_first_match(content@, magic(), header_start as int));
            assert(is_first_match(content@, magic(), h));
            lemma_first_match_unique(content@, magic(), h, header_start as int);
        }
        let n: usize = content.len();
        if n - header_start < HEADER_SIZE {
            return Err(ParseError::Corrupt);
        }
        let image = match get_offset(content.as_slice(), header_start, n - header_start) {
            Some(v) => v,
            None => {
                return Err(ParseError::Corrupt);
            },
        };
        let ghost img = image@;
        assert(img =~= image_of(content@));
        let files_no = read_be_u32(image.as_slice(), 0x14);
        let ton_size = read_be_u32(image.as_slice(), 0x1c);
        let tof: u64 = HEADER_SIZE as u64 + ton_size as u64;
        if tof > image.len() as u64 {
            return Err(ParseError::Corrupt);
        }
        let mut offsets = MiniFsOffsets {
            ton_offset: HEADER_SIZE,
            tof_offset: tof as usize,
            toc_offset: 0,
            raw_chunks_offset: 0,
        };
        let files = match Self::parse_files_internal(image.as_slice(), &offsets, files_no) {
            Ok(v) => v,
            Err(e) => {
                return Err(e);
            },
        };
        let toc: u64 = tof + TOF_ENTRY_SIZE as u64 * files_no as u64;
        offsets.toc_offset = toc as usize;
        let chunks_no = chunk_count(&files);
        let chunks = match Self::parse_chunks_internal(image.as_slice(), &offsets, chunks_no) {
            Ok(v) => v,
            Err(e) => {
                return Err(e);
            },
        };
        let raw: u64 = toc + TOC_ENTRY_SIZE as u64 * chunks_no;
        if raw + 4 > image.len() as u64 {
            return Err(ParseError::Corrupt);
        }
        offsets.raw_chunks_offset = raw as usize;
        if read_be_u32(image.as_slice(), raw as usize) != LZMA_CONFIGURATION_WORD {
            return Err(ParseError::UnsupportedVersion);
        }
        let fs = MiniFs { content: image, header_start, offsets, files, chunks };
        assert(fs@.files =~= file_table_of(img));
        assert(fs@.chunks =~= chunk_table_of(img));
        Ok(fs)
    }

    fn parse_files_internal(content: &[u8], offsets: &MiniFsOffsets, files_no: u32) -> (r: Result<
        Vec<ToFEntry>,
        ParseError,
    >)
        ensures
            match r {
                Ok(v) => offsets.tof_offset + TOF_ENTRY_SIZE * files_no <= content@.len() && v@
                    == Seq::new(
                    files_no as nat,
                    |k: int| tof_entry_at(content@, offsets.tof_offset + TOF_ENTRY_SIZE * k),
                ),
                Err(e) => offsets.tof_offset + TOF_ENTRY_SIZE * files_no > content@.len() && e
                    == ParseError::Corrupt,
            },
    {
        if offsets.tof_offset > content.len() || TOF_ENTRY_SIZE as u64 * files_no as u64 > (
        content.len() - offsets.tof_offset) as u64 {
            return Err(ParseError::Corrupt);
        }
        let n: usize = content.len();
        let mut files: Vec<ToFEntry> = Vec::new();
        let mut k: usize = 0;
        while k < files_no as usize
            invariant
                k <= files_no,
                n == content@.len(),
                offsets.tof_offset + TOF_ENTRY_SIZE * files_no <= content@.len(),
                files@.len() == k,
                forall|j: int|
                    0 <= j < k ==> files@[j] == tof_entry_at(
                        content@,
                        offsets.tof_offset + TOF_ENTRY_SIZE * j,
                    ),
            decreases files_no - k,
        {
            let o: usize = offsets.tof_offset + k * TOF_ENTRY_SIZE;
            let data: [u8; TOF_ENTRY_SIZE] = [
                content[o],
                content[o + 1],
                content[o + 2],
                content[o + 3],
                content[o + 4],
                content[o + 5],
                content[o + 6],
                content[o + 7],
                content[o + 8],
                content[o + 9],
                content[o + 10],
                content[o + 11],
                content[o + 12],
                content[o + 13],
                content[o + 14],
                content[o + 15],
                content[o + 16],
                content[o + 17],
                content[o + 18],
                content[o + 19],
            ];
            let entry = ToFEntry::parse(data);
            files.push(entry);
            k = k + 1;
        }
        assert(files@ =~= Seq::new(
            files_no as nat,
            |k: int| tof_entry_at(content@, offsets.tof_offset + TOF_ENTRY_SIZE * k),
        ));
        Ok(files)
    }

    fn parse_chunks_internal(content: &[u8], offsets: &MiniFsOffsets, chunks_no: u64) -> (r:
        Result<Vec<ToCEntry>, ParseError>)
        requires
            chunks_no <= 0x1_0000_0000,
        ensures
            match r {
                Ok(v) => offsets.toc_offset + TOC_ENTRY_SIZE * chunks_no <= content@.len() && v@
                    == Seq::new(
                    chunks_no as nat,
                    |k: int| toc_entry_at(content@, offsets.toc_offset + TOC_ENTRY_SIZE * k),
                ),
                Err(e) => offsets.toc_offset + TOC_ENTRY_SIZE * chunks_no > content@.len() && e
                    == ParseError::Corrupt,
            },
    {
        if offsets.toc_offset > content.len() || TOC_ENTRY_SIZE as u64 * chunks_no > (
        content.len() - offsets.toc_offset) as u64 {
            return Err(ParseError::Corrupt);
        }
        let n: usize = content.len();
        let mut chunks: Vec<ToCEntry> = Vec::new();
        let mut k: usize = 0;
        while (k as u64) < chunks_no
            invariant
                k <= chunks_no,
                n == content@.len(),
                offsets.toc_offset + TOC_ENTRY_SIZE * chunks_no <= content@.len(),
                chunks@.len() == k,
                forall|j: int|
                    0 <= j < k ==> chunks@[j] == toc_entry_at(
                        content@,
                        offsets.toc_offset + TOC_ENTRY_SIZE * j,
                    ),
            decreases chunks_no - k,
        {
            let o: usize = offsets.toc_offset + k * TOC_ENTRY_SIZE;
            let data: [u8; TOC_ENTRY_SIZE] = [
                content[o],
                content[o + 1],
                content[o + 2],
                content[o + 3],
                content[o + 4],
                content[o + 5],
                content[o + 6],
                content[o + 7],
                content[o + 8],
                content[o + 9],
                content[o + 10],
                content[o + 11],
            ];
            let entry = ToCEntry::parse(data);
            chunks.push(entry);
            k = k + 1;
        }
        assert(chunks@ =~= Seq::new(
            chunks_no as nat,
            |k: int| toc_entry_at(content@, offsets.toc_offset + TOC_ENTRY_SIZE * k),
        ));
        Ok(chunks)
    }

    /// Decompresses every chunk once, in chunk-table order.
    pub fn decompress_chunks(&self) -> (r: Result<Vec<Vec<u8>>, ParseError>)
        ensures
            !chunks_in_bounds(self@) ==> r == Err::<Vec<Vec<u8>>, ParseError>(ParseError::Corrupt),
            chunks_in_bounds(self@) ==> match r {
                Ok(d) => d.deep_view() == decoded_chunks(self@) && chunk_sizes_match(
                    self@,
                    d.deep_view(),
                ),
                Err(e) => e == ParseError::CorruptChunk,
            },
            chunks_in_bounds(self@) && !chunk_sizes_match(self@, decoded_chunks(self@)) ==> r
                == Err::<Vec<Vec<u8>>, ParseError>(ParseError::CorruptChunk),
            self@.chunks.len() == 0 ==> (r matches Ok(d) && d@.len() == 0),
            r matches Err(ParseError::CorruptChunk) ==> self@.chunks.len() > 0,
    {
        proof {
            use_type_invariant(self);
        }
        let n: usize = self.content.len();
        let raw: u64 = self.offsets.raw_chunks_offset as u64;
        let mut i: usize = 0;
        while i < self.chunks.len()
            invariant
                i <= self.chunks@.len(),
                n == self@.content.len(),
                raw == self@.raw_chunks_offset,
                raw <= n,
                forall|j: int| 0 <= j < i ==> chunk_in_bounds(self@, j),
            decreases self.chunks@.len() - i,
        {
            let c = self.chunks[i];
            if c.chunk_offset as u64 + c.chunk_size as u64 > (n as u64) - raw {
                assert(!chunk_in_bounds(self@, i as int));
                return Err(ParseError::Corrupt);
            }
            i = i + 1;
        }
        let mut out: Vec<Vec<u8>> = Vec::new();
        let mut i: usize = 0;
        while i < self.chunks.len()
            invariant
                i <= self.chunks@.len(),
                n == self@.content.len(),
                raw == self@.raw_chunks_offset,
                raw <= n,
                chunks_in_bounds(self@),
                out@.len() == i,
                forall|j: int| 0 <= j < i ==> out@[j]@ == decoded_chunks(self@)[j],
                forall|j: int| 0 <= j < i ==> out@[j]@.len() == self@.chunks[j].decompressed_size,
            decreases self.chunks@.len() - i,
        {
            let c = self.chunks[i];
            assert(chunk_in_bounds(self@, i as int));
            let start: usize = (raw + c.chunk_offset as u64) as usize;
            let end: usize = start + c.chunk_size as usize;
            let compressed = vstd::slice::slice_subrange(self.content.as_slice(), start, end);
            assert(compressed@ == compressed_chunk(self@, i as int));
            match decompress_chunk(compressed, c.decompressed_size) {
                Ok(v) => out.push(v),
                Err(e) => {
                    return Err(e);
                },
            }
            i = i + 1;
        }
        assert forall|j: int| 0 <= j < out@.len() implies out.deep_view()[j] == decoded_chunks(
            self@,
        )[j] by {}
        assert(out.deep_view() =~= decoded_chunks(self@));
        Ok(out)
    }

    /// Builds every file of the file table, in table order, from the
    /// decompressed chunks `chunks` (indexed by chunk number).
    pub fn assemble(&self, chunks: &Vec<Vec<u8>>) -> (r: Result<Vec<DecompressedFile>, ParseError>)
        ensures
            match r {
                Ok(out) => assembly_ok(self@, chunks.deep_view()) && is_assembly(
                    out@,
                    self@,
                    chunks.deep_view(),
                ),
                Err(e) => !assembly_ok(self@, chunks.deep_view()) && e == ParseError::Corrupt,
            },
    {
        proof {
            use_type_invariant(self);
        }
        let ghost d = chunks.deep_view();
        let mut out: Vec<DecompressedFile> = Vec::new();
        let mut k: usize = 0;
        while k < self.files.len()
            invariant
                k <= self.files@.len(),
                d == chunks.deep_view(),
                self@.ton_offset == HEADER_SIZE,
                out@.len() == k,
                forall|j: int| 0 <= j < k ==> file_resolves(self@, d, j),
                forall|j: int| 0 <= j < k ==> is_assembled_file(#[trigger] out@[j], self@, d, j),
            decreases self.files@.len() - k,
        {
            let f = self.files[k];
            let path = match read_string(
                self.content.as_slice(),
                self.offsets.ton_offset as u64 + f.ton_path_offset as u64,
            ) {
                Some(t) => t,
                None => {
                    assert(!file_resolves(self@, d, k as int));
                    return Err(ParseError::Corrupt);
                },
            };
            let filename = match read_string(
                self.content.as_slice(),
                self.offsets.ton_offset as u64 + f.ton_file_name_offset as u64,
            ) {
                Some(t) => t,
                None => {
                    assert(!file_resolves(self@, d, k as int));
                    return Err(ParseError::Corrupt);
                },
            };
            let idx: usize = f.chunk_number as usize;
            if idx >= chunks.len() {
                assert(!file_resolves(self@, d, k as int));
                return Err(ParseError::Corrupt);
            }
            let chunk: &Vec<u8> = &chunks[idx];
            assert(chunk@ == d[idx as int]);
            let data = match get_offset(
                chunk.as_slice(),
                f.offset_in_chunk as usize,
                f.file_size as usize,
            ) {
                Some(v) => v,
                None => {
                    assert(!file_resolves(self@, d, k as int));
                    return Err(ParseError::Corrupt);
                },
            };
            out.push(DecompressedFile { path, filename, data });
            k = k + 1;
        }
        Ok(out)
    }

    /// Decompresses each chunk once and cuts every file out of its chunk,
    /// in file-table order.
    pub fn extract(&self) -> (r: Result<Vec<DecompressedFile>, ParseError>)
        ensures
            !chunks_in_bounds(self@) ==> r == Err::<Vec<DecompressedFile>, ParseError>(
                ParseError::Corrupt,
            ),
            chunks_in_bounds(self@) && !chunk_sizes_match(self@, decoded_chunks(self@)) ==> r
                == Err::<Vec<DecompressedFile>, ParseError>(ParseError::CorruptChunk),
            r matches Ok(out) ==> chunks_in_bounds(self@) && chunk_sizes_match(
                self@,
                decoded_chunks(self@),
            ) && assembly_ok(self@, decoded_chunks(self@)) && is_assembly(
                out@,
                self@,
                decoded_chunks(self@),
            ),
            r matches Err(e) ==> e == ParseError::CorruptChunk || (e == ParseError::Corrupt && (
            !chunks_in_bounds(self@) || !assembly_ok(self@, decoded_chunks(self@)))),
            self@.chunks.len() == 0 ==> (r is Ok <==> assembly_ok(self@, decoded_chunks(self@))),
            r matches Err(ParseError::CorruptChunk) ==> self@.chunks.len() > 0,
    {
        match self.decompress_chunks() {
            Ok(chunks) => self.assemble(&chunks),
            Err(e) => Err(e),
        }
    }

    /// Position of the header in the buffer that was parsed.
    pub fn get_header_start(&self) -> (r: usize)
        ensures
            r == self@.header_start,
    {
        self.header_start
    }

    /// Number of entries of the chunk table.
    pub fn get_chunks_no(&self) -> (r: usize)
        ensures
            r == self@.chunks.len(),
    {
        self.chunks.len()
    }

    /// Number of entries of the file table.
    pub fn get_files_no(&self) -> (r: usize)
        ensures
            r == self@.files.len(),
    {
        self.files.len()
    }
}

} // verus!
