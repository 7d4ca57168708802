//! Blocks: compression-tagged, checksummed byte segments of a container.
use vstd::prelude::*;

use crate::itf8::{
    decoded, encoded, encoded_size, le_u32_bytes, lemma_itf8_round_trip, read_itf8, size_of,
    write_itf8, write_u32_le,
};

verus! {

/// The codec that a block's data was compressed with.
#[derive(Clone, Copy, Debug, PartialEq, Eq, Structural)]
pub enum CompressionMethod {
    Uncompressed,
    Gzip,
    Bzip2,
    Lzma,
    Rans,
}

/// What a block holds.
#[derive(Clone, Copy, Debug, PartialEq, Eq, Structural)]
pub enum ContentType {
    FileHeader,
    CompressionHeader,
    SliceHeader,
    Reserved,
    ExternalData,
    CoreData,
}

/// The byte that stands for a compression method in an encoded block.
pub open spec fn method_code(method: CompressionMethod) -> u8 {
    match method {
        CompressionMethod::Uncompressed => 0,
        CompressionMethod::Gzip => 1,
        CompressionMethod::Bzip2 => 2,
        CompressionMethod::Lzma => 3,
        CompressionMethod::Rans => 4,
    }
}

/// The byte that stands for a content type in an encoded block.
pub open spec fn content_type_code(content_type: ContentType) -> u8 {
    match content_type {
        ContentType::FileHeader => 0,
        ContentType::CompressionHeader => 1,
        ContentType::SliceHeader => 2,
        ContentType::Reserved => 3,
        ContentType::ExternalData => 4,
        ContentType::CoreData => 5,
    }
}

impl CompressionMethod {
    /// Returns the byte that stands for this method in an encoded block.
    pub fn code(&self) -> (r: u8)
        ensures
            r == method_code(*self),
    {
        match self {
            CompressionMethod::Uncompressed => 0,
            CompressionMethod::Gzip => 1,
            CompressionMethod::Bzip2 => 2,
            CompressionMethod::Lzma => 3,
            CompressionMethod::Rans => 4,
        }
    }
}

impl ContentType {
    /// Returns the byte that stands for this content type in an encoded block.
    pub fn code(&self) -> (r: u8)
        ensures
            r == content_type_code(*self),
    {
        match self {
            ContentType::FileHeader => 0,
            ContentType::CompressionHeader => 1,
            ContentType::SliceHeader => 2,
            ContentType::Reserved => 3,
            ContentType::ExternalData => 4,
            ContentType::CoreData => 5,
        }
    }
}

/// The compression method that `code` stands for.
pub open spec fn method_of_code(code: u8) -> Option<CompressionMethod> {
    if code == 0 {
        Some(CompressionMethod::Uncompressed)
    } else if code == 1 {
        Some(CompressionMethod::Gzip)
    } else if code == 2 {
        Some(CompressionMethod::Bzip2)
    } else if code == 3 {
        Some(CompressionMethod::Lzma)
    } else if code == 4 {
        Some(CompressionMethod::Rans)
    } else {
        None
    }
}

/// The content type that `code` stands for.
pub open spec fn content_type_of_code(code: u8) -> Option<ContentType> {
    if code == 0 {
        Some(ContentType::FileHeader)
    } else if code == 1 {
        Some(ContentType::CompressionHeader)
    } else if code == 2 {
        Some(ContentType::SliceHeader)
    } else if code == 3 {
        Some(ContentType::Reserved)
    } else if code == 4 {
        Some(ContentType::ExternalData)
    } else if code == 5 {
        Some(ContentType::CoreData)
    } else {
        None
    }
}

impl CompressionMethod {
    /// Returns the method that `code` stands for, if any.
    pub fn from_code(code: u8) -> (r: Option<Self>)
        ensures
            r == method_of_code(code),
    {
        match code {
            0 => Some(CompressionMethod::Uncompressed),
            1 => Some(CompressionMethod::Gzip),
            2 => Some(CompressionMethod::Bzip2),
            3 => Some(CompressionMethod::Lzma),
            4 => Some(CompressionMethod::Rans),
            _ => None,
        }
    }
}

impl ContentType {
    /// Returns the content type that `code` stands for, if any.
    pub fn from_code(code: u8) -> (r: Option<Self>)
        ensures
            r == content_type_of_code(code),
    {
        match code {
            0 => Some(ContentType::FileHeader),
            1 => Some(ContentType::CompressionHeader),
            2 => Some(ContentType::SliceHeader),
            3 => Some(ContentType::Reserved),
            4 => Some(ContentType::ExternalData),
            5 => Some(ContentType::CoreData),
            _ => None,
        }
    }
}

/// Why a block's data could not be decompressed.
#[derive(Clone, Copy, Debug, PartialEq, Eq, Structural)]
pub enum DecompressError {
    /// The data is not a valid stream of the named codec.
    CorruptData(CompressionMethod),
}

/// What a gzip decoder makes of `data`: the bytes of its first member, or
/// nothing where the data is not valid gzip.
pub uninterp spec fn gzip_decoded(data: Seq<u8>) -> Option<Seq<u8>>;

/// What a bzip2 decoder makes of `data`.
pub uninterp spec fn bzip2_decoded(data: Seq<u8>) -> Option<Seq<u8>>;

/// What an xz (LZMA) decoder makes of `data`.
pub uninterp spec fn xz_decoded(data: Seq<u8>) -> Option<Seq<u8>>;

/// Relies on `flate2::read::GzDecoder` read to its end: the bytes that it
/// yields, or an error, depend on the input bytes alone.
#[verifier::external_body]
fn gzip_decode(src: &[u8], capacity: usize) -> (r: Option<Vec<u8>>)
    ensures
        match r {
            Some(v) => gzip_decoded(src@) == Some(v@),
            None => gzip_decoded(src@) is None,
        },
{
    let mut reader = flate2::read::GzDecoder::new(src);
    let mut buf = Vec::with_capacity(capacity);
    std::io::Read::read_to_end(&mut reader, &mut buf).ok().map(|_| buf)
}

/// Relies on `bzip2::read::BzDecoder` read to its end: the bytes that it
/// yields, or an error, depend on the input bytes alone.
#[verifier::external_body]
fn bzip2_decode(src: &[u8], capacity: usize) -> (r: Option<Vec<u8>>)
    ensures
        match r {
            Some(v) => bzip2_decoded(src@) == Some(v@),
            None => bzip2_decoded(src@) is None,
        },
{
    let mut reader = bzip2::read::BzDecoder::new(src);
    let mut buf = Vec::with_capacity(capacity);
    std::io::Read::read_to_end(&mut reader, &mut buf).ok().map(|_| buf)
}

/// Relies on `xz2::read::XzDecoder` read to its end: the bytes that it
/// yields, or an error, depend on the input bytes alone.
#[verifier::external_body]
fn xz_decode(src: &[u8], capacity: usize) -> (r: Option<Vec<u8>>)
    ensures
        match r {
            Some(v) => xz_decoded(src@) == Some(v@),
            None => xz_decoded(src@) is None,
        },
{
    let mut reader = xz2::read::XzDecoder::new(src);
    let mut buf = Vec::with_capacity(capacity);
    std::io::Read::read_to_end(&mut reader, &mut buf).ok().map(|_| buf)
}

/// What decompressing `data` with one of the standard stream codecs gives.
/// The entropy coder is supplied by the caller and is not covered here.
pub open spec fn stream_decoded(method: CompressionMethod, data: Seq<u8>) -> Option<Seq<u8>> {
    match method {
        CompressionMethod::Uncompressed => Some(data),
        CompressionMethod::Gzip => gzip_decoded(data),
        CompressionMethod::Bzip2 => bzip2_decoded(data),
        CompressionMethod::Lzma => xz_decoded(data),
        CompressionMethod::Rans => None,
    }
}

/// The outcome of decompressing `src` with `method`, where `rans_decode`
/// decodes the entropy-coded form.
pub open spec fn decompress_outcome<F: Fn(&[u8]) -> Option<Vec<u8>>>(
    method: CompressionMethod,
    src: &[u8],
    rans_decode: F,
    r: Result<Vec<u8>, DecompressError>,
) -> bool {
    if method == CompressionMethod::Rans {
        match r {
            Ok(v) => rans_decode.ensures((src,), Some(v)),
            Err(e) => e == DecompressError::CorruptData(method) && rans_decode.ensures(
                (src,),
                None::<Vec<u8>>,
            ),
        }
    } else {
        match r {
            Ok(v) => stream_decoded(method, src@) == Some(v@),
            Err(e) => e == DecompressError::CorruptData(method) && stream_decoded(
                method,
                src@,
            ) is None,
        }
    }
}

/// Decompresses `src`, which was compressed with `method`.
///
/// `uncompressed_len` only sizes the output buffer at the start; a negative
/// value is taken as zero. The entropy coder is `rans_decode`, which returns
/// `None` on data it cannot decode.
pub fn decompress<F: Fn(&[u8]) -> Option<Vec<u8>>>(
    method: CompressionMethod,
    src: &[u8],
    uncompressed_len: i32,
    rans_decode: F,
) -> (r: Result<Vec<u8>, DecompressError>)
    requires
        rans_decode.requires((src,)),
    ensures
        decompress_outcome(method, src, rans_decode, r),
        method == CompressionMethod::Uncompressed ==> (r matches Ok(v) && v@ == src@),
{
    let capacity: usize = if uncompressed_len < 0 {
        0
    } else {
        uncompressed_len as usize
    };
    let decoded = match method {
        CompressionMethod::Uncompressed => Some(vstd::slice::slice_to_vec(src)),
        CompressionMethod::Gzip => gzip_decode(src, capacity),
        CompressionMethod::Bzip2 => bzip2_decode(src, capacity),
        CompressionMethod::Lzma => xz_decode(src, capacity),
        CompressionMethod::Rans => rans_decode(src),
    };
    match decoded {
        Some(v) => Ok(v),
        None => Err(DecompressError::CorruptData(method)),
    }
}

/// The contents of a block.
pub struct BlockView {
    pub compression_method: CompressionMethod,
    pub content_type: ContentType,
    pub content_id: i32,
    pub uncompressed_len: i32,
    pub data: Seq<u8>,
    pub crc32: u32,
}

/// The number of bytes that `b` takes when encoded.
pub open spec fn encoded_len(b: BlockView) -> nat {
    1 + 1 + encoded_size(b.content_id) + encoded_size(b.data.len() as i32) + encoded_size(
        b.uncompressed_len,
    ) + b.data.len() + 4
}

/// The encoded form of `b`: method, content type, content id, data length and
/// uncompressed length (the last three as ITF8), the data, then the checksum as
/// four little-endian bytes.
pub open spec fn encoded_block(b: BlockView) -> Seq<u8> {
    seq![method_code(b.compression_method), content_type_code(b.content_type)] + encoded(
        b.content_id,
    ) + encoded(b.data.len() as i32) + encoded(b.uncompressed_len) + b.data + le_u32_bytes(b.crc32)
}

/// A block's data length is written as ITF8, so it must fit in an `i32`.
pub open spec fn encodable(b: BlockView) -> bool {
    b.data.len() <= i32::MAX
}

/// The data of the block that ends a file.
pub open spec fn eof_data() -> Seq<u8> {
    seq![0x01u8, 0x00, 0x01, 0x00, 0x01, 0x00]
}

/// The checksum of the block that ends a file.
pub const EOF_CRC32: u32 = 0x4b01_63ee;

/// A compression-tagged, checksummed byte segment.
#[derive(Clone, Debug)]
pub struct Block {
    compression_method: CompressionMethod,
    content_type: ContentType,
    content_id: i32,
    uncompressed_len: i32,
    data: Vec<u8>,
    crc32: u32,
}

impl View for Block {
    type V = BlockView;

    closed spec fn view(&self) -> BlockView {
        BlockView {
            compression_method: self.compression_method,
            content_type: self.content_type,
            content_id: self.content_id,
            uncompressed_len: self.uncompressed_len,
            data: self.data@,
            crc32: self.crc32,
        }
    }
}

impl Block {
    /// Creates the block that the end-of-file container holds.
    pub fn eof() -> (r: Self)
        ensures
            r@ == (BlockView {
                compression_method: CompressionMethod::Uncompressed,
                content_type: ContentType::CompressionHeader,
                content_id: 0,
                uncompressed_len: 6,
                data: eof_data(),
                crc32: EOF_CRC32,
            }),
    {
        let data: Vec<u8> = vec![0x01, 0x00, 0x01, 0x00, 0x01, 0x00];
        assert(data@ =~= eof_data());
        Self::new(
            CompressionMethod::Uncompressed,
            ContentType::CompressionHeader,
            0,
            6,
            data,
            EOF_CRC32,
        )
    }

    pub fn new(
        compression_method: CompressionMethod,
        content_type: ContentType,
        content_id: i32,
        uncompressed_len: i32,
        data: Vec<u8>,
        crc32: u32,
    ) -> (r: Self)
        ensures
            r@ == (BlockView {
                compression_method,
                content_type,
                content_id,
                uncompressed_len,
                data: data@,
                crc32,
            }),
    {
        Block { compression_method, content_type, content_id, uncompressed_len, data, crc32 }
    }

    pub fn compression_method(&self) -> (r: CompressionMethod)
        ensures
            r == self@.compression_method,
    {
        self.compression_method
    }

    pub fn compression_method_mut(&mut self) -> (r: &mut CompressionMethod)
        ensures
            *r == old(self)@.compression_method,
            final(self)@ == (BlockView { compression_method: *final(r), ..old(self)@ }),
    {
        &mut self.compression_method
    }

    pub fn content_type(&self) -> (r: ContentType)
        ensures
            r == self@.content_type,
    {
        self.content_type
    }

    pub fn content_type_mut(&mut self) -> (r: &mut ContentType)
        ensures
            *r == old(self)@.content_type,
            final(self)@ == (BlockView { content_type: *final(r), ..old(self)@ }),
    {
        &mut self.content_type
    }

    pub fn content_id(&self) -> (r: i32)
        ensures
            r == self@.content_id,
    {
        self.content_id
    }

    pub fn content_id_mut(&mut self) -> (r: &mut i32)
        ensures
            *r == old(self)@.content_id,
            final(self)@ == (BlockView { content_id: *final(r), ..old(self)@ }),
    {
        &mut self.content_id
    }

    pub fn uncompressed_len(&self) -> (r: i32)
        ensures
            r == self@.uncompressed_len,
    {
        self.uncompressed_len
    }

    pub fn uncompressed_len_mut(&mut self) -> (r: &mut i32)
        ensures
            *r == old(self)@.uncompressed_len,
            final(self)@ == (BlockView { uncompressed_len: *final(r), ..old(self)@ }),
    {
        &mut self.uncompressed_len
    }

    pub fn data(&self) -> (r: &[u8])
        ensures
            r@ == self@.data,
    {
        self.data.as_slice()
    }

    pub fn data_mut(&mut self) -> (r: &mut Vec<u8>)
        ensures
            r@ == old(self)@.data,
            final(self)@ == (BlockView { data: final(r)@, ..old(self)@ }),
    {
        &mut self.data
    }

    /// Decompresses this block's data with its own compression method.
    ///
    /// `rans_decode` decodes the entropy-coded form; it is called only for a
    /// block whose method is `Rans`. Nothing is cached: each call decompresses
    /// again.
    pub fn decompressed_data<F: Fn(&[u8]) -> Option<Vec<u8>>>(&self, rans_decode: F) -> (r: Result<
        Vec<u8>,
        DecompressError,
    >)
        requires
            forall|s: &[u8]| #[trigger] rans_decode.requires((s,)),
        ensures
            exists|s: &[u8]|
                s@ == self@.data && #[trigger] decompress_outcome(
                    self@.compression_method,
                    s,
                    rans_decode,
                    r,
                ),
            self@.compression_method != CompressionMethod::Rans ==> match r {
                Ok(v) => stream_decoded(self@.compression_method, self@.data) == Some(v@),
                Err(e) => e == DecompressError::CorruptData(self@.compression_method)
                    && stream_decoded(self@.compression_method, self@.data) is None,
            },
            self@.compression_method == CompressionMethod::Uncompressed ==> (r matches Ok(v) && v@
                == self@.data),
    {
        let src = self.data.as_slice();
        decompress(self.compression_method, src, self.uncompressed_len, rans_decode)
    }

    pub fn crc32(&self) -> (r: u32)
        ensures
            r == self@.crc32,
    {
        self.crc32
    }

    pub fn crc32_mut(&mut self) -> (r: &mut u32)
        ensures
            *r == old(self)@.crc32,
            final(self)@ == (BlockView { crc32: *final(r), ..old(self)@ }),
    {
        &mut self.crc32
    }

    /// Returns the number of bytes that this block takes when encoded.
    pub fn len(&self) -> (r: usize)
        requires
            encodable(self@),
        ensures
            r as nat == encoded_len(self@),
    {
        1 + 1 + size_of(self.content_id) + size_of(self.data.len() as i32) + size_of(
            self.uncompressed_len,
        ) + self.data.len() + 4
    }
}

/// Appends the encoded form of `block` to `dst`.
pub fn write_block(dst: &mut Vec<u8>, block: &Block)
    requires
        encodable(block@),
    ensures
        final(dst)@ == old(dst)@ + encoded_block(block@),
{
    dst.push(block.compression_method.code());
    dst.push(block.content_type.code());
    write_itf8(dst, block.content_id);
    write_itf8(dst, block.data.len() as i32);
    write_itf8(dst, block.uncompressed_len);
    let mut i: usize = 0;
    let ghost start = dst@;
    while i < block.data.len()
        invariant
            i <= block.data@.len(),
            dst@ == start + block.data@.subrange(0, i as int),
        decreases block.data@.len() - i,
    {
        dst.push(block.data[i]);
        i += 1;
        assert(dst@ =~= start + block.data@.subrange(0, i as int));
    }
    assert(block.data@.subrange(0, i as int) =~= block.data@);
    write_u32_le(dst, block.crc32);
    assert(final(dst)@ =~= old(dst)@ + encoded_block(block@));
}

/// Why bytes do not start with an encoded block.
#[derive(Clone, Copy, Debug, PartialEq, Eq, Structural)]
pub enum ReadBlockError {
    /// The bytes end inside the block.
    UnexpectedEof,
    /// The first byte stands for no compression method.
    InvalidCompressionMethod(u8),
    /// The second byte stands for no content type.
    InvalidContentType(u8),
    /// The data length is negative.
    InvalidDataLength(i32),
}

/// The little-endian `u32` at `at` in `b`.
pub open spec fn le_u32_at(b: Seq<u8>, at: int) -> u32 {
    (b[at] + b[at + 1] * 0x100 + b[at + 2] * 0x1_0000 + b[at + 3] * 0x100_0000) as u32
}

/// The block that the bytes at the start of `b` encode, and how many bytes it
/// takes, or why they encode none.
pub open spec fn block_read(b: Seq<u8>) -> Result<(BlockView, nat), ReadBlockError> {
    if b.len() < 2 {
        Err(ReadBlockError::UnexpectedEof)
    } else {
        match method_of_code(b[0]) {
            None => Err(ReadBlockError::InvalidCompressionMethod(b[0])),
            Some(compression_method) => match content_type_of_code(b[1]) {
                None => Err(ReadBlockError::InvalidContentType(b[1])),
                Some(content_type) => match decoded(b.subrange(2, b.len() as int)) {
                    None => Err(ReadBlockError::UnexpectedEof),
                    Some((content_id, n1)) => {
                        let id_end = 2 + n1 as int;
                        match decoded(b.subrange(id_end, b.len() as int)) {
                            None => Err(ReadBlockError::UnexpectedEof),
                            Some((data_len, n2)) => {
                                let len_end = id_end + n2 as int;
                                if data_len < 0 {
                                    Err(ReadBlockError::InvalidDataLength(data_len))
                                } else {
                                    match decoded(b.subrange(len_end, b.len() as int)) {
                                        None => Err(ReadBlockError::UnexpectedEof),
                                        Some((uncompressed_len, n3)) => {
                                            let data_start = len_end + n3 as int;
                                            let end = data_start + data_len as int;
                                            if b.len() < end + 4 {
                                                Err(ReadBlockError::UnexpectedEof)
                                            } else {
                                                Ok(
                                                    (
                                                        BlockView {
                                                            compression_method,
                                                            content_type,
                                                            content_id,
                                                            uncompressed_len,
                                                            data: b.subrange(data_start, end),
                                                            crc32: le_u32_at(b, end),
                                                        },
                                                        (end + 4) as nat,
                                                    ),
                                                )
                                            }
                                        },
                                    }
                                }
                            },
                        }
                    },
                },
            },
        }
    }
}

/// Reads the block that starts `src`, and returns it with the number of
/// bytes it takes.
pub fn read_block(src: &[u8]) -> (r: Result<(Block, usize), ReadBlockError>)
    ensures
        match r {
            Ok((block, n)) => block_read(src@) == Ok::<(BlockView, nat), ReadBlockError>(
                (block@, n as nat),
            ),
            Err(e) => block_read(src@) == Err::<(BlockView, nat), ReadBlockError>(e),
        },
{
    if src.len() < 2 {
        return Err(ReadBlockError::UnexpectedEof);
    }
    let compression_method = match CompressionMethod::from_code(src[0]) {
        Some(m) => m,
        None => return Err(ReadBlockError::InvalidCompressionMethod(src[0])),
    };
    let content_type = match ContentType::from_code(src[1]) {
        Some(t) => t,
        None => return Err(ReadBlockError::InvalidContentType(src[1])),
    };
    let (content_id, n1) = match read_itf8(src, 2) {
        Some(r) => r,
        None => return Err(ReadBlockError::UnexpectedEof),
    };
    let id_end = 2 + n1;
    let (data_len, n2) = match read_itf8(src, id_end) {
        Some(r) => r,
        None => return Err(ReadBlockError::UnexpectedEof),
    };
    let len_end = id_end + n2;
    if data_len < 0 {
        return Err(ReadBlockError::InvalidDataLength(data_len));
    }
    let (uncompressed_len, n3) = match read_itf8(src, len_end) {
        Some(r) => r,
        None => return Err(ReadBlockError::UnexpectedEof),
    };
    let data_start = len_end + n3;
    let data_len = data_len as usize;
    if src.len() - data_start < data_len || src.len() - data_start - data_len < 4 {
        return Err(ReadBlockError::UnexpectedEof);
    }
    let end = data_start + data_len;
    let data = vstd::slice::slice_to_vec(vstd::slice::slice_subrange(src, data_start, end));
    let crc32 = src[end] as u32 + src[end + 1] as u32 * 0x100 + src[end + 2] as u32 * 0x1_0000
        + src[end + 3] as u32 * 0x100_0000;
    let block = Block::new(
        compression_method,
        content_type,
        content_id,
        uncompressed_len,
        data,
        crc32,
    );
    Ok((block, end + 4))
}

/// Reading the encoded form of a block, whatever follows it, gives the block
/// back and the length of its encoded form.
#[verifier::rlimit(60)]
pub proof fn lemma_block_round_trip(b: BlockView, rest: Seq<u8>)
    requires
        encodable(b),
    ensures
        block_read(encoded_block(b) + rest) == Ok::<(BlockView, nat), ReadBlockError>(
            (b, encoded_len(b)),
        ),
{
    let data_len = b.data.len() as i32;
    let e1 = encoded(b.content_id);
    let e2 = encoded(data_len);
    let e3 = encoded(b.uncompressed_len);
    let crc = le_u32_bytes(b.crc32);
    let s = encoded_block(b) + rest;
    lemma_encoded_length(b.content_id);
    lemma_encoded_length(data_len);
    lemma_encoded_length(b.uncompressed_len);
    let t3 = b.data + crc + rest;
    let t2 = e3 + t3;
    let t1 = e2 + t2;
    let head = seq![method_code(b.compression_method), content_type_code(b.content_type)];
    assert(s =~= head + (e1 + t1));
    let id_end = 2 + e1.len() as int;
    let len_end = id_end + e2.len() as int;
    let data_start = len_end + e3.len() as int;
    let end = data_start + b.data.len() as int;
    assert(s.len() == end + 4 + rest.len());
    assert(s.subrange(2, s.len() as int) =~= e1 + t1);
    lemma_itf8_round_trip(b.content_id, t1);
    assert(decoded(s.subrange(2, s.len() as int)) == Some((b.content_id, e1.len())));
    assert(s.subrange(id_end, s.len() as int) =~= e2 + t2);
    lemma_itf8_round_trip(data_len, t2);
    assert(decoded(s.subrange(id_end, s.len() as int)) == Some((data_len, e2.len())));
    assert(s.subrange(len_end, s.len() as int) =~= e3 + t3);
    lemma_itf8_round_trip(b.uncompressed_len, t3);
    assert(decoded(s.subrange(len_end, s.len() as int)) == Some((b.uncompressed_len, e3.len())));
    assert(s.subrange(data_start, end) =~= b.data);
    assert(s[end] == crc[0] && s[end + 1] == crc[1] && s[end + 2] == crc[2] && s[end + 3]
        == crc[3]);
    lemma_le_u32_round_trip(b.crc32);
    assert(le_u32_at(s, end) == b.crc32);
    lemma_codes_round_trip(b.compression_method, b.content_type);
    assert(s[0] == method_code(b.compression_method));
    assert(s[1] == content_type_code(b.content_type));
}

proof fn lemma_le_u32_round_trip(v: u32)
    ensures
        le_u32_bytes(v)[0] + le_u32_bytes(v)[1] * 0x100 + le_u32_bytes(v)[2] * 0x1_0000
            + le_u32_bytes(v)[3] * 0x100_0000 == v,
{
    let x = v as int;
    assert((x % 256) + (x / 0x100 % 256) * 0x100 + (x / 0x1_0000 % 256) * 0x1_0000 + (x
        / 0x100_0000) * 0x100_0000 == x);
}

proof fn lemma_codes_round_trip(m: CompressionMethod, t: ContentType)
    ensures
        method_of_code(method_code(m)) == Some(m),
        content_type_of_code(content_type_code(t)) == Some(t),
{
}

/// The ITF8 form of a value is as long as its size says.
pub proof fn lemma_encoded_length(value: i32)
    ensures
        encoded(value).len() == encoded_size(value),
{
    reveal(encoded);
}

/// A block's computed length is the length of its encoded form.
pub proof fn lemma_len_is_encoded_length(b: BlockView)
    requires
        encodable(b),
    ensures
        encoded_block(b).len() == encoded_len(b),
{
    lemma_encoded_length(b.content_id);
    lemma_encoded_length(b.data.len() as i32);
    lemma_encoded_length(b.uncompressed_len);
}

} // verus!
