//! Gzip index (GZI) files: the compressed and uncompressed offsets of the
//! blocks of a blocked gzip file.
//!
//! A file holds a little-endian `u64` count, then that many pairs of
//! little-endian `u64` offsets, and nothing after them.
use vstd::prelude::*;

verus! {

/// Why bytes are not a gzip index.
#[derive(Clone, Copy, Debug, PartialEq, Eq, Structural)]
pub enum IndexError {
    /// The bytes end before the count or before the last pair.
    UnexpectedEof,
    /// Bytes follow the last pair.
    TrailingData,
}

/// The little-endian `u64` at `at` in `b`.
pub open spec fn le_u64(b: Seq<u8>, at: int) -> u64 {
    (b[at] as u64) | ((b[at + 1] as u64) << 8u64) | ((b[at + 2] as u64) << 16u64) | ((b[at
        + 3] as u64) << 24u64) | ((b[at + 4] as u64) << 32u64) | ((b[at + 5] as u64) << 40u64)
        | ((b[at + 6] as u64) << 48u64) | ((b[at + 7] as u64) << 56u64)
}

/// The index that `b` holds, or why it holds none.
pub open spec fn index_of(b: Seq<u8>) -> Result<Seq<(u64, u64)>, IndexError> {
    if b.len() < 8 {
        Err(IndexError::UnexpectedEof)
    } else {
        let n = le_u64(b, 0) as int;
        if b.len() < 8 + 16 * n {
            Err(IndexError::UnexpectedEof)
        } else if b.len() > 8 + 16 * n {
            Err(IndexError::TrailingData)
        } else {
            Ok(Seq::new(n as nat, |i: int| (le_u64(b, 8 + 16 * i), le_u64(b, 16 + 16 * i))))
        }
    }
}

fn read_le_u64(b: &[u8], at: usize) -> (r: u64)
    requires
        at + 8 <= b@.len(),
    ensures
        r == le_u64(b@, at as int),
{
    (b[at] as u64) | ((b[at + 1] as u64) << 8u64) | ((b[at + 2] as u64) << 16u64) | ((b[at
        + 3] as u64) << 24u64) | ((b[at + 4] as u64) << 32u64) | ((b[at + 5] as u64) << 40u64)
        | ((b[at + 6] as u64) << 48u64) | ((b[at + 7] as u64) << 56u64)
}

/// Reads the gzip index that `src` holds whole.
pub fn parse_index(src: &[u8]) -> (r: Result<Vec<(u64, u64)>, IndexError>)
    ensures
        match r {
            Ok(v) => index_of(src@) == Ok::<Seq<(u64, u64)>, IndexError>(v@),
            Err(e) => index_of(src@) == Err::<Seq<(u64, u64)>, IndexError>(e),
        },
{
    if src.len() < 8 {
        return Err(IndexError::UnexpectedEof);
    }
    let n = read_le_u64(src, 0);
    let rest = src.len() - 8;
    if n > (rest / 16) as u64 {
        return Err(IndexError::UnexpectedEof);
    }
    let n = n as usize;
    if rest > 16 * n {
        return Err(IndexError::TrailingData);
    }
    let mut offsets: Vec<(u64, u64)> = Vec::new();
    let mut i: usize = 0;
    assert(src@.len() <= usize::MAX);
    while i < n
        invariant
            n as int == le_u64(src@, 0),
            src@.len() == 8 + 16 * n,
            8 + 16 * n <= usize::MAX,
            i <= n,
            offsets@.len() == i,
            forall|j: int|
                0 <= j < i ==> #[trigger] offsets@[j] == (
                    le_u64(src@, 8 + 16 * j),
                    le_u64(src@, 16 + 16 * j),
                ),
        decreases n - i,
    {
        assert(16 * i + 16 <= 16 * n) by (nonlinear_arith)
            requires
                i < n,
        ;
        let compressed = read_le_u64(src, 8 + 16 * i);
        let uncompressed = read_le_u64(src, 16 + 16 * i);
        offsets.push((compressed, uncompressed));
        i += 1;
    }
    proof {
        let expected = Seq::new(
            n as nat,
            |j: int| (le_u64(src@, 8 + 16 * j), le_u64(src@, 16 + 16 * j)),
        );
        assert(offsets@ =~= expected);
    }
    Ok(offsets)
}

/// A gzip index reader over a byte source; app code reads the source to its
/// end and hands the bytes to [`parse_index`].
pub struct Reader<R> {
    inner: R,
}

impl<R> Reader<R> {
    /// Creates a gzip index reader.
    pub fn new(inner: R) -> (r: Self)
        ensures
            r.get_ref() == inner,
    {
        Reader { inner }
    }

    pub closed spec fn get_ref(&self) -> R {
        self.inner
    }

    /// Returns the byte source.
    pub fn get_mut(&mut self) -> (r: &mut R)
        ensures
            *r == old(self).get_ref(),
            final(self).get_ref() == *final(r),
    {
        &mut self.inner
    }

    /// Returns the byte source, consuming the reader.
    pub fn into_inner(self) -> (r: R)
        ensures
            r == self.get_ref(),
    {
        self.inner
    }
}

} // verus!
