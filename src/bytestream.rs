//! Byte-level decoding shared by every on-disk structure: little/big-endian
//! integers, a windowed cursor over an image, and UTF-16LE text.

use vstd::prelude::*;
use vstd::arithmetic::div_mod::lemma_fundamental_div_mod_converse;

verus! {

/// Size in bytes of one sector, the atomic unit of the image.
pub const SECTOR_SIZE: usize = 512;

/// The kinds of failure a decoder can surface.
#[derive(Debug, Clone, Copy, PartialEq, Eq, Structural)]
pub enum DecodeError {
    /// A read reached past the end of the image or of a stream window.
    Io,
    /// An expected magic value was not present.
    Signature,
    /// A checksum mismatch or an inconsistent length or offset.
    Integrity,
    /// Text that is not valid UTF-8 or UTF-16.
    Encoding,
    /// A structure this decoder does not handle.
    Unsupported,
    /// The requested partition or record does not exist.
    NotFound,
}

/// Unsigned little-endian value of the two bytes at `i`.
pub open spec fn le_u16_at(b: Seq<u8>, i: int) -> int {
    b[i] as int + 256 * b[i + 1] as int
}

/// Unsigned little-endian value of the four bytes at `i`.
pub open spec fn le_u32_at(b: Seq<u8>, i: int) -> int {
    le_u16_at(b, i) + 0x1_0000 * le_u16_at(b, i + 2)
}

/// Unsigned little-endian value of the eight bytes at `i`.
pub open spec fn le_u64_at(b: Seq<u8>, i: int) -> int {
    le_u32_at(b, i) + 0x1_0000_0000 * le_u32_at(b, i + 4)
}

/// Unsigned big-endian value of the two bytes at `i`.
pub open spec fn be_u16_at(b: Seq<u8>, i: int) -> int {
    256 * b[i] as int + b[i + 1] as int
}

/// Unsigned big-endian value of the four bytes at `i`.
pub open spec fn be_u32_at(b: Seq<u8>, i: int) -> int {
    0x1_0000 * be_u16_at(b, i) + be_u16_at(b, i + 2)
}

/// Unsigned little-endian value of the `n` bytes at `i`.
pub open spec fn le_uint(b: Seq<u8>, i: int, n: nat) -> int
    decreases n,
{
    if n == 0 {
        0
    } else {
        b[i] as int + 256 * le_uint(b, i + 1, (n - 1) as nat)
    }
}

/// `256` raised to the power `n`.
pub open spec fn pow256(n: nat) -> int
    decreases n,
{
    if n == 0 {
        1
    } else {
        256 * pow256((n - 1) as nat)
    }
}

/// An `n`-byte value lies in `[0, 256^n)`.
pub proof fn lemma_le_uint_bounds(b: Seq<u8>, i: int, n: nat)
    ensures
        0 <= le_uint(b, i, n) < pow256(n),
    decreases n,
{
    if n > 0 {
        lemma_le_uint_bounds(b, i + 1, (n - 1) as nat);
    }
}

pub fn le16(b: &[u8], i: usize) -> (r: u16)
    requires
        i + 2 <= b.len(),
    ensures
        r as int == le_u16_at(b@, i as int),
{
    b[i] as u16 + 256 * (b[i + 1] as u16)
}

pub fn le32(b: &[u8], i: usize) -> (r: u32)
    requires
        i + 4 <= b.len(),
    ensures
        r as int == le_u32_at(b@, i as int),
{
    let lo = le16(b, i);
    let hi = le16(b, i + 2);
    lo as u32 + 0x1_0000 * (hi as u32)
}

pub fn le64(b: &[u8], i: usize) -> (r: u64)
    requires
        i + 8 <= b.len(),
    ensures
        r as int == le_u64_at(b@, i as int),
{
    let lo = le32(b, i);
    let hi = le32(b, i + 4);
    lo as u64 + 0x1_0000_0000 * (hi as u64)
}

pub fn be16(b: &[u8], i: usize) -> (r: u16)
    requires
        i + 2 <= b.len(),
    ensures
        r as int == be_u16_at(b@, i as int),
{
    256 * (b[i] as u16) + b[i + 1] as u16
}

pub fn be32(b: &[u8], i: usize) -> (r: u32)
    requires
        i + 4 <= b.len(),
    ensures
        r as int == be_u32_at(b@, i as int),
{
    let hi = be16(b, i);
    let lo = be16(b, i + 2);
    0x1_0000 * (hi as u32) + lo as u32
}

/// Unsigned little-endian value of the `n` bytes at `i`, `n` at most eight.
pub fn le_uint_of(b: &[u8], i: usize, n: usize) -> (r: u64)
    requires
        i + n <= b.len(),
        n <= 8,
    ensures
        r as int == le_uint(b@, i as int, n as nat),
{
    let mut acc: u128 = 0;
    let mut k: usize = n;
    while k > 0
        invariant
            k <= n <= 8,
            i + n <= b.len(),
            acc as int == le_uint(b@, (i + k) as int, (n - k) as nat),
        decreases k,
    {
        proof {
            lemma_le_uint_bounds(b@, (i + k) as int, (n - k) as nat);
            lemma_pow256_le(((n - k) as nat));
        }
        k = k - 1;
        acc = b[i + k] as u128 + 256 * acc;
    }
    proof {
        lemma_le_uint_bounds(b@, i as int, n as nat);
        lemma_pow256_le(n as nat);
    }
    acc as u64
}

/// `256^n` for `n <= 8` is at most `2^64`.
pub proof fn lemma_pow256_le(n: nat)
    requires
        n <= 8,
    ensures
        pow256(n) <= pow256(8),
        pow256(8) == 0x1_0000_0000_0000_0000,
    decreases 8 - n,
{
    reveal_with_fuel(pow256, 9);
    if n < 8 {
        lemma_pow256_le(n + 1);
    }
}

/// The `n` little-endian bytes of `x`.
pub open spec fn le_bytes_of(x: int, n: nat) -> Seq<u8>
    decreases n,
{
    if n == 0 {
        Seq::empty()
    } else {
        seq![(x % 256) as u8] + le_bytes_of(x / 256, (n - 1) as nat)
    }
}

/// Writing back the little-endian value of `n` bytes gives those bytes.
pub proof fn lemma_le_bytes_of_uint(b: Seq<u8>, i: int, n: nat)
    requires
        0 <= i && i + n <= b.len(),
    ensures
        le_bytes_of(le_uint(b, i, n), n) == b.subrange(i, i + n),
    decreases n,
{
    if n > 0 {
        let rest = le_uint(b, i + 1, (n - 1) as nat);
        lemma_le_uint_bounds(b, i + 1, (n - 1) as nat);
        lemma_fundamental_div_mod_converse(le_uint(b, i, n), 256, rest, b[i] as int);
        lemma_le_bytes_of_uint(b, i + 1, (n - 1) as nat);
        assert(le_bytes_of(le_uint(b, i, n), n) =~= b.subrange(i, i + n));
    }
}

/// The fixed-width little-endian readings agree with `le_uint`.
pub proof fn lemma_le_fixed_is_uint(b: Seq<u8>, i: int)
    ensures
        le_u16_at(b, i) == le_uint(b, i, 2),
        le_u32_at(b, i) == le_uint(b, i, 4),
        le_u64_at(b, i) == le_uint(b, i, 8),
{
    reveal_with_fuel(le_uint, 9);
}

/// The four little-endian bytes of `x`.
pub fn u32_to_le_bytes(x: u32) -> (r: [u8; 4])
    ensures
        r@ == le_bytes_of(x as int, 4),
{
    let b0 = (x % 256) as u8;
    let x1 = x / 256;
    let b1 = (x1 % 256) as u8;
    let x2 = x1 / 256;
    let b2 = (x2 % 256) as u8;
    let x3 = x2 / 256;
    let b3 = (x3 % 256) as u8;
    let r = [b0, b1, b2, b3];
    reveal_with_fuel(le_bytes_of, 5);
    assert(r@ =~= le_bytes_of(x as int, 4));
    r
}

/// The eight little-endian bytes of `x`.
pub fn u64_to_le_bytes(x: u64) -> (r: [u8; 8])
    ensures
        r@.len() == 8,
        le_u64_at(r@, 0) == x as int,
        r@ == le_bytes_of(x as int, 8),
{
    let b0 = (x % 256) as u8;
    let x1 = x / 256;
    let b1 = (x1 % 256) as u8;
    let x2 = x1 / 256;
    let b2 = (x2 % 256) as u8;
    let x3 = x2 / 256;
    let b3 = (x3 % 256) as u8;
    let x4 = x3 / 256;
    let b4 = (x4 % 256) as u8;
    let x5 = x4 / 256;
    let b5 = (x5 % 256) as u8;
    let x6 = x5 / 256;
    let b6 = (x6 % 256) as u8;
    let x7 = x6 / 256;
    let b7 = (x7 % 256) as u8;
    assert(x7 < 256);
    let r = [b0, b1, b2, b3, b4, b5, b6, b7];
    assert(r@ =~= seq![b0, b1, b2, b3, b4, b5, b6, b7]);
    reveal_with_fuel(le_bytes_of, 9);
    assert(r@ =~= le_bytes_of(x as int, 8));
    r
}

/// What a `ByteStream` stands for: a window of `size` bytes of `image`
/// starting at byte `origin`, and a cursor `pos` inside it.
pub ghost struct StreamView {
    pub image: Seq<u8>,
    pub origin: int,
    pub size: int,
    pub pos: int,
}

impl StreamView {
    pub open spec fn valid(self) -> bool {
        0 <= self.origin && 0 <= self.size && self.origin + self.size <= self.image.len()
            && 0 <= self.pos <= self.size && self.image.len() <= usize::MAX
    }

    /// Absolute image offset of the cursor.
    pub open spec fn abs(self) -> int {
        self.origin + self.pos
    }

    /// Whether `n` more bytes can be consumed from the window.
    pub open spec fn has(self, n: int) -> bool {
        self.pos + n <= self.size
    }

    pub open spec fn advanced(self, n: int) -> StreamView {
        StreamView { pos: self.pos + n, ..self }
    }
}

/// A cursor over a window of a disk image. Reads consume bytes of the
/// window; the out-of-window reads leave the cursor and window alone.
pub struct ByteStream<'a> {
    image: &'a [u8],
    origin: usize,
    size: usize,
    pos: usize,
}

impl<'a> View for ByteStream<'a> {
    type V = StreamView;

    closed spec fn view(&self) -> StreamView {
        StreamView {
            image: self.image@,
            origin: self.origin as int,
            size: self.size as int,
            pos: self.pos as int,
        }
    }
}

/// Whether `count` bytes starting at byte `from` lie inside an image of
/// `len` bytes.
pub open spec fn in_image(len: int, from: int, count: int) -> bool {
    0 <= from && 0 <= count && from + count <= len
}

impl<'a> ByteStream<'a> {
    pub open spec fn wf(&self) -> bool {
        self@.valid()
    }

    /// A window of `size` bytes starting at sector `offset`.
    pub fn new(image: &'a [u8], size: usize, offset: u64) -> (r: Result<ByteStream<'a>, DecodeError>)
        ensures
            match r {
                Ok(s) => {
                    &&& in_image(image@.len() as int, offset as int * 512, size as int)
                    &&& s.wf()
                    &&& s@ == (StreamView {
                        image: image@,
                        origin: offset as int * 512,
                        size: size as int,
                        pos: 0,
                    })
                },
                Err(e) => e == DecodeError::Io && !in_image(image@.len() as int, offset as int * 512, size as int),
            },
    {
        let len = image.len();
        if offset > (len / SECTOR_SIZE) as u64 {
            return Err(DecodeError::Io);
        }
        let origin = offset as usize * SECTOR_SIZE;
        if size > len - origin {
            return Err(DecodeError::Io);
        }
        Ok(ByteStream { image, origin, size, pos: 0 })
    }

    /// A window of `size` bytes starting at the sector that holds byte
    /// `offset`, with the cursor placed on that byte.
    pub fn from_byte_offset(image: &'a [u8], size: usize, offset: u64) -> (r: Result<ByteStream<'a>, DecodeError>)
        ensures
            match r {
                Ok(s) => {
                    &&& in_image(image@.len() as int, offset as int - (offset as int % 512), size as int)
                    &&& (offset as int % 512) <= size
                    &&& s.wf()
                    &&& s@ == (StreamView {
                        image: image@,
                        origin: offset as int - (offset as int % 512),
                        size: size as int,
                        pos: (offset as int % 512),
                    })
                    &&& s@.abs() == offset as int
                },
                Err(e) => e == DecodeError::Io && !(in_image(
                    image@.len() as int,
                    offset as int - (offset as int % 512),
                    size as int,
                ) && (offset as int % 512) <= size),
            },
    {
        let len = image.len();
        let skip = (offset % SECTOR_SIZE as u64) as usize;
        let start = offset - skip as u64;
        if start > len as u64 {
            return Err(DecodeError::Io);
        }
        let origin = start as usize;
        if size > len - origin || skip > size {
            return Err(DecodeError::Io);
        }
        Ok(ByteStream { image, origin, size, pos: skip })
    }

    /// Absolute image offset of the cursor.
    pub fn get_byte_offset(&self) -> (r: u64)
        requires
            self.wf(),
        ensures
            r == self@.abs(),
    {
        (self.origin + self.pos) as u64
    }

    /// Consumes `amount` bytes.
    pub fn read_raw(&mut self, amount: usize) -> (r: Result<Vec<u8>, DecodeError>)
        requires
            old(self).wf(),
        ensures
            final(self).wf(),
            match r {
                Ok(v) => old(self)@.has(amount as int) && final(self)@ == old(self)@.advanced(amount as int)
                    && v@ == old(self)@.image.subrange(old(self)@.abs(), old(self)@.abs() + amount),
                Err(e) => e == DecodeError::Io && !old(self)@.has(amount as int) && final(self)@ == old(self)@,
            },
    {
        if amount > self.size - self.pos {
            return Err(DecodeError::Io);
        }
        let start = self.origin + self.pos;
        let v = slice_range(self.image, start, start + amount);
        self.pos = self.pos + amount;
        Ok(v)
    }

    /// Reads `amount` sectors starting at sector `from` of the image,
    /// leaving the cursor and the window unchanged.
    pub fn read_raw_sectors_from_file(&mut self, from: usize, amount: usize) -> (r: Result<Vec<u8>, DecodeError>)
        requires
            old(self).wf(),
        ensures
            *final(self) == *old(self),
            match r {
                Ok(v) => in_image(old(self)@.image.len() as int, from * SECTOR_SIZE, amount * SECTOR_SIZE)
                    && v@ == old(self)@.image.subrange(from * SECTOR_SIZE, (from + amount) * SECTOR_SIZE),
                Err(e) => e == DecodeError::Io
                    && !in_image(old(self)@.image.len() as int, from * SECTOR_SIZE, amount * SECTOR_SIZE),
            },
    {
        let len = self.image.len();
        if from > len / SECTOR_SIZE || amount > len / SECTOR_SIZE - from {
            return Err(DecodeError::Io);
        }
        self.read_raw_bytes_from_file(from * SECTOR_SIZE, amount * SECTOR_SIZE)
    }

    /// Reads `amount` bytes starting at byte `from` of the image, leaving the
    /// cursor and the window unchanged.
    pub fn read_raw_bytes_from_file(&mut self, from: usize, amount: usize) -> (r: Result<Vec<u8>, DecodeError>)
        requires
            old(self).wf(),
        ensures
            *final(self) == *old(self),
            match r {
                Ok(v) => in_image(old(self)@.image.len() as int, from as int, amount as int)
                    && v@ == old(self)@.image.subrange(from as int, from + amount),
                Err(e) => e == DecodeError::Io && !in_image(old(self)@.image.len() as int, from as int, amount as int),
            },
    {
        let len = self.image.len();
        if from > len || amount > len - from {
            return Err(DecodeError::Io);
        }
        Ok(slice_range(self.image, from, from + amount))
    }
}

/// How a read of `n` bytes moves the stream: on success the cursor advances
/// by `n`; when fewer than `n` bytes are left in the window the read fails
/// with `Io` and nothing moves.
pub open spec fn consumed<T>(r: Result<T, DecodeError>, before: StreamView, after: StreamView, n: int) -> bool {
    match r {
        Ok(_) => before.has(n) && after == before.advanced(n),
        Err(e) => e == DecodeError::Io && !before.has(n) && after == before,
    }
}

impl<'a> ByteStream<'a> {
    /// Claims `n` bytes of the window and returns their absolute offset.
    fn take(&mut self, n: usize) -> (r: Result<usize, DecodeError>)
        requires
            old(self).wf(),
        ensures
            final(self).wf(),
            consumed(r, old(self)@, final(self)@, n as int),
            r is Ok ==> r->Ok_0 == old(self)@.abs() && old(self)@.abs() + n <= old(self)@.image.len(),
    {
        if n > self.size - self.pos {
            return Err(DecodeError::Io);
        }
        let at = self.origin + self.pos;
        self.pos = self.pos + n;
        Ok(at)
    }

    pub fn read_u8(&mut self) -> (r: Result<u8, DecodeError>)
        requires
            old(self).wf(),
        ensures
            final(self).wf(),
            consumed(r, old(self)@, final(self)@, 1),
            r is Ok ==> r->Ok_0 == old(self)@.image[old(self)@.abs()],
    {
        let at = self.take(1)?;
        Ok(self.image[at])
    }

    pub fn read_le_u16(&mut self) -> (r: Result<u16, DecodeError>)
        requires
            old(self).wf(),
        ensures
            final(self).wf(),
            consumed(r, old(self)@, final(self)@, 2),
            r is Ok ==> r->Ok_0 as int == le_u16_at(old(self)@.image, old(self)@.abs()),
    {
        let at = self.take(2)?;
        Ok(le16(self.image, at))
    }

    pub fn read_le_u32(&mut self) -> (r: Result<u32, DecodeError>)
        requires
            old(self).wf(),
        ensures
            final(self).wf(),
            consumed(r, old(self)@, final(self)@, 4),
            r is Ok ==> r->Ok_0 as int == le_u32_at(old(self)@.image, old(self)@.abs()),
    {
        let at = self.take(4)?;
        Ok(le32(self.image, at))
    }

    pub fn read_le_u64(&mut self) -> (r: Result<u64, DecodeError>)
        requires
            old(self).wf(),
        ensures
            final(self).wf(),
            consumed(r, old(self)@, final(self)@, 8),
            r is Ok ==> r->Ok_0 as int == le_u64_at(old(self)@.image, old(self)@.abs()),
    {
        let at = self.take(8)?;
        Ok(le64(self.image, at))
    }

    pub fn read_be_u16(&mut self) -> (r: Result<u16, DecodeError>)
        requires
            old(self).wf(),
        ensures
            final(self).wf(),
            consumed(r, old(self)@, final(self)@, 2),
            r is Ok ==> r->Ok_0 as int == be_u16_at(old(self)@.image, old(self)@.abs()),
    {
        let at = self.take(2)?;
        Ok(be16(self.image, at))
    }

    pub fn read_be_u32(&mut self) -> (r: Result<u32, DecodeError>)
        requires
            old(self).wf(),
        ensures
            final(self).wf(),
            consumed(r, old(self)@, final(self)@, 4),
            r is Ok ==> r->Ok_0 as int == be_u32_at(old(self)@.image, old(self)@.abs()),
    {
        let at = self.take(4)?;
        Ok(be32(self.image, at))
    }

    /// Decodes the little-endian `u32` at the cursor without consuming it.
    pub fn peek_le_u32(&self) -> (r: Result<u32, DecodeError>)
        requires
            self.wf(),
        ensures
            match r {
                Ok(v) => self@.has(4) && v as int == le_u32_at(self@.image, self@.abs()),
                Err(e) => e == DecodeError::Io && !self@.has(4),
            },
    {
        if 4 > self.size - self.pos {
            return Err(DecodeError::Io);
        }
        Ok(le32(self.image, self.origin + self.pos))
    }

    /// Consumes exactly `n` bytes as a byte sequence.
    pub fn read_byte_array(&mut self, n: usize) -> (r: Result<Vec<u8>, DecodeError>)
        requires
            old(self).wf(),
        ensures
            final(self).wf(),
            consumed(r, old(self)@, final(self)@, n as int),
            r is Ok ==> r->Ok_0@ == old(self)@.image.subrange(old(self)@.abs(), old(self)@.abs() + n),
    {
        self.read_raw(n)
    }

    /// Advances the cursor by `amount` bytes.
    pub fn skip_bytes(&mut self, amount: u64) -> (r: Result<(), DecodeError>)
        requires
            old(self).wf(),
        ensures
            final(self).wf(),
            consumed(r, old(self)@, final(self)@, amount as int),
    {
        if amount > (self.size - self.pos) as u64 {
            return Err(DecodeError::Io);
        }
        self.pos = self.pos + amount as usize;
        Ok(())
    }
}

/// The bytes of a 16-bit little-endian value are the bytes it was read
/// from.
pub proof fn lemma_le16_bytes(b: Seq<u8>, i: int)
    requires
        0 <= i && i + 2 <= b.len(),
    ensures
        (le_u16_at(b, i) / pow2_8(0)) % 256 == b[i],
        (le_u16_at(b, i) / pow2_8(1)) % 256 == b[i + 1],
{
    let x = le_u16_at(b, i);
    lemma_fundamental_div_mod_converse(x, 256, b[i + 1] as int, b[i] as int);
    lemma_fundamental_div_mod_converse(x, 1, x, 0);
    lemma_fundamental_div_mod_converse(b[i + 1] as int, 256, 0, b[i + 1] as int);
    lemma_fundamental_div_mod_converse(x, 256, x / 256, x % 256);
    lemma_fundamental_div_mod_converse(b[i] as int, 256, 0, b[i] as int);
}

/// The bytes of a 32-bit little-endian value are the bytes it was read
/// from.
pub proof fn lemma_le32_bytes(b: Seq<u8>, i: int)
    requires
        0 <= i && i + 4 <= b.len(),
    ensures
        (le_u32_at(b, i) / pow2_8(0)) % 256 == b[i],
        (le_u32_at(b, i) / pow2_8(1)) % 256 == b[i + 1],
        (le_u32_at(b, i) / pow2_8(2)) % 256 == b[i + 2],
        (le_u32_at(b, i) / pow2_8(3)) % 256 == b[i + 3],
{
    let x = le_u32_at(b, i);
    let (b0, b1, b2, b3) = (b[i] as int, b[i + 1] as int, b[i + 2] as int, b[i + 3] as int);
    assert(x == b0 + 256 * b1 + 65536 * b2 + 16777216 * b3);
    lemma_fundamental_div_mod_converse(x, 1, x, 0);
    lemma_fundamental_div_mod_converse(x, 256, b1 + 256 * b2 + 65536 * b3, b0);
    lemma_fundamental_div_mod_converse(x, 65536, b2 + 256 * b3, b0 + 256 * b1);
    lemma_fundamental_div_mod_converse(x, 16777216, b3, b0 + 256 * b1 + 65536 * b2);
    lemma_fundamental_div_mod_converse(x % 256 + 0, 256, 0, b0);
    lemma_fundamental_div_mod_converse(b1 + 256 * b2 + 65536 * b3, 256, b2 + 256 * b3, b1);
    lemma_fundamental_div_mod_converse(b2 + 256 * b3, 256, b3, b2);
    lemma_fundamental_div_mod_converse(b3, 256, 0, b3);
}

/// The `k`-th little-endian byte of `x`.
pub open spec fn le_byte(x: u32, k: int) -> u8 {
    ((x as int / pow2_8(k)) % 256) as u8
}

/// A 32-bit value is the little-endian reading of its own four bytes.
pub proof fn lemma_le_bytes_u32(x: u32)
    ensures
        le_byte(x, 0) as int + 256 * le_byte(x, 1) as int + 65536 * le_byte(x, 2) as int
            + 16777216 * le_byte(x, 3) as int == x as int,
{
    let v = x as int;
    lemma_fundamental_div_mod_converse(v, 1, v, 0);
    let q1 = v / 256;
    let q2 = v / 65536;
    let q3 = v / 16777216;
    vstd::arithmetic::div_mod::lemma_fundamental_div_mod(v, 256);
    vstd::arithmetic::div_mod::lemma_fundamental_div_mod(v, 65536);
    vstd::arithmetic::div_mod::lemma_fundamental_div_mod(v, 16777216);
    vstd::arithmetic::div_mod::lemma_fundamental_div_mod(q1, 256);
    vstd::arithmetic::div_mod::lemma_fundamental_div_mod(q2, 256);
    vstd::arithmetic::div_mod::lemma_fundamental_div_mod(q3, 256);
    vstd::arithmetic::div_mod::lemma_div_denominator(v, 256, 256);
    vstd::arithmetic::div_mod::lemma_div_denominator(v, 65536, 256);
    assert(q3 < 256);
    vstd::arithmetic::div_mod::lemma_small_mod(q3 as nat, 256);
}

/// `256^j` for `j` in `0..4`.
pub open spec fn pow2_8(j: int) -> int {
    if j == 0 {
        1
    } else if j == 1 {
        256
    } else if j == 2 {
        65536
    } else {
        16777216
    }
}

/// A high (leading) UTF-16 surrogate.
pub open spec fn is_high_surrogate(u: u16) -> bool {
    0xD800 <= u < 0xDC00
}

/// A low (trailing) UTF-16 surrogate.
pub open spec fn is_low_surrogate(u: u16) -> bool {
    0xDC00 <= u < 0xE000
}

/// `s` is the standard UTF-16 decoding of the code units `u`: units outside
/// the surrogate range stand for themselves, a high surrogate followed by a
/// low one stands for one supplementary character, and nothing else decodes.
pub open spec fn utf16_decodes_to(u: Seq<u16>, s: Seq<char>) -> bool
    decreases u.len(),
{
    if u.len() == 0 {
        s.len() == 0
    } else if s.len() == 0 {
        false
    } else if is_high_surrogate(u[0]) {
        &&& u.len() >= 2
        &&& is_low_surrogate(u[1])
        &&& s[0] as u32 as int == 0x10000 + (u[0] - 0xD800) * 0x400 + (u[1] - 0xDC00)
        &&& utf16_decodes_to(u.subrange(2, u.len() as int), s.drop_first())
    } else {
        &&& !is_low_surrogate(u[0])
        &&& s[0] as u32 as int == u[0] as int
        &&& utf16_decodes_to(u.drop_first(), s.drop_first())
    }
}

pub open spec fn utf16_valid(u: Seq<u16>) -> bool {
    exists|s: Seq<char>| utf16_decodes_to(u, s)
}

/// The little-endian code units held in the byte sequence `b`.
pub open spec fn utf16_units(b: Seq<u8>) -> Seq<u16> {
    Seq::new(b.len() / 2, |k: int| le_u16_at(b, 2 * k) as u16)
}

/// Relies on `String::from_utf16`: it decodes well-formed UTF-16 and
/// returns an error on any unpaired surrogate.
#[verifier::external_body]
fn string_from_utf16(units: &[u16]) -> (r: Option<String>)
    ensures
        match r {
            Some(s) => utf16_decodes_to(units@, s@),
            None => !utf16_valid(units@),
        },
{
    String::from_utf16(units).ok()
}

/// What `String::from_utf8` makes of a byte sequence: the decoded text, or
/// `None` when the bytes are not UTF-8.
pub uninterp spec fn utf8_text(b: Seq<u8>) -> Option<Seq<char>>;

/// Bytes that are all ASCII, read one character per byte.
pub open spec fn ascii_text(b: Seq<u8>) -> Option<Seq<char>> {
    if forall|i: int| 0 <= i < b.len() ==> b[i] < 0x80 {
        Some(Seq::new(b.len(), |i: int| b[i] as char))
    } else {
        None
    }
}

/// Relies on `String::from_utf8`: the text of valid UTF-8 bytes, an error
/// otherwise; ASCII bytes are valid UTF-8 and decode one character each.
#[verifier::external_body]
pub(crate) fn string_from_utf8(b: Vec<u8>) -> (r: Option<String>)
    ensures
        match r {
            Some(s) => utf8_text(b@) == Some(s@),
            None => utf8_text(b@) is None,
        },
        ascii_text(b@) is Some ==> r is Some && r->Some_0@ == ascii_text(b@)->Some_0,
{
    String::from_utf8(b).ok()
}

/// Relies on `String::push`: appends one character.
#[verifier::external_body]
pub(crate) fn push_char(s: &mut String, c: char)
    ensures
        final(s)@ == old(s)@.push(c),
{
    s.push(c)
}

/// Combines two bytes, the first the low one, into a 16-bit unit.
pub fn bytes_to_u16(first: u8, second: u8) -> (r: u16)
    ensures
        r as int == first as int + 256 * second as int,
{
    first as u16 + 256 * (second as u16)
}

/// Decodes UTF-16LE bytes. An odd byte count or malformed UTF-16 is an
/// `Encoding` error.
pub fn interpret_bytes_as_utf16(name_bytes: &[u8]) -> (r: Result<String, DecodeError>)
    ensures
        match r {
            Ok(s) => name_bytes@.len() % 2 == 0 && utf16_decodes_to(utf16_units(name_bytes@), s@),
            Err(e) => e == DecodeError::Encoding && (name_bytes@.len() % 2 == 1 || !utf16_valid(
                utf16_units(name_bytes@),
            )),
        },
{
    let num_bytes = name_bytes.len();
    if num_bytes % 2 == 1 {
        return Err(DecodeError::Encoding);
    }
    let mut units: Vec<u16> = Vec::with_capacity(num_bytes / 2);
    let mut k: usize = 0;
    while k < num_bytes / 2
        invariant
            num_bytes == name_bytes@.len(),
            num_bytes % 2 == 0,
            k <= num_bytes / 2,
            units@ == utf16_units(name_bytes@).subrange(0, k as int),
        decreases num_bytes / 2 - k,
    {
        units.push(bytes_to_u16(name_bytes[2 * k], name_bytes[2 * k + 1]));
        k = k + 1;
        assert(units@ =~= utf16_units(name_bytes@).subrange(0, k as int));
    }
    assert(units@ =~= utf16_units(name_bytes@));
    match string_from_utf16(units.as_slice()) {
        Some(s) => Ok(s),
        None => Err(DecodeError::Encoding),
    }
}

/// A copy of `b[from..to]`.
pub fn slice_range(b: &[u8], from: usize, to: usize) -> (r: Vec<u8>)
    requires
        from <= to <= b.len(),
    ensures
        r@ == b@.subrange(from as int, to as int),
{
    let mut v: Vec<u8> = Vec::with_capacity(to - from);
    let mut k: usize = from;
    while k < to
        invariant
            from <= k <= to <= b.len(),
            v@ == b@.subrange(from as int, k as int),
        decreases to - k,
    {
        v.push(b[k]);
        k = k + 1;
        assert(v@ =~= b@.subrange(from as int, k as int));
    }
    v
}

} // verus!
