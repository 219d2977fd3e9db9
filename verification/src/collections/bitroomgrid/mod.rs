//! Room sized maps of one bit per tile.
pub mod trait_impl;

pub use self::trait_impl::{BitRoomGrid1717, BitRoomGrid5050};

use crate::collections::run_length::{decode, decoded, encode, encoded, zero_padded, DecodeError};
use vstd::prelude::*;

verus! {

/// Whether bit `k` (counted from the least significant) of `b` is set.
pub open spec fn bit_of(b: u8, k: int) -> bool {
    (b >> (k as u8)) & 1u8 == 1u8
}

/// Bit `i` of a buffer: bit `i % 8` of byte `i / 8`.
pub open spec fn bit_at(bytes: Seq<u8>, i: int) -> bool {
    bit_of(bytes[i / 8], i % 8)
}

/// A buffer of `len` zero bytes.
pub open spec fn zeros(len: nat) -> Seq<u8> {
    Seq::new(len, |i: int| 0u8)
}

/// The message that decoding reports for an error.
pub open spec fn decode_error_text(e: DecodeError) -> Seq<char> {
    match e {
        DecodeError::UnexpectedEnd => "Unexpected end of input"@,
        DecodeError::InvalidInput => "Failed to deserialize: invalid input"@,
    }
}

/// The message for a decoding error.
pub fn decode_error_message(e: DecodeError) -> (m: &'static str)
    ensures
        m@ == decode_error_text(e),
{
    match e {
        DecodeError::UnexpectedEnd => "Unexpected end of input",
        DecodeError::InvalidInput => "Failed to deserialize: invalid input",
    }
}

proof fn lemma_bit_test(cell: u8, col: u8)
    requires
        col < 8,
    ensures
        (cell & (1u8 << col) != 0u8) == bit_of(cell, col as int),
{
    assert((cell & (1u8 << col) != 0u8) == ((cell >> col) & 1u8 == 1u8)) by (bit_vector)
        requires
            col < 8,
    ;
}

proof fn lemma_bit_update(cell: u8, col: u8, value: bool)
    requires
        col < 8,
    ensures
        ({
            let n = if value {
                cell | (1u8 << col)
            } else {
                cell & !(1u8 << col)
            };
            &&& bit_of(n, col as int) == value
            &&& forall|k: u8| k < 8 && k != col ==> bit_of(n, k as int) == bit_of(cell, k as int)
        }),
{
    if value {
        assert(((cell | (1u8 << col)) >> col) & 1u8 == 1u8) by (bit_vector)
            requires
                col < 8,
        ;
        assert forall|k: u8| k < 8 && k != col implies bit_of(cell | (1u8 << col), k as int)
            == bit_of(cell, k as int) by {
            assert((((cell | (1u8 << col)) >> k) & 1u8 == 1u8) == ((cell >> k) & 1u8 == 1u8))
                by (bit_vector)
                requires
                    col < 8,
                    k < 8,
                    k != col,
            ;
        }
    } else {
        assert(((cell & !(1u8 << col)) >> col) & 1u8 == 0u8) by (bit_vector)
            requires
                col < 8,
        ;
        assert forall|k: u8| k < 8 && k != col implies bit_of(cell & !(1u8 << col), k as int)
            == bit_of(cell, k as int) by {
            assert((((cell & !(1u8 << col)) >> k) & 1u8 == 1u8) == ((cell >> k) & 1u8 == 1u8))
                by (bit_vector)
                requires
                    col < 8,
                    k < 8,
                    k != col,
            ;
        }
    }
}

proof fn lemma_zero_bits()
    ensures
        forall|k: int| 0 <= k < 8 ==> !bit_of(0u8, k),
{
    assert forall|k: int| 0 <= k < 8 implies !bit_of(0u8, k) by {
        let kk = k as u8;
        assert((0u8 >> kk) & 1u8 == 0u8) by (bit_vector);
    }
}

/// Every bit of a zeroed buffer is clear.
pub proof fn lemma_zeros_clear(len: nat, i: int)
    requires
        0 <= i < len * 8,
    ensures
        !bit_at(zeros(len), i),
{
    lemma_zero_bits();
}

/// Read bit `flat` of a byte buffer.
pub fn bits_get<const L: usize>(buf: &[u8; L], flat: usize) -> (b: bool)
    requires
        flat < L * 8,
    ensures
        b == bit_at(buf@, flat as int),
{
    let cell = buf[flat / 8];
    let col = (flat % 8) as u8;
    proof {
        lemma_bit_test(cell, col);
    }
    cell & (1u8 << col) != 0
}

/// Write bit `flat` of a byte buffer.
pub fn bits_set<const L: usize>(buf: &mut [u8; L], flat: usize, value: bool)
    requires
        flat < L * 8,
    ensures
        final(buf)@.len() == L,
        forall|i: int|
            0 <= i < L * 8 ==> #[trigger] bit_at(final(buf)@, i) == if i == flat {
                value
            } else {
                bit_at(old(buf)@, i)
            },
{
    let idx = flat / 8;
    let cell = buf[idx];
    let col = (flat % 8) as u8;
    let n = if value {
        cell | (1u8 << col)
    } else {
        cell & !(1u8 << col)
    };
    buf[idx] = n;
    proof {
        lemma_bit_update(cell, col, value);
        assert forall|i: int| 0 <= i < L * 8 implies #[trigger] bit_at(buf@, i) == if i == flat {
            value
        } else {
            bit_at(old(buf)@, i)
        } by {
            if i / 8 == idx {
                if i != flat {
                    let k = (i % 8) as u8;
                    assert(k != col);
                }
            } else {
                assert(buf@[i / 8] == old(buf)@[i / 8]);
            }
        }
    }
}

/// Copy a decoded buffer into an array.
pub fn fill_array<const L: usize>(src: &Vec<u8>) -> (a: [u8; L])
    requires
        src@.len() == L,
    ensures
        a@ == src@,
{
    let mut a = [0u8; L];
    let mut i: usize = 0;
    while i < L
        invariant
            i <= L,
            src@.len() == L,
            a@.len() == L,
            forall|j: int| 0 <= j < i ==> a@[j] == src@[j],
        decreases L - i,
    {
        a[i] = src[i];
        i = i + 1;
    }
    assert(a@ =~= src@);
    a
}

/// Run-length encode a byte array.
pub fn compress_bytes<const L: usize>(buf: &[u8; L]) -> (r: Result<String, std::fmt::Error>)
    requires
        L > 0,
    ensures
        r matches Ok(s) && s@ == encoded(buf@),
{
    Ok(encode(buf.as_slice()))
}

/// Decode a text into a byte array, zero after the decoded bytes.
pub fn decompress_bytes<const L: usize>(value: &str) -> (r: Result<[u8; L], &'static str>)
    requires
        decoded(value@).0.len() <= L,
    ensures
        decoded(value@).1 is None ==> (r matches Ok(a) && a@ == zero_padded(decoded(value@).0, L as nat)),
        decoded(value@).1 matches Some(e) ==> (r matches Err(m) && m@ == decode_error_text(e)),
{
    match decode(value, L) {
        Ok(v) => Ok(fill_array(&v)),
        Err(e) => Err(decode_error_message(e)),
    }
}

/// A room sized map of one bit per tile, stored in a fixed number of bytes.
/// Tile `(x, y)` is bit `x * room_rows() + y` of the bytes.
pub trait BitGrid: Sized {
    /// Number of tiles along a room's side.
    spec fn room_rows() -> int;

    /// Number of bytes of storage.
    spec fn byte_count() -> nat;

    /// The bytes of the map.
    spec fn bytes(&self) -> Seq<u8>;

    /// Every map holds `byte_count()` bytes, at least one and few enough to
    /// count in a `usize`.
    proof fn lemma_byte_count(&self)
        ensures
            self.bytes().len() == Self::byte_count(),
            0 < Self::byte_count() <= usize::MAX,
    ;

    /// The flag of tile `(x, y)`.
    fn get(&self, x: usize, y: usize) -> (b: bool)
        requires
            x * Self::room_rows() + y < Self::byte_count() * 8,
        ensures
            b == bit_at(self.bytes(), x * Self::room_rows() + y),
    ;

    /// Set the flag of tile `(x, y)`.
    fn set(&mut self, x: usize, y: usize, value: bool)
        requires
            x * Self::room_rows() + y < Self::byte_count() * 8,
        ensures
            final(self).bytes().len() == Self::byte_count(),
            forall|i: int|
                0 <= i < Self::byte_count() * 8 ==> #[trigger] bit_at(final(self).bytes(), i) == if i
                    == x * Self::room_rows() + y {
                    value
                } else {
                    bit_at(old(self).bytes(), i)
                },
    ;

    /// Create a compressed String representation.
    /// Structure: `"([0-9]{1,3})_([0-9]{1,3})-?"`
    /// The compression counts consecutive bytes and records their number.
    /// For example `[1, 1, 1, 0]` would become `"1_3-0_1"`.
    fn compressed(&self) -> (r: Result<String, std::fmt::Error>)
        ensures
            r matches Ok(s) && s@ == encoded(self.bytes()),
    ;

    /// Decompress Strings compressed by the `compressed` method.
    fn decompress(value: &str) -> (r: Result<Self, &'static str>)
        requires
            decoded(value@).0.len() <= Self::byte_count(),
        ensures
            decoded(value@).1 is None ==> (r matches Ok(g) && g.bytes() == zero_padded(
                decoded(value@).0,
                Self::byte_count(),
            )),
            decoded(value@).1 matches Some(e) ==> (r matches Err(m) && m@ == decode_error_text(e)),
    ;
}

/// 50×50 map of one bit per tile, stored in 320 bytes.
#[derive(Debug, Clone)]
pub struct BitRoomGrid {
    buffer: [u8; 320],
}

impl View for BitRoomGrid {
    type V = Seq<u8>;

    /// The bytes of the map; tile `(x, y)` is bit `x * 50 + y`.
    closed spec fn view(&self) -> Seq<u8> {
        self.buffer@
    }
}

impl Default for BitRoomGrid {
    fn default() -> (g: Self)
        ensures
            g@ == zeros(320),
    {
        let g = BitRoomGrid { buffer: [0u8; 320] };
        assert(g@ =~= zeros(320));
        g
    }
}

impl BitRoomGrid {
    /// Every grid holds 320 bytes.
    pub proof fn lemma_byte_count(&self)
        ensures
            self@.len() == 320,
    {
    }

    /// The flag of tile `(x, y)`.
    pub fn get(&self, x: u16, y: u16) -> (b: bool)
        requires
            x * 50 + y < 2560,
        ensures
            b == bit_at(self@, x * 50 + y),
    {
        let flat = x * 50 + y;
        let flat = flat as usize;
        bits_get(&self.buffer, flat)
    }

    /// Set the flag of tile `(x, y)`.
    pub fn set(&mut self, x: u16, y: u16, value: bool)
        requires
            x * 50 + y < 2560,
        ensures
            final(self)@.len() == 320,
            forall|i: int|
                0 <= i < 2560 ==> #[trigger] bit_at(final(self)@, i) == if i == x * 50 + y {
                    value
                } else {
                    bit_at(old(self)@, i)
                },
    {
        let flat = x * 50 + y;
        let flat = flat as usize;
        bits_set(&mut self.buffer, flat, value);
    }

    /// Create a compressed String representation.
    /// Structure: `"([0-9]{1,3})_([0-9]{1,3})-?"`
    /// The compression counts consecutive bytes and records their number.
    /// For example `[1, 1, 1, 0]` would become `"1_3-0_1"`.
    pub fn compressed(&self) -> (r: Result<String, std::fmt::Error>)
        ensures
            r matches Ok(s) && s@ == encoded(self@),
    {
        compress_bytes(&self.buffer)
    }

    /// Decompress Strings compressed by the `compressed` method.
    pub fn decompress(value: &str) -> (r: Result<Self, &'static str>)
        requires
            decoded(value@).0.len() <= 320,
        ensures
            decoded(value@).1 is None ==> (r matches Ok(g) && g@ == zero_padded(decoded(value@).0, 320)),
            decoded(value@).1 matches Some(e) ==> (r matches Err(m) && m@ == decode_error_text(e)),
    {
        match decompress_bytes::<320>(value) {
            Ok(buffer) => Ok(BitRoomGrid { buffer }),
            Err(m) => Err(m),
        }
    }
}

/// Tiles `(x, y)` and `(u, v)` of a room `rows` tiles high share a flat
/// index only if they are the same tile.
pub proof fn lemma_flat_index_injective(x: int, y: int, u: int, v: int, rows: int)
    requires
        0 <= y < rows,
        0 <= v < rows,
        0 <= x,
        0 <= u,
        x * rows + y == u * rows + v,
    ensures
        x == u && y == v,
{
    if x < u {
        assert(x * rows + rows <= u * rows) by (nonlinear_arith)
            requires
                x < u,
                rows > 0,
        ;
    } else if u < x {
        assert(u * rows + rows <= x * rows) by (nonlinear_arith)
            requires
                u < x,
                rows > 0,
        ;
    }
}

/// Setting a tile of a room grid changes that tile only: any tile read back
/// afterwards holds the written flag if it is the tile written, its old flag
/// otherwise.
pub proof fn law_bit_grid_set_get(
    before: Seq<u8>,
    after: Seq<u8>,
    rows: int,
    bytes: int,
    x: int,
    y: int,
    value: bool,
    u: int,
    v: int,
)
    requires
        0 <= x,
        0 <= y < rows,
        0 <= u,
        0 <= v < rows,
        x * rows + y < bytes * 8,
        u * rows + v < bytes * 8,
        forall|i: int|
            0 <= i < bytes * 8 ==> #[trigger] bit_at(after, i) == if i == x * rows + y {
                value
            } else {
                bit_at(before, i)
            },
    ensures
        bit_at(after, u * rows + v) == if u == x && v == y {
            value
        } else {
            bit_at(before, u * rows + v)
        },
{
    if u * rows + v == x * rows + y {
        lemma_flat_index_injective(u, v, x, y, rows);
    }
    assert(0 <= u * rows + v) by (nonlinear_arith)
        requires
            0 <= u,
            0 <= v,
            0 <= rows,
    ;
}

/// A default grid has every tile clear.
pub proof fn law_default_grid_clear(rows: int, bytes: nat, x: int, y: int)
    requires
        0 <= x,
        0 <= y,
        0 <= rows,
        x * rows + y < bytes * 8,
    ensures
        !bit_at(zeros(bytes), x * rows + y),
{
    assert(0 <= x * rows) by (nonlinear_arith)
        requires
            0 <= x,
            0 <= rows,
    ;
    lemma_zeros_clear(bytes, x * rows + y);
}

/// Decompressing what any grid compresses to is accepted and gives that
/// grid's bytes back.
pub proof fn law_bit_room_grid_round_trip(g: &BitRoomGrid)
    ensures
        decoded(encoded(g@)).1 is None,
        decoded(encoded(g@)).0.len() <= 320,
        zero_padded(decoded(encoded(g@)).0, 320) == g@,
{
    g.lemma_byte_count();
    law_grid_round_trip(g@);
}

/// Decompressing what any map compresses to is accepted and gives that
/// map's bytes back.
pub proof fn law_bit_grid_round_trip<G: BitGrid>(g: &G)
    ensures
        decoded(encoded(g.bytes())).1 is None,
        decoded(encoded(g.bytes())).0.len() <= G::byte_count(),
        zero_padded(decoded(encoded(g.bytes())).0, G::byte_count()) == g.bytes(),
{
    g.lemma_byte_count();
    law_grid_round_trip(g.bytes());
}

/// Decompressing what a grid compresses to gives the grid back.
pub proof fn law_grid_round_trip(bytes: Seq<u8>)
    requires
        bytes.len() > 0,
        bytes.len() <= usize::MAX,
    ensures
        decoded(encoded(bytes)).1 is None,
        decoded(encoded(bytes)).0.len() == bytes.len(),
        zero_padded(decoded(encoded(bytes)).0, bytes.len()) == bytes,
{
    crate::collections::run_length::law_decode_encoded(bytes);
    assert(zero_padded(bytes, bytes.len()) =~= bytes);
}

} // verus!
