//! Room sized maps of one byte per tile.
pub mod trait_impl;

pub use self::trait_impl::{BitRoomGrid5050, FlagGrid1717};

use crate::collections::bitroomgrid::{decode_error_message, decode_error_text};
use crate::collections::run_length::{decode, decoded, encode, encoded, zero_padded};
use vstd::prelude::*;

verus! {

/// A room sized map of one byte of flags per tile.
/// Tile `(x, y)` is byte `x * rows() + y`.
pub trait FlagGrid: Sized {
    /// Number of rows of the map.
    spec fn rows() -> int;

    /// Number of columns of the map.
    spec fn cols() -> int;

    /// The bytes of the map.
    spec fn cells(&self) -> Seq<u8>;

    /// The map holds `rows() * cols()` bytes.
    spec fn wf(&self) -> bool;

    /// A well formed map holds `rows() * cols()` bytes, a number that fits a
    /// `usize`, with at least one row and one column.
    proof fn lemma_cells_len(&self)
        requires
            self.wf(),
        ensures
            self.cells().len() == Self::rows() * Self::cols(),
            Self::rows() * Self::cols() <= usize::MAX,
            Self::rows() > 0,
            Self::cols() > 0,
    ;

    /// Index of tile `(x, y)` in the bytes.
    fn get_flat_index(x: usize, y: usize) -> (i: usize)
        requires
            x * Self::rows() + y <= usize::MAX,
        ensures
            i == x * Self::rows() + y,
    ;

    /// The flags of tile `(x, y)`.
    fn get(&self, x: usize, y: usize) -> (v: u8)
        requires
            self.wf(),
            x * Self::rows() + y < Self::rows() * Self::cols(),
        ensures
            v == self.cells()[x * Self::rows() + y],
    ;

    /// Set the flags of tile `(x, y)`.
    fn set(&mut self, x: usize, y: usize, value: u8)
        requires
            old(self).wf(),
            x * Self::rows() + y < Self::rows() * Self::cols(),
        ensures
            final(self).wf(),
            final(self).cells() == old(self).cells().update(x * Self::rows() + y, value),
    ;

    /// Create a compressed String representation.
    /// Structure: `"([0-9]{1,3})_([0-9]{1,3})-?"`
    /// The compression counts consecutive bytes and records their number.
    /// For example `[1, 1, 1, 0]` would become `"1_3-0_1"`.
    fn compressed(&self) -> (r: Result<String, std::fmt::Error>)
        requires
            self.wf(),
        ensures
            r matches Ok(s) && s@ == encoded(self.cells()),
    ;

    /// Decompress Strings compressed by the `compressed` method.
    fn decompress(value: &str) -> (r: Result<Self, &'static str>)
        requires
            decoded(value@).0.len() <= Self::rows() * Self::cols(),
        ensures
            decoded(value@).1 is None ==> (r matches Ok(g) && g.wf() && g.cells() == zero_padded(
                decoded(value@).0,
                (Self::rows() * Self::cols()) as nat,
            )),
            decoded(value@).1 matches Some(e) ==> (r matches Err(m) && m@ == decode_error_text(e)),
    ;
}

/// Run-length encode a non-empty byte buffer.
pub fn compress_vec(buffer: &Vec<u8>) -> (r: Result<String, std::fmt::Error>)
    requires
        buffer@.len() > 0,
    ensures
        r matches Ok(s) && s@ == encoded(buffer@),
{
    Ok(encode(buffer.as_slice()))
}

/// Decode a text into a buffer of `len` bytes, zero after the decoded bytes.
pub fn decompress_vec(value: &str, len: usize) -> (r: Result<Vec<u8>, &'static str>)
    requires
        decoded(value@).0.len() <= len,
    ensures
        decoded(value@).1 is None ==> (r matches Ok(v) && v@ == zero_padded(decoded(value@).0, len as nat)),
        decoded(value@).1 matches Some(e) ==> (r matches Err(m) && m@ == decode_error_text(e)),
{
    match decode(value, len) {
        Ok(v) => Ok(v),
        Err(e) => Err(decode_error_message(e)),
    }
}

/// Decompressing what any well formed map compresses to is accepted and
/// gives that map's bytes back.
pub proof fn law_flag_grid_round_trip<G: FlagGrid>(g: &G)
    requires
        g.wf(),
    ensures
        decoded(encoded(g.cells())).1 is None,
        decoded(encoded(g.cells())).0.len() <= G::rows() * G::cols(),
        zero_padded(decoded(encoded(g.cells())).0, (G::rows() * G::cols()) as nat) == g.cells(),
{
    g.lemma_cells_len();
    assert(G::rows() * G::cols() > 0) by (nonlinear_arith)
        requires
            G::rows() > 0,
            G::cols() > 0,
    ;
    crate::collections::bitroomgrid::law_grid_round_trip(g.cells());
}

/// Setting a tile of a well formed map and reading any tile back gives the
/// value written on that tile and the old value elsewhere.
pub proof fn law_flag_grid_tile_set_get<G: FlagGrid>(
    g: &G,
    x: int,
    y: int,
    value: u8,
    u: int,
    v: int,
)
    requires
        g.wf(),
        0 <= x < G::cols(),
        0 <= y < G::rows(),
        0 <= u < G::cols(),
        0 <= v < G::rows(),
    ensures
        x * G::rows() + y < G::rows() * G::cols(),
        u * G::rows() + v < G::rows() * G::cols(),
        g.cells().update(x * G::rows() + y, value)[u * G::rows() + v] == if u == x && v == y {
            value
        } else {
            g.cells()[u * G::rows() + v]
        },
{
    g.lemma_cells_len();
    let r = G::rows();
    let c = G::cols();
    assert(x * r + y < r * c) by (nonlinear_arith)
        requires
            0 <= x < c,
            0 <= y < r,
    ;
    assert(u * r + v < r * c) by (nonlinear_arith)
        requires
            0 <= u < c,
            0 <= v < r,
    ;
    law_flag_grid_set_get(g.cells(), r, x, y, value, u, v);
}

/// Setting a tile of a flag map changes that tile only.
pub proof fn law_flag_grid_set_get(cells: Seq<u8>, rows: int, x: int, y: int, value: u8, u: int, v: int)
    requires
        0 <= x,
        0 <= y < rows,
        0 <= u,
        0 <= v < rows,
        x * rows + y < cells.len(),
        u * rows + v < cells.len(),
    ensures
        cells.update(x * rows + y, value)[u * rows + v] == if u == x && v == y {
            value
        } else {
            cells[u * rows + v]
        },
{
    if u * rows + v == x * rows + y {
        crate::collections::bitroomgrid::lemma_flat_index_injective(u, v, x, y, rows);
    }
    assert(0 <= u * rows + v) by (nonlinear_arith)
        requires
            0 <= u,
            0 <= v,
            0 <= rows,
    ;
}

} // verus!
