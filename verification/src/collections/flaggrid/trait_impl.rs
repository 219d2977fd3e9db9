use super::{compress_vec, decompress_vec, FlagGrid};
use crate::collections::bitroomgrid::{decode_error_text, zeros};
use crate::collections::run_length::{decoded, encoded, zero_padded};
use vstd::prelude::*;

verus! {

fn zeroed(len: usize) -> (v: Vec<u8>)
    ensures
        v@ == zeros(len as nat),
{
    let mut v: Vec<u8> = Vec::new();
    while v.len() < len
        invariant
            v@.len() <= len,
            forall|i: int| 0 <= i < v@.len() ==> v@[i] == 0u8,
        decreases len - v@.len(),
    {
        v.push(0u8);
    }
    assert(v@ =~= zeros(len as nat));
    v
}

/// 50×50 map of one byte per tile.
#[derive(Debug, Clone)]
pub struct BitRoomGrid5050 {
    buffer: Vec<u8>,
}

impl Default for BitRoomGrid5050 {
    fn default() -> (g: Self)
        ensures
            g.wf(),
            g.cells() == zeros(2500),
    {
        BitRoomGrid5050 { buffer: zeroed(2500) }
    }
}

impl FlagGrid for BitRoomGrid5050 {
    open spec fn rows() -> int {
        50
    }

    open spec fn cols() -> int {
        50
    }

    closed spec fn cells(&self) -> Seq<u8> {
        self.buffer@
    }

    closed spec fn wf(&self) -> bool {
        self.buffer@.len() == 2500
    }

    proof fn lemma_cells_len(&self) {
    }

    fn get_flat_index(x: usize, y: usize) -> (i: usize) {
        x * 50 + y
    }

    fn get(&self, x: usize, y: usize) -> (v: u8) {
        let ind = Self::get_flat_index(x, y);
        self.buffer[ind]
    }

    fn set(&mut self, x: usize, y: usize, value: u8) {
        let ind = Self::get_flat_index(x, y);
        self.buffer.set(ind, value);
    }

    fn compressed(&self) -> (r: Result<String, std::fmt::Error>) {
        compress_vec(&self.buffer)
    }

    fn decompress(value: &str) -> (r: Result<Self, &'static str>) {
        match decompress_vec(value, 2500) {
            Ok(buffer) => Ok(BitRoomGrid5050 { buffer }),
            Err(m) => Err(m),
        }
    }
}

/// 17×17 map of one byte per tile.
#[derive(Debug, Clone)]
pub struct FlagGrid1717 {
    buffer: Vec<u8>,
}

impl Default for FlagGrid1717 {
    fn default() -> (g: Self)
        ensures
            g.wf(),
            g.cells() == zeros(289),
    {
        FlagGrid1717 { buffer: zeroed(289) }
    }
}

impl FlagGrid for FlagGrid1717 {
    open spec fn rows() -> int {
        17
    }

    open spec fn cols() -> int {
        17
    }

    closed spec fn cells(&self) -> Seq<u8> {
        self.buffer@
    }

    closed spec fn wf(&self) -> bool {
        self.buffer@.len() == 289
    }

    proof fn lemma_cells_len(&self) {
    }

    fn get_flat_index(x: usize, y: usize) -> (i: usize) {
        x * 17 + y
    }

    fn get(&self, x: usize, y: usize) -> (v: u8) {
        let ind = Self::get_flat_index(x, y);
        self.buffer[ind]
    }

    fn set(&mut self, x: usize, y: usize, value: u8) {
        let ind = Self::get_flat_index(x, y);
        self.buffer.set(ind, value);
    }

    fn compressed(&self) -> (r: Result<String, std::fmt::Error>) {
        compress_vec(&self.buffer)
    }

    fn decompress(value: &str) -> (r: Result<Self, &'static str>) {
        match decompress_vec(value, 289) {
            Ok(buffer) => Ok(FlagGrid1717 { buffer }),
            Err(m) => Err(m),
        }
    }
}

} // verus!
