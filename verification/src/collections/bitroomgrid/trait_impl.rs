use super::{bit_at, bits_get, bits_set, compress_bytes, decode_error_text, decompress_bytes, zeros, BitGrid};
use crate::collections::run_length::{decoded, encoded, zero_padded};
use vstd::prelude::*;

verus! {

/// 50×50 binary flag map
/// With a size of 320 bytes
#[derive(Debug, Clone)]
pub struct BitRoomGrid5050 {
    buffer: [u8; 320],
}

impl Default for BitRoomGrid5050 {
    fn default() -> (g: Self)
        ensures
            g.bytes() == zeros(320),
    {
        let g = BitRoomGrid5050 { buffer: [0u8; 320] };
        assert(g.bytes() =~= zeros(320));
        g
    }
}

impl BitGrid for BitRoomGrid5050 {
    open spec fn room_rows() -> int {
        50
    }

    open spec fn byte_count() -> nat {
        320
    }

    closed spec fn bytes(&self) -> Seq<u8> {
        self.buffer@
    }

    proof fn lemma_byte_count(&self) {
    }

    fn get(&self, x: usize, y: usize) -> (b: bool) {
        bits_get(&self.buffer, x * 50 + y)
    }

    fn set(&mut self, x: usize, y: usize, value: bool) {
        bits_set(&mut self.buffer, x * 50 + y, value);
    }

    fn compressed(&self) -> (r: Result<String, std::fmt::Error>) {
        compress_bytes(&self.buffer)
    }

    fn decompress(value: &str) -> (r: Result<Self, &'static str>) {
        match decompress_bytes::<320>(value) {
            Ok(buffer) => Ok(BitRoomGrid5050 { buffer }),
            Err(m) => Err(m),
        }
    }
}

/// 17×17 binary flag map
#[derive(Debug, Clone)]
pub struct BitRoomGrid1717 {
    buffer: [u8; 64],
}

impl Default for BitRoomGrid1717 {
    fn default() -> (g: Self)
        ensures
            g.bytes() == zeros(64),
    {
        let g = BitRoomGrid1717 { buffer: [0u8; 64] };
        assert(g.bytes() =~= zeros(64));
        g
    }
}

impl BitGrid for BitRoomGrid1717 {
    open spec fn room_rows() -> int {
        17
    }

    open spec fn byte_count() -> nat {
        64
    }

    closed spec fn bytes(&self) -> Seq<u8> {
        self.buffer@
    }

    proof fn lemma_byte_count(&self) {
    }

    fn get(&self, x: usize, y: usize) -> (b: bool) {
        bits_get(&self.buffer, x * 17 + y)
    }

    fn set(&mut self, x: usize, y: usize, value: bool) {
        bits_set(&mut self.buffer, x * 17 + y, value);
    }

    fn compressed(&self) -> (r: Result<String, std::fmt::Error>) {
        compress_bytes(&self.buffer)
    }

    fn decompress(value: &str) -> (r: Result<Self, &'static str>) {
        match decompress_bytes::<64>(value) {
            Ok(buffer) => Ok(BitRoomGrid1717 { buffer }),
            Err(m) => Err(m),
        }
    }
}

} // verus!
