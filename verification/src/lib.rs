//! The rules of a match-three game on a square board: laying out the board,
//! swapping and crushing pieces, finding runs of one colour, resolving the
//! cascade that a swap sets off, and finding the moves that are left.
//!
//! Every function here is verified against its contract. What is drawn at
//! random comes through `acak`, the one module that is trusted, not proved.

pub mod acak;
pub mod warna;
pub mod permen;
pub mod papan;
pub mod isian;
pub mod deteksi;
pub mod dempet;
pub mod teks;
pub mod pindai;
pub mod riam;
pub mod sesi;
