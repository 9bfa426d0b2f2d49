//! A piece: one cell of the board, holding one colour.

use crate::acak::undi;
use crate::warna::{Warna, RAGAM};
use rand::rngs::ThreadRng;
use vstd::prelude::*;

verus! {

/// A piece. It holds its colour and nothing else.
#[derive(Debug, Clone, Copy)]
pub struct Permen {
    pub warna: Warna,
}

impl Permen {
    pub fn new(warna: Warna) -> (p: Permen)
        ensures
            p.warna == warna,
    {
        Permen { warna }
    }

    pub fn get_warna(&self) -> (w: Warna)
        ensures
            w == self.warna,
    {
        self.warna
    }

    pub fn set_warna(&mut self, warna: Warna)
        ensures
            final(self).warna == warna,
    {
        self.warna = warna;
    }

    /// Rerolls the colour with a draw from `rng`. The new colour is never the
    /// old one: the draw is made among the six others, each with the same
    /// chance, which is what drawing among all seven until the colour changes
    /// comes to.
    pub fn acak_warna_dari(&mut self, rng: &mut ThreadRng)
        ensures
            final(self).warna != old(self).warna,
    {
        let geser = undi(rng, RAGAM - 1);
        self.warna = self.warna.lain(geser);
    }

    /// Rerolls the colour to one that differs from the present one.
    pub fn acak_warna(&mut self)
        ensures
            final(self).warna != old(self).warna,
    {
        let mut rng = rand::thread_rng();
        self.acak_warna_dari(&mut rng);
    }
}

} // verus!
