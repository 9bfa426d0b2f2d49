//! The move scanner: which cells can start a swap that makes a match.

use crate::deteksi::{dempet_di, TIGA};
use crate::papan::{di_dalam, hukum_tukar_balik, persegi, tukar_petak, Galat, Papan, Posisi};
use crate::teks::{teks_posisi, tulis_posisi};
use crate::warna::Warna;
use vstd::prelude::*;

verus! {

/// Swapping `pos` with `target` would leave a match at `target`.
pub open spec fn cocok_bila_tukar(g: Seq<Seq<Warna>>, pos: Posisi, target: Posisi) -> bool {
    dempet_di(tukar_petak(g, pos, target), target, TIGA).len() > 0
}

/// Some swap of `pos` with the cell above it, below it, left of it or right
/// of it, where the grid has that cell, would leave a match at that cell.
pub open spec fn mungkin(g: Seq<Seq<Warna>>, pos: Posisi) -> bool {
    ||| pos.0 > 0 && cocok_bila_tukar(g, pos, ((pos.0 - 1) as usize, pos.1))
    ||| pos.0 + 1 < g.len() && cocok_bila_tukar(g, pos, ((pos.0 + 1) as usize, pos.1))
    ||| pos.1 > 0 && cocok_bila_tukar(g, pos, (pos.0, (pos.1 - 1) as usize))
    ||| pos.1 + 1 < g.len() && cocok_bila_tukar(g, pos, (pos.0, (pos.1 + 1) as usize))
}

/// The playable cells among the first `x` of row `y`, left to right.
pub open spec fn mungkin_baris(g: Seq<Seq<Warna>>, y: int, x: int) -> Seq<Posisi>
    decreases x,
{
    if x <= 0 {
        Seq::empty()
    } else if mungkin(g, (y as usize, (x - 1) as usize)) {
        mungkin_baris(g, y, x - 1).push((y as usize, (x - 1) as usize))
    } else {
        mungkin_baris(g, y, x - 1)
    }
}

/// The playable cells of the first `y` rows, row after row.
pub open spec fn mungkin_sampai(g: Seq<Seq<Warna>>, y: int) -> Seq<Posisi>
    decreases y,
{
    if y <= 0 {
        Seq::empty()
    } else {
        mungkin_sampai(g, y - 1) + mungkin_baris(g, y - 1, g.len() as int)
    }
}

/// The playable cells of a square grid, in reading order.
pub open spec fn kemungkinan(g: Seq<Seq<Warna>>) -> Seq<Posisi> {
    mungkin_sampai(g, g.len() as int)
}

/// `a` comes before `b` in reading order: row by row, left to right.
pub open spec fn sebelum(a: Posisi, b: Posisi) -> bool {
    a.0 < b.0 || (a.0 == b.0 && a.1 < b.1)
}

proof fn lemma_mungkin_baris(g: Seq<Seq<Warna>>, y: int, x: int)
    requires
        0 <= y <= usize::MAX,
        0 <= x <= usize::MAX,
    ensures
        forall|i: int|
            0 <= i < mungkin_baris(g, y, x).len() ==> {
                let p = #[trigger] mungkin_baris(g, y, x)[i];
                p.0 == y && p.1 < x && mungkin(g, p)
            },
        forall|i: int, j: int|
            0 <= i < j < mungkin_baris(g, y, x).len() ==> (#[trigger] mungkin_baris(g, y, x)[i]).1
                < (#[trigger] mungkin_baris(g, y, x)[j]).1,
        forall|p: Posisi|
            p.0 == y && p.1 < x && mungkin(g, p) ==> #[trigger] mungkin_baris(g, y, x).contains(p),
    decreases x,
{
    if x > 0 {
        lemma_mungkin_baris(g, y, x - 1);
        let r = mungkin_baris(g, y, x);
        let t = mungkin_baris(g, y, x - 1);
        let z = (y as usize, (x - 1) as usize);
        assert forall|p: Posisi| p.0 == y && p.1 < x && mungkin(g, p) implies r.contains(p) by {
            if p.1 < x - 1 {
                assert(t.contains(p));
                let k = choose|k: int| 0 <= k < t.len() && t[k] == p;
                assert(r[k] == p);
            } else {
                assert(p == z);
                assert(r[r.len() - 1] == p);
            }
        }
    }
}

proof fn lemma_mungkin_sampai(g: Seq<Seq<Warna>>, y: int)
    requires
        0 <= y <= usize::MAX,
        g.len() <= usize::MAX,
    ensures
        forall|i: int|
            0 <= i < mungkin_sampai(g, y).len() ==> {
                let p = #[trigger] mungkin_sampai(g, y)[i];
                p.0 < y && p.1 < g.len() && mungkin(g, p)
            },
        forall|i: int, j: int|
            0 <= i < j < mungkin_sampai(g, y).len() ==> sebelum(
                #[trigger] mungkin_sampai(g, y)[i],
                #[trigger] mungkin_sampai(g, y)[j],
            ),
        forall|p: Posisi|
            p.0 < y && p.1 < g.len() && mungkin(g, p) ==> #[trigger] mungkin_sampai(g, y).contains(
                p,
            ),
    decreases y,
{
    if y > 0 {
        lemma_mungkin_sampai(g, y - 1);
        lemma_mungkin_baris(g, y - 1, g.len() as int);
        let r = mungkin_sampai(g, y);
        let t = mungkin_sampai(g, y - 1);
        let b = mungkin_baris(g, y - 1, g.len() as int);
        assert(r == t + b);
        assert forall|i: int| 0 <= i < r.len() implies {
            let p = #[trigger] r[i];
            p.0 < y && p.1 < g.len() && mungkin(g, p)
        } by {
            if i < t.len() {
                assert(r[i] == t[i]);
            } else {
                assert(r[i] == b[i - t.len()]);
            }
        }
        assert forall|i: int, j: int| 0 <= i < j < r.len() implies sebelum(
            #[trigger] r[i],
            #[trigger] r[j],
        ) by {
            if j < t.len() {
                assert(r[i] == t[i] && r[j] == t[j]);
            } else if i < t.len() {
                assert(r[i] == t[i] && r[j] == b[j - t.len()]);
            } else {
                assert(r[i] == b[i - t.len()] && r[j] == b[j - t.len()]);
            }
        }
        assert forall|p: Posisi| p.0 < y && p.1 < g.len() && mungkin(g, p) implies r.contains(
            p,
        ) by {
            if p.0 < y - 1 {
                assert(t.contains(p));
                let k = choose|k: int| 0 <= k < t.len() && t[k] == p;
                assert(r[k] == p);
            } else {
                assert(b.contains(p));
                let k = choose|k: int| 0 <= k < b.len() && b[k] == p;
                assert(r[t.len() + k] == p);
            }
        }
    }
}

/// The playable cells of a square grid are exactly the cells of the grid
/// from which some swap with a neighbour above, below, left or right would
/// make a match. They stand in reading order, so none stands twice.
pub proof fn hukum_kemungkinan(g: Seq<Seq<Warna>>, n: int)
    requires
        persegi(g, n),
        n <= usize::MAX,
    ensures
        forall|p: Posisi| #[trigger] kemungkinan(g).contains(p) <==> di_dalam(g, p) && mungkin(g, p),
        forall|i: int, j: int|
            0 <= i < j < kemungkinan(g).len() ==> sebelum(
                #[trigger] kemungkinan(g)[i],
                #[trigger] kemungkinan(g)[j],
            ),
        kemungkinan(g).no_duplicates(),
{
    lemma_mungkin_sampai(g, n);
    let r = kemungkinan(g);
    assert forall|p: Posisi| #[trigger] r.contains(p) <==> di_dalam(g, p) && mungkin(g, p) by {
        if r.contains(p) {
            let k = choose|k: int| 0 <= k < r.len() && r[k] == p;
            assert(g[r[k].0 as int].len() == n);
        }
        if di_dalam(g, p) {
            assert(g[p.0 as int].len() == n);
        }
    }
    assert forall|i: int, j: int| 0 <= i < r.len() && 0 <= j < r.len() && i != j implies r[i]
        != r[j] by {
        if i < j {
            assert(sebelum(r[i], r[j]));
        } else {
            assert(sebelum(r[j], r[i]));
        }
    }
}

impl Papan {
    /// Swaps, looks for a match at `target`, and swaps back.
    fn tukar_dan_cek(&mut self, pos: Posisi, target: Posisi) -> (ada: bool)
        requires
            old(self).wf(),
            di_dalam(old(self)@, pos),
            di_dalam(old(self)@, target),
        ensures
            final(self).sebentuk(old(self)),
            final(self)@ == old(self)@,
            ada == cocok_bila_tukar(old(self)@, pos, target),
    {
        let _ = self.tukar(pos, target);
        proof {
            self.lemma_di_dalam(target);
            old(self).lemma_di_dalam(target);
        }
        let ada = match self.cek_dempet(target, TIGA) {
            Ok(pd) => pd.len() > 0,
            Err(_) => false,
        };
        let _ = self.tukar(pos, target);
        proof {
            hukum_tukar_balik(old(self)@, pos, target);
        }
        ada
    }

    /// Whether a swap of `pos` with one of its four neighbours would make a
    /// match. The neighbours are tried in the order up, down, left, right,
    /// each swap is undone, and the first that matches settles the answer.
    /// The board is the same after the call as before.
    pub fn mungkin_ditukar(&mut self, pos: Posisi) -> (r: Result<bool, Galat>)
        requires
            old(self).wf(),
        ensures
            final(self).sebentuk(old(self)),
            final(self)@ == old(self)@,
            di_dalam(old(self)@, pos) ==> r == Ok::<bool, Galat>(mungkin(old(self)@, pos)),
            !di_dalam(old(self)@, pos) ==> r == Err::<bool, Galat>(Galat::DiLuarPapan),
    {
        proof {
            self.lemma_di_dalam(pos);
            self.lemma_di_dalam(((pos.0 - 1) as usize, pos.1));
            self.lemma_di_dalam(((pos.0 + 1) as usize, pos.1));
            self.lemma_di_dalam((pos.0, (pos.1 - 1) as usize));
            self.lemma_di_dalam((pos.0, (pos.1 + 1) as usize));
        }
        if !(pos.0 < self.ukuran && pos.1 < self.ukuran) {
            return Err(Galat::DiLuarPapan);
        }
        if pos.0 > 0 {
            if self.tukar_dan_cek(pos, (pos.0 - 1, pos.1)) {
                return Ok(true);
            }
        }
        if pos.0 + 1 < self.ukuran {
            if self.tukar_dan_cek(pos, (pos.0 + 1, pos.1)) {
                return Ok(true);
            }
        }
        if pos.1 > 0 {
            if self.tukar_dan_cek(pos, (pos.0, pos.1 - 1)) {
                return Ok(true);
            }
        }
        if pos.1 + 1 < self.ukuran {
            if self.tukar_dan_cek(pos, (pos.0, pos.1 + 1)) {
                return Ok(true);
            }
        }
        Ok(false)
    }

    /// Every playable cell of the board, in reading order. The board is the
    /// same after the call as before.
    pub fn cek_kemungkinan(&mut self) -> (r: Vec<Posisi>)
        requires
            old(self).wf(),
        ensures
            final(self).sebentuk(old(self)),
            final(self)@ == old(self)@,
            r@ == kemungkinan(old(self)@),
    {
        let ghost g = self@;
        let n = self.ukuran;
        let mut kemungkinan: Vec<Posisi> = Vec::new();
        let mut y: usize = 0;
        while y < n
            invariant
                self.wf(),
                self.sebentuk(old(self)),
                self@ == g,
                g.len() == n,
                n == self.ukuran,
                y <= n,
                kemungkinan@ == mungkin_sampai(g, y as int),
            decreases n - y,
        {
            let ghost awal = kemungkinan@;
            let mut x: usize = 0;
            while x < n
                invariant
                    self.wf(),
                    self.sebentuk(old(self)),
                    self@ == g,
                    g.len() == n,
                    n == self.ukuran,
                    y < n,
                    x <= n,
                    kemungkinan@ == awal + mungkin_baris(g, y as int, x as int),
                decreases n - x,
            {
                proof {
                    self.lemma_di_dalam((y, x));
                }
                let bisa = match self.mungkin_ditukar((y, x)) {
                    Ok(b) => b,
                    Err(_) => false,
                };
                if bisa {
                    kemungkinan.push((y, x));
                }
                assert(kemungkinan@ =~= awal + mungkin_baris(g, y as int, x + 1));
                x += 1;
            }
            y += 1;
        }
        kemungkinan
    }

    /// The playable cells as text: `row:column` and a space for each.
    pub fn cek_kemungkinan_str(&mut self) -> (r: String)
        requires
            old(self).wf(),
        ensures
            final(self).sebentuk(old(self)),
            final(self)@ == old(self)@,
            r@ == teks_posisi(kemungkinan(old(self)@)),
    {
        let vektor_kemungkinan = self.cek_kemungkinan();
        tulis_posisi(&vektor_kemungkinan)
    }

    /// Whether the board has a playable cell at all.
    pub fn bisa_jalan(&mut self) -> (r: bool)
        requires
            old(self).wf(),
        ensures
            final(self).sebentuk(old(self)),
            final(self)@ == old(self)@,
            r == (kemungkinan(old(self)@).len() > 0),
    {
        self.cek_kemungkinan().len() > 0
    }
}

} // verus!
