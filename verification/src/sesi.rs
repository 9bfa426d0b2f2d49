//! One game: a board, and the matches found on it that wait to be crushed.
//! The host keeps one of these for as long as the game lasts and drives it
//! through the commands below.

use crate::dempet::{hukum_tambah, hukum_urut, tambah_semua, urut, Dempet};
use crate::deteksi::{dempet_di, hukum_dempet};
use crate::isian::{hasil_perbaikan, ukuran_sah};
use crate::papan::{bersebelahan, di_dalam, tukar_petak, Galat, Papan, Posisi};
use crate::pindai::kemungkinan;
use crate::riam::{dapat_remuk, lemma_bentuk_sama, semua_di_dalam};
use crate::teks::{teks_petak, teks_posisi};
use vstd::prelude::*;

verus! {

/// A game in progress.
pub struct Sesi {
    /// The board.
    pub papan: Papan,
    /// The matched positions that wait to be crushed.
    pub dempet: Dempet,
}

impl Sesi {
    /// The board is a square within the bounds on its size, and the waiting
    /// matches are positions on it, none held twice.
    pub open spec fn wf(&self) -> bool {
        &&& self.papan.wf()
        &&& self.dempet.wf()
        &&& semua_di_dalam(self.papan@, self.dempet@)
    }

    /// Whether the game is in order: see `wf`.
    pub fn sah(&self) -> (b: bool)
        ensures
            b == self.wf(),
    {
        if !self.papan.sah() {
            return false;
        }
        let mut i: usize = 0;
        while i < self.dempet.vektor.len()
            invariant
                self.papan.wf(),
                i <= self.dempet@.len(),
                forall|k: int| 0 <= k < i ==> di_dalam(self.papan@, #[trigger] self.dempet@[k]),
                forall|k: int, j: int| 0 <= k < j < i ==> self.dempet@[k] != self.dempet@[j],
            decreases self.dempet@.len() - i,
        {
            let pos = self.dempet.vektor[i];
            proof {
                self.papan.lemma_di_dalam(pos);
            }
            if !(pos.0 < self.papan.ukuran && pos.1 < self.papan.ukuran) {
                return false;
            }
            let mut j: usize = 0;
            while j < i
                invariant
                    j <= i < self.dempet@.len(),
                    pos == self.dempet@[i as int],
                    forall|k: int| 0 <= k < j ==> self.dempet@[k] != pos,
                decreases i - j,
            {
                let lain = self.dempet.vektor[j];
                if lain.0 == pos.0 && lain.1 == pos.1 {
                    return false;
                }
                j += 1;
            }
            i += 1;
        }
        true
    }

    /// A game on a new board, with no match waiting.
    pub fn new(ukuran: usize, ragam_warna: usize) -> (sesi: Sesi)
        ensures
            sesi.wf(),
            sesi.papan.ukuran == ukuran_sah(ukuran),
            sesi.papan.ragam_warna == ragam_warna,
            hasil_perbaikan(sesi.papan@, sesi.papan.ukuran as int),
            sesi.dempet@ == Seq::<Posisi>::empty(),
    {
        Sesi { papan: Papan::new(ukuran, ragam_warna), dempet: Dempet::new() }
    }

    /// The board as text, a line for each row.
    pub fn buat_papan(&self) -> (teks: String)
        ensures
            teks@ == teks_petak(self.papan@, self.papan@.len() as int),
    {
        self.papan.teks()
    }

    /// Swaps the colours at row `y1`, column `x1` and at row `y2`, column
    /// `x2`, as `Papan::tukar` does. The waiting matches stay as they are.
    pub fn tukar_posisi(&mut self, y1: usize, x1: usize, y2: usize, x2: usize) -> (r: Result<
        (),
        Galat,
    >)
        requires
            old(self).wf(),
        ensures
            final(self).wf(),
            final(self).papan.sebentuk(&old(self).papan),
            final(self).papan@ == tukar_petak(old(self).papan@, (y1, x1), (y2, x2)),
            final(self).dempet@ == old(self).dempet@,
            r.is_err() <==> bersebelahan((y1, x1), (y2, x2)) && !(di_dalam(
                old(self).papan@,
                (y1, x1),
            ) && di_dalam(old(self).papan@, (y2, x2))),
            r.is_err() ==> r == Err::<(), Galat>(Galat::DiLuarPapan),
    {
        let ghost g = self.papan@;
        let r = self.papan.tukar((y1, x1), (y2, x2));
        proof {
            lemma_bentuk_sama(g, self.papan@, self.papan.ukuran as int, self.dempet@);
        }
        r
    }

    /// Looks for the match at row `y`, column `x` with runs of `tk` cells
    /// at least, adds what is found to the waiting matches, and puts those
    /// in order of rows. Off the board nothing is added and `DiLuarPapan`
    /// comes back.
    pub fn cek_dempet(&mut self, y: usize, x: usize, tk: usize) -> (r: Result<(), Galat>)
        requires
            old(self).wf(),
        ensures
            final(self).wf(),
            final(self).papan@ == old(self).papan@,
            final(self).papan.sebentuk(&old(self).papan),
            di_dalam(old(self).papan@, (y, x)) ==> r.is_ok() && final(self).dempet@ == urut(
                tambah_semua(old(self).dempet@, dempet_di(old(self).papan@, (y, x), tk)),
            ),
            !di_dalam(old(self).papan@, (y, x)) ==> r == Err::<(), Galat>(Galat::DiLuarPapan)
                && final(self).dempet@ == old(self).dempet@,
    {
        let ghost g = self.papan@;
        let ghost lama = self.dempet@;
        match self.papan.cek_dempet((y, x), tk) {
            Ok(pd) => {
                proof {
                    let d = dempet_di(g, (y, x), tk);
                    let s = tambah_semua(lama, d);
                    hukum_dempet(g, self.papan.ukuran as int, (y, x), tk);
                    hukum_tambah(lama, d);
                    hukum_urut(s);
                    assert forall|i: int| 0 <= i < urut(s).len() implies di_dalam(
                        g,
                        #[trigger] urut(s)[i],
                    ) by {
                        let p = urut(s)[i];
                        assert(urut(s).contains(p));
                        assert(s.contains(p));
                        if lama.contains(p) {
                            let k = choose|k: int| 0 <= k < lama.len() && lama[k] == p;
                            assert(di_dalam(g, lama[k]));
                        } else {
                            let k = choose|k: int| 0 <= k < d.len() && d[k] == p;
                            assert(di_dalam(g, d[k]));
                        }
                    }
                }
                self.dempet.tambah_vek(pd).urutkan();
                Ok(())
            },
            Err(e) => Err(e),
        }
    }

    /// How many matched positions wait to be crushed.
    pub fn panjang_dempet(&self) -> (n: usize)
        ensures
            n == self.dempet@.len(),
    {
        self.dempet.len()
    }

    /// Crushes the waiting matches in their order, and forgets them.
    pub fn remukan_permen(&mut self)
        requires
            old(self).wf(),
        ensures
            final(self).wf(),
            final(self).papan.sebentuk(&old(self).papan),
            dapat_remuk(old(self).papan@, old(self).dempet@, final(self).papan@),
            final(self).dempet@ == Seq::<Posisi>::empty(),
    {
        let _ = self.papan.remukan_semua(&self.dempet.vektor);
        self.dempet.kosongkan();
    }

    /// Whether some cell of the board is playable.
    pub fn bisa_jalan(&mut self) -> (r: bool)
        requires
            old(self).wf(),
        ensures
            final(self).wf(),
            final(self).papan@ == old(self).papan@,
            final(self).papan.sebentuk(&old(self).papan),
            final(self).dempet@ == old(self).dempet@,
            r == (kemungkinan(old(self).papan@).len() > 0),
    {
        self.papan.bisa_jalan()
    }

    /// The playable cells of the board as text.
    pub fn cek_kemungkinan(&mut self) -> (r: String)
        requires
            old(self).wf(),
        ensures
            final(self).wf(),
            final(self).papan@ == old(self).papan@,
            final(self).papan.sebentuk(&old(self).papan),
            final(self).dempet@ == old(self).dempet@,
            r@ == teks_posisi(kemungkinan(old(self).papan@)),
    {
        self.papan.cek_kemungkinan_str()
    }
}

} // verus!
