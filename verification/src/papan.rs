//! The board: a square grid of pieces, with the moves that change it.

use crate::permen::Permen;
use crate::warna::Warna;
use rand::rngs::ThreadRng;
use vstd::prelude::*;

verus! {

/// A place on the board: row, then column, both counted from zero. Rows grow
/// downward, columns to the right.
pub type Posisi = (usize, usize);

/// The smallest board has this many rows and columns.
pub const PAPAN_MIN: usize = 3;

/// The largest board has this many rows and columns.
pub const PAPAN_MAX: usize = 10;

/// Why an operation on the board was refused.
#[derive(Debug, Clone, Copy, PartialEq, Eq, Structural)]
pub enum Galat {
    /// A position lies outside the grid.
    DiLuarPapan,
    /// A cascade was still clearing pieces when its bound on rounds was reached.
    RiamBerlebih,
}

/// The grid `g` has `n` rows of `n` cells.
pub open spec fn persegi(g: Seq<Seq<Warna>>, n: int) -> bool {
    &&& g.len() == n
    &&& forall|y: int| 0 <= y < n ==> #[trigger] g[y].len() == n
}

/// `pos` names a cell of the grid.
pub open spec fn di_dalam(g: Seq<Seq<Warna>>, pos: Posisi) -> bool {
    pos.0 < g.len() && pos.1 < g[pos.0 as int].len()
}

/// The colour at `pos`.
pub open spec fn warna_di(g: Seq<Seq<Warna>>, pos: Posisi) -> Warna {
    g[pos.0 as int][pos.1 as int]
}

/// The grid with the colour at `pos` replaced by `warna`.
pub open spec fn pasang(g: Seq<Seq<Warna>>, pos: Posisi, warna: Warna) -> Seq<Seq<Warna>> {
    g.update(pos.0 as int, g[pos.0 as int].update(pos.1 as int, warna))
}

/// The two positions are at most one step apart in each direction, so they
/// are the same cell or neighbours, diagonal neighbours included.
pub open spec fn bersebelahan(a: Posisi, b: Posisi) -> bool {
    &&& -1 <= a.0 - b.0 <= 1
    &&& -1 <= a.1 - b.1 <= 1
}

/// The grid after the colours at `a` and `b` have changed places. Positions
/// that are not neighbours, or not both on the grid, leave it as it is.
pub open spec fn tukar_petak(g: Seq<Seq<Warna>>, a: Posisi, b: Posisi) -> Seq<Seq<Warna>> {
    if bersebelahan(a, b) && di_dalam(g, a) && di_dalam(g, b) {
        pasang(pasang(g, a, warna_di(g, b)), b, warna_di(g, a))
    } else {
        g
    }
}

/// The grid after the piece at `pos` has been crushed: in its column every
/// cell from `pos` upward holds what stood one row above it, and the top cell
/// holds `baru`. No other column changes. A position off the grid leaves the
/// grid as it is.
pub open spec fn remuk_petak(g: Seq<Seq<Warna>>, pos: Posisi, baru: Warna) -> Seq<Seq<Warna>> {
    if di_dalam(g, pos) {
        Seq::new(
            g.len(),
            |y: int|
                Seq::new(
                    g[y].len(),
                    |x: int|
                        if x == pos.1 && y <= pos.0 {
                            if y == 0 {
                                baru
                            } else {
                                g[y - 1][x]
                            }
                        } else {
                            g[y][x]
                        },
                ),
        )
    } else {
        g
    }
}

/// The colours that the rows of pieces hold.
pub open spec fn petak(isi: Seq<Vec<Permen>>) -> Seq<Seq<Warna>> {
    Seq::new(isi.len(), |y: int| Seq::new(isi[y]@.len(), |x: int| isi[y]@[x].warna))
}

/// The board of one game.
#[derive(Debug)]
pub struct Papan {
    /// How many rows the board has, and how many columns.
    pub ukuran: usize,
    /// How many colours the game was set up for. It is kept as given; the
    /// pieces draw from the whole palette.
    pub ragam_warna: usize,
    /// The pieces, row by row from the top, each row from the left.
    pub isi: Vec<Vec<Permen>>,
}

impl View for Papan {
    type V = Seq<Seq<Warna>>;

    /// The board as a grid of colours, row by row.
    open spec fn view(&self) -> Seq<Seq<Warna>> {
        petak(self.isi@)
    }
}

impl Papan {
    /// The board is a square of `ukuran` rows and columns, `ukuran` within
    /// the bounds on a board's size.
    pub open spec fn wf(&self) -> bool {
        &&& PAPAN_MIN <= self.ukuran <= PAPAN_MAX
        &&& persegi(self@, self.ukuran as int)
    }

    /// The board has the size and the colour variety of `lama`, and is a
    /// square if `lama` is one.
    pub open spec fn sebentuk(&self, lama: &Papan) -> bool {
        &&& self.ukuran == lama.ukuran
        &&& self.ragam_warna == lama.ragam_warna
        &&& lama.wf() ==> self.wf()
    }

    /// On a square board every row of pieces has the board's size.
    pub proof fn lemma_baris(&self)
        requires
            self.wf(),
        ensures
            self.isi@.len() == self.ukuran,
            forall|y: int| 0 <= y < self.ukuran ==> (#[trigger] self.isi@[y])@.len() == self.ukuran,
    {
        assert forall|y: int| 0 <= y < self.ukuran implies (#[trigger] self.isi@[y])@.len()
            == self.ukuran by {
            assert(self@[y].len() == self.ukuran);
        }
    }

    /// On a square board the cells are the positions below its size.
    pub proof fn lemma_di_dalam(&self, pos: Posisi)
        requires
            self.wf(),
        ensures
            di_dalam(self@, pos) <==> pos.0 < self.ukuran && pos.1 < self.ukuran,
    {
        if pos.0 < self.ukuran {
            assert(self@[pos.0 as int].len() == self.ukuran);
        }
    }

    /// Whether the board is a square within the bounds on its size: see `wf`.
    pub fn sah(&self) -> (b: bool)
        ensures
            b == self.wf(),
    {
        if self.ukuran < PAPAN_MIN || self.ukuran > PAPAN_MAX || self.isi.len() != self.ukuran {
            return false;
        }
        let mut y: usize = 0;
        while y < self.ukuran
            invariant
                y <= self.ukuran,
                self.isi@.len() == self.ukuran,
                forall|i: int| 0 <= i < y ==> #[trigger] self@[i].len() == self.ukuran,
            decreases self.ukuran - y,
        {
            if self.isi[y].len() != self.ukuran {
                assert(self@[y as int].len() != self.ukuran);
                return false;
            }
            y += 1;
        }
        true
    }

    fn memuat(&self, pos: Posisi) -> (b: bool)
        ensures
            b == di_dalam(self@, pos),
    {
        pos.0 < self.isi.len() && pos.1 < self.isi[pos.0].len()
    }

    /// The colour at `pos`, or `DiLuarPapan` where the grid has no such cell.
    pub fn get_warna(&self, pos: Posisi) -> (r: Result<Warna, Galat>)
        ensures
            di_dalam(self@, pos) ==> r == Ok::<Warna, Galat>(warna_di(self@, pos)),
            !di_dalam(self@, pos) ==> r == Err::<Warna, Galat>(Galat::DiLuarPapan),
    {
        if !self.memuat(pos) {
            return Err(Galat::DiLuarPapan);
        }
        Ok(self.isi[pos.0][pos.1].get_warna())
    }

    /// Overwrites the colour at `pos`. Where the grid has no such cell the
    /// board stays as it is and `DiLuarPapan` comes back.
    pub fn set_warna(&mut self, pos: Posisi, warna: Warna) -> (r: Result<(), Galat>)
        ensures
            final(self).sebentuk(old(self)),
            di_dalam(old(self)@, pos) ==> r.is_ok() && final(self)@ == pasang(old(self)@, pos, warna),
            !di_dalam(old(self)@, pos) ==> r == Err::<(), Galat>(Galat::DiLuarPapan) && final(self)@
                == old(self)@,
    {
        if !self.memuat(pos) {
            return Err(Galat::DiLuarPapan);
        }
        self.isi[pos.0][pos.1].set_warna(warna);
        assert(self@ =~~= pasang(old(self)@, pos, warna));
        Ok(())
    }

    /// Exchanges the colours at two positions that are at most one step apart
    /// in each direction. Positions further apart are left alone, and that is
    /// no error. Neighbours of which one lies off the grid give `DiLuarPapan`.
    pub fn tukar(&mut self, pos1: Posisi, pos2: Posisi) -> (r: Result<(), Galat>)
        ensures
            final(self).sebentuk(old(self)),
            final(self)@ == tukar_petak(old(self)@, pos1, pos2),
            r.is_err() <==> bersebelahan(pos1, pos2) && !(di_dalam(old(self)@, pos1) && di_dalam(
                old(self)@,
                pos2,
            )),
            r.is_err() ==> r == Err::<(), Galat>(Galat::DiLuarPapan),
    {
        if !(selangkah(pos1.0, pos2.0) && selangkah(pos1.1, pos2.1)) {
            return Ok(());
        }
        if !self.memuat(pos1) || !self.memuat(pos2) {
            return Err(Galat::DiLuarPapan);
        }
        let warna1 = self.isi[pos1.0][pos1.1].get_warna();
        let warna2 = self.isi[pos2.0][pos2.1].get_warna();
        self.isi[pos1.0][pos1.1].set_warna(warna2);
        self.isi[pos2.0][pos2.1].set_warna(warna1);
        assert(self@ =~~= tukar_petak(old(self)@, pos1, pos2));
        Ok(())
    }

    /// Crushes the piece at `pos` and lets `baru` in at the top of its column.
    pub fn remukan_dengan_warna(&mut self, pos: Posisi, baru: Warna) -> (r: Result<(), Galat>)
        requires
            old(self).wf(),
        ensures
            final(self).sebentuk(old(self)),
            final(self)@ == remuk_petak(old(self)@, pos, baru),
            r.is_err() <==> !di_dalam(old(self)@, pos),
            r.is_err() ==> r == Err::<(), Galat>(Galat::DiLuarPapan),
    {
        if !self.memuat(pos) {
            return Err(Galat::DiLuarPapan);
        }
        let ghost awal = self@;
        let ghost n = self.ukuran as int;
        let mut y: usize = pos.0;
        while y != 0
            invariant
                y <= pos.0 < n,
                pos.1 < n,
                self.ukuran == old(self).ukuran,
                self.ragam_warna == old(self).ragam_warna,
                self.ukuran == n,
                self.wf(),
                persegi(awal, n),
                forall|i: int, j: int|
                    0 <= i < n && 0 <= j < n ==> #[trigger] self@[i][j] == if j == pos.1 && y < i
                        <= pos.0 {
                        awal[i - 1][j]
                    } else {
                        awal[i][j]
                    },
            decreases y,
        {
            let ghost lama = self@;
            proof {
                self.lemma_baris();
            }
            let atas = self.isi[y - 1][pos.1].get_warna();
            self.isi[y][pos.1].set_warna(atas);
            assert(self@ =~~= pasang(lama, (y, pos.1), atas));
            assert forall|i: int, j: int| 0 <= i < n && 0 <= j < n implies #[trigger] self@[i][j]
                == if j == pos.1 && y - 1 < i <= pos.0 {
                awal[i - 1][j]
            } else {
                awal[i][j]
            } by {
                assert(lama[i][j] == if j == pos.1 && y < i <= pos.0 {
                    awal[i - 1][j]
                } else {
                    awal[i][j]
                });
                assert(atas == lama[y - 1][pos.1 as int]);
            }
            y -= 1;
        }
        let ghost lama = self@;
        proof {
            self.lemma_baris();
        }
        self.isi[0][pos.1].set_warna(baru);
        assert(self@ =~~= pasang(lama, (0usize, pos.1), baru));
        assert(self@ =~~= remuk_petak(awal, pos, baru));
        Ok(())
    }

    /// Crushes the piece at `pos` with a new colour drawn from `rng`.
    pub fn remukan_dari(&mut self, pos: Posisi, rng: &mut ThreadRng) -> (r: Result<(), Galat>)
        requires
            old(self).wf(),
        ensures
            final(self).sebentuk(old(self)),
            exists|baru: Warna| final(self)@ == #[trigger] remuk_petak(old(self)@, pos, baru),
            r.is_err() <==> !di_dalam(old(self)@, pos),
            r.is_err() ==> r == Err::<(), Galat>(Galat::DiLuarPapan),
    {
        let baru = Warna::acak_dari(rng);
        self.remukan_dengan_warna(pos, baru)
    }

    /// Crushes the piece at `pos`: the piece goes, what stood above it in its
    /// column drops by one row, and a colour drawn at random enters at the
    /// top. Off the grid nothing is crushed and `DiLuarPapan` comes back.
    pub fn remukan(&mut self, pos: Posisi) -> (r: Result<(), Galat>)
        requires
            old(self).wf(),
        ensures
            final(self).sebentuk(old(self)),
            exists|baru: Warna| final(self)@ == #[trigger] remuk_petak(old(self)@, pos, baru),
            r.is_err() <==> !di_dalam(old(self)@, pos),
            r.is_err() ==> r == Err::<(), Galat>(Galat::DiLuarPapan),
    {
        let mut rng = rand::thread_rng();
        self.remukan_dari(pos, &mut rng)
    }
}

/// `a` and `b` differ by at most one.
fn selangkah(a: usize, b: usize) -> (r: bool)
    ensures
        r == (-1 <= a - b <= 1),
{
    if a > b {
        a - b <= 1
    } else {
        b - a <= 1
    }
}

/// A swap undoes itself: made twice, it gives back the grid it started from.
/// Where the positions are more than one step apart, or one is off the grid,
/// already the first swap changes nothing.
pub proof fn hukum_tukar_balik(g: Seq<Seq<Warna>>, a: Posisi, b: Posisi)
    ensures
        tukar_petak(tukar_petak(g, a, b), a, b) == g,
        !bersebelahan(a, b) ==> tukar_petak(g, a, b) == g,
        bersebelahan(a, b) && di_dalam(g, a) && di_dalam(g, b) ==> {
            let h = tukar_petak(g, a, b);
            &&& warna_di(h, a) == warna_di(g, b)
            &&& warna_di(h, b) == warna_di(g, a)
            &&& forall|p: Posisi|
                di_dalam(g, p) && p != a && p != b ==> #[trigger] warna_di(h, p) == warna_di(g, p)
        },
{
    let h = tukar_petak(g, a, b);
    if bersebelahan(a, b) && di_dalam(g, a) && di_dalam(g, b) {
        assert(di_dalam(h, a) && di_dalam(h, b));
        assert(tukar_petak(h, a, b) =~~= g);
    }
}

/// What a crush does to a square grid: the grid keeps its shape; in the
/// column of `pos` the top cell holds the new colour, each cell from row 1
/// down to `pos` holds what stood one row above it, so that the colour that
/// stood at `pos` is the one that left; every other cell is as before. A
/// crush off the grid changes nothing.
pub proof fn hukum_remuk(g: Seq<Seq<Warna>>, n: int, pos: Posisi, baru: Warna)
    requires
        persegi(g, n),
    ensures
        !di_dalam(g, pos) ==> remuk_petak(g, pos, baru) == g,
        di_dalam(g, pos) ==> remuk_petak(g, pos, baru)[0][pos.1 as int] == baru,
        persegi(remuk_petak(g, pos, baru), n),
        forall|y: int|
            di_dalam(g, pos) && 1 <= y <= pos.0 ==> #[trigger] remuk_petak(
                g,
                pos,
                baru,
            )[y][pos.1 as int] == g[y - 1][pos.1 as int],
        forall|y: int, x: int|
            0 <= y < n && 0 <= x < n && (x != pos.1 || y > pos.0) ==> #[trigger] remuk_petak(
                g,
                pos,
                baru,
            )[y][x] == g[y][x],
{
}

} // verus!
