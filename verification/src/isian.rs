//! Laying out a new board: a random filling, then one pass that breaks the
//! runs of three it finds behind each cell.

use crate::deteksi::{
    awal_lari, dempet_di, garis, hukum_dempet, hukum_lari, jangkar, lari, panjang_lari, TIGA,
};
use crate::papan::{di_dalam, pasang, persegi, petak, Papan, Posisi, PAPAN_MAX, PAPAN_MIN};
use crate::permen::Permen;
use crate::warna::Warna;
use rand::rngs::ThreadRng;
use vstd::prelude::*;

verus! {

/// The cell at row `y`, column `x` and the two cells left of it hold one
/// colour.
pub open spec fn tiga_mendatar(g: Seq<Seq<Warna>>, y: int, x: int) -> bool {
    g[y][x - 2] == g[y][x - 1] && g[y][x - 1] == g[y][x]
}

/// The cell at row `y`, column `x` and the two cells above it hold one
/// colour.
pub open spec fn tiga_tegak(g: Seq<Seq<Warna>>, y: int, x: int) -> bool {
    g[y - 2][x] == g[y - 1][x] && g[y - 1][x] == g[y][x]
}

/// The cell at row `i`, column `j` has been left behind by a pass that now
/// stands at row `y`, column `x`.
spec fn terlewati(i: int, j: int, y: int, x: int) -> bool {
    i < y || (i == y && j < x)
}

/// What the repair pass has made sure of in the cells it has left behind: no
/// cell closes a run of three down its column, and a cell closes a run of
/// three along its row only where the two cells above it hold one colour.
spec fn terperbaiki(g: Seq<Seq<Warna>>, n: int, y: int, x: int) -> bool {
    &&& persegi(g, n)
    &&& forall|i: int, j: int|
        2 <= i < n && 0 <= j < n && terlewati(i, j, y, x) ==> !#[trigger] tiga_tegak(g, i, j)
    &&& forall|i: int, j: int|
        0 <= i < n && 2 <= j < n && terlewati(i, j, y, x) && #[trigger] tiga_mendatar(g, i, j)
            ==> i >= 2 && g[i - 2][j] == g[i - 1][j]
}

/// What holds of a board as it is laid out, `n` rows of `n` cells: no column
/// has three equal colours in a row anywhere. A row has them only where the
/// repair of a column put them back: there the two cells above the third
/// hold one colour. So the first two rows have none.
pub open spec fn hasil_perbaikan(g: Seq<Seq<Warna>>, n: int) -> bool {
    &&& persegi(g, n)
    &&& forall|y: int, x: int| 2 <= y < n && 0 <= x < n ==> !#[trigger] tiga_tegak(g, y, x)
    &&& forall|y: int, x: int|
        0 <= y < n && 2 <= x < n && #[trigger] tiga_mendatar(g, y, x) ==> y >= 2 && g[y - 2][x]
            == g[y - 1][x]
}

/// The size a board gets when `ukuran` is asked for.
pub open spec fn ukuran_sah(ukuran: usize) -> usize {
    if ukuran < PAPAN_MIN {
        PAPAN_MIN
    } else if ukuran > PAPAN_MAX {
        PAPAN_MAX
    } else {
        ukuran
    }
}

/// Whether the piece at row `y`, column `x` closes a run of three along its
/// row: it and the two pieces left of it hold one colour. A place that the
/// rows do not have, or that has no two pieces left of it, closes none.
pub fn menutup_mendatar(isi: &Vec<Vec<Permen>>, y: usize, x: usize) -> (b: bool)
    ensures
        b == (y < isi@.len() && 2 <= x < isi@[y as int]@.len() && tiga_mendatar(
            petak(isi@),
            y as int,
            x as int,
        )),
{
    if y >= isi.len() || x < 2 || x >= isi[y].len() {
        return false;
    }
    let kiri2 = isi[y][x - 2].get_warna();
    let kiri1 = isi[y][x - 1].get_warna();
    let ini = isi[y][x].get_warna();
    kiri2 == kiri1 && kiri1 == ini
}

/// Whether the piece at row `y`, column `x` closes a run of three down its
/// column: it and the two pieces above it hold one colour. A place that the
/// rows do not have, or that has no two pieces above it, closes none.
pub fn menutup_tegak(isi: &Vec<Vec<Permen>>, y: usize, x: usize) -> (b: bool)
    ensures
        b == (2 <= y < isi@.len() && x < isi@[y as int]@.len() && x < isi@[y - 1]@.len() && x
            < isi@[y - 2]@.len() && tiga_tegak(petak(isi@), y as int, x as int)),
{
    if y < 2 || y >= isi.len() || x >= isi[y].len() || x >= isi[y - 1].len() || x >= isi[y
        - 2].len() {
        return false;
    }
    let atas2 = isi[y - 2][x].get_warna();
    let atas1 = isi[y - 1][x].get_warna();
    let ini = isi[y][x].get_warna();
    atas2 == atas1 && atas1 == ini
}

/// A row of `ukuran` pieces, each of a colour drawn from `rng`.
fn baris_acak(ukuran: usize, rng: &mut ThreadRng) -> (baris: Vec<Permen>)
    ensures
        baris@.len() == ukuran,
{
    let mut baris: Vec<Permen> = Vec::new();
    let mut x: usize = 0;
    while x < ukuran
        invariant
            x <= ukuran,
            baris@.len() == x,
        decreases ukuran - x,
    {
        baris.push(Permen::new(Warna::acak_dari(rng)));
        x += 1;
    }
    baris
}

/// Rerolls the piece at row `y`, column `x`.
fn acak_ulang(isi: &mut Vec<Vec<Permen>>, y: usize, x: usize, rng: &mut ThreadRng)
    requires
        y < old(isi)@.len(),
        x < old(isi)@[y as int]@.len(),
    ensures
        final(isi)@.len() == old(isi)@.len(),
        forall|i: int|
            0 <= i < old(isi)@.len() ==> (#[trigger] final(isi)@[i])@.len() == old(isi)@[i]@.len(),
        petak(final(isi)@)[y as int][x as int] != petak(old(isi)@)[y as int][x as int],
        petak(final(isi)@) == pasang(
            petak(old(isi)@),
            (y, x),
            petak(final(isi)@)[y as int][x as int],
        ),
{
    isi[y][x].acak_warna_dari(rng);
    assert(petak(isi@) =~~= pasang(petak(old(isi)@), (y, x), petak(isi@)[y as int][x as int]));
}

impl Papan {
    /// A board of the size asked for, brought within the bounds on a board's
    /// size, laid out as `isian_baru` does. `ragam_warna` is kept as given.
    pub fn new(ukuran: usize, ragam_warna: usize) -> (papan: Papan)
        ensures
            papan.wf(),
            papan.ukuran == ukuran_sah(ukuran),
            papan.ragam_warna == ragam_warna,
            hasil_perbaikan(papan@, papan.ukuran as int),
    {
        let mut ukuran_papan: usize = if ukuran < PAPAN_MIN {
            PAPAN_MIN
        } else {
            ukuran
        };
        if ukuran > PAPAN_MAX {
            ukuran_papan = PAPAN_MAX;
        }
        let isi = Papan::isian_baru(ukuran_papan);
        Papan { ukuran: ukuran_papan, ragam_warna, isi }
    }

    /// A square of `ukuran` rows of pieces. Every piece gets a colour at
    /// random. Then the cells are visited once, row by row and left to right:
    /// a cell that closes a run of three along its row is rerolled, and after
    /// that a cell that closes a run of three down its column is rerolled.
    /// The second reroll can bring the row's run back, and no cell is looked
    /// at again.
    pub fn isian_baru(ukuran: usize) -> (isi: Vec<Vec<Permen>>)
        ensures
            hasil_perbaikan(petak(isi@), ukuran as int),
    {
        let mut rng = rand::thread_rng();
        let ghost n = ukuran as int;
        let mut isi: Vec<Vec<Permen>> = Vec::new();
        let mut y: usize = 0;
        while y < ukuran
            invariant
                y <= ukuran,
                isi@.len() == y,
                forall|i: int| 0 <= i < y ==> (#[trigger] isi@[i])@.len() == ukuran,
            decreases ukuran - y,
        {
            let baris = baris_acak(ukuran, &mut rng);
            isi.push(baris);
            y += 1;
        }
        assert(persegi(petak(isi@), n));
        y = 0;
        while y < ukuran
            invariant
                n == ukuran,
                y <= ukuran,
                isi@.len() == ukuran,
                forall|i: int| 0 <= i < ukuran ==> (#[trigger] isi@[i])@.len() == ukuran,
                terperbaiki(petak(isi@), n, y as int, 0),
            decreases ukuran - y,
        {
            let mut x: usize = 0;
            while x < ukuran
                invariant
                    n == ukuran,
                    y < ukuran,
                    x <= ukuran,
                    isi@.len() == ukuran,
                    forall|i: int| 0 <= i < ukuran ==> (#[trigger] isi@[i])@.len() == ukuran,
                    terperbaiki(petak(isi@), n, y as int, x as int),
                decreases ukuran - x,
            {
                let ghost awal = petak(isi@);
                if menutup_mendatar(&isi, y, x) {
                    // One reroll breaks the run: the new colour is not the old.
                    acak_ulang(&mut isi, y, x, &mut rng);
                }
                let ghost tengah = petak(isi@);
                assert(x >= 2 ==> !tiga_mendatar(tengah, y as int, x as int));
                if menutup_tegak(&isi, y, x) {
                    acak_ulang(&mut isi, y, x, &mut rng);
                }
                proof {
                    let akhir = petak(isi@);
                    assert(persegi(akhir, n));
                    assert forall|i: int, j: int|
                        0 <= i < n && 0 <= j < n && !(i == y && j == x) implies akhir[i][j]
                        == awal[i][j] by {
                        assert(tengah[i][j] == awal[i][j]);
                    }
                    assert forall|i: int, j: int|
                        2 <= i < n && 0 <= j < n && terlewati(
                            i,
                            j,
                            y as int,
                            x + 1,
                        ) implies !#[trigger] tiga_tegak(akhir, i, j) by {
                        if !(i == y && j == x) {
                            assert(!tiga_tegak(awal, i, j));
                        }
                    }
                    assert forall|i: int, j: int|
                        0 <= i < n && 2 <= j < n && terlewati(i, j, y as int, x + 1)
                            && #[trigger] tiga_mendatar(akhir, i, j) implies i >= 2 && akhir[i
                            - 2][j] == akhir[i - 1][j] by {
                        if !(i == y && j == x) {
                            assert(tiga_mendatar(awal, i, j));
                        }
                    }
                }
                x += 1;
            }
            y += 1;
        }
        isi
    }
}

/// What the detector finds on a board as it is laid out. No column run has
/// three cells, so nothing is ever matched along a column. A position is in
/// a match exactly where the run along its row has three cells, which the
/// layout leaves possible from the third row down; in the first two rows
/// there is no match at any position.
pub proof fn hukum_papan_baru(g: Seq<Seq<Warna>>, n: int, pa: Posisi)
    requires
        hasil_perbaikan(g, n),
        n <= usize::MAX,
        di_dalam(g, pa),
    ensures
        panjang_lari(g, true, pa) < TIGA,
        lari(g, true, pa, TIGA).len() == 0,
        dempet_di(g, pa, TIGA).len() == 0 <==> panjang_lari(g, false, pa) < TIGA,
        pa.0 < 2 ==> dempet_di(g, pa, TIGA).len() == 0,
{
    hukum_dempet(g, n, pa, TIGA);
    assert(g[pa.0 as int].len() == n);
    let kol = garis(g, true, pa);
    hukum_lari(kol, jangkar(true, pa));
    let atas = awal_lari(kol, jangkar(true, pa));
    if panjang_lari(g, true, pa) >= TIGA {
        assert(kol[atas] == kol[atas + 1] && kol[atas + 1] == kol[atas + 2]);
        assert(tiga_tegak(g, atas + 2, pa.1 as int));
    }
    let bar = garis(g, false, pa);
    hukum_lari(bar, jangkar(false, pa));
    let kiri = awal_lari(bar, jangkar(false, pa));
    if pa.0 < 2 && panjang_lari(g, false, pa) >= TIGA {
        assert(bar[kiri] == bar[kiri + 1] && bar[kiri + 1] == bar[kiri + 2]);
        assert(tiga_mendatar(g, pa.0 as int, kiri + 2));
    }
}

} // verus!
