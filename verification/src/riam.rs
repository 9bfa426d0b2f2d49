//! The cascade: a swap, the matches it makes, and round after round of
//! crushing and looking again until nothing matches any more.

use crate::dempet::{
    baris_terbawah, hukum_tambah, hukum_titik_periksa, hukum_urut, kolom_terkanan, kolom_terkiri,
    naik, tambah_semua, titik_periksa, urut, Dempet,
};
use crate::deteksi::{dempet_di, hukum_dempet, panjang_lari, TIGA};
use crate::papan::{
    di_dalam, hukum_tukar_balik, persegi, remuk_petak, tukar_petak, Galat, Papan, Posisi,
};
use crate::warna::Warna;
use rand::rngs::ThreadRng;
use vstd::prelude::*;

verus! {

/// The rounds that `tukar_dan_tuntaskan` lets a cascade run.
pub const BATAS_RIAM: usize = 1000;

/// Every position of `s` names a cell of the grid.
pub open spec fn semua_di_dalam(g: Seq<Seq<Warna>>, s: Seq<Posisi>) -> bool {
    forall|i: int| 0 <= i < s.len() ==> di_dalam(g, #[trigger] s[i])
}

/// The grid after the positions of `s` have been crushed one after the
/// other, `baru` giving the colour that each crush lets in.
pub open spec fn remuk_semua(g: Seq<Seq<Warna>>, s: Seq<Posisi>, baru: Seq<Warna>) -> Seq<
    Seq<Warna>,
>
    decreases s.len(),
{
    if s.len() == 0 {
        g
    } else {
        remuk_petak(remuk_semua(g, s.drop_last(), baru.drop_last()), s.last(), baru.last())
    }
}

/// `h` is what crushing the positions of `s` in their order makes of `g`,
/// for some colours let in.
pub open spec fn dapat_remuk(g: Seq<Seq<Warna>>, s: Seq<Posisi>, h: Seq<Seq<Warna>>) -> bool {
    exists|baru: Seq<Warna>| baru.len() == s.len() && h == #[trigger] remuk_semua(g, s, baru)
}

/// `s` with what is found when column `kol` is walked upward from row
/// `bar` to the top, looking for a match at every cell.
pub open spec fn pindai_naik(g: Seq<Seq<Warna>>, s: Seq<Posisi>, kol: usize, bar: int) -> Seq<
    Posisi,
>
    decreases bar + 1,
{
    if bar < 0 {
        s
    } else {
        pindai_naik(g, tambah_semua(s, dempet_di(g, (bar as usize, kol), TIGA)), kol, bar - 1)
    }
}

/// `s` with what is found when, for each position of `titik` in turn, its
/// column is walked upward from it.
pub open spec fn pindai_titik(g: Seq<Seq<Warna>>, s: Seq<Posisi>, titik: Seq<Posisi>) -> Seq<
    Posisi,
>
    decreases titik.len(),
{
    if titik.len() == 0 {
        s
    } else {
        pindai_naik(
            g,
            pindai_titik(g, s, titik.drop_last()),
            titik.last().1,
            titik.last().0 as int,
        )
    }
}

/// The matches that a swap of `pos1` and `pos2` has made on `g`: those at
/// `pos1`, then those at `pos2`, in order of rows.
pub open spec fn dempet_awal(g: Seq<Seq<Warna>>, pos1: Posisi, pos2: Posisi) -> Seq<Posisi> {
    urut(
        tambah_semua(
            tambah_semua(Seq::empty(), dempet_di(g, pos1, TIGA)),
            dempet_di(g, pos2, TIGA),
        ),
    )
}

/// The matches found on `h` after the positions of `m` were crushed, in
/// order of rows.
pub open spec fn dempet_susulan(h: Seq<Seq<Warna>>, m: Seq<Posisi>) -> Seq<Posisi> {
    urut(pindai_titik(h, Seq::empty(), titik_periksa(m)))
}

/// `jejak` is the record of a cascade that began on grid `g1` with the
/// matches `m1` and has come to grid `akhir` with the matches `sisa` still
/// to crush. Each entry holds a grid and the matches, never none, that were
/// crushed on it. The first holds `g1` and `m1`; crushing an entry's
/// matches on its grid gives the next entry's grid, and looking again on
/// that grid gives the next entry's matches; the last entry leads to `akhir`
/// and `sisa` in the same way.
pub open spec fn rantai(
    g1: Seq<Seq<Warna>>,
    m1: Seq<Posisi>,
    jejak: Seq<(Seq<Seq<Warna>>, Seq<Posisi>)>,
    akhir: Seq<Seq<Warna>>,
    sisa: Seq<Posisi>,
) -> bool {
    &&& forall|i: int| 0 <= i < jejak.len() ==> (#[trigger] jejak[i]).1.len() > 0
    &&& if jejak.len() == 0 {
        akhir == g1 && sisa == m1
    } else {
        &&& jejak[0] == (g1, m1)
        &&& forall|i: int|
            0 <= i < jejak.len() - 1 ==> dapat_remuk(
                (#[trigger] jejak[i]).0,
                jejak[i].1,
                jejak[i + 1].0,
            ) && jejak[i + 1].1 == dempet_susulan(jejak[i + 1].0, jejak[i].1)
        &&& dapat_remuk(jejak.last().0, jejak.last().1, akhir)
        &&& sisa == dempet_susulan(akhir, jejak.last().1)
    }
}

/// `q` is a cell that the second look visits: it lies at a position of
/// `titik` or above one, in its column.
pub open spec fn terperiksa(titik: Seq<Posisi>, q: Posisi) -> bool {
    exists|i: int| 0 <= i < titik.len() && q.1 == (#[trigger] titik[i]).1 && q.0 <= titik[i].0
}

/// `p` lies in the match at some cell that the second look visits.
pub open spec fn ditemukan(g: Seq<Seq<Warna>>, titik: Seq<Posisi>, p: Posisi) -> bool {
    exists|q: Posisi| terperiksa(titik, q) && #[trigger] dempet_di(g, q, TIGA).contains(p)
}

proof fn lemma_pindai_naik(g: Seq<Seq<Warna>>, n: int, s: Seq<Posisi>, kol: usize, bar: int)
    requires
        persegi(g, n),
        n <= usize::MAX,
        semua_di_dalam(g, s),
        s.no_duplicates(),
        -1 <= bar < n,
        kol < n,
    ensures
        semua_di_dalam(g, pindai_naik(g, s, kol, bar)),
        pindai_naik(g, s, kol, bar).no_duplicates(),
        forall|p: Posisi|
            #[trigger] pindai_naik(g, s, kol, bar).contains(p) <==> s.contains(p) || exists|
                q: Posisi,
            |
                q.1 == kol && q.0 <= bar && #[trigger] dempet_di(g, q, TIGA).contains(p),
    decreases bar + 1,
{
    let r = pindai_naik(g, s, kol, bar);
    if bar >= 0 {
        let z = (bar as usize, kol);
        let d = dempet_di(g, z, TIGA);
        let s2 = tambah_semua(s, d);
        assert(g[bar].len() == n);
        hukum_dempet(g, n, z, TIGA);
        hukum_tambah(s, d);
        assert forall|i: int| 0 <= i < s2.len() implies di_dalam(g, #[trigger] s2[i]) by {
            assert(s2.contains(s2[i]));
            if s.contains(s2[i]) {
                let k = choose|k: int| 0 <= k < s.len() && s[k] == s2[i];
                assert(di_dalam(g, s[k]));
            } else {
                let k = choose|k: int| 0 <= k < d.len() && d[k] == s2[i];
                assert(di_dalam(g, d[k]));
            }
        }
        lemma_pindai_naik(g, n, s2, kol, bar - 1);
        assert forall|p: Posisi| #[trigger] r.contains(p) <==> s.contains(p) || exists|q: Posisi|
            q.1 == kol && q.0 <= bar && #[trigger] dempet_di(g, q, TIGA).contains(p) by {
            if r.contains(p) {
                if !s2.contains(p) {
                    let q = choose|q: Posisi|
                        q.1 == kol && q.0 <= bar - 1 && #[trigger] dempet_di(g, q, TIGA).contains(
                            p,
                        );
                    assert(q.1 == kol && q.0 <= bar && dempet_di(g, q, TIGA).contains(p));
                } else if !s.contains(p) {
                    assert(z.1 == kol && z.0 <= bar && dempet_di(g, z, TIGA).contains(p));
                }
            }
            if exists|q: Posisi|
                q.1 == kol && q.0 <= bar && #[trigger] dempet_di(g, q, TIGA).contains(p) {
                let q = choose|q: Posisi|
                    q.1 == kol && q.0 <= bar && #[trigger] dempet_di(g, q, TIGA).contains(p);
                if q.0 == bar {
                    assert(q == z);
                    assert(s2.contains(p));
                } else {
                    assert(q.1 == kol && q.0 <= bar - 1 && dempet_di(g, q, TIGA).contains(p));
                }
            }
        }
    }
}

/// What the second look collects, begun with `s`, on a square grid: the
/// positions of `s`, and every position that lies in the match at a cell at
/// or above a position of `titik`. All lie on the grid, and none is held
/// twice.
pub proof fn hukum_pindai_ulang(g: Seq<Seq<Warna>>, n: int, s: Seq<Posisi>, titik: Seq<Posisi>)
    requires
        persegi(g, n),
        n <= usize::MAX,
        semua_di_dalam(g, s),
        semua_di_dalam(g, titik),
        s.no_duplicates(),
    ensures
        semua_di_dalam(g, pindai_titik(g, s, titik)),
        pindai_titik(g, s, titik).no_duplicates(),
        forall|p: Posisi|
            #[trigger] pindai_titik(g, s, titik).contains(p) <==> s.contains(p) || ditemukan(
                g,
                titik,
                p,
            ),
    decreases titik.len(),
{
    let r = pindai_titik(g, s, titik);
    if titik.len() == 0 {
        assert forall|p: Posisi| !ditemukan(g, titik, p) by {
            if ditemukan(g, titik, p) {
                let q = choose|q: Posisi|
                    terperiksa(titik, q) && #[trigger] dempet_di(g, q, TIGA).contains(p);
                assert(terperiksa(titik, q));
            }
        }
    } else {
        let t = titik.drop_last();
        let z = titik.last();
        let rt = pindai_titik(g, s, t);
        assert(semua_di_dalam(g, t)) by {
            assert forall|i: int| 0 <= i < t.len() implies di_dalam(g, #[trigger] t[i]) by {
                assert(di_dalam(g, titik[i]));
            }
        }
        hukum_pindai_ulang(g, n, s, t);
        assert(di_dalam(g, titik[titik.len() - 1]));
        assert(g[z.0 as int].len() == n);
        lemma_pindai_naik(g, n, rt, z.1, z.0 as int);
        assert forall|p: Posisi| #[trigger] r.contains(p) <==> s.contains(p) || ditemukan(
            g,
            titik,
            p,
        ) by {
            if r.contains(p) && !s.contains(p) {
                if rt.contains(p) {
                    let q = choose|q: Posisi|
                        terperiksa(t, q) && #[trigger] dempet_di(g, q, TIGA).contains(p);
                    let i = choose|i: int|
                        0 <= i < t.len() && q.1 == (#[trigger] t[i]).1 && q.0 <= t[i].0;
                    assert(titik[i] == t[i]);
                    assert(terperiksa(titik, q));
                } else {
                    let q = choose|q: Posisi|
                        q.1 == z.1 && q.0 <= z.0 && #[trigger] dempet_di(g, q, TIGA).contains(p);
                    assert(q.1 == titik[titik.len() - 1].1 && q.0 <= titik[titik.len() - 1].0);
                    assert(terperiksa(titik, q));
                }
            }
            if ditemukan(g, titik, p) {
                let q = choose|q: Posisi|
                    terperiksa(titik, q) && #[trigger] dempet_di(g, q, TIGA).contains(p);
                let i = choose|i: int|
                    0 <= i < titik.len() && q.1 == (#[trigger] titik[i]).1 && q.0 <= titik[i].0;
                if i < t.len() {
                    assert(t[i] == titik[i]);
                    assert(terperiksa(t, q));
                    assert(ditemukan(g, t, p));
                } else {
                    assert(q.1 == z.1 && q.0 <= z.0 && dempet_di(g, q, TIGA).contains(p));
                }
            }
        }
    }
}

/// The colours that rows of colours hold.
pub open spec fn petak_warna(v: Seq<Vec<Warna>>) -> Seq<Seq<Warna>> {
    Seq::new(v.len(), |y: int| v[y]@)
}

/// One round of a cascade: the board as it stood when the round began, and
/// the matches that were then crushed on it.
#[derive(Debug)]
pub struct Babak {
    pub papan: Vec<Vec<Warna>>,
    pub dempet: Vec<Posisi>,
}

impl View for Babak {
    type V = (Seq<Seq<Warna>>, Seq<Posisi>);

    open spec fn view(&self) -> (Seq<Seq<Warna>>, Seq<Posisi>) {
        (petak_warna(self.papan@), self.dempet@)
    }
}

/// What a swap led to: how many rounds of crushing, and the record of them.
#[derive(Debug)]
pub struct Riam {
    pub babak: usize,
    pub jejak: Vec<Babak>,
}

/// The record as grids and matches.
pub open spec fn lihat_jejak(jejak: Seq<Babak>) -> Seq<(Seq<Seq<Warna>>, Seq<Posisi>)> {
    Seq::new(jejak.len(), |i: int| jejak[i]@)
}

/// What `tukar_dan_tuntaskan_terbatas` owes for two positions on the board
/// `g0`, when it leaves the board as `akhir`. Where the swap makes no match,
/// the board is as before and no round is counted. Else the rounds are
/// recorded one by one, at most `batas` of them, and either nothing matches
/// on `akhir` where the last round bids to look, or `batas` rounds are done
/// and matches are left.
pub open spec fn hasil_riam(
    g0: Seq<Seq<Warna>>,
    pos1: Posisi,
    pos2: Posisi,
    batas: usize,
    akhir: Seq<Seq<Warna>>,
    r: Result<Riam, Galat>,
) -> bool {
    let g1 = tukar_petak(g0, pos1, pos2);
    let m1 = dempet_awal(g1, pos1, pos2);
    match r {
        Ok(riam) => {
            &&& riam.babak == riam.jejak@.len()
            &&& riam.babak <= batas
            &&& if m1.len() == 0 {
                akhir == g0 && riam.babak == 0
            } else {
                riam.babak >= 1 && rantai(g1, m1, lihat_jejak(riam.jejak@), akhir, Seq::empty())
            }
        },
        Err(e) => {
            &&& e == Galat::RiamBerlebih
            &&& m1.len() > 0
            &&& exists|jejak: Seq<(Seq<Seq<Warna>>, Seq<Posisi>)>, sisa: Seq<Posisi>|
                jejak.len() == batas && sisa.len() > 0 && #[trigger] rantai(
                    g1,
                    m1,
                    jejak,
                    akhir,
                    sisa,
                )
        },
    }
}

/// The matches that a swap has made, on a square grid with both positions
/// on it: there are none exactly where neither position has a run of three
/// through it, along its row or along its column. Where there are some, they
/// lie on the grid, none is held twice, and their rows never go up.
pub proof fn hukum_dempet_awal(g: Seq<Seq<Warna>>, n: int, pos1: Posisi, pos2: Posisi)
    requires
        persegi(g, n),
        n <= usize::MAX,
        di_dalam(g, pos1),
        di_dalam(g, pos2),
    ensures
        dempet_awal(g, pos1, pos2).len() == 0 <==> panjang_lari(g, false, pos1) < TIGA
            && panjang_lari(g, true, pos1) < TIGA && panjang_lari(g, false, pos2) < TIGA
            && panjang_lari(g, true, pos2) < TIGA,
        semua_di_dalam(g, dempet_awal(g, pos1, pos2)),
        dempet_awal(g, pos1, pos2).no_duplicates(),
        naik(dempet_awal(g, pos1, pos2)),
{
    let d1 = dempet_di(g, pos1, TIGA);
    let d2 = dempet_di(g, pos2, TIGA);
    let s1 = tambah_semua(Seq::empty(), d1);
    let s2 = tambah_semua(s1, d2);
    hukum_dempet(g, n, pos1, TIGA);
    hukum_dempet(g, n, pos2, TIGA);
    hukum_tambah(Seq::empty(), d1);
    hukum_tambah(s1, d2);
    hukum_urut(s2);
    lemma_di_dalam_tambah(g, Seq::empty(), d1);
    lemma_di_dalam_tambah(g, s1, d2);
    lemma_di_dalam_urut(g, s2);
    if d1.len() > 0 {
        assert(d1.contains(d1[0]));
        assert(s1.contains(d1[0]));
        assert(s2.contains(d1[0]));
    }
    if d2.len() > 0 {
        assert(d2.contains(d2[0]));
        assert(s2.contains(d2[0]));
    }
    if s2.len() > 0 {
        assert(s2.contains(s2[0]));
    }
}

proof fn lemma_rantai_maju(
    g1: Seq<Seq<Warna>>,
    m1: Seq<Posisi>,
    jejak: Seq<(Seq<Seq<Warna>>, Seq<Posisi>)>,
    g: Seq<Seq<Warna>>,
    m: Seq<Posisi>,
    h: Seq<Seq<Warna>>,
    m2: Seq<Posisi>,
)
    requires
        rantai(g1, m1, jejak, g, m),
        m.len() > 0,
        dapat_remuk(g, m, h),
        m2 == dempet_susulan(h, m),
    ensures
        rantai(g1, m1, jejak.push((g, m)), h, m2),
{
    let baru = jejak.push((g, m));
    assert forall|i: int| 0 <= i < baru.len() implies (#[trigger] baru[i]).1.len() > 0 by {
        if i < jejak.len() {
            assert(baru[i] == jejak[i]);
        }
    }
    assert(baru.last() == (g, m));
    if jejak.len() > 0 {
        assert(baru[0] == jejak[0]);
    }
    assert forall|i: int| 0 <= i < baru.len() - 1 implies dapat_remuk(
        (#[trigger] baru[i]).0,
        baru[i].1,
        baru[i + 1].0,
    ) && baru[i + 1].1 == dempet_susulan(baru[i + 1].0, baru[i].1) by {
        assert(baru[i] == jejak[i]);
        if i < jejak.len() - 1 {
            assert(baru[i + 1] == jejak[i + 1]);
        }
    }
}

/// Positions on a square grid are on every square grid of its size.
pub proof fn lemma_bentuk_sama(g: Seq<Seq<Warna>>, h: Seq<Seq<Warna>>, n: int, s: Seq<Posisi>)
    requires
        persegi(g, n),
        persegi(h, n),
        semua_di_dalam(g, s),
    ensures
        semua_di_dalam(h, s),
{
    assert forall|i: int| 0 <= i < s.len() implies di_dalam(h, #[trigger] s[i]) by {
        assert(di_dalam(g, s[i]));
        assert(g[s[i].0 as int].len() == n);
        assert(h[s[i].0 as int].len() == n);
    }
}

proof fn lemma_di_dalam_urut(g: Seq<Seq<Warna>>, s: Seq<Posisi>)
    requires
        semua_di_dalam(g, s),
    ensures
        semua_di_dalam(g, urut(s)),
{
    hukum_urut(s);
    let r = urut(s);
    assert forall|i: int| 0 <= i < r.len() implies di_dalam(g, #[trigger] r[i]) by {
        assert(r.contains(r[i]));
        let k = choose|k: int| 0 <= k < s.len() && s[k] == r[i];
        assert(di_dalam(g, s[k]));
    }
}

proof fn lemma_di_dalam_tambah(g: Seq<Seq<Warna>>, s: Seq<Posisi>, baru: Seq<Posisi>)
    requires
        semua_di_dalam(g, s),
        semua_di_dalam(g, baru),
    ensures
        semua_di_dalam(g, tambah_semua(s, baru)),
{
    hukum_tambah(s, baru);
    let r = tambah_semua(s, baru);
    assert forall|i: int| 0 <= i < r.len() implies di_dalam(g, #[trigger] r[i]) by {
        assert(r.contains(r[i]));
        if s.contains(r[i]) {
            let k = choose|k: int| 0 <= k < s.len() && s[k] == r[i];
            assert(di_dalam(g, s[k]));
        } else {
            let k = choose|k: int| 0 <= k < baru.len() && baru[k] == r[i];
            assert(di_dalam(g, baru[k]));
        }
    }
}

/// The positions from which to look again lie on the grid if the crushed
/// positions did.
proof fn lemma_titik_di_dalam(g: Seq<Seq<Warna>>, n: int, m: Seq<Posisi>)
    requires
        persegi(g, n),
        n <= usize::MAX,
        semua_di_dalam(g, m),
    ensures
        semua_di_dalam(g, titik_periksa(m)),
        kolom_terkanan(m) - kolom_terkiri(m) < usize::MAX,
{
    if m.len() > 0 {
        hukum_titik_periksa(m);
        let a = choose|i: int| 0 <= i < m.len() && (#[trigger] m[i]).0 == baris_terbawah(m);
        let c = choose|i: int| 0 <= i < m.len() && (#[trigger] m[i]).1 == kolom_terkanan(m);
        assert(di_dalam(g, m[a]));
        assert(di_dalam(g, m[c]));
        assert(g[m[c].0 as int].len() == n);
        let t = titik_periksa(m);
        assert forall|i: int| 0 <= i < t.len() implies di_dalam(g, #[trigger] t[i]) by {
            assert(g[baris_terbawah(m) as int].len() == n);
        }
    }
}

impl Papan {
    /// The colours of the board, row by row.
    pub fn potret(&self) -> (r: Vec<Vec<Warna>>)
        ensures
            petak_warna(r@) == self@,
    {
        let mut hasil: Vec<Vec<Warna>> = Vec::new();
        let mut y: usize = 0;
        while y < self.isi.len()
            invariant
                y <= self.isi@.len(),
                hasil@.len() == y,
                forall|i: int| 0 <= i < y ==> (#[trigger] hasil@[i])@ == self@[i],
            decreases self.isi@.len() - y,
        {
            let mut baris: Vec<Warna> = Vec::new();
            let mut x: usize = 0;
            while x < self.isi[y].len()
                invariant
                    y < self.isi@.len(),
                    x <= self.isi@[y as int]@.len(),
                    baris@.len() == x,
                    forall|j: int| 0 <= j < x ==> baris@[j] == self@[y as int][j],
                decreases self.isi@[y as int]@.len() - x,
            {
                baris.push(self.isi[y][x].get_warna());
                x += 1;
            }
            assert(baris@ =~= self@[y as int]);
            hasil.push(baris);
            y += 1;
        }
        assert(petak_warna(hasil@) =~= self@);
        hasil
    }

    /// Whether every position of `posisi` is on the board.
    fn memuat_semua(&self, posisi: &Vec<Posisi>) -> (b: bool)
        requires
            self.wf(),
        ensures
            b == semua_di_dalam(self@, posisi@),
    {
        let mut i: usize = 0;
        while i < posisi.len()
            invariant
                self.wf(),
                i <= posisi@.len(),
                forall|k: int| 0 <= k < i ==> di_dalam(self@, #[trigger] posisi@[k]),
            decreases posisi@.len() - i,
        {
            let pos = posisi[i];
            proof {
                self.lemma_di_dalam(pos);
            }
            if !(pos.0 < self.ukuran && pos.1 < self.ukuran) {
                return false;
            }
            i += 1;
        }
        true
    }

    /// Crushes the positions of `posisi` one after the other, each with a
    /// colour drawn from `rng`. If one of them is off the board, none is
    /// crushed.
    pub fn remukan_semua_dari(&mut self, posisi: &Vec<Posisi>, rng: &mut ThreadRng) -> (r: Result<
        (),
        Galat,
    >)
        requires
            old(self).wf(),
        ensures
            final(self).sebentuk(old(self)),
            semua_di_dalam(old(self)@, posisi@) ==> r.is_ok() && dapat_remuk(
                old(self)@,
                posisi@,
                final(self)@,
            ),
            !semua_di_dalam(old(self)@, posisi@) ==> r == Err::<(), Galat>(Galat::DiLuarPapan)
                && final(self)@ == old(self)@,
    {
        if !self.memuat_semua(posisi) {
            return Err(Galat::DiLuarPapan);
        }
        let ghost mut baru: Seq<Warna> = Seq::empty();
        let mut i: usize = 0;
        while i < posisi.len()
            invariant
                self.wf(),
                self.sebentuk(old(self)),
                i <= posisi@.len(),
                baru.len() == i,
                self@ == remuk_semua(old(self)@, posisi@.take(i as int), baru),
            decreases posisi@.len() - i,
        {
            let warna = Warna::acak_dari(rng);
            let _ = self.remukan_dengan_warna(posisi[i], warna);
            proof {
                assert(posisi@.take(i + 1).drop_last() =~= posisi@.take(i as int));
                assert(baru.push(warna).drop_last() =~= baru);
                baru = baru.push(warna);
            }
            i += 1;
        }
        assert(posisi@.take(i as int) =~= posisi@);
        Ok(())
    }

    /// Crushes the positions of `posisi` one after the other. If one of them
    /// is off the board, none is crushed.
    pub fn remukan_semua(&mut self, posisi: &Vec<Posisi>) -> (r: Result<(), Galat>)
        requires
            old(self).wf(),
        ensures
            final(self).sebentuk(old(self)),
            semua_di_dalam(old(self)@, posisi@) ==> r.is_ok() && dapat_remuk(
                old(self)@,
                posisi@,
                final(self)@,
            ),
            !semua_di_dalam(old(self)@, posisi@) ==> r == Err::<(), Galat>(Galat::DiLuarPapan)
                && final(self)@ == old(self)@,
    {
        let mut rng = rand::thread_rng();
        self.remukan_semua_dari(posisi, &mut rng)
    }

    /// Looks for matches above the positions of `titik`: for each in turn,
    /// at the position and at every cell above it in its column, bottom to
    /// top. What is found is collected in the order found, each position
    /// once.
    pub fn pindai_ulang(&self, titik: &Vec<Posisi>) -> (r: Result<Dempet, Galat>)
        requires
            self.wf(),
        ensures
            semua_di_dalam(self@, titik@) ==> r.is_ok() && r.unwrap()@ == pindai_titik(
                self@,
                Seq::empty(),
                titik@,
            ),
            !semua_di_dalam(self@, titik@) ==> r.is_err() && r.unwrap_err() == Galat::DiLuarPapan,
    {
        if !self.memuat_semua(titik) {
            return Err(Galat::DiLuarPapan);
        }
        let ghost g = self@;
        let mut hasil = Dempet::new();
        let mut i: usize = 0;
        while i < titik.len()
            invariant
                self.wf(),
                g == self@,
                semua_di_dalam(g, titik@),
                i <= titik@.len(),
                hasil@ == pindai_titik(g, Seq::empty(), titik@.take(i as int)),
            decreases titik@.len() - i,
        {
            let pos = titik[i];
            let ghost awal = hasil@;
            proof {
                self.lemma_di_dalam(pos);
                assert(di_dalam(g, titik@[i as int]));
                assert(titik@.take(i + 1).drop_last() =~= titik@.take(i as int));
            }
            let mut sisa: usize = pos.0 + 1;
            while sisa > 0
                invariant
                    self.wf(),
                    g == self@,
                    pos.0 < self.ukuran,
                    pos.1 < self.ukuran,
                    sisa <= pos.0 + 1,
                    pindai_naik(g, hasil@, pos.1, sisa - 1) == pindai_naik(
                        g,
                        awal,
                        pos.1,
                        pos.0 as int,
                    ),
                decreases sisa,
            {
                let bar = sisa - 1;
                proof {
                    self.lemma_di_dalam((bar, pos.1));
                }
                match self.cek_dempet((bar, pos.1), TIGA) {
                    Ok(pd) => {
                        hasil.tambah_vek(pd);
                    },
                    Err(_) => {},
                }
                sisa -= 1;
            }
            i += 1;
        }
        assert(titik@.take(i as int) =~= titik@);
        Ok(hasil)
    }

    /// The matches that stand at `pos1` and at `pos2`, in order of rows.
    fn dempet_tukar(&self, pos1: Posisi, pos2: Posisi) -> (d: Dempet)
        requires
            self.wf(),
            di_dalam(self@, pos1),
            di_dalam(self@, pos2),
        ensures
            d@ == dempet_awal(self@, pos1, pos2),
            d.wf(),
            semua_di_dalam(self@, d@),
    {
        let ghost g = self@;
        let ghost n = self.ukuran as int;
        let ghost d1 = dempet_di(g, pos1, TIGA);
        let ghost d2 = dempet_di(g, pos2, TIGA);
        let mut dempet = Dempet::new();
        match self.cek_dempet(pos1, TIGA) {
            Ok(pd) => {
                dempet.tambah_vek(pd);
            },
            Err(_) => {},
        }
        match self.cek_dempet(pos2, TIGA) {
            Ok(pd) => {
                dempet.tambah_vek(pd);
            },
            Err(_) => {},
        }
        proof {
            hukum_dempet(g, n, pos1, TIGA);
            hukum_dempet(g, n, pos2, TIGA);
            lemma_di_dalam_tambah(g, Seq::empty(), d1);
            lemma_di_dalam_tambah(g, tambah_semua(Seq::empty(), d1), d2);
            lemma_di_dalam_urut(g, dempet@);
        }
        dempet.urutkan();
        dempet
    }

    /// The matches found by the second look after the positions of `lama`
    /// were crushed, in order of rows.
    fn dempet_berikut(&self, lama: &Dempet) -> (d: Dempet)
        requires
            self.wf(),
            semua_di_dalam(self@, lama@),
        ensures
            d@ == dempet_susulan(self@, lama@),
            d.wf(),
            semua_di_dalam(self@, d@),
    {
        let ghost g = self@;
        let ghost n = self.ukuran as int;
        proof {
            lemma_titik_di_dalam(g, n, lama@);
            hukum_pindai_ulang(g, n, Seq::empty(), titik_periksa(lama@));
            lemma_di_dalam_urut(g, pindai_titik(g, Seq::empty(), titik_periksa(lama@)));
        }
        let titik = lama.kolom_berubah();
        let mut dempet = match self.pindai_ulang(&titik) {
            Ok(d) => d,
            Err(_) => Dempet::new(),
        };
        dempet.urutkan();
        dempet
    }

    /// Swaps `pos1` and `pos2` as `tukar` does, and looks for matches at
    /// both. Where there is none, the swap is undone and no round counted.
    /// Else the matches are crushed, top rows first, and the columns they
    /// span are looked through again from their lowest row upward; what is
    /// found there is crushed in turn, and so on until nothing is found, one
    /// round for each crushing. A round's record holds the board as it stood
    /// before the crushing and the positions crushed.
    ///
    /// No more than `batas` rounds are run. If matches are left then, the
    /// board stays as the last round left it and `RiamBerlebih` comes back.
    /// A position off the board gives `DiLuarPapan`, the board untouched.
    pub fn tukar_dan_tuntaskan_terbatas(&mut self, pos1: Posisi, pos2: Posisi, batas: usize) -> (r:
        Result<Riam, Galat>)
        requires
            old(self).wf(),
        ensures
            final(self).sebentuk(old(self)),
            !(di_dalam(old(self)@, pos1) && di_dalam(old(self)@, pos2)) ==> r.is_err()
                && r.unwrap_err() == Galat::DiLuarPapan && final(self)@ == old(self)@,
            di_dalam(old(self)@, pos1) && di_dalam(old(self)@, pos2) ==> hasil_riam(
                old(self)@,
                pos1,
                pos2,
                batas,
                final(self)@,
                r,
            ),
    {
        proof {
            self.lemma_di_dalam(pos1);
            self.lemma_di_dalam(pos2);
        }
        if !(pos1.0 < self.ukuran && pos1.1 < self.ukuran && pos2.0 < self.ukuran && pos2.1
            < self.ukuran) {
            return Err(Galat::DiLuarPapan);
        }
        let ghost g0 = self@;
        let ghost n = self.ukuran as int;
        let _ = self.tukar(pos1, pos2);
        let ghost g1 = self@;
        proof {
            self.lemma_di_dalam(pos1);
            self.lemma_di_dalam(pos2);
        }
        let mut dempet = self.dempet_tukar(pos1, pos2);
        let ghost m1 = dempet@;
        if dempet.len() == 0 {
            let _ = self.tukar(pos1, pos2);
            proof {
                hukum_tukar_balik(g0, pos1, pos2);
            }
            return Ok(Riam { babak: 0, jejak: Vec::new() });
        }
        let mut rng = rand::thread_rng();
        let mut babak: usize = 0;
        let mut jejak: Vec<Babak> = Vec::new();
        assert(lihat_jejak(jejak@) =~= Seq::empty());
        while dempet.len() > 0
            invariant
                self.wf(),
                self.sebentuk(old(self)),
                n == self.ukuran,
                semua_di_dalam(self@, dempet@),
                babak == jejak@.len(),
                babak <= batas,
                di_dalam(old(self)@, pos1),
                di_dalam(old(self)@, pos2),
                g1 == tukar_petak(old(self)@, pos1, pos2),
                m1 == dempet_awal(g1, pos1, pos2),
                m1.len() > 0,
                rantai(g1, m1, lihat_jejak(jejak@), self@, dempet@),
            decreases batas - babak,
        {
            if babak >= batas {
                assert(lihat_jejak(jejak@).len() == batas && dempet@.len() > 0 && rantai(
                    g1,
                    m1,
                    lihat_jejak(jejak@),
                    self@,
                    dempet@,
                ));
                return Err(Galat::RiamBerlebih);
            }
            let ghost g = self@;
            let ghost m = dempet@;
            let ghost riwayat = lihat_jejak(jejak@);
            let papan_kini = self.potret();
            let _ = self.remukan_semua_dari(&dempet.vektor, &mut rng);
            proof {
                lemma_bentuk_sama(g, self@, n, m);
            }
            let berikut = self.dempet_berikut(&dempet);
            let lama = dempet;
            dempet = berikut;
            jejak.push(Babak { papan: papan_kini, dempet: lama.vektor });
            babak += 1;
            proof {
                assert(lihat_jejak(jejak@) =~= riwayat.push((g, m)));
                lemma_rantai_maju(g1, m1, riwayat, g, m, self@, dempet@);
            }
        }
        assert(dempet@ =~= Seq::empty());
        Ok(Riam { babak, jejak })
    }

    /// `tukar_dan_tuntaskan_terbatas` with `BATAS_RIAM` rounds at most.
    pub fn tukar_dan_tuntaskan(&mut self, pos1: Posisi, pos2: Posisi) -> (r: Result<Riam, Galat>)
        requires
            old(self).wf(),
        ensures
            final(self).sebentuk(old(self)),
            !(di_dalam(old(self)@, pos1) && di_dalam(old(self)@, pos2)) ==> r.is_err()
                && r.unwrap_err() == Galat::DiLuarPapan && final(self)@ == old(self)@,
            di_dalam(old(self)@, pos1) && di_dalam(old(self)@, pos2) ==> hasil_riam(
                old(self)@,
                pos1,
                pos2,
                BATAS_RIAM,
                final(self)@,
                r,
            ),
    {
        self.tukar_dan_tuntaskan_terbatas(pos1, pos2, BATAS_RIAM)
    }
}

} // verus!
