//! The match detector: the run of equal colours that passes through a cell,
//! along its row and along its column.

use crate::papan::{di_dalam, persegi, warna_di, Galat, Papan, Posisi};
use crate::warna::Warna;
use vstd::prelude::*;

verus! {

/// A match in play needs this many cells in a line.
pub const TIGA: usize = 3;

/// Where the unbroken stretch of cells that share the colour of cell `a`
/// begins, on the line `l`.
pub open spec fn awal_lari(l: Seq<Warna>, a: int) -> int
    decreases a,
{
    if 0 < a && l[a - 1] == l[a] {
        awal_lari(l, a - 1)
    } else {
        a
    }
}

/// Where that stretch ends: its last cell.
pub open spec fn akhir_lari(l: Seq<Warna>, a: int) -> int
    decreases l.len() - a,
{
    if a + 1 < l.len() && l[a + 1] == l[a] {
        akhir_lari(l, a + 1)
    } else {
        a
    }
}

/// Column `x` of the grid, read from the top.
pub open spec fn kolom(g: Seq<Seq<Warna>>, x: int) -> Seq<Warna> {
    Seq::new(g.len(), |y: int| g[y][x])
}

/// The line through `pa`: its column where `tegak`, else its row.
pub open spec fn garis(g: Seq<Seq<Warna>>, tegak: bool, pa: Posisi) -> Seq<Warna> {
    if tegak {
        kolom(g, pa.1 as int)
    } else {
        g[pa.0 as int]
    }
}

/// The place of `pa` on that line.
pub open spec fn jangkar(tegak: bool, pa: Posisi) -> int {
    if tegak {
        pa.0 as int
    } else {
        pa.1 as int
    }
}

/// The position of cell `k` of the line through `pa`.
pub open spec fn titik(tegak: bool, pa: Posisi, k: int) -> Posisi {
    if tegak {
        (k as usize, pa.1)
    } else {
        (pa.0, k as usize)
    }
}

/// How many cells the run through `pa` has along one axis.
pub open spec fn panjang_lari(g: Seq<Seq<Warna>>, tegak: bool, pa: Posisi) -> int {
    let l = garis(g, tegak, pa);
    let a = jangkar(tegak, pa);
    akhir_lari(l, a) - awal_lari(l, a) + 1
}

/// The run through `pa` along one axis, from its first cell to its last, if
/// it has at least `tk` cells; else nothing.
pub open spec fn lari(g: Seq<Seq<Warna>>, tegak: bool, pa: Posisi, tk: usize) -> Seq<Posisi> {
    let l = garis(g, tegak, pa);
    let a = jangkar(tegak, pa);
    if panjang_lari(g, tegak, pa) >= tk {
        Seq::new(panjang_lari(g, tegak, pa) as nat, |k: int| titik(tegak, pa, awal_lari(l, a) + k))
    } else {
        Seq::empty()
    }
}

/// `s` without every occurrence of `pa`, the rest in their order.
pub open spec fn tanpa(s: Seq<Posisi>, pa: Posisi) -> Seq<Posisi>
    decreases s.len(),
{
    if s.len() == 0 {
        s
    } else if s.last() == pa {
        tanpa(s.drop_last(), pa)
    } else {
        tanpa(s.drop_last(), pa).push(s.last())
    }
}

/// The match at `pa`: the cells of its row run, then those of its column
/// run, each without `pa` itself, and `pa` last. Where neither run reaches
/// `tk` cells there is no match, and `pa` alone is none.
pub open spec fn dempet_di(g: Seq<Seq<Warna>>, pa: Posisi, tk: usize) -> Seq<Posisi> {
    let semua = lari(g, false, pa, tk) + lari(g, true, pa, tk);
    if semua.len() > 0 {
        tanpa(semua, pa).push(pa)
    } else {
        Seq::empty()
    }
}

/// A stretch of equal cells that reaches down to `s` and is bounded there
/// begins at `s`.
pub proof fn lemma_awal(l: Seq<Warna>, a: int, s: int)
    requires
        0 <= s <= a < l.len(),
        forall|k: int| s <= k <= a ==> l[k] == l[a],
        s == 0 || l[s - 1] != l[a],
    ensures
        awal_lari(l, a) == s,
    decreases a - s,
{
    if s < a {
        assert(l[a - 1] == l[a]);
        lemma_awal(l, a - 1, s);
    }
}

/// A stretch of equal cells that reaches up to `e` and is bounded there ends
/// at `e`.
pub proof fn lemma_akhir(l: Seq<Warna>, a: int, e: int)
    requires
        0 <= a <= e < l.len(),
        forall|k: int| a <= k <= e ==> l[k] == l[a],
        e == l.len() - 1 || l[e + 1] != l[a],
    ensures
        akhir_lari(l, a) == e,
    decreases e - a,
{
    if a < e {
        assert(l[a + 1] == l[a]);
        lemma_akhir(l, a + 1, e);
    }
}

/// The run through cell `a` is the largest stretch of the line that holds
/// `a` and only cells of its colour: every cell in it has that colour, and
/// the cell before it and the cell after it, where the line has them, have
/// another.
pub proof fn hukum_lari(l: Seq<Warna>, a: int)
    requires
        0 <= a < l.len(),
    ensures
        0 <= awal_lari(l, a) <= a <= akhir_lari(l, a) < l.len(),
        forall|k: int| awal_lari(l, a) <= k <= akhir_lari(l, a) ==> l[k] == l[a],
        awal_lari(l, a) == 0 || l[awal_lari(l, a) - 1] != l[a],
        akhir_lari(l, a) == l.len() - 1 || l[akhir_lari(l, a) + 1] != l[a],
{
    lemma_awal_sifat(l, a);
    lemma_akhir_sifat(l, a);
}

proof fn lemma_awal_sifat(l: Seq<Warna>, a: int)
    requires
        0 <= a < l.len(),
    ensures
        0 <= awal_lari(l, a) <= a,
        forall|k: int| awal_lari(l, a) <= k <= a ==> l[k] == l[a],
        awal_lari(l, a) == 0 || l[awal_lari(l, a) - 1] != l[a],
    decreases a,
{
    if 0 < a && l[a - 1] == l[a] {
        lemma_awal_sifat(l, a - 1);
    }
}

proof fn lemma_akhir_sifat(l: Seq<Warna>, a: int)
    requires
        0 <= a < l.len(),
    ensures
        a <= akhir_lari(l, a) < l.len(),
        forall|k: int| a <= k <= akhir_lari(l, a) ==> l[k] == l[a],
        akhir_lari(l, a) == l.len() - 1 || l[akhir_lari(l, a) + 1] != l[a],
    decreases l.len() - a,
{
    if a + 1 < l.len() && l[a + 1] == l[a] {
        lemma_akhir_sifat(l, a + 1);
    }
}

/// What `tanpa` keeps: every position of `s` but `pa`. A sequence without
/// repeats stays without repeats and loses one position at most.
pub proof fn lemma_tanpa(s: Seq<Posisi>, pa: Posisi)
    ensures
        forall|q: Posisi| #[trigger] tanpa(s, pa).contains(q) <==> s.contains(q) && q != pa,
        tanpa(s, pa).len() <= s.len(),
        s.no_duplicates() ==> tanpa(s, pa).no_duplicates(),
        s.no_duplicates() ==> tanpa(s, pa).len() == s.len() - if s.contains(pa) {
            1int
        } else {
            0int
        },
    decreases s.len(),
{
    if s.len() > 0 {
        let t = s.drop_last();
        let z = s.last();
        let r = tanpa(s, pa);
        let rt = tanpa(t, pa);
        lemma_tanpa(t, pa);
        assert forall|q: Posisi| #[trigger] r.contains(q) <==> s.contains(q) && q != pa by {
            if r.contains(q) {
                let i = choose|i: int| 0 <= i < r.len() && r[i] == q;
                if z != pa && i == rt.len() {
                    assert(s[s.len() - 1] == q);
                } else {
                    assert(rt[i] == q);
                    assert(rt.contains(q));
                    let j = choose|j: int| 0 <= j < t.len() && t[j] == q;
                    assert(s[j] == q);
                }
            }
            if s.contains(q) && q != pa {
                let j = choose|j: int| 0 <= j < s.len() && s[j] == q;
                if j < t.len() {
                    assert(t[j] == q);
                    assert(rt.contains(q));
                    let i = choose|i: int| 0 <= i < rt.len() && rt[i] == q;
                    assert(r[i] == q);
                } else {
                    assert(r[r.len() - 1] == q);
                }
            }
        }
        if s.no_duplicates() {
            assert(t.no_duplicates());
            assert(!t.contains(z)) by {
                if t.contains(z) {
                    let j = choose|j: int| 0 <= j < t.len() && t[j] == z;
                    assert(s[j] == s[s.len() - 1]);
                }
            }
            assert(!rt.contains(z));
            assert(s.contains(pa) <==> t.contains(pa) || z == pa) by {
                if s.contains(pa) {
                    let j = choose|j: int| 0 <= j < s.len() && s[j] == pa;
                    if j < t.len() {
                        assert(t[j] == pa);
                    }
                }
                if t.contains(pa) {
                    let j = choose|j: int| 0 <= j < t.len() && t[j] == pa;
                    assert(s[j] == pa);
                }
                if z == pa {
                    assert(s[s.len() - 1] == pa);
                }
            }
        }
    }
}

/// `tanpa` goes through a sequence part by part.
pub proof fn lemma_tanpa_sambung(s: Seq<Posisi>, t: Seq<Posisi>, pa: Posisi)
    ensures
        tanpa(s + t, pa) == tanpa(s, pa) + tanpa(t, pa),
    decreases t.len(),
{
    if t.len() == 0 {
        assert(s + t =~= s);
        assert(tanpa(s, pa) + tanpa(t, pa) =~= tanpa(s, pa));
    } else {
        lemma_tanpa_sambung(s, t.drop_last(), pa);
        assert((s + t).drop_last() =~= s + t.drop_last());
        assert((s + t).last() == t.last());
        if t.last() != pa {
            assert(tanpa(s, pa) + tanpa(t, pa) =~= (tanpa(s, pa) + tanpa(t.drop_last(), pa)).push(
                t.last(),
            ));
        }
    }
}

/// The run through `pa` along one axis, on a square grid: it has between one
/// cell and a whole line; what `lari` gives of it holds no position twice,
/// holds `pa` unless it is empty, and holds only cells of the grid that lie
/// on the line through `pa` and have the colour of `pa`.
pub proof fn hukum_lari_papan(g: Seq<Seq<Warna>>, n: int, tegak: bool, pa: Posisi, tk: usize)
    requires
        persegi(g, n),
        n <= usize::MAX,
        di_dalam(g, pa),
    ensures
        1 <= panjang_lari(g, tegak, pa) <= n,
        lari(g, tegak, pa, tk).len() > 0 <==> panjang_lari(g, tegak, pa) >= tk,
        lari(g, tegak, pa, tk).len() > 0 ==> lari(g, tegak, pa, tk).len() == panjang_lari(
            g,
            tegak,
            pa,
        ) && lari(g, tegak, pa, tk).contains(pa),
        lari(g, tegak, pa, tk).no_duplicates(),
        forall|i: int|
            0 <= i < lari(g, tegak, pa, tk).len() ==> {
                let p = #[trigger] lari(g, tegak, pa, tk)[i];
                &&& di_dalam(g, p)
                &&& warna_di(g, p) == warna_di(g, pa)
                &&& if tegak {
                    p.1 == pa.1
                } else {
                    p.0 == pa.0
                }
            },
{
    let l = garis(g, tegak, pa);
    let a = jangkar(tegak, pa);
    let r = lari(g, tegak, pa, tk);
    assert(g[pa.0 as int].len() == n);
    hukum_lari(l, a);
    let lo = awal_lari(l, a);
    if r.len() > 0 {
        assert(r[a - lo] == pa);
    }
    assert forall|i: int| 0 <= i < r.len() implies {
        let p = #[trigger] r[i];
        &&& di_dalam(g, p)
        &&& warna_di(g, p) == warna_di(g, pa)
        &&& if tegak {
            p.1 == pa.1
        } else {
            p.0 == pa.0
        }
    } by {
        assert(l[lo + i] == l[a]);
        assert(g[lo + i].len() == n);
    }
}

/// The match at `pa` on a square grid. There is one exactly where the row
/// run or the column run through `pa` has `tk` cells. It then holds `pa`,
/// last, and the other cells of each run that is long enough, and no
/// position twice: as many positions as those runs have cells, `pa` counted
/// once. Each lies on the grid, in the row or the column of `pa`, and has
/// the colour of `pa`.
pub proof fn hukum_dempet(g: Seq<Seq<Warna>>, n: int, pa: Posisi, tk: usize)
    requires
        persegi(g, n),
        n <= usize::MAX,
        di_dalam(g, pa),
    ensures
        dempet_di(g, pa, tk).len() > 0 <==> panjang_lari(g, false, pa) >= tk || panjang_lari(
            g,
            true,
            pa,
        ) >= tk,
        dempet_di(g, pa, tk).len() > 0 ==> dempet_di(g, pa, tk).last() == pa,
        dempet_di(g, pa, tk).len() > 0 ==> dempet_di(g, pa, tk).len() == 1 + (if panjang_lari(
            g,
            false,
            pa,
        ) >= tk {
            panjang_lari(g, false, pa) - 1
        } else {
            0
        }) + (if panjang_lari(g, true, pa) >= tk {
            panjang_lari(g, true, pa) - 1
        } else {
            0
        }),
        dempet_di(g, pa, tk).no_duplicates(),
        forall|i: int|
            0 <= i < dempet_di(g, pa, tk).len() ==> {
                let p = #[trigger] dempet_di(g, pa, tk)[i];
                &&& di_dalam(g, p)
                &&& warna_di(g, p) == warna_di(g, pa)
                &&& (p.0 == pa.0 || p.1 == pa.1)
            },
{
    let h = lari(g, false, pa, tk);
    let v = lari(g, true, pa, tk);
    let d = dempet_di(g, pa, tk);
    hukum_lari_papan(g, n, false, pa, tk);
    hukum_lari_papan(g, n, true, pa, tk);
    if (h + v).len() > 0 {
        let th = tanpa(h, pa);
        let tv = tanpa(v, pa);
        lemma_tanpa(h, pa);
        lemma_tanpa(v, pa);
        lemma_tanpa_sambung(h, v, pa);
        assert(d == (th + tv).push(pa));
        assert forall|i: int, j: int| 0 <= i < th.len() && 0 <= j < tv.len() implies th[i]
            != tv[j] by {
            assert(th.contains(th[i]));
            assert(tv.contains(tv[j]));
            let x = choose|x: int| 0 <= x < h.len() && h[x] == th[i];
            let y = choose|y: int| 0 <= y < v.len() && v[y] == tv[j];
            assert(h[x].0 == pa.0);
            assert(v[y].1 == pa.1);
        }
        vstd::seq_lib::lemma_no_dup_in_concat(th, tv);
        assert forall|i: int| 0 <= i < (th + tv).len() implies {
            let p = #[trigger] (th + tv)[i];
            &&& p != pa
            &&& di_dalam(g, p)
            &&& warna_di(g, p) == warna_di(g, pa)
            &&& (p.0 == pa.0 || p.1 == pa.1)
        } by {
            let p = (th + tv)[i];
            if i < th.len() {
                assert(th.contains(th[i]));
                let x = choose|x: int| 0 <= x < h.len() && h[x] == p;
                assert(di_dalam(g, h[x]));
            } else {
                assert(tv.contains(tv[i - th.len()]));
                let y = choose|y: int| 0 <= y < v.len() && v[y] == p;
                assert(di_dalam(g, v[y]));
            }
        }
        assert(d.no_duplicates());
        assert forall|i: int| 0 <= i < d.len() implies {
            let p = #[trigger] d[i];
            &&& di_dalam(g, p)
            &&& warna_di(g, p) == warna_di(g, pa)
            &&& (p.0 == pa.0 || p.1 == pa.1)
        } by {
            if i < (th + tv).len() {
                assert(d[i] == (th + tv)[i]);
            }
        }
    }
}

impl Papan {
    /// The colour of cell `k` on the line through `pa`.
    fn warna_garis(&self, tegak: bool, pa: Posisi, k: usize) -> (w: Warna)
        requires
            self.wf(),
            di_dalam(self@, pa),
            k < self.ukuran,
        ensures
            w == garis(self@, tegak, pa)[k as int],
    {
        proof {
            self.lemma_baris();
        }
        if tegak {
            self.isi[k][pa.1].get_warna()
        } else {
            self.isi[pa.0][k].get_warna()
        }
    }

    /// Scans the whole line through `pa` and keeps the run that holds `pa`.
    fn cek_lari(&self, tegak: bool, pa: Posisi, tk: usize) -> (r: Vec<Posisi>)
        requires
            self.wf(),
            di_dalam(self@, pa),
        ensures
            r@ == lari(self@, tegak, pa, tk),
    {
        let ghost l = garis(self@, tegak, pa);
        let ghost a = jangkar(tegak, pa);
        let n = self.ukuran;
        let di = if tegak {
            pa.0
        } else {
            pa.1
        };
        let target = self.warna_garis(tegak, pa, di);
        let mut temp: Vec<Posisi> = Vec::new();
        let mut idx: usize = 0;
        let mut putus = false;
        while idx < n && !putus
            invariant
                self.wf(),
                di_dalam(self@, pa),
                n == self.ukuran,
                l == garis(self@, tegak, pa),
                l.len() == n,
                a == jangkar(tegak, pa),
                di == a,
                0 <= a < n,
                target == l[a],
                idx <= n,
                temp@.len() <= idx,
                forall|k: int| idx - temp@.len() <= k < idx ==> l[k] == target,
                idx - temp@.len() == 0 || l[idx - temp@.len() - 1] != target,
                idx > a ==> idx - temp@.len() <= a,
                forall|j: int|
                    0 <= j < temp@.len() ==> temp@[j] == titik(tegak, pa, idx - temp@.len() + j),
                putus ==> a < idx < n && l[idx as int] != target,
            decreases n - idx + if putus { 0int } else { 1int },
        {
            if self.warna_garis(tegak, pa, idx) == target {
                temp.push(if tegak {
                    (idx, pa.1)
                } else {
                    (pa.0, idx)
                });
                idx += 1;
            } else if idx > di {
                putus = true;
            } else {
                temp = Vec::new();
                idx += 1;
            }
        }
        proof {
            lemma_awal(l, a, idx - temp@.len());
            lemma_akhir(l, a, idx - 1);
        }
        if temp.len() < tk {
            temp = Vec::new();
        }
        assert(temp@ =~= lari(self@, tegak, pa, tk));
        temp
    }

    /// The run of cells of one colour through `pa` along its row, left to
    /// right, if it has at least `tk` cells; else nothing.
    pub fn cek_horizontal(&self, pa: Posisi, tk: usize) -> (r: Result<Vec<Posisi>, Galat>)
        requires
            self.wf(),
        ensures
            di_dalam(self@, pa) ==> r.is_ok() && r.unwrap()@ == lari(self@, false, pa, tk),
            !di_dalam(self@, pa) ==> r.is_err() && r.unwrap_err() == Galat::DiLuarPapan,
    {
        proof {
            self.lemma_baris();
        }
        if !(pa.0 < self.ukuran && pa.1 < self.ukuran) {
            return Err(Galat::DiLuarPapan);
        }
        Ok(self.cek_lari(false, pa, tk))
    }

    /// The run of cells of one colour through `pa` along its column, top to
    /// bottom, if it has at least `tk` cells; else nothing.
    pub fn cek_vertikal(&self, pa: Posisi, tk: usize) -> (r: Result<Vec<Posisi>, Galat>)
        requires
            self.wf(),
        ensures
            di_dalam(self@, pa) ==> r.is_ok() && r.unwrap()@ == lari(self@, true, pa, tk),
            !di_dalam(self@, pa) ==> r.is_err() && r.unwrap_err() == Galat::DiLuarPapan,
    {
        proof {
            self.lemma_baris();
        }
        if !(pa.0 < self.ukuran && pa.1 < self.ukuran) {
            return Err(Galat::DiLuarPapan);
        }
        Ok(self.cek_lari(true, pa, tk))
    }

    /// The match at `pa`: its row run and its column run of at least `tk`
    /// cells, joined, with `pa` once and last.
    pub fn cek_dempet(&self, pa: Posisi, tk: usize) -> (r: Result<Vec<Posisi>, Galat>)
        requires
            self.wf(),
        ensures
            di_dalam(self@, pa) ==> r.is_ok() && r.unwrap()@ == dempet_di(self@, pa, tk),
            !di_dalam(self@, pa) ==> r.is_err() && r.unwrap_err() == Galat::DiLuarPapan,
    {
        proof {
            self.lemma_baris();
        }
        if !(pa.0 < self.ukuran && pa.1 < self.ukuran) {
            return Err(Galat::DiLuarPapan);
        }
        let mut temp_xy = self.cek_lari(false, pa, tk);
        let mut temp_y = self.cek_lari(true, pa, tk);
        temp_xy.append(&mut temp_y);
        let mut pd: Vec<Posisi> = Vec::new();
        if temp_xy.len() > 0 {
            let mut i: usize = 0;
            while i < temp_xy.len()
                invariant
                    i <= temp_xy@.len(),
                    pd@ == tanpa(temp_xy@.take(i as int), pa),
                decreases temp_xy@.len() - i,
            {
                let pos = temp_xy[i];
                assert(temp_xy@.take(i + 1).drop_last() =~= temp_xy@.take(i as int));
                if !(pos.0 == pa.0 && pos.1 == pa.1) {
                    pd.push(pos);
                }
                i += 1;
            }
            assert(temp_xy@.take(i as int) =~= temp_xy@);
            pd.push(pa);
        }
        Ok(pd)
    }
}

} // verus!
