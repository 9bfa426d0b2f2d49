//! The match set: positions found to lie in a match, each at most once, in
//! the order in which they came, until `urutkan` puts them in order of rows.

use crate::papan::Posisi;
use vstd::prelude::*;

verus! {

/// `s` with `pos` at its end, unless `s` holds `pos` already.
pub open spec fn tambah_satu(s: Seq<Posisi>, pos: Posisi) -> Seq<Posisi> {
    if s.contains(pos) {
        s
    } else {
        s.push(pos)
    }
}

/// `s` after the positions of `baru` have been added to it one by one.
pub open spec fn tambah_semua(s: Seq<Posisi>, baru: Seq<Posisi>) -> Seq<Posisi>
    decreases baru.len(),
{
    if baru.len() == 0 {
        s
    } else {
        tambah_satu(tambah_semua(s, baru.drop_last()), baru.last())
    }
}

/// `s`, in order of rows, with `pos` put in behind every position whose row
/// is not below the row of `pos`.
pub open spec fn sisip(s: Seq<Posisi>, pos: Posisi) -> Seq<Posisi>
    decreases s.len(),
{
    if s.len() == 0 {
        seq![pos]
    } else if s.last().0 <= pos.0 {
        s.push(pos)
    } else {
        sisip(s.drop_last(), pos).push(s.last())
    }
}

/// `s` in order of rows, upper rows first; positions of one row keep the
/// order they have in `s`.
pub open spec fn urut(s: Seq<Posisi>) -> Seq<Posisi>
    decreases s.len(),
{
    if s.len() == 0 {
        s
    } else {
        sisip(urut(s.drop_last()), s.last())
    }
}

/// The rows of `s` never go up: each position lies in the row of the one
/// before it or in a lower one.
pub open spec fn naik(s: Seq<Posisi>) -> bool {
    forall|i: int, j: int| 0 <= i < j < s.len() ==> (#[trigger] s[i]).0 <= (#[trigger] s[j]).0
}

/// The positions of `s` that lie in row `b`, in their order.
pub open spec fn sebaris(s: Seq<Posisi>, b: usize) -> Seq<Posisi>
    decreases s.len(),
{
    if s.len() == 0 {
        s
    } else if s.last().0 == b {
        sebaris(s.drop_last(), b).push(s.last())
    } else {
        sebaris(s.drop_last(), b)
    }
}

/// The lowest row that a position of `s` lies in: the largest row number.
pub open spec fn baris_terbawah(s: Seq<Posisi>) -> usize
    decreases s.len(),
{
    if s.len() == 0 {
        0
    } else if s.len() > 1 && baris_terbawah(s.drop_last()) >= s.last().0 {
        baris_terbawah(s.drop_last())
    } else {
        s.last().0
    }
}

/// The leftmost column that a position of `s` lies in.
pub open spec fn kolom_terkiri(s: Seq<Posisi>) -> usize
    decreases s.len(),
{
    if s.len() == 0 {
        0
    } else if s.len() > 1 && kolom_terkiri(s.drop_last()) <= s.last().1 {
        kolom_terkiri(s.drop_last())
    } else {
        s.last().1
    }
}

/// The rightmost column that a position of `s` lies in.
pub open spec fn kolom_terkanan(s: Seq<Posisi>) -> usize
    decreases s.len(),
{
    if s.len() == 0 {
        0
    } else if s.len() > 1 && kolom_terkanan(s.drop_last()) >= s.last().1 {
        kolom_terkanan(s.drop_last())
    } else {
        s.last().1
    }
}

/// Where to look again after the positions of `s` were crushed: in the
/// lowest row of `s`, one position for each column from its leftmost to its
/// rightmost, left to right. Nothing where `s` is empty.
pub open spec fn titik_periksa(s: Seq<Posisi>) -> Seq<Posisi> {
    if s.len() == 0 {
        Seq::empty()
    } else {
        Seq::new(
            (kolom_terkanan(s) - kolom_terkiri(s) + 1) as nat,
            |k: int| (baris_terbawah(s), (kolom_terkiri(s) + k) as usize),
        )
    }
}

/// A match set.
#[derive(Debug)]
pub struct Dempet {
    /// The positions, in the order in which they stand.
    pub vektor: Vec<Posisi>,
}

impl View for Dempet {
    type V = Seq<Posisi>;

    open spec fn view(&self) -> Seq<Posisi> {
        self.vektor@
    }
}

impl Dempet {
    /// No position is held twice.
    pub open spec fn wf(&self) -> bool {
        self@.no_duplicates()
    }

    pub fn new() -> (dempet: Dempet)
        ensures
            dempet@ == Seq::<Posisi>::empty(),
            dempet.wf(),
    {
        Dempet { vektor: Vec::new() }
    }

    /// Whether `pos` is in the set.
    pub fn memuat(&self, pos: Posisi) -> (ada: bool)
        ensures
            ada == self@.contains(pos),
    {
        let mut i: usize = 0;
        while i < self.vektor.len()
            invariant
                i <= self@.len(),
                forall|k: int| 0 <= k < i ==> self@[k] != pos,
            decreases self@.len() - i,
        {
            let tup = self.vektor[i];
            if tup.0 == pos.0 && tup.1 == pos.1 {
                return true;
            }
            i += 1;
        }
        false
    }

    /// Adds `pos` at the end, unless the set holds it already.
    pub fn tambah(&mut self, pos: Posisi) -> (r: &mut Self)
        ensures
            r@ == tambah_satu(old(self)@, pos),
            old(self).wf() ==> r.wf(),
            *final(self) == *final(r),
    {
        if self.memuat(pos) {
            return self;
        }
        self.vektor.push(pos);
        self
    }

    /// Adds the positions of `vektor` in their order, each unless the set
    /// holds it already.
    pub fn tambah_vek(&mut self, vektor: Vec<Posisi>) -> (r: &mut Self)
        ensures
            r@ == tambah_semua(old(self)@, vektor@),
            old(self).wf() ==> r.wf(),
            *final(self) == *final(r),
    {
        let mut i: usize = 0;
        while i < vektor.len()
            invariant
                i <= vektor@.len(),
                self@ == tambah_semua(old(self)@, vektor@.take(i as int)),
                old(self).wf() ==> self.wf(),
            decreases vektor@.len() - i,
        {
            assert(vektor@.take(i + 1).drop_last() =~= vektor@.take(i as int));
            self.tambah(vektor[i]);
            i += 1;
        }
        assert(vektor@.take(i as int) =~= vektor@);
        self
    }

    /// Puts the positions in order of rows, upper rows first. Positions of
    /// one row keep their order.
    pub fn urutkan(&mut self) -> (r: &mut Self)
        ensures
            r@ == urut(old(self)@),
            old(self).wf() ==> r.wf(),
            *final(self) == *final(r),
    {
        proof {
            hukum_urut(self@);
        }
        let mut hasil: Vec<Posisi> = Vec::new();
        let mut i: usize = 0;
        while i < self.vektor.len()
            invariant
                i <= self@.len(),
                self@ == old(self)@,
                hasil@ == urut(self@.take(i as int)),
            decreases self@.len() - i,
        {
            let pos = self.vektor[i];
            let mut di: usize = hasil.len();
            while di > 0 && hasil[di - 1].0 > pos.0
                invariant
                    di <= hasil@.len(),
                    forall|k: int| di <= k < hasil@.len() ==> hasil@[k].0 > pos.0,
                decreases di,
            {
                di -= 1;
            }
            proof {
                lemma_sisip(hasil@, pos, di as int);
                assert(self@.take(i + 1).drop_last() =~= self@.take(i as int));
            }
            hasil.insert(di, pos);
            i += 1;
        }
        assert(self@.take(i as int) =~= self@);
        self.vektor = hasil;
        self
    }

    /// Empties the set.
    pub fn kosongkan(&mut self) -> (r: &mut Self)
        ensures
            r@ == Seq::<Posisi>::empty(),
            r.wf(),
            *final(self) == *final(r),
    {
        self.vektor = Vec::new();
        self
    }

    /// How many positions the set holds.
    pub fn len(&self) -> (n: usize)
        ensures
            n == self@.len(),
    {
        self.vektor.len()
    }

    /// The positions from which to look for new matches once the positions
    /// of the set have been crushed: see `titik_periksa`.
    pub fn kolom_berubah(&self) -> (r: Vec<Posisi>)
        requires
            kolom_terkanan(self@) - kolom_terkiri(self@) < usize::MAX,
        ensures
            r@ == titik_periksa(self@),
    {
        if self.vektor.len() == 0 {
            return Vec::new();
        }
        let mut maks_y: usize = self.vektor[0].0;
        let mut min_x: usize = self.vektor[0].1;
        let mut maks_x: usize = self.vektor[0].1;
        assert(self@.take(1).drop_last() =~= self@.take(0));
        let mut i: usize = 1;
        while i < self.vektor.len()
            invariant
                1 <= i <= self@.len(),
                maks_y == baris_terbawah(self@.take(i as int)),
                min_x == kolom_terkiri(self@.take(i as int)),
                maks_x == kolom_terkanan(self@.take(i as int)),
            decreases self@.len() - i,
        {
            let vek = self.vektor[i];
            assert(self@.take(i + 1).drop_last() =~= self@.take(i as int));
            if vek.0 > maks_y {
                maks_y = vek.0;
            }
            if vek.1 > maks_x {
                maks_x = vek.1;
            }
            if vek.1 < min_x {
                min_x = vek.1;
            }
            i += 1;
        }
        assert(self@.take(i as int) =~= self@);
        proof {
            hukum_titik_periksa(self@);
        }
        let jumlah: usize = maks_x - min_x + 1;
        let mut hasil: Vec<Posisi> = Vec::new();
        let mut k: usize = 0;
        while k < jumlah
            invariant
                k <= jumlah,
                jumlah == maks_x - min_x + 1,
                hasil@.len() == k,
                forall|j: int| 0 <= j < k ==> hasil@[j] == (maks_y, (min_x + j) as usize),
            decreases jumlah - k,
        {
            hasil.push((maks_y, min_x + k));
            k += 1;
        }
        assert(hasil@ =~= titik_periksa(self@));
        hasil
    }
}

/// Putting `pos` in by `sisip` is putting it in at `di`, where `di` is the
/// place behind which every row is below the row of `pos`, and before which
/// stands a row that is not.
pub proof fn lemma_sisip(s: Seq<Posisi>, pos: Posisi, di: int)
    requires
        0 <= di <= s.len(),
        forall|k: int| di <= k < s.len() ==> s[k].0 > pos.0,
        di == 0 || s[di - 1].0 <= pos.0,
    ensures
        sisip(s, pos) == s.insert(di, pos),
    decreases s.len(),
{
    if s.len() == 0 {
        assert(s.insert(di, pos) =~= seq![pos]);
    } else if di == s.len() {
        assert(s.insert(di, pos) =~= s.push(pos));
    } else {
        lemma_sisip(s.drop_last(), pos, di);
        assert(s.insert(di, pos) =~= s.drop_last().insert(di, pos).push(s.last()));
    }
}

/// Adding positions one by one keeps what was there, in its place, and adds
/// behind it each new position once: the result holds exactly the positions
/// of both, and none twice if `s` held none twice.
pub proof fn hukum_tambah(s: Seq<Posisi>, baru: Seq<Posisi>)
    ensures
        s.len() <= tambah_semua(s, baru).len() <= s.len() + baru.len(),
        tambah_semua(s, baru).take(s.len() as int) == s,
        forall|p: Posisi|
            #[trigger] tambah_semua(s, baru).contains(p) <==> s.contains(p) || baru.contains(p),
        s.no_duplicates() ==> tambah_semua(s, baru).no_duplicates(),
    decreases baru.len(),
{
    let r = tambah_semua(s, baru);
    if baru.len() == 0 {
        assert(r.take(s.len() as int) =~= s);
    } else {
        let t = baru.drop_last();
        let z = baru.last();
        let rt = tambah_semua(s, t);
        hukum_tambah(s, t);
        assert(r.take(s.len() as int) =~= rt.take(s.len() as int));
        assert forall|p: Posisi| #[trigger] r.contains(p) <==> s.contains(p) || baru.contains(
            p,
        ) by {
            if r.contains(p) {
                let k = choose|k: int| 0 <= k < r.len() && r[k] == p;
                if k < rt.len() {
                    assert(rt[k] == p);
                    assert(rt.contains(p));
                    if t.contains(p) {
                        let j = choose|j: int| 0 <= j < t.len() && t[j] == p;
                        assert(baru[j] == p);
                    }
                } else {
                    assert(baru[baru.len() - 1] == p);
                }
            }
            if s.contains(p) || baru.contains(p) {
                if baru.contains(p) && !s.contains(p) {
                    let j = choose|j: int| 0 <= j < baru.len() && baru[j] == p;
                    if j < t.len() {
                        assert(t[j] == p);
                    }
                }
                if p == z {
                    if !rt.contains(z) {
                        assert(r[r.len() - 1] == p);
                    }
                } else {
                    assert(rt.contains(p));
                    let k = choose|k: int| 0 <= k < rt.len() && rt[k] == p;
                    assert(r[k] == p);
                }
            }
        }
    }
}

proof fn lemma_sisip_sifat(s: Seq<Posisi>, pos: Posisi)
    ensures
        sisip(s, pos).len() == s.len() + 1,
        sisip(s, pos).to_multiset() == s.to_multiset().insert(pos),
        forall|i: int|
            0 <= i < sisip(s, pos).len() ==> (#[trigger] sisip(s, pos)[i]) == pos || s.contains(
                sisip(s, pos)[i],
            ),
        naik(s) ==> naik(sisip(s, pos)),
        forall|b: usize|
            #[trigger] sebaris(sisip(s, pos), b) == if pos.0 == b {
                sebaris(s, b).push(pos)
            } else {
                sebaris(s, b)
            },
    decreases s.len(),
{
    let r = sisip(s, pos);
    if s.len() == 0 {
        assert(seq![pos] =~= s.push(pos));
        vstd::seq_lib::to_multiset_build(s, pos);
        assert(r.drop_last() =~= s);
    } else if s.last().0 <= pos.0 {
        vstd::seq_lib::to_multiset_build(s, pos);
        assert(r.drop_last() =~= s);
        assert forall|i: int| 0 <= i < r.len() implies (#[trigger] r[i]) == pos || s.contains(
            r[i],
        ) by {
            if i < s.len() {
                assert(s[i] == r[i]);
            }
        }
    } else {
        let t = s.drop_last();
        let z = s.last();
        let rt = sisip(t, pos);
        lemma_sisip_sifat(t, pos);
        assert(s =~= t.push(z));
        vstd::seq_lib::to_multiset_build(t, z);
        vstd::seq_lib::to_multiset_build(rt, z);
        assert(r.to_multiset() =~= s.to_multiset().insert(pos));
        assert(r.drop_last() =~= rt);
        assert(r.last() == z);
        assert forall|b: usize|
            #[trigger] sebaris(r, b) == if pos.0 == b {
                sebaris(s, b).push(pos)
            } else {
                sebaris(s, b)
            } by {
            assert(sebaris(rt, b) == if pos.0 == b {
                sebaris(t, b).push(pos)
            } else {
                sebaris(t, b)
            });
            if z.0 == b {
                assert(sebaris(r, b) == sebaris(rt, b).push(z));
                assert(sebaris(s, b) == sebaris(t, b).push(z));
            } else {
                assert(sebaris(r, b) == sebaris(rt, b));
                assert(sebaris(s, b) == sebaris(t, b));
            }
        }
        assert forall|i: int| 0 <= i < r.len() implies (#[trigger] r[i]) == pos || s.contains(
            r[i],
        ) by {
            if i < rt.len() {
                assert(r[i] == rt[i]);
                if rt[i] != pos {
                    let k = choose|k: int| 0 <= k < t.len() && t[k] == rt[i];
                    assert(s[k] == r[i]);
                }
            } else {
                assert(s[s.len() - 1] == r[i]);
            }
        }
        if naik(s) {
            assert(naik(t)) by {
                assert forall|i: int, j: int| 0 <= i < j < t.len() implies (#[trigger] t[i]).0 <= (
                #[trigger] t[j]).0 by {
                    assert(s[i].0 <= s[j].0);
                }
            }
            assert forall|i: int, j: int| 0 <= i < j < r.len() implies (#[trigger] r[i]).0 <= (
            #[trigger] r[j]).0 by {
                if j < rt.len() {
                    assert(rt[i].0 <= rt[j].0);
                } else {
                    assert(r[i] == rt[i]);
                    if rt[i] != pos {
                        let k = choose|k: int| 0 <= k < t.len() && t[k] == rt[i];
                        assert(s[k].0 <= s[s.len() - 1].0);
                    }
                }
            }
        }
    }
}

/// What `urut` gives: the positions of `s`, each as often as `s` holds it,
/// with rows that never go up, and within each row in the order of `s`.
pub proof fn hukum_urut(s: Seq<Posisi>)
    ensures
        urut(s).len() == s.len(),
        urut(s).to_multiset() == s.to_multiset(),
        naik(urut(s)),
        forall|b: usize| #[trigger] sebaris(urut(s), b) == sebaris(s, b),
        forall|p: Posisi| #[trigger] urut(s).contains(p) <==> s.contains(p),
        s.no_duplicates() ==> urut(s).no_duplicates(),
    decreases s.len(),
{
    if s.len() > 0 {
        let t = s.drop_last();
        hukum_urut(t);
        lemma_sisip_sifat(urut(t), s.last());
        assert(s =~= t.push(s.last()));
        vstd::seq_lib::to_multiset_build(t, s.last());
    }
    assert forall|p: Posisi| #[trigger] urut(s).contains(p) <==> s.contains(p) by {
        vstd::seq_lib::to_multiset_contains(urut(s), p);
        vstd::seq_lib::to_multiset_contains(s, p);
    }
    if s.no_duplicates() {
        s.lemma_multiset_has_no_duplicates();
        urut(s).lemma_multiset_has_no_duplicates_conv();
    }
}

/// The lowest row, the leftmost column and the rightmost column of a set
/// that is not empty are each reached by one of its positions and bound all
/// of them.
pub proof fn hukum_titik_periksa(s: Seq<Posisi>)
    requires
        s.len() > 0,
    ensures
        forall|i: int| 0 <= i < s.len() ==> (#[trigger] s[i]).0 <= baris_terbawah(s),
        forall|i: int|
            0 <= i < s.len() ==> kolom_terkiri(s) <= (#[trigger] s[i]).1 <= kolom_terkanan(s),
        exists|i: int| 0 <= i < s.len() && (#[trigger] s[i]).0 == baris_terbawah(s),
        exists|i: int| 0 <= i < s.len() && (#[trigger] s[i]).1 == kolom_terkiri(s),
        exists|i: int| 0 <= i < s.len() && (#[trigger] s[i]).1 == kolom_terkanan(s),
    decreases s.len(),
{
    let t = s.drop_last();
    let z = s.len() - 1;
    if s.len() > 1 {
        hukum_titik_periksa(t);
        let a = choose|i: int| 0 <= i < t.len() && (#[trigger] t[i]).0 == baris_terbawah(t);
        let b = choose|i: int| 0 <= i < t.len() && (#[trigger] t[i]).1 == kolom_terkiri(t);
        let c = choose|i: int| 0 <= i < t.len() && (#[trigger] t[i]).1 == kolom_terkanan(t);
        assert(s[a] == t[a] && s[b] == t[b] && s[c] == t[c]);
        assert(s[z].0 == s.last().0);
        assert forall|i: int| 0 <= i < s.len() implies (#[trigger] s[i]).0 <= baris_terbawah(
            s,
        ) by {
            if i < z {
                assert(s[i] == t[i]);
            }
        }
        assert forall|i: int| 0 <= i < s.len() implies kolom_terkiri(s) <= (#[trigger] s[i]).1
            <= kolom_terkanan(s) by {
            if i < z {
                assert(s[i] == t[i]);
            }
        }
        assert(s[if baris_terbawah(t) >= s.last().0 { a } else { z }].0 == baris_terbawah(s));
        assert(s[if kolom_terkiri(t) <= s.last().1 { b } else { z }].1 == kolom_terkiri(s));
        assert(s[if kolom_terkanan(t) >= s.last().1 { c } else { z }].1 == kolom_terkanan(s));
    } else {
        assert(s[0] == s.last());
    }
}

} // verus!
