//! Text for the host: the board as lines of glyphs, and lists of positions.

use crate::papan::{Papan, Posisi};
use crate::warna::Warna;
use vstd::prelude::*;

verus! {

/// The character for a digit.
pub open spec fn angka(d: int) -> char {
    if d == 0 {
        '0'
    } else if d == 1 {
        '1'
    } else if d == 2 {
        '2'
    } else if d == 3 {
        '3'
    } else if d == 4 {
        '4'
    } else if d == 5 {
        '5'
    } else if d == 6 {
        '6'
    } else if d == 7 {
        '7'
    } else if d == 8 {
        '8'
    } else {
        '9'
    }
}

/// A number in decimal digits, without leading zeros.
pub open spec fn desimal(n: nat) -> Seq<char>
    decreases n,
{
    if n < 10 {
        seq![angka(n as int)]
    } else {
        desimal(n / 10).push(angka((n % 10) as int))
    }
}

/// One position as text: row, a colon, column, and a space after it.
pub open spec fn teks_satu(pos: Posisi) -> Seq<char> {
    desimal(pos.0 as nat) + seq![':'] + desimal(pos.1 as nat) + seq![' ']
}

/// A list of positions as text, each written as `teks_satu` does.
pub open spec fn teks_posisi(s: Seq<Posisi>) -> Seq<char>
    decreases s.len(),
{
    if s.len() == 0 {
        Seq::empty()
    } else {
        teks_posisi(s.drop_last()) + teks_satu(s.last())
    }
}

/// The first `x` cells of a row as text: for each its glyph and a space.
pub open spec fn teks_baris(baris: Seq<Warna>, x: int) -> Seq<char>
    decreases x,
{
    if x <= 0 {
        Seq::empty()
    } else {
        teks_baris(baris, x - 1) + baris[x - 1].spec_lambang() + seq![' ']
    }
}

/// The first `y` rows of a grid as text: each row whole, then a line feed.
pub open spec fn teks_petak(g: Seq<Seq<Warna>>, y: int) -> Seq<char>
    decreases y,
{
    if y <= 0 {
        Seq::empty()
    } else {
        teks_petak(g, y - 1) + teks_baris(g[y - 1], g[y - 1].len() as int) + seq!['\n']
    }
}

fn huruf_angka(d: usize) -> (s: &'static str)
    requires
        d < 10,
    ensures
        s@ == seq![angka(d as int)],
{
    proof {
        reveal_strlit("0");
        reveal_strlit("1");
        reveal_strlit("2");
        reveal_strlit("3");
        reveal_strlit("4");
        reveal_strlit("5");
        reveal_strlit("6");
        reveal_strlit("7");
        reveal_strlit("8");
        reveal_strlit("9");
    }
    let s = match d {
        0 => "0",
        1 => "1",
        2 => "2",
        3 => "3",
        4 => "4",
        5 => "5",
        6 => "6",
        7 => "7",
        8 => "8",
        _ => "9",
    };
    assert(s@ =~= seq![angka(d as int)]);
    s
}

/// Appends `n` in decimal to `teks`.
pub fn tulis_desimal(teks: &mut String, n: usize)
    ensures
        final(teks)@ == old(teks)@ + desimal(n as nat),
    decreases n,
{
    if n >= 10 {
        tulis_desimal(teks, n / 10);
    }
    teks.append(huruf_angka(n % 10));
    assert(teks@ =~= old(teks)@ + desimal(n as nat));
}

/// The positions as text, in their order: `row:column` and a space for each.
pub fn tulis_posisi(vektor: &Vec<Posisi>) -> (teks: String)
    ensures
        teks@ == teks_posisi(vektor@),
{
    let mut teks = String::new();
    let mut i: usize = 0;
    while i < vektor.len()
        invariant
            i <= vektor@.len(),
            teks@ == teks_posisi(vektor@.take(i as int)),
        decreases vektor@.len() - i,
    {
        let pos = vektor[i];
        let ghost lama = teks@;
        proof {
            reveal_strlit(":");
            reveal_strlit(" ");
        }
        tulis_desimal(&mut teks, pos.0);
        teks.append(":");
        tulis_desimal(&mut teks, pos.1);
        teks.append(" ");
        assert(vektor@.take(i + 1).drop_last() =~= vektor@.take(i as int));
        assert(teks@ =~= lama + teks_satu(pos));
        i += 1;
    }
    assert(vektor@.take(i as int) =~= vektor@);
    teks
}

impl Papan {
    /// The board as text: one line for each row, and in it, for each cell,
    /// the glyph of its colour and a space.
    pub fn teks(&self) -> (teks: String)
        ensures
            teks@ == teks_petak(self@, self@.len() as int),
    {
        let mut teks = String::new();
        let mut y: usize = 0;
        while y < self.isi.len()
            invariant
                y <= self.isi@.len(),
                teks@ == teks_petak(self@, y as int),
            decreases self.isi@.len() - y,
        {
            let ghost awal = teks@;
            let mut x: usize = 0;
            while x < self.isi[y].len()
                invariant
                    y < self.isi@.len(),
                    x <= self.isi@[y as int]@.len(),
                    teks@ == awal + teks_baris(self@[y as int], x as int),
                decreases self.isi@[y as int]@.len() - x,
            {
                let ghost lama = teks@;
                proof {
                    reveal_strlit(" ");
                }
                teks.append(self.isi[y][x].get_warna().lambang());
                teks.append(" ");
                assert(teks@ =~= awal + teks_baris(self@[y as int], x + 1));
                x += 1;
            }
            proof {
                reveal_strlit("\n");
            }
            teks.append("\n");
            assert(teks@ =~= teks_petak(self@, y + 1));
            y += 1;
        }
        teks
    }
}

} // verus!
