//! The palette: seven colours, numbered 0 to 6.

use crate::acak::undi;
use rand::rngs::ThreadRng;
use vstd::prelude::*;

verus! {

/// How many colours there are.
pub const RAGAM: u8 = 7;

/// The colour of a piece.
#[derive(Debug, Clone, Copy, PartialEq, Eq, Structural)]
pub enum Warna {
    Merah,
    Jingga,
    Kuning,
    Hijau,
    Biru,
    Nila,
    Ungu,
}

impl Warna {
    /// The colour's place in the palette.
    pub open spec fn spec_nomor(self) -> int {
        match self {
            Warna::Merah => 0,
            Warna::Jingga => 1,
            Warna::Kuning => 2,
            Warna::Hijau => 3,
            Warna::Biru => 4,
            Warna::Nila => 5,
            Warna::Ungu => 6,
        }
    }

    /// The colour at place `n`; every `n` past the palette gives the last colour.
    pub open spec fn spec_dari_nomor(n: int) -> Warna {
        if n == 0 {
            Warna::Merah
        } else if n == 1 {
            Warna::Jingga
        } else if n == 2 {
            Warna::Kuning
        } else if n == 3 {
            Warna::Hijau
        } else if n == 4 {
            Warna::Biru
        } else if n == 5 {
            Warna::Nila
        } else {
            Warna::Ungu
        }
    }

    /// The glyph that stands for the colour in a rendering of the board.
    pub open spec fn spec_lambang(self) -> Seq<char> {
        match self {
            Warna::Merah => seq!['🟥'],
            Warna::Jingga => seq!['🟧'],
            Warna::Kuning => seq!['🟨'],
            Warna::Hijau => seq!['🟩'],
            Warna::Biru => seq!['🟦'],
            Warna::Nila => seq!['🟫'],
            Warna::Ungu => seq!['🟪'],
        }
    }

    pub fn nomor(self) -> (n: u8)
        ensures
            n == self.spec_nomor(),
            n < RAGAM,
    {
        match self {
            Warna::Merah => 0,
            Warna::Jingga => 1,
            Warna::Kuning => 2,
            Warna::Hijau => 3,
            Warna::Biru => 4,
            Warna::Nila => 5,
            Warna::Ungu => 6,
        }
    }

    pub fn dari_nomor(n: u8) -> (w: Warna)
        ensures
            w == Warna::spec_dari_nomor(n as int),
            n < RAGAM ==> w.spec_nomor() == n,
    {
        match n {
            0 => Warna::Merah,
            1 => Warna::Jingga,
            2 => Warna::Kuning,
            3 => Warna::Hijau,
            4 => Warna::Biru,
            5 => Warna::Nila,
            _ => Warna::Ungu,
        }
    }

    /// Another colour than `self`: the one that stands one place further
    /// round the palette, and then as many places more as `geser` leaves
    /// when divided by six.
    pub open spec fn spec_lain(self, geser: int) -> Warna {
        Warna::spec_dari_nomor((self.spec_nomor() + 1 + geser % (RAGAM - 1)) % (RAGAM as int))
    }

    /// Another colour than `self`, chosen by `geser`: each of the six others
    /// for exactly one `geser` below six.
    pub fn lain(self, geser: u8) -> (w: Warna)
        ensures
            w == self.spec_lain(geser as int),
            w != self,
    {
        Warna::dari_nomor((self.nomor() + 1 + geser % (RAGAM - 1)) % RAGAM)
    }

    /// A colour drawn from `rng`, each of the seven with the same chance.
    pub fn acak_dari(rng: &mut ThreadRng) -> Warna {
        Warna::dari_nomor(undi(rng, RAGAM))
    }

    /// A colour drawn from the thread's generator.
    pub fn acak() -> Warna {
        let mut rng = rand::thread_rng();
        Warna::acak_dari(&mut rng)
    }

    pub fn lambang(self) -> (s: &'static str)
        ensures
            s@ == self.spec_lambang(),
    {
        match self {
            Warna::Merah => {
                proof { reveal_strlit("🟥"); }
                "🟥"
            },
            Warna::Jingga => {
                proof { reveal_strlit("🟧"); }
                "🟧"
            },
            Warna::Kuning => {
                proof { reveal_strlit("🟨"); }
                "🟨"
            },
            Warna::Hijau => {
                proof { reveal_strlit("🟩"); }
                "🟩"
            },
            Warna::Biru => {
                proof { reveal_strlit("🟦"); }
                "🟦"
            },
            Warna::Nila => {
                proof { reveal_strlit("🟫"); }
                "🟫"
            },
            Warna::Ungu => {
                proof { reveal_strlit("🟪"); }
                "🟪"
            },
        }
    }
}

/// Every colour has a place in the palette and is the colour at that place;
/// two colours with the same place are the same colour.
pub proof fn hukum_nomor(a: Warna, b: Warna)
    ensures
        0 <= a.spec_nomor() < RAGAM,
        Warna::spec_dari_nomor(a.spec_nomor()) == a,
        a.spec_nomor() == b.spec_nomor() ==> a == b,
{
}

proof fn lemma_lain(a: Warna, geser: int)
    ensures
        a.spec_lain(geser) != a,
        a.spec_lain(geser).spec_nomor() == (a.spec_nomor() + 1 + geser % 6) % 7,
{
    let sisa = geser % 6;
    let n = (a.spec_nomor() + 1 + sisa) % 7;
    assert(0 <= sisa < 6);
    assert(0 <= n < 7);
    assert(n != a.spec_nomor());
    assert(Warna::spec_dari_nomor(n).spec_nomor() == n);
}

proof fn lemma_lain_capai(a: Warna, b: Warna) -> (geser: int)
    requires
        a != b,
    ensures
        0 <= geser < 6,
        a.spec_lain(geser) == b,
{
    let geser = if b.spec_nomor() > a.spec_nomor() {
        b.spec_nomor() - a.spec_nomor() - 1
    } else {
        b.spec_nomor() - a.spec_nomor() + 6
    };
    lemma_lain(a, geser);
    hukum_nomor(a.spec_lain(geser), b);
    geser
}

proof fn lemma_lain_satu(a: Warna, g1: int, g2: int)
    requires
        0 <= g1 < 6,
        0 <= g2 < 6,
        a.spec_lain(g1) == a.spec_lain(g2),
    ensures
        g1 == g2,
{
    lemma_lain(a, g1);
    lemma_lain(a, g2);
    let n = a.spec_nomor();
    assert((n + 1 + g1) % 7 == (n + 1 + g2) % 7);
    assert((n + 1 + g1) % 7 == if n + 1 + g1 >= 7 {
        n + 1 + g1 - 7
    } else {
        n + 1 + g1
    });
    assert((n + 1 + g2) % 7 == if n + 1 + g2 >= 7 {
        n + 1 + g2 - 7
    } else {
        n + 1 + g2
    });
}

/// Rolling on from a colour never gives the colour itself, and reaches each
/// other colour by exactly one shift below six.
pub proof fn hukum_lain(a: Warna, b: Warna)
    ensures
        forall|geser: int| #[trigger] a.spec_lain(geser) != a,
        a != b ==> exists|geser: int| 0 <= geser < RAGAM - 1 && #[trigger] a.spec_lain(geser) == b,
        forall|g1: int, g2: int|
            0 <= g1 < RAGAM - 1 && 0 <= g2 < RAGAM - 1 && #[trigger] a.spec_lain(g1)
                == #[trigger] a.spec_lain(g2) ==> g1 == g2,
{
    assert forall|geser: int| #[trigger] a.spec_lain(geser) != a by {
        lemma_lain(a, geser);
    }
    if a != b {
        let geser = lemma_lain_capai(a, b);
    }
    assert forall|g1: int, g2: int|
        0 <= g1 < RAGAM - 1 && 0 <= g2 < RAGAM - 1 && #[trigger] a.spec_lain(g1)
            == #[trigger] a.spec_lain(g2) implies g1 == g2 by {
        lemma_lain_satu(a, g1, g2);
    }
}

} // verus!
