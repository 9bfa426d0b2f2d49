use permen_remuk::dempet::Dempet;
use permen_remuk::papan::{Galat, Papan};
use permen_remuk::permen::Permen;
use permen_remuk::riam::BATAS_RIAM;
use permen_remuk::warna::Warna;

/// A board on which no two neighbours share a colour.
fn papan_polos(ukuran: usize) -> Papan {
    let isi = (0..ukuran)
        .map(|y| {
            (0..ukuran)
                .map(|x| Permen::new(Warna::dari_nomor(((x + 2 * y) % 7) as u8)))
                .collect()
        })
        .collect();
    Papan { ukuran, ragam_warna: 3, isi }
}

fn warna_papan(papan: &Papan) -> Vec<Vec<Warna>> {
    papan
        .isi
        .iter()
        .map(|baris| baris.iter().map(|permen| permen.get_warna()).collect())
        .collect()
}

/// A board on which swapping (2,0) and (2,1) completes a run in row 2.
fn papan_siap() -> Papan {
    let mut papan = papan_polos(5);
    for pos in [(2, 0), (2, 2), (2, 3)] {
        papan.set_warna(pos, Warna::Merah).unwrap();
    }
    papan
}

#[test]
fn tukar_tanpa_dempet_dibatalkan() {
    let pasangan = [((0, 0), (0, 1)), ((2, 2), (3, 2)), ((1, 1), (2, 2)), ((4, 4), (4, 4))];
    for (a, b) in pasangan {
        let mut papan = papan_polos(5);
        let lama = warna_papan(&papan);
        let riam = papan.tukar_dan_tuntaskan(a, b).unwrap();
        assert_eq!(riam.babak, 0);
        assert!(riam.jejak.is_empty());
        assert_eq!(warna_papan(&papan), lama);
    }
}

#[test]
fn tukar_berdempet_diremukkan() {
    for _ in 0..100 {
        let mut papan = papan_siap();
        let mut sesudah_tukar = warna_papan(&papan);
        sesudah_tukar[2][0] = Warna::dari_nomor(5);
        sesudah_tukar[2][1] = Warna::Merah;
        let riam = papan.tukar_dan_tuntaskan((2, 0), (2, 1)).unwrap();
        assert!(riam.babak >= 1);
        assert!(riam.babak <= BATAS_RIAM);
        assert_eq!(riam.jejak.len(), riam.babak);
        assert_eq!(riam.jejak[0].papan, sesudah_tukar);
        assert_eq!(riam.jejak[0].dempet, vec![(2, 2), (2, 3), (2, 1)]);
        for babak in riam.jejak.iter() {
            assert!(!babak.dempet.is_empty());
            for pasangan in babak.dempet.windows(2) {
                assert!(pasangan[0].0 <= pasangan[1].0);
            }
            for (i, pos) in babak.dempet.iter().enumerate() {
                assert!(pos.0 < 5 && pos.1 < 5);
                assert!(!babak.dempet[..i].contains(pos));
            }
        }
        assert!(papan.sah());
        // Column 0 is never crushed in the first round, and column 4 not
        // either: the three columns of the run each dropped by one row.
        let akhir = if riam.babak == 1 {
            warna_papan(&papan)
        } else {
            riam.jejak[1].papan.clone()
        };
        for y in 0..5 {
            assert_eq!(akhir[y][0], sesudah_tukar[y][0]);
            assert_eq!(akhir[y][4], sesudah_tukar[y][4]);
        }
        for x in 1..4 {
            assert_eq!(akhir[1][x], sesudah_tukar[0][x]);
            assert_eq!(akhir[2][x], sesudah_tukar[1][x]);
            assert_eq!(akhir[3][x], sesudah_tukar[3][x]);
            assert_eq!(akhir[4][x], sesudah_tukar[4][x]);
        }
    }
}

#[test]
fn riam_tuntas_tanpa_dempet_di_kolom_yang_berubah() {
    for _ in 0..200 {
        let mut papan = papan_siap();
        let riam = papan.tukar_dan_tuntaskan((2, 0), (2, 1)).unwrap();
        let terakhir = Dempet { vektor: riam.jejak.last().unwrap().dempet.clone() };
        let titik = terakhir.kolom_berubah();
        assert_eq!(papan.pindai_ulang(&titik).unwrap().len(), 0);
        // Each round's matches are what the second look finds on its board.
        for i in 1..riam.jejak.len() {
            let lalu = Dempet { vektor: riam.jejak[i - 1].dempet.clone() };
            let papan_babak = Papan {
                ukuran: 5,
                ragam_warna: 3,
                isi: riam.jejak[i]
                    .papan
                    .iter()
                    .map(|baris| baris.iter().map(|warna| Permen::new(*warna)).collect())
                    .collect(),
            };
            let mut ditemukan = papan_babak.pindai_ulang(&lalu.kolom_berubah()).unwrap();
            ditemukan.urutkan();
            assert_eq!(ditemukan.vektor, riam.jejak[i].dempet);
        }
    }
}

#[test]
fn riam_tanpa_tukar_bila_berjauhan() {
    // The positions are too far apart to swap, but a run stands at one of
    // them already: it is crushed all the same.
    let mut papan = papan_polos(5);
    for pos in [(4, 1), (4, 2), (4, 3)] {
        papan.set_warna(pos, Warna::Biru).unwrap();
    }
    let lama = warna_papan(&papan);
    let riam = papan.tukar_dan_tuntaskan((0, 0), (4, 2)).unwrap();
    assert!(riam.babak >= 1);
    assert_eq!(riam.jejak[0].papan, lama);
    assert_eq!(riam.jejak[0].dempet, vec![(4, 1), (4, 3), (4, 2)]);
}

#[test]
fn riam_di_luar_papan() {
    let pasangan = [((5, 0), (4, 0)), ((4, 0), (5, 0)), ((0, 5), (0, 4)), ((9, 9), (0, 0))];
    for (a, b) in pasangan {
        let mut papan = papan_siap();
        let lama = warna_papan(&papan);
        assert_eq!(
            papan.tukar_dan_tuntaskan(a, b).unwrap_err(),
            Galat::DiLuarPapan
        );
        assert_eq!(warna_papan(&papan), lama);
    }
}

#[test]
fn riam_berlebih() {
    let mut papan = papan_siap();
    let mut sesudah_tukar = warna_papan(&papan);
    sesudah_tukar[2][0] = Warna::dari_nomor(5);
    sesudah_tukar[2][1] = Warna::Merah;
    assert_eq!(
        papan
            .tukar_dan_tuntaskan_terbatas((2, 0), (2, 1), 0)
            .unwrap_err(),
        Galat::RiamBerlebih
    );
    // No round was run: the swap stands and nothing is crushed.
    assert_eq!(warna_papan(&papan), sesudah_tukar);
}

#[test]
fn riam_batas_nol_tanpa_dempet() {
    let mut papan = papan_polos(5);
    let lama = warna_papan(&papan);
    let riam = papan.tukar_dan_tuntaskan_terbatas((0, 0), (0, 1), 0).unwrap();
    assert_eq!(riam.babak, 0);
    assert!(riam.jejak.is_empty());
    assert_eq!(warna_papan(&papan), lama);
}

#[test]
fn riam_terbatas_tidak_melebihi_batas() {
    for batas in 1..4 {
        for _ in 0..50 {
            let mut papan = papan_siap();
            match papan.tukar_dan_tuntaskan_terbatas((2, 0), (2, 1), batas) {
                Ok(riam) => {
                    assert!(1 <= riam.babak && riam.babak <= batas);
                    assert_eq!(riam.jejak.len(), riam.babak);
                },
                Err(galat) => assert_eq!(galat, Galat::RiamBerlebih),
            }
            assert!(papan.sah());
        }
    }
}

#[test]
fn remukan_semua_berurutan() {
    for _ in 0..50 {
        let mut papan = papan_polos(5);
        let lama = warna_papan(&papan);
        assert_eq!(papan.remukan_semua(&vec![(1, 3), (2, 3), (3, 3), (2, 0)]), Ok(()));
        let baru = warna_papan(&papan);
        // Column 3 lost rows 1 to 3: row 0 came down to row 3, row 4 stayed.
        assert_eq!(baru[3][3], lama[0][3]);
        assert_eq!(baru[4][3], lama[4][3]);
        // Column 0 lost row 2.
        assert_eq!(baru[1][0], lama[0][0]);
        assert_eq!(baru[2][0], lama[1][0]);
        assert_eq!(baru[3][0], lama[3][0]);
        assert_eq!(baru[4][0], lama[4][0]);
        for y in 0..5 {
            for x in [1, 2, 4] {
                assert_eq!(baru[y][x], lama[y][x]);
            }
        }
    }
}

#[test]
fn remukan_semua_di_luar_papan() {
    let mut papan = papan_polos(4);
    let lama = warna_papan(&papan);
    assert_eq!(
        papan.remukan_semua(&vec![(0, 0), (1, 1), (4, 1)]),
        Err(Galat::DiLuarPapan)
    );
    assert_eq!(warna_papan(&papan), lama);
    assert_eq!(papan.remukan_semua(&vec![]), Ok(()));
    assert_eq!(warna_papan(&papan), lama);
}

#[test]
fn pindai_ulang_berjalan_naik() {
    let mut papan = papan_polos(6);
    for pos in [(1, 2), (2, 2), (3, 2)] {
        papan.set_warna(pos, Warna::Merah).unwrap();
    }
    for pos in [(4, 3), (4, 4), (4, 5)] {
        papan.set_warna(pos, Warna::Nila).unwrap();
    }
    // From (4,2) upward: the column run is met at its lowest cell, (3,2).
    assert_eq!(
        papan.pindai_ulang(&vec![(4, 2)]).unwrap().vektor,
        vec![(1, 2), (2, 2), (3, 2)]
    );
    // From (3,2) and (4,4): first column 2, then the row run seen from (4,4).
    assert_eq!(
        papan.pindai_ulang(&vec![(3, 2), (4, 4)]).unwrap().vektor,
        vec![(1, 2), (2, 2), (3, 2), (4, 3), (4, 5), (4, 4)]
    );
    // Above row 4 nothing: a look from row 0 finds nothing in column 3.
    assert_eq!(papan.pindai_ulang(&vec![(0, 3)]).unwrap().len(), 0);
    assert_eq!(papan.pindai_ulang(&vec![]).unwrap().len(), 0);
    assert_eq!(
        papan.pindai_ulang(&vec![(0, 0), (6, 0)]).unwrap_err(),
        Galat::DiLuarPapan
    );
}
