use permen_remuk::papan::{Galat, Papan};
use permen_remuk::permen::Permen;
use permen_remuk::teks::{tulis_desimal, tulis_posisi};
use permen_remuk::warna::Warna;

/// A board on which no two neighbours share a colour.
fn papan_polos(ukuran: usize) -> Papan {
    let isi = (0..ukuran)
        .map(|y| {
            (0..ukuran)
                .map(|x| Permen::new(Warna::dari_nomor(((x + 2 * y) % 7) as u8)))
                .collect()
        })
        .collect();
    Papan { ukuran, ragam_warna: 3, isi }
}

fn warna_papan(papan: &Papan) -> Vec<Vec<Warna>> {
    papan
        .isi
        .iter()
        .map(|baris| baris.iter().map(|permen| permen.get_warna()).collect())
        .collect()
}

#[test]
fn papan_mungkin_ditukar() {
    let mut papan = Papan::new(5, 3);
    papan.set_warna((0, 0), Warna::Merah).unwrap();
    papan.set_warna((1, 1), Warna::Merah).unwrap();
    papan.set_warna((1, 2), Warna::Merah).unwrap();
    assert!(papan.mungkin_ditukar((0, 0)).unwrap());
}

#[test]
fn papan_cek_kemungkinan() {
    let mut papan = Papan::new(5, 3);
    papan.set_warna((0, 0), Warna::Merah).unwrap();
    papan.set_warna((1, 1), Warna::Merah).unwrap();
    papan.set_warna((1, 2), Warna::Merah).unwrap();
    assert!(papan.cek_kemungkinan().len() >= 1);
}

#[test]
fn papan_cek_kemungkinan_str() {
    let mut papan = Papan::new(5, 3);
    let mut result = String::new();
    let vektor_kemungkinan = papan.cek_kemungkinan();
    for pos in vektor_kemungkinan {
        result.push_str(&format!("{}:{} ", pos.0, pos.1))
    }
    assert_eq!(papan.cek_kemungkinan_str(), result);
}

#[test]
fn cek_kemungkinan_memuat_petak_hampir_dempet() {
    let mut papan = Papan::new(5, 3);
    papan.set_warna((0, 0), Warna::Merah).unwrap();
    papan.set_warna((1, 1), Warna::Merah).unwrap();
    papan.set_warna((1, 2), Warna::Merah).unwrap();
    assert!(papan.cek_kemungkinan().contains(&(0, 0)));
}

#[test]
fn papan_tanpa_langkah() {
    let mut papan = papan_polos(6);
    let lama = warna_papan(&papan);
    assert_eq!(papan.cek_kemungkinan(), vec![]);
    assert_eq!(papan.cek_kemungkinan_str(), "");
    assert!(!papan.bisa_jalan());
    for y in 0..6 {
        for x in 0..6 {
            assert_eq!(papan.mungkin_ditukar((y, x)), Ok(false));
        }
    }
    assert_eq!(warna_papan(&papan), lama);
}

#[test]
fn cek_kemungkinan_tepat_dan_berurutan() {
    // Row 1 holds two of a colour at columns 1 and 2; the third stands one
    // step off the line at each end.
    let mut papan = papan_polos(5);
    papan.set_warna((1, 1), Warna::Merah).unwrap();
    papan.set_warna((1, 2), Warna::Merah).unwrap();
    papan.set_warna((0, 0), Warna::Merah).unwrap();
    let lama = warna_papan(&papan);
    // (0,0) moves down to (1,0) and completes the run from the left. (1,0)
    // moving up does not: the swap is judged at the cell it moves to.
    assert_eq!(papan.mungkin_ditukar((0, 0)), Ok(true));
    assert_eq!(papan.mungkin_ditukar((1, 1)), Ok(false));
    let kemungkinan = papan.cek_kemungkinan();
    assert!(kemungkinan.contains(&(0, 0)));
    for pasangan in kemungkinan.windows(2) {
        assert!(pasangan[0] < pasangan[1]);
    }
    let mut harapan = Vec::new();
    for y in 0..5 {
        for x in 0..5 {
            if papan.mungkin_ditukar((y, x)).unwrap() {
                harapan.push((y, x));
            }
        }
    }
    assert_eq!(kemungkinan, harapan);
    assert!(papan.bisa_jalan());
    assert_eq!(warna_papan(&papan), lama);
}

#[test]
fn mungkin_ditukar_tiap_arah() {
    // The piece at (2,2) can complete a run by moving up, down, left or
    // right, one board for each.
    let susunan: [[(usize, usize); 2]; 4] = [
        [(1, 0), (1, 1)],
        [(3, 3), (3, 4)],
        [(0, 1), (1, 1)],
        [(3, 3), (4, 3)],
    ];
    for pasangan in susunan {
        let mut papan = papan_polos(5);
        papan.set_warna((2, 2), Warna::Ungu).unwrap();
        for pos in pasangan {
            papan.set_warna(pos, Warna::Ungu).unwrap();
        }
        let lama = warna_papan(&papan);
        assert_eq!(papan.mungkin_ditukar((2, 2)), Ok(true));
        assert_eq!(warna_papan(&papan), lama);
    }
}

#[test]
fn mungkin_ditukar_tidak_mencoba_serong() {
    // Only a diagonal move of (2,1), to (1,2), would complete the run in
    // row 1. The board allows that swap, but the scanner does not try it.
    let mut papan = papan_polos(5);
    for pos in [(2, 1), (1, 3), (1, 4)] {
        papan.set_warna(pos, Warna::Ungu).unwrap();
    }
    assert_eq!(papan.mungkin_ditukar((2, 1)), Ok(false));
    assert_eq!(papan.tukar((2, 1), (1, 2)), Ok(()));
    assert_eq!(
        papan.cek_dempet((1, 2), 3),
        Ok(vec![(1, 3), (1, 4), (1, 2)])
    );
}

#[test]
fn mungkin_ditukar_di_luar_papan() {
    let mut papan = papan_polos(4);
    assert_eq!(papan.mungkin_ditukar((4, 0)), Err(Galat::DiLuarPapan));
    assert_eq!(papan.mungkin_ditukar((0, 4)), Err(Galat::DiLuarPapan));
}

#[test]
fn cek_kemungkinan_str_bentuk() {
    let mut papan = papan_polos(5);
    papan.set_warna((1, 1), Warna::Merah).unwrap();
    papan.set_warna((1, 2), Warna::Merah).unwrap();
    papan.set_warna((0, 0), Warna::Merah).unwrap();
    let kemungkinan = papan.cek_kemungkinan();
    let teks = papan.cek_kemungkinan_str();
    assert!(teks.starts_with("0:0 "));
    assert_eq!(teks.split_whitespace().count(), kemungkinan.len());
    assert_eq!(teks, tulis_posisi(&kemungkinan));
}

#[test]
fn tulis_posisi_tepat() {
    assert_eq!(tulis_posisi(&vec![]), "");
    assert_eq!(tulis_posisi(&vec![(0, 0)]), "0:0 ");
    assert_eq!(tulis_posisi(&vec![(3, 1), (0, 9), (12, 345)]), "3:1 0:9 12:345 ");
}

#[test]
fn tulis_desimal_tepat() {
    for (n, harapan) in [
        (0usize, "0"),
        (7, "7"),
        (9, "9"),
        (10, "10"),
        (99, "99"),
        (100, "100"),
        (12345, "12345"),
        (1000000007, "1000000007"),
    ] {
        let mut teks = String::new();
        tulis_desimal(&mut teks, n);
        assert_eq!(teks, harapan);
    }
    let mut teks = String::from("x=");
    tulis_desimal(&mut teks, 42);
    assert_eq!(teks, "x=42");
    let mut teks = String::new();
    tulis_desimal(&mut teks, usize::MAX);
    assert_eq!(teks, usize::MAX.to_string());
}
