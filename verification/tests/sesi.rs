use permen_remuk::dempet::Dempet;
use permen_remuk::papan::{Galat, Papan};
use permen_remuk::permen::Permen;
use permen_remuk::sesi::Sesi;
use permen_remuk::warna::Warna;

/// A board on which no two neighbours share a colour.
fn papan_polos(ukuran: usize) -> Papan {
    let isi = (0..ukuran)
        .map(|y| {
            (0..ukuran)
                .map(|x| Permen::new(Warna::dari_nomor(((x + 2 * y) % 7) as u8)))
                .collect()
        })
        .collect();
    Papan { ukuran, ragam_warna: 3, isi }
}

fn sesi_polos(ukuran: usize) -> Sesi {
    Sesi { papan: papan_polos(ukuran), dempet: Dempet::new() }
}

#[test]
fn sesi_new() {
    let sesi = Sesi::new(6, 3);
    assert!(sesi.sah());
    assert_eq!(sesi.papan.ukuran, 6);
    assert_eq!(sesi.papan.ragam_warna, 3);
    assert_eq!(sesi.panjang_dempet(), 0);
    assert_eq!(sesi.buat_papan().lines().count(), 6);
    for baris in sesi.buat_papan().lines() {
        assert_eq!(baris.split(' ').count(), 7);
        assert!(baris.ends_with(' '));
    }
}

#[test]
fn sesi_buat_papan() {
    let sesi = sesi_polos(3);
    assert_eq!(sesi.buat_papan(), "🟥 🟧 🟨 \n🟨 🟩 🟦 \n🟦 🟫 🟪 \n");
}

#[test]
fn sesi_tukar_lalu_cek_lalu_remuk() {
    let mut sesi = sesi_polos(5);
    for pos in [(2, 0), (2, 2), (2, 3)] {
        sesi.papan.set_warna(pos, Warna::Merah).unwrap();
    }
    assert_eq!(sesi.tukar_posisi(2, 0, 2, 1), Ok(()));
    assert_eq!(sesi.papan.get_warna((2, 1)), Ok(Warna::Merah));
    assert_eq!(sesi.cek_dempet(2, 0, 3), Ok(()));
    assert_eq!(sesi.panjang_dempet(), 0);
    assert_eq!(sesi.cek_dempet(2, 1, 3), Ok(()));
    assert_eq!(sesi.panjang_dempet(), 3);
    assert_eq!(sesi.dempet.vektor, vec![(2, 2), (2, 3), (2, 1)]);
    // Looking again from another cell of the run adds nothing.
    assert_eq!(sesi.cek_dempet(2, 3, 3), Ok(()));
    assert_eq!(sesi.panjang_dempet(), 3);
    assert!(sesi.sah());
    let atas: Vec<Warna> = (1..4).map(|x| sesi.papan.get_warna((1, x)).unwrap()).collect();
    sesi.remukan_permen();
    assert_eq!(sesi.panjang_dempet(), 0);
    let turun: Vec<Warna> = (1..4).map(|x| sesi.papan.get_warna((2, x)).unwrap()).collect();
    assert_eq!(turun, atas);
    assert!(sesi.sah());
}

#[test]
fn sesi_cek_dempet_mengurutkan() {
    let mut sesi = sesi_polos(6);
    for pos in [(4, 0), (4, 1), (4, 2), (1, 3), (1, 4), (1, 5)] {
        sesi.papan.set_warna(pos, Warna::Kuning).unwrap();
    }
    assert_eq!(sesi.cek_dempet(4, 1, 3), Ok(()));
    assert_eq!(sesi.dempet.vektor, vec![(4, 0), (4, 2), (4, 1)]);
    assert_eq!(sesi.cek_dempet(1, 3, 3), Ok(()));
    assert_eq!(
        sesi.dempet.vektor,
        vec![(1, 4), (1, 5), (1, 3), (4, 0), (4, 2), (4, 1)]
    );
}

#[test]
fn sesi_di_luar_papan() {
    let mut sesi = sesi_polos(4);
    assert_eq!(sesi.cek_dempet(4, 0, 3), Err(Galat::DiLuarPapan));
    assert_eq!(sesi.cek_dempet(0, 4, 3), Err(Galat::DiLuarPapan));
    assert_eq!(sesi.panjang_dempet(), 0);
    assert_eq!(sesi.tukar_posisi(3, 3, 3, 4), Err(Galat::DiLuarPapan));
    assert_eq!(sesi.tukar_posisi(0, 0, 3, 9), Ok(()));
    assert_eq!(sesi.buat_papan(), sesi_polos(4).buat_papan());
}

#[test]
fn sesi_bisa_jalan_dan_cek_kemungkinan() {
    let mut sesi = sesi_polos(5);
    assert!(!sesi.bisa_jalan());
    assert_eq!(sesi.cek_kemungkinan(), "");
    sesi.papan.set_warna((1, 1), Warna::Merah).unwrap();
    sesi.papan.set_warna((1, 2), Warna::Merah).unwrap();
    assert!(sesi.bisa_jalan());
    let teks = sesi.cek_kemungkinan();
    assert!(teks.starts_with("0:0 "));
    for kata in teks.split_whitespace() {
        let bagian: Vec<&str> = kata.split(':').collect();
        assert_eq!(bagian.len(), 2);
        let y: usize = bagian[0].parse().unwrap();
        let x: usize = bagian[1].parse().unwrap();
        assert_eq!(sesi.papan.mungkin_ditukar((y, x)), Ok(true));
    }
}

#[test]
fn sesi_sah_menolak_dempet_salah() {
    let mut sesi = sesi_polos(4);
    sesi.dempet.vektor.push((1, 1));
    assert!(sesi.sah());
    sesi.dempet.vektor.push((1, 1));
    assert!(!sesi.sah());
    let mut sesi = sesi_polos(4);
    sesi.dempet.vektor.push((4, 0));
    assert!(!sesi.sah());
    let mut sesi = sesi_polos(4);
    sesi.papan.isi.pop();
    assert!(!sesi.sah());
}
