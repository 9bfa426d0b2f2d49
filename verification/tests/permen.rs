use permen_remuk::permen::Permen;
use permen_remuk::warna::{Warna, RAGAM};

fn vektor_warna() -> Vec<Warna> {
    vec![
        Warna::Merah,
        Warna::Jingga,
        Warna::Kuning,
        Warna::Hijau,
        Warna::Biru,
        Warna::Nila,
        Warna::Ungu,
    ]
}

#[test]
fn permen_new() {
    let permen = Permen::new(Warna::Biru);
    assert_eq!(permen.warna, Warna::Biru);
}

#[test]
fn permen_get_warna() {
    let permen = Permen::new(Warna::Biru);
    assert_eq!(permen.get_warna(), Warna::Biru);
}

#[test]
fn permen_set_warna() {
    let mut permen = Permen::new(Warna::Biru);
    permen.set_warna(Warna::Merah);
    assert_eq!(permen.get_warna(), Warna::Merah);
}

#[test]
fn permen_acak_warna() {
    let mut permen = Permen::new(Warna::Merah);
    permen.acak_warna();

    for _ in 0..100 {
        assert_ne!(permen.get_warna(), Warna::Merah);
    }
}

#[test]
fn permen_acak_warna_selalu_berganti() {
    for awal in vektor_warna() {
        for _ in 0..200 {
            let mut permen = Permen::new(awal);
            permen.acak_warna();
            assert_ne!(permen.get_warna(), awal);
        }
    }
}

#[test]
fn permen_acak_warna_mencapai_semua_warna_lain() {
    let mut terlihat = vec![false; 7];
    for _ in 0..2000 {
        let mut permen = Permen::new(Warna::Hijau);
        permen.acak_warna();
        terlihat[permen.get_warna().nomor() as usize] = true;
    }
    for warna in vektor_warna() {
        assert_eq!(terlihat[warna.nomor() as usize], warna != Warna::Hijau);
    }
}

#[test]
fn warna_nomor_dan_dari_nomor() {
    assert_eq!(RAGAM, 7);
    for (n, warna) in vektor_warna().into_iter().enumerate() {
        assert_eq!(warna.nomor() as usize, n);
        assert_eq!(Warna::dari_nomor(n as u8), warna);
    }
    assert_eq!(Warna::dari_nomor(7), Warna::Ungu);
    assert_eq!(Warna::dari_nomor(255), Warna::Ungu);
}

#[test]
fn warna_lain_memutar_palet() {
    assert_eq!(Warna::Merah.lain(0), Warna::Jingga);
    assert_eq!(Warna::Merah.lain(5), Warna::Ungu);
    assert_eq!(Warna::Ungu.lain(0), Warna::Merah);
    assert_eq!(Warna::Nila.lain(3), Warna::Kuning);
    assert_eq!(Warna::Merah.lain(6), Warna::Jingga);
    assert_eq!(Warna::Merah.lain(255), Warna::Biru);
    for warna in vektor_warna() {
        let mut hasil: Vec<Warna> = Vec::new();
        for geser in 0..6u8 {
            let lain = warna.lain(geser);
            assert_ne!(lain, warna);
            assert!(!hasil.contains(&lain));
            hasil.push(lain);
        }
        assert_eq!(hasil.len(), 6);
        for geser in 0..=255u8 {
            assert_eq!(warna.lain(geser), hasil[(geser % 6) as usize]);
        }
    }
}

#[test]
fn warna_acak_memberi_lebih_dari_satu_warna() {
    let mut terlihat = vec![false; 7];
    for _ in 0..2000 {
        terlihat[Warna::acak().nomor() as usize] = true;
    }
    assert!(terlihat.iter().all(|ada| *ada));
}

#[test]
fn warna_lambang() {
    assert_eq!(Warna::Merah.lambang(), "🟥");
    assert_eq!(Warna::Jingga.lambang(), "🟧");
    assert_eq!(Warna::Kuning.lambang(), "🟨");
    assert_eq!(Warna::Hijau.lambang(), "🟩");
    assert_eq!(Warna::Biru.lambang(), "🟦");
    assert_eq!(Warna::Nila.lambang(), "🟫");
    assert_eq!(Warna::Ungu.lambang(), "🟪");
}
