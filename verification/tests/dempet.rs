use permen_remuk::dempet::Dempet;

#[test]
fn dempet_new() {
    let dempet = Dempet::new();
    assert_eq!(dempet.vektor, vec![]);
}

#[test]
fn dempet_tambah() {
    let mut dempet = Dempet::new();
    dempet.tambah((0, 0)).tambah((1, 1));
    assert_eq!(dempet.len(), 2);
    dempet.tambah((0, 0));
    assert_eq!(dempet.len(), 2);
}

#[test]
fn dempet_kosongkan() {
    let mut dempet = Dempet::new();
    dempet.tambah((0, 0)).tambah((1, 1));
    dempet.kosongkan();
    assert_eq!(dempet.len(), 0);
}

#[test]
fn dempet_tambah_vektor() {
    let mut dempet = Dempet::new();
    dempet.tambah_vek(vec![(1, 0), (3, 0), (2, 0)]);
    assert_eq!(dempet.len(), 3);
}

#[test]
fn dempet_urutkan() {
    let mut dempet = Dempet::new();
    dempet.tambah_vek(vec![(3, 0), (1, 0), (2, 0)]);
    dempet.urutkan();
    assert_eq!(dempet.vektor, vec![(1, 0), (2, 0), (3, 0)]);
}

#[test]
fn dempet_kolom_berubah() {
    let mut dempet = Dempet::new();
    dempet.tambah_vek(vec![(3, 0), (1, 0), (2, 0)]);
    dempet.tambah_vek(vec![(1, 0), (1, 1), (1, 2)]);
    dempet.urutkan();
    let kolom_berubah = dempet.kolom_berubah();
    assert_eq!(kolom_berubah, vec![(3, 0), (3, 1), (3, 2)]);
}

#[test]
fn dempet_tambah_menjaga_urutan_datang() {
    let mut dempet = Dempet::new();
    dempet.tambah((4, 4)).tambah((0, 1)).tambah((4, 4)).tambah((2, 2));
    assert_eq!(dempet.vektor, vec![(4, 4), (0, 1), (2, 2)]);
    assert!(dempet.memuat((0, 1)));
    assert!(!dempet.memuat((1, 0)));
}

#[test]
fn dempet_tambah_vek_membuang_kembar() {
    let mut dempet = Dempet::new();
    dempet.tambah((1, 1)).tambah_vek(vec![(1, 1), (2, 2), (2, 2), (0, 0), (1, 1)]);
    assert_eq!(dempet.vektor, vec![(1, 1), (2, 2), (0, 0)]);
    dempet.tambah_vek(vec![]);
    assert_eq!(dempet.len(), 3);
}

#[test]
fn dempet_urutkan_menjaga_urutan_sebaris() {
    let mut dempet = Dempet::new();
    dempet.tambah_vek(vec![(2, 5), (0, 3), (2, 1), (1, 9), (0, 0), (2, 3), (1, 2)]);
    dempet.urutkan();
    assert_eq!(
        dempet.vektor,
        vec![(0, 3), (0, 0), (1, 9), (1, 2), (2, 5), (2, 1), (2, 3)]
    );
}

#[test]
fn dempet_urutkan_kosong_dan_tunggal() {
    let mut dempet = Dempet::new();
    dempet.urutkan();
    assert_eq!(dempet.len(), 0);
    dempet.tambah((7, 7)).urutkan();
    assert_eq!(dempet.vektor, vec![(7, 7)]);
}

#[test]
fn dempet_kolom_berubah_kosong() {
    let dempet = Dempet::new();
    assert_eq!(dempet.kolom_berubah(), vec![]);
}

#[test]
fn dempet_kolom_berubah_satu_posisi() {
    let mut dempet = Dempet::new();
    dempet.tambah((4, 6));
    assert_eq!(dempet.kolom_berubah(), vec![(4, 6)]);
}

#[test]
fn dempet_kolom_berubah_rentang_kolom() {
    let mut dempet = Dempet::new();
    dempet.tambah_vek(vec![(0, 5), (6, 3), (2, 7), (1, 4)]);
    assert_eq!(
        dempet.kolom_berubah(),
        vec![(6, 3), (6, 4), (6, 5), (6, 6), (6, 7)]
    );
}

#[test]
fn dempet_kolom_berubah_kolom_besar() {
    let mut dempet = Dempet::new();
    dempet.tambah_vek(vec![(1, 150), (0, 152)]);
    assert_eq!(dempet.kolom_berubah(), vec![(1, 150), (1, 151), (1, 152)]);
}
