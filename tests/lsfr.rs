use chip8::lsfr::Lsfr;

#[test]
fn it_works() {
    let mut x = Lsfr::new();

    assert_eq!(x.get(), 0);
    assert_eq!(x.get(), 1);
    assert_eq!(x.get(), 1);
    assert_eq!(x.get(), 1);
    assert_eq!(x.get(), 0);
}

#[test]
fn it_works2() {
    let mut x = Lsfr::new();

    assert_eq!(x.gen(), 110);
    assert_eq!(x.gen(), 36);
    assert_eq!(x.gen(), 219);
    assert_eq!(x.gen(), 80);
    assert_eq!(x.gen(), 112);
}

#[test]
fn fresh_sources_produce_identical_sequences() {
    let mut a = Lsfr::new();
    let mut b = Lsfr::new();
    for _ in 0..100 {
        assert_eq!(a.gen(), b.gen());
    }
}

#[test]
fn gen_assembles_bits_least_significant_first() {
    let mut bits = Lsfr::new();
    let mut expected: u32 = 0;
    for i in 0..8 {
        expected |= (bits.get() as u32) << i;
    }
    let mut bytes = Lsfr::new();
    assert_eq!(bytes.gen() as u32, expected);
}
