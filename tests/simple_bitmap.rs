use bitmap::{Bitmap, SimpleBitmap};

fn text(bm: &SimpleBitmap) -> String {
    bm.render().iter().collect()
}

#[test]
fn get_bits_vector_index() {
    assert_eq!(31 / 32, 0);
    assert_eq!(32 / 32, 1);
}

#[test]
#[allow(clippy::identity_op)]
fn get_bit_index_in_u32_using_modulo() {
    assert_eq!(31 % 32, 31);
    assert_eq!(32 % 32, 0);
}

#[test]
fn get_bit_index_in_u32_using_bitwise_and() {
    assert_eq!(31 & 31, 31);
    assert_eq!(32 & 31, 0);
}

#[test]
fn it_sets_and_gets_bits() {
    // given
    let mut bm = SimpleBitmap::new();

    // when
    bm.set(31);
    bm.set(32);
    println!("{}", text(&bm));

    // then
    assert!(!bm.get(0));
    assert!(bm.get(31));
    assert!(bm.get(32));
}

#[test]
fn it_builds_bit_unions() {
    // given
    // Speyside    --> [0, 1, 0, 0, 0, 0, 1, 0, 0, 0]
    let mut speyside_bm = SimpleBitmap::new();
    speyside_bm.set(1);
    speyside_bm.set(6);
    println!("{}", text(&speyside_bm));

    // Highlands   --> [0, 0, 1, 1, 0, 0, 0, 0, 0, 1]
    let mut highlands_bm = SimpleBitmap::new();
    highlands_bm.set(2);
    highlands_bm.set(3);
    highlands_bm.set(9);
    println!("{}", text(&highlands_bm));

    // when
    let speyside_or_highlands = speyside_bm | highlands_bm;
    println!("{}", text(&speyside_or_highlands));

    // then
    // Union       --> [0, 1, 1, 1, 0, 0, 1, 0, 0, 1]
    assert!(!speyside_or_highlands.get(0));
    assert!(speyside_or_highlands.get(1));
    assert!(speyside_or_highlands.get(2));
    assert!(speyside_or_highlands.get(3));
    assert!(!speyside_or_highlands.get(4));
    assert!(!speyside_or_highlands.get(5));
    assert!(speyside_or_highlands.get(6));
    assert!(!speyside_or_highlands.get(7));
    assert!(!speyside_or_highlands.get(8));
    assert!(speyside_or_highlands.get(9));
    assert!(!speyside_or_highlands.get(10));
}
