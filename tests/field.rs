use quickcheck::QuickCheck;
use shamir_share::ff_gf256::GF256;
use shamir_share::lagrange_interpolation::barycentric_interpolate;
use shamir_share::polynomial::Polynomial;
use shamir_share::{Field, GenRandom};

#[test]
fn adding_an_element_to_itself_gives_zero() {
    for a in 0..=255u8 {
        assert_eq!(GF256(a).add(GF256(a)), GF256::zero());
    }
    assert_eq!(GF256(80).add(GF256(80)), GF256(0));
}

#[test]
fn identities_hold() {
    for a in 0..=255u8 {
        assert_eq!(GF256(a).mul(GF256::one()), GF256(a));
        assert_eq!(GF256(a).add(GF256::zero()), GF256(a));
    }
}

#[test]
fn inverse_times_element_is_one() {
    for a in 1..=255u8 {
        let x = GF256(a);
        assert_eq!(x.inverse().unwrap().mul(x), GF256::one());
    }
    assert_eq!(GF256(0).inverse(), Some(GF256(0)));
    assert_eq!(GF256(0x53).inverse(), Some(GF256(0xca)));
}

#[test]
fn multiplication_commutes_and_addition_associates() {
    fn commutes(a: u8, b: u8) -> bool {
        GF256(a).mul(GF256(b)) == GF256(b).mul(GF256(a))
    }
    fn associates(a: u8, b: u8, c: u8) -> bool {
        let (a, b, c) = (GF256(a), GF256(b), GF256(c));
        a.add(b.add(c)) == a.add(b).add(c)
    }
    QuickCheck::new().tests(2000).quickcheck(commutes as fn(u8, u8) -> bool);
    QuickCheck::new().tests(2000).quickcheck(associates as fn(u8, u8, u8) -> bool);
}

#[test]
fn multiplication_associates_and_distributes() {
    fn associates(a: u8, b: u8, c: u8) -> bool {
        let (a, b, c) = (GF256(a), GF256(b), GF256(c));
        a.mul(b).mul(c) == a.mul(b.mul(c))
    }
    fn distributes(a: u8, b: u8, c: u8) -> bool {
        let (a, b, c) = (GF256(a), GF256(b), GF256(c));
        a.add(b).mul(c) == a.mul(c).add(b.mul(c))
    }
    QuickCheck::new().tests(2000).quickcheck(associates as fn(u8, u8, u8) -> bool);
    QuickCheck::new().tests(2000).quickcheck(distributes as fn(u8, u8, u8) -> bool);
    assert_eq!(
        GF256(0x57).mul(GF256(0x83)).mul(GF256(0x13)),
        GF256(0x57).mul(GF256(0x83).mul(GF256(0x13)))
    );
}

#[test]
fn known_products() {
    assert_eq!(GF256(0x57).mul(GF256(0x83)), GF256(0xc1));
    assert_eq!(GF256(0x57).mul(GF256(0x13)), GF256(0xfe));
    assert_eq!(GF256(0x80).mul(GF256(0x02)), GF256(0x1b));
    assert_eq!(GF256(0).mul(GF256(0x9a)), GF256(0));
}

#[test]
fn subtraction_and_negation() {
    assert_eq!(GF256(0x0f).sub(GF256(0xf0)), GF256(0xff));
    assert_eq!(GF256(0x3c).neg(), GF256(0x3c));
    let mut x = GF256(0x12);
    x.sub_assign(GF256(0x10));
    assert_eq!(x, GF256(0x02));
    x.add_assign(GF256(0x01));
    assert_eq!(x, GF256(0x03));
}

#[test]
fn division_undoes_multiplication() {
    let a = GF256(0xc1);
    assert_eq!(a.div(GF256(0x83)), GF256(0x57));
    let mut b = GF256(0xfe);
    b.div_assign(GF256(0x13));
    assert_eq!(b, GF256(0x57));
}

#[test]
fn powers() {
    assert_eq!(GF256(2).pow(8), GF256(0x1b));
    assert_eq!(GF256(3).pow(0), GF256(1));
    assert_eq!(GF256(0).pow(0), GF256(1));
    assert_eq!(GF256(0).pow(5), GF256(0));
    assert_eq!(GF256(0x57).pow(2), GF256(0x57).mul(GF256(0x57)));
    assert_eq!(GF256(0x53).pow(254), GF256(0xca));
    for a in 1..=255u8 {
        assert_eq!(GF256(a).pow(255), GF256(1));
    }
}

#[test]
fn square_and_predicates() {
    let mut x = GF256(0x57);
    x.square();
    assert_eq!(x, GF256(0x57).mul(GF256(0x57)));
    assert!(GF256(0).is_zero());
    assert!(!GF256(7).is_zero());
    assert!(GF256(7) != GF256(8));
}

#[test]
fn field_trait_operations() {
    assert_eq!(<GF256 as Field>::zero(), GF256(0));
    assert_eq!(<GF256 as Field>::one(), GF256(1));
    assert!(<GF256 as Field>::is_zero(&GF256(0)));
    assert_eq!(<GF256 as Field>::inverse(&GF256(0x53)), Some(GF256(0xca)));
    let mut x = GF256(3);
    <GF256 as Field>::square(&mut x);
    assert_eq!(x, GF256(5));
    let _ = GF256::gen_random();
}

#[test]
fn polynomial_constant_term_is_intercept() {
    let p = Polynomial::from_intercept(GF256(42), 5);
    assert_eq!(p.evaluate_at(GF256(0)), GF256(42));
    let q = Polynomial::from_intercept(GF256(9), 1);
    assert_eq!(q.evaluate_at(GF256(200)), GF256(9));
    let r = Polynomial::from_intercept(GF256(9), 0);
    assert_eq!(r.evaluate_at(GF256(17)), GF256(9));
}

#[test]
fn interpolation_of_a_line() {
    // f(x) = 7 + 3x
    let f = |x: u8| GF256(7).add(GF256(3).mul(GF256(x)));
    let points = vec![(GF256(1), f(1)), (GF256(2), f(2))];
    assert_eq!(barycentric_interpolate(&points), GF256(7));
    let single = vec![(GF256(5), GF256(99))];
    assert_eq!(barycentric_interpolate(&single), GF256(99));
}
