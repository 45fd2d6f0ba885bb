use stark_backend::field::extension::ExtElem;
use stark_backend::prover::packed::{
    base_lanes, broadcast, copy_lanes, ext_base_lanes, ext_lanes, lift_lanes, neg_base_lanes,
    neg_ext_lanes, Operation,
};

const P: u32 = 0x78000001;

fn ext(c0: u32, c1: u32, c2: u32, c3: u32) -> ExtElem {
    ExtElem { c0, c1, c2, c3 }
}

#[test]
fn base_field_operations_reduce_modulo_the_order() {
    let a = vec![P - 1, 5, 0, 2_000_000_000];
    let b = vec![1, 7, 0, 2_000_000_000];
    assert_eq!(
        base_lanes(Operation::Add, &a, &b),
        vec![0, 12, 0, (4_000_000_000u64 % P as u64) as u32]
    );
    assert_eq!(
        base_lanes(Operation::Sub, &a, &b),
        vec![P - 2, P - 2, 0, 0]
    );
    assert_eq!(
        base_lanes(Operation::Mul, &a, &b),
        vec![
            P - 1,
            35,
            0,
            ((2_000_000_000u64 * 2_000_000_000u64) % P as u64) as u32
        ]
    );
    assert_eq!(neg_base_lanes(&a), vec![1, P - 5, 0, P - 2_000_000_000]);
}

#[test]
fn base_field_operations_accept_any_representative() {
    // `P + 3` stands for 3.
    let a = vec![P + 3];
    let b = vec![4];
    assert_eq!(base_lanes(Operation::Add, &a, &b), vec![7]);
    assert_eq!(base_lanes(Operation::Mul, &a, &b), vec![12]);
    assert_eq!(base_lanes(Operation::Sub, &b, &a), vec![1]);
    assert_eq!(neg_base_lanes(&a), vec![P - 3]);
}

#[test]
fn extension_field_multiplication_reduces_by_the_binomial() {
    // X * X^3 = X^4 = 11
    let x = vec![ext(0, 1, 0, 0)];
    let x3 = vec![ext(0, 0, 0, 1)];
    assert_eq!(ext_lanes(Operation::Mul, &x, &x3), vec![ext(11, 0, 0, 0)]);
    // (1 + 2X + 3X^2 + 4X^3) * (5 + 6X + 7X^2 + 8X^3)
    let a = vec![ext(1, 2, 3, 4)];
    let b = vec![ext(5, 6, 7, 8)];
    let c0 = 1 * 5 + 11 * (2 * 8 + 3 * 7 + 4 * 6);
    let c1 = 1 * 6 + 2 * 5 + 11 * (3 * 8 + 4 * 7);
    let c2 = 1 * 7 + 2 * 6 + 3 * 5 + 11 * (4 * 8);
    let c3 = 1 * 8 + 2 * 7 + 3 * 6 + 4 * 5;
    assert_eq!(ext_lanes(Operation::Mul, &a, &b), vec![ext(c0, c1, c2, c3)]);
    assert_eq!(ext_lanes(Operation::Mul, &b, &a), vec![ext(c0, c1, c2, c3)]);
}

#[test]
fn extension_field_sums_go_coefficient_by_coefficient() {
    let a = vec![ext(P - 1, 2, 3, 4)];
    let b = vec![ext(1, 6, 7, P - 4)];
    assert_eq!(ext_lanes(Operation::Add, &a, &b), vec![ext(0, 8, 10, 0)]);
    assert_eq!(
        ext_lanes(Operation::Sub, &a, &b),
        vec![ext(P - 2, P - 4, P - 4, 8)]
    );
    assert_eq!(neg_ext_lanes(&a), vec![ext(1, P - 2, P - 3, P - 4)]);
}

#[test]
fn base_field_operand_acts_on_an_extension_field_element() {
    let a = vec![ext(1, 2, 3, 4)];
    let b = vec![10];
    assert_eq!(
        ext_base_lanes(Operation::Add, &a, &b),
        vec![ext(11, 2, 3, 4)]
    );
    assert_eq!(
        ext_base_lanes(Operation::Sub, &a, &b),
        vec![ext(P - 9, 2, 3, 4)]
    );
    assert_eq!(
        ext_base_lanes(Operation::Mul, &a, &b),
        vec![ext(10, 20, 30, 40)]
    );
    assert_eq!(lift_lanes(&vec![7, P + 1]), vec![ext(7, 0, 0, 0), ext(1, 0, 0, 0)]);
}

#[test]
fn powers_come_highest_first() {
    let x = ext(0, 1, 0, 0);
    assert_eq!(
        x.powers_highest_first(6),
        vec![
            ext(0, 11, 0, 0),
            ext(11, 0, 0, 0),
            ext(0, 0, 0, 1),
            ext(0, 0, 1, 0),
            ext(0, 1, 0, 0),
            ext(1, 0, 0, 0),
        ]
    );
    assert_eq!(x.powers_highest_first(1), vec![ExtElem::one()]);
    assert!(x.powers_highest_first(0).is_empty());
    let two = ext(2, 0, 0, 0);
    assert_eq!(
        two.powers_highest_first(3),
        vec![ext(4, 0, 0, 0), ext(2, 0, 0, 0), ext(1, 0, 0, 0)]
    );
}

#[test]
fn coefficients_are_read_by_position() {
    let a = ext(1, 2, 3, 4);
    assert_eq!(
        (0..4).map(|i| a.coeff(i)).collect::<Vec<_>>(),
        vec![1, 2, 3, 4]
    );
    assert_eq!(ExtElem::zero(), ext(0, 0, 0, 0));
}

#[test]
fn lanes_are_copied_and_broadcast() {
    assert_eq!(copy_lanes(&vec![1u32, 2, 3]), vec![1, 2, 3]);
    assert_eq!(broadcast(9u32, 4), vec![9, 9, 9, 9]);
    assert!(broadcast(9u32, 0).is_empty());
}
