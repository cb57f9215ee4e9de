use jolt_core::field::Scalar;
use jolt_core::poly::{
    batch_polynomial, challenge_powers, copy_scalars, evaluate_univariate, fold_table,
    inner_product_of, witness_polynomial, DensePolynomial,
};

fn scalars(v: &[u64]) -> Vec<Scalar> {
    v.iter().map(|x| Scalar::from_u64(*x)).collect()
}

#[test]
fn univariate_evaluation_is_exact() {
    // 1 + 2 X + 3 X^2 at 2
    let f = scalars(&[1, 2, 3]);
    assert_eq!(
        evaluate_univariate(&f, &Scalar::from_u64(2)),
        Scalar::from_u64(17)
    );
    assert_eq!(evaluate_univariate(&f, &Scalar::zero()), Scalar::one());
    assert_eq!(
        evaluate_univariate(&[], &Scalar::from_u64(9)),
        Scalar::zero()
    );
    // at -1: 1 - 2 + 3
    assert_eq!(
        evaluate_univariate(&f, &Scalar::one().neg()),
        Scalar::from_u64(2)
    );
}

#[test]
fn a_fold_binds_the_last_variable() {
    let z = scalars(&[1, 2, 2, 4]);
    assert_eq!(fold_table(&z, &Scalar::from_u64(2)), scalars(&[3, 6]));
    assert_eq!(fold_table(&z, &Scalar::zero()), scalars(&[1, 2]));
    assert_eq!(fold_table(&z, &Scalar::one()), scalars(&[2, 4]));
    assert_eq!(
        fold_table(&scalars(&[3, 6]), &Scalar::zero()),
        scalars(&[3])
    );
    assert_eq!(fold_table(&scalars(&[5]), &Scalar::from_u64(3)), vec![]);
}

#[test]
fn multilinear_evaluation_folds_from_the_last_variable() {
    let poly = DensePolynomial::new(scalars(&[1, 2, 2, 4]));
    assert_eq!(poly.len(), 4);
    assert_eq!(poly.get_num_vars(), 2);
    assert_eq!(poly.evals(), &scalars(&[1, 2, 2, 4]));
    let at = |a: u64, b: u64| poly.evaluate(&scalars(&[a, b]));
    assert_eq!(at(0, 0), Scalar::from_u64(1));
    assert_eq!(at(0, 1), Scalar::from_u64(2));
    assert_eq!(at(1, 0), Scalar::from_u64(2));
    assert_eq!(at(1, 1), Scalar::from_u64(4));
    assert_eq!(at(0, 2), Scalar::from_u64(3));
    assert_eq!(at(2, 2), Scalar::from_u64(9));
    let small = DensePolynomial::new(scalars(&[1, 2, 1, 4]));
    assert_eq!(small.evaluate(&scalars(&[4, 3])), Scalar::from_u64(28));
    let constant = DensePolynomial::new(scalars(&[7]));
    assert_eq!(constant.get_num_vars(), 0);
    assert_eq!(constant.evaluate(&[]), Scalar::from_u64(7));
}

#[test]
fn the_witness_polynomial_is_the_quotient() {
    // f = 1 + 2 X + 3 X^2, u = 2: h = 8 + 3 X
    let f = scalars(&[1, 2, 3]);
    let u = Scalar::from_u64(2);
    let h = witness_polynomial(&f, &u);
    assert_eq!(h, scalars(&[8, 3, 0]));
    // f(t) - f(u) = (t - u) h(t) at t = 5
    let t = Scalar::from_u64(5);
    let left = evaluate_univariate(&f, &t).sub(&evaluate_univariate(&f, &u));
    let right = t.sub(&u).mul(&evaluate_univariate(&h, &t));
    assert_eq!(left, Scalar::from_u64(69));
    assert_eq!(left, right);
    assert_eq!(witness_polynomial(&[], &u), vec![]);
    assert_eq!(witness_polynomial(&scalars(&[4]), &u), scalars(&[0]));
}

#[test]
fn powers_and_batches_are_exact() {
    assert_eq!(
        challenge_powers(&Scalar::from_u64(3), 4),
        scalars(&[1, 3, 9, 27])
    );
    assert_eq!(challenge_powers(&Scalar::from_u64(3), 0), vec![]);
    // [1,2,3,4] + 10 * [5,6] + 100 * [7]
    let polys = vec![scalars(&[1, 2, 3, 4]), scalars(&[5, 6]), scalars(&[7])];
    assert_eq!(
        batch_polynomial(&polys, &Scalar::from_u64(10)),
        scalars(&[751, 62, 3, 4])
    );
    assert_eq!(
        batch_polynomial(&vec![scalars(&[1, 2])], &Scalar::from_u64(10)),
        scalars(&[1, 2])
    );
}

#[test]
fn the_inner_product_stops_at_the_shorter_vector() {
    let a = scalars(&[1, 2, 3]);
    let b = scalars(&[4, 5, 6, 7]);
    assert_eq!(inner_product_of(&a, &b), Scalar::from_u64(32));
    assert_eq!(inner_product_of(&b, &a), Scalar::from_u64(32));
    assert_eq!(inner_product_of(&a, &[]), Scalar::zero());
    assert_eq!(copy_scalars(&a), a);
}
