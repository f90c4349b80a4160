//! The tensor, bra-ket and Kronecker algebra on concrete values.

use qubit::braket::{Bra, Ket};
use qubit::kronecker::Kronecker;
use qubit::matrix::Matrix;
use qubit::outer_mul::OuterMul;
use qubit::tensor::Tensor;
use qubit::tensor_mul::TensorMul;
use qubit::transposable::Transposable;
use qubit::util::flatten_arrays;

#[test]
fn test_tensor_mul() {
    let a = Ket::new(vec![1, 2]);
    let b = Ket::new(vec![3, 4]);

    assert_eq!(a.tensor_mul(b), Ket::new(vec![3, 4, 6, 8]));
}

#[test]
fn test_tensors_mul() {
    let a = Bra::new(vec![Ket::new(vec![1, 0]), Ket::new(vec![0, 1])]);
    let b = Bra::new(vec![Ket::new(vec![1, 0]), Ket::new(vec![0, 1])]);

    assert_eq!(
        a.tensor_mul(b),
        Bra::new(vec![
            Ket::new(vec![1, 0, 0, 0]),
            Ket::new(vec![0, 1, 0, 0]),
            Ket::new(vec![0, 0, 1, 0]),
            Ket::new(vec![0, 0, 0, 1]),
        ])
    );
}

#[test]
fn test_identity() {
    let identity = Bra::new(vec![Ket::new(vec![1, 0]), Ket::new(vec![0, 1])]);

    let result = Bra::new(vec![
        Ket::new(vec![1, 0, 0, 0]),
        Ket::new(vec![0, 1, 0, 0]),
        Ket::new(vec![0, 0, 1, 0]),
        Ket::new(vec![0, 0, 0, 1]),
    ]);

    assert_eq!(identity.kron(&identity), result);
}

#[test]
fn test_wiki_example() {
    let a = Bra::new(vec![Ket::new(vec![1, 3]), Ket::new(vec![2, 4])]);

    let b = Bra::new(vec![Ket::new(vec![0, 6]), Ket::new(vec![5, 7])]);

    let result = Bra::new(vec![
        Ket::new(vec![0, 6, 0, 18]),
        Ket::new(vec![5, 7, 15, 21]),
        Ket::new(vec![0, 12, 0, 24]),
        Ket::new(vec![10, 14, 20, 28]),
    ]);

    assert_eq!(a.kron(&b), result);
}

#[test]
fn test_basis() {
    let a = Matrix::new(vec![Ket::new(vec![1, 0]), Ket::new(vec![0, 1])]);
    let b = Matrix::new(vec![Ket::new(vec![1, 0]), Ket::new(vec![0, 1])]);

    let result = Matrix::new(vec![
        Ket::new(vec![1, 0, 0, 0]),
        Ket::new(vec![0, 1, 0, 0]),
        Ket::new(vec![0, 0, 1, 0]),
        Ket::new(vec![0, 0, 0, 1]),
    ]);

    assert_eq!(a.tensor_mul(b), result);
}

#[test]
fn test_simple() {
    let a = Matrix::new(vec![Ket::new(vec![1]), Ket::new(vec![2])]);
    let b = Matrix::new(vec![Ket::new(vec![3]), Ket::new(vec![4])]);

    let result = Matrix::new(vec![
        Ket::new(vec![3]),
        Ket::new(vec![4]),
        Ket::new(vec![6]),
        Ket::new(vec![8]),
    ]);

    assert_eq!(a.tensor_mul(b), result);
}

#[test]
fn test_f64_f64() {
    assert_eq!(2.outer_mul(3), 6);
}

#[test]
fn test_f64_tensor_n1_r1() {
    assert_eq!(2.outer_mul(Tensor::vector(vec![1])), Tensor::vector(vec![2]));
}

#[test]
fn test_tensor_n1_r1_f64() {
    assert_eq!(Tensor::vector(vec![1]).outer_mul(2), Tensor::vector(vec![2]));
}

#[test]
fn test_f64_tensor_n2_r1() {
    assert_eq!(
        2.outer_mul(Tensor::vector(vec![1, 2])),
        Tensor::vector(vec![2, 4])
    );
}

#[test]
fn test_f64_tensor_n3_r1() {
    assert_eq!(
        2.outer_mul(Tensor::vector(vec![1, 2, 3])),
        Tensor::vector(vec![2, 4, 6])
    );
}

#[test]
fn test_f64_tensor_n3_r2() {
    let t1 = 2;

    let t2 = Tensor::grid(vec![1, 2, 3, 4, 5, 6, 7, 8, 9], 3, 3);

    let result = Tensor::grid(vec![2, 4, 6, 8, 10, 12, 14, 16, 18], 3, 3);

    assert_eq!(t1.outer_mul(t2), result);
}

#[test]
fn test_f64_tensor_n3_r3() {
    let t1 = 2;

    let t2 = Tensor::new(
        vec![
            1, 2, 3, 4, 5, 6, 7, 8, 9, 10, 11, 12, 13, 14, 15, 16, 17, 18, 19, 20, 21, 22, 23, 24,
            25, 26, 27,
        ],
        vec![3, 3, 3],
    );

    let result = Tensor::new(
        vec![
            2, 4, 6, 8, 10, 12, 14, 16, 18, 20, 22, 24, 26, 28, 30, 32, 34, 36, 38, 40, 42, 44,
            46, 48, 50, 52, 54,
        ],
        vec![3, 3, 3],
    );

    assert_eq!(t1.outer_mul(t2), result);
}

#[test]
fn test_tensor_n3_r3_f64() {
    let t2 = 2;

    let t1 = Tensor::new(
        vec![
            1, 2, 3, 4, 5, 6, 7, 8, 9, 10, 11, 12, 13, 14, 15, 16, 17, 18, 19, 20, 21, 22, 23, 24,
            25, 26, 27,
        ],
        vec![3, 3, 3],
    );

    let result = Tensor::new(
        vec![
            2, 4, 6, 8, 10, 12, 14, 16, 18, 20, 22, 24, 26, 28, 30, 32, 34, 36, 38, 40, 42, 44,
            46, 48, 50, 52, 54,
        ],
        vec![3, 3, 3],
    );

    assert_eq!(t1.outer_mul(t2), result);
}

#[test]
fn test_tensor_n3_r1_tensor_n3_r1() {
    let t1 = Tensor::vector(vec![1, 2, 3]);

    let t2 = Tensor::vector(vec![4, 5, 6]);

    let result = Tensor::grid(vec![4, 5, 6, 8, 10, 12, 12, 15, 18], 3, 3);

    assert_eq!(t1.outer_mul(t2), result);
}

#[test]
fn test_tensor_n2_r1_tensor_n3_r2() {
    let t1 = Tensor::vector(vec![2, 3]);

    let t2 = Tensor::grid(vec![1, 2, 3, 4, 5, 6, 7, 8, 9], 3, 3);

    let result = Tensor::new(
        vec![
            2, 4, 6, 8, 10, 12, 14, 16, 18, 3, 6, 9, 12, 15, 18, 21, 24, 27,
        ],
        vec![2, 3, 3],
    );

    assert_eq!(t1.outer_mul(t2), result);
}

#[test]
fn test_tensor_n3_r2_tensor_n2_r1() {
    let t1 = Tensor::grid(vec![1, 2, 3, 4, 5, 6, 7, 8, 9], 3, 3);

    let t2 = Tensor::vector(vec![2, 3]);

    let result = Tensor::new(
        vec![
            2, 3, 4, 6, 6, 9, 8, 12, 10, 15, 12, 18, 14, 21, 16, 24, 18, 27,
        ],
        vec![3, 3, 2],
    );

    assert_eq!(t1.outer_mul(t2), result);
}

#[test]
#[allow(non_snake_case)]
fn test_tensor_n3_r1_transpose() {
    let t1 = Tensor::vector(vec![1, 2, 3]);

    let t2 = Tensor::new(vec![1, 2, 3], vec![3, 1]);

    assert_eq!(t1.T(), t2);
}

#[test]
#[allow(non_snake_case)]
fn test_tensor_n3_r2_transpose() {
    let t1 = Tensor::grid(vec![1, 2, 3, 4, 5, 6], 2, 3);

    let t2 = Tensor::grid(vec![1, 4, 2, 5, 3, 6], 3, 2);

    assert_eq!(t1.T(), t2);
}

#[test]
fn test_tensor_rank_one_transpose_involution() {
    let t = Tensor::vector(vec![5, -7, 11]);
    assert_eq!(t.T().T(), Tensor::vector(vec![5, -7, 11]));
}

#[test]
fn test_ket_transpose_involution() {
    let k = Ket::new(vec![4, -5, 6]);
    let b = k.T();
    assert_eq!(
        b,
        Bra::new(vec![
            Ket::new(vec![4]),
            Ket::new(vec![-5]),
            Ket::new(vec![6]),
        ])
    );
    assert_eq!(b.T(), Ket::new(vec![4, -5, 6]));
}

#[test]
fn test_tensor_add_and_contract() {
    let a = Tensor::vector(vec![1, 2, 3]);
    let b = Tensor::vector(vec![4, 5, 6]);
    assert_eq!(a.clone().add(b.clone()), Tensor::vector(vec![5, 7, 9]));
    assert_eq!(a.mul(b), 32);
}

#[test]
fn test_tensor_map_doubles_entries() {
    let t = Tensor::vector(vec![1, -2, 3]);
    assert_eq!(t.map(|x| x * 2), Tensor::vector(vec![2, -4, 6]));
}

#[test]
fn test_ket_map_and_scale() {
    let k = Ket::new(vec![1, -2, 3]);
    assert_eq!(k.map(|x| x + 1), Ket::new(vec![2, -1, 4]));
    let k2 = Ket::new(vec![1, -2, 3]);
    assert_eq!(k2.mul(-3), Ket::new(vec![-3, 6, -9]));
}

#[test]
fn test_bra_map_keeps_columns_aligned() {
    let b = Bra::new(vec![Ket::new(vec![1, 2]), Ket::new(vec![3, 4])]);
    let doubled = b.map(|k| k.mul(2));
    assert_eq!(
        doubled,
        Bra::new(vec![Ket::new(vec![2, 4]), Ket::new(vec![6, 8])])
    );
}

#[test]
fn test_bra_mul_applies_operator() {
    // The identity operator leaves the coefficient vector unchanged.
    let identity = Bra::new(vec![Ket::new(vec![1, 0]), Ket::new(vec![0, 1])]);
    let v = Ket::new(vec![7, -9]);
    assert_eq!(identity.mul(v), Ket::new(vec![7, -9]));

    // A swap operator exchanges the two columns.
    let swap = Bra::new(vec![Ket::new(vec![0, 1]), Ket::new(vec![1, 0])]);
    assert_eq!(swap.mul(Ket::new(vec![7, -9])), Ket::new(vec![-9, 7]));
}

#[test]
fn test_bra_add() {
    let a = Bra::new(vec![Ket::new(vec![1, 2]), Ket::new(vec![3, 4])]);
    let b = Bra::new(vec![Ket::new(vec![10, 20]), Ket::new(vec![30, 40])]);
    assert_eq!(
        a.add(b),
        Bra::new(vec![Ket::new(vec![11, 22]), Ket::new(vec![33, 44])])
    );
}

#[test]
fn test_ket_add_and_dot() {
    let a = Ket::new(vec![1, 2]);
    let b = Ket::new(vec![3, 4]);
    assert_eq!(a.dot(&b), 11);
    assert_eq!(a.add(b), Ket::new(vec![4, 6]));
}

#[test]
fn test_flatten_arrays() {
    let flat = flatten_arrays(vec![vec![1, 2], vec![3, 4], vec![5, 6]], 2);
    assert_eq!(flat, vec![1, 2, 3, 4, 5, 6]);
}

#[test]
fn test_as_array_views() {
    let t = Tensor::vector(vec![1, 2]);
    assert_eq!(t.as_array(), &vec![1, 2]);
    let k = Ket::new(vec![3, 4]);
    assert_eq!(k.as_array(), &vec![3, 4]);
    let b = Bra::new(vec![Ket::new(vec![5])]);
    assert_eq!(b.as_array(), &vec![Ket::new(vec![5])]);
}
