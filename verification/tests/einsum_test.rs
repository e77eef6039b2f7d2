// The thirteen contraction scenarios, checked against the compiler: each
// equation and operand set must produce exactly the expected program text
// for the evaluation engine, and the expected output shape.

use knut::compile_equation;
use knut::NDArray;

fn compile_i32(equation: &str, operands: &Vec<NDArray<i32>>) -> (String, Vec<usize>) {
    compile_equation(equation, operands).expect("valid equation must compile")
}

#[test]
fn transpose() {
    let x = NDArray::new((0..6).collect(), "i32", vec![2, 3]);

    let (code, shape) = compile_i32("ij->ji", &vec![x]);

    assert_eq!(
        code,
        "|arg0: vec[i32]| flatten(result(for(rangeiter(0L, 3L, 1L), appender[vec[i32]], \
         |b, j, t| merge(b, result(for(rangeiter(0L, 2L, 1L), appender[i32], |b, i, t| \
         merge(b, lookup(arg0, (i * 3L) + (j * 1L)))))))))"
    );
    assert_eq!(shape, vec![3, 2]);
}

#[test]
fn sum() {
    let x = NDArray::new((0..6).collect(), "i32", vec![2, 3]);

    let (code, shape) = compile_i32("ij->", &vec![x]);

    assert_eq!(
        code,
        "|arg0: vec[i32]| merge(appender[i32], result(for(rangeiter(0L, 2L, 1L), \
         merger[i32, +], |b, i, t| merge(b, result(for(rangeiter(0L, 3L, 1L), \
         merger[i32, +], |b, j, t| merge(b, lookup(arg0, (i * 3L) + (j * 1L)))))))))"
    );
    assert_eq!(shape, vec![1]);
}

#[test]
fn column_sum() {
    let x = NDArray::new((0..6).collect(), "i32", vec![2, 3]);

    let (code, shape) = compile_i32("ij->j", &vec![x]);

    assert_eq!(
        code,
        "|arg0: vec[i32]| result(for(rangeiter(0L, 3L, 1L), appender[i32], |b, j, t| \
         merge(b, result(for(rangeiter(0L, 2L, 1L), merger[i32, +], |b, i, t| merge(b, \
         lookup(arg0, (i * 3L) + (j * 1L))))))))"
    );
    assert_eq!(shape, vec![3]);
}

#[test]
fn row_sum() {
    let x = NDArray::new((0..6).collect(), "i32", vec![2, 3]);

    let (code, shape) = compile_i32("ij->i", &vec![x]);

    assert_eq!(
        code,
        "|arg0: vec[i32]| result(for(rangeiter(0L, 2L, 1L), appender[i32], |b, i, t| \
         merge(b, result(for(rangeiter(0L, 3L, 1L), merger[i32, +], |b, j, t| merge(b, \
         lookup(arg0, (i * 3L) + (j * 1L))))))))"
    );
    assert_eq!(shape, vec![2]);
}

#[test]
fn matrix_vector_multiplication() {
    let x = NDArray::new((0..6).collect(), "i32", vec![2, 3]);
    let y = NDArray::new((0..3).collect(), "i32", vec![3]);

    let (code, shape) = compile_i32("ik,k->i", &vec![x, y]);

    assert_eq!(
        code,
        "|arg0: vec[i32], arg1: vec[i32]| result(for(rangeiter(0L, 2L, 1L), \
         appender[i32], |b, i, t| merge(b, result(for(rangeiter(0L, 3L, 1L), \
         merger[i32, +], |b, k, t| merge(b, lookup(arg0, (i * 3L) + (k * 1L)) * \
         lookup(arg1, (k * 1L))))))))"
    );
    assert_eq!(shape, vec![2]);
}

#[test]
fn matrix_matrix_multiplication() {
    let x = NDArray::new((0..6).collect(), "i32", vec![2, 3]);
    let y = NDArray::new((0..15).collect(), "i32", vec![3, 5]);

    let (code, shape) = compile_i32("ik,kj->ij", &vec![x, y]);

    assert_eq!(
        code,
        "|arg0: vec[i32], arg1: vec[i32]| flatten(result(for(rangeiter(0L, 2L, 1L), \
         appender[vec[i32]], |b, i, t| merge(b, result(for(rangeiter(0L, 5L, 1L), \
         appender[i32], |b, j, t| merge(b, result(for(rangeiter(0L, 3L, 1L), \
         merger[i32, +], |b, k, t| merge(b, lookup(arg0, (i * 3L) + (k * 1L)) * \
         lookup(arg1, (k * 5L) + (j * 1L))))))))))))"
    );
    assert_eq!(shape, vec![2, 5]);
}

#[test]
fn vector_dot_product() {
    let x = NDArray::new((0..3).collect(), "i32", vec![3]);
    let y = NDArray::new((3..6).collect(), "i32", vec![3]);

    let (code, shape) = compile_i32("i,i->", &vec![x, y]);

    assert_eq!(
        code,
        "|arg0: vec[i32], arg1: vec[i32]| merge(appender[i32], \
         result(for(rangeiter(0L, 3L, 1L), merger[i32, +], |b, i, t| merge(b, \
         lookup(arg0, (i * 1L)) * lookup(arg1, (i * 1L))))))"
    );
    assert_eq!(shape, vec![1]);
}

#[test]
fn matrix_dot_product() {
    let x = NDArray::new((0..6).collect(), "i32", vec![2, 3]);
    let y = NDArray::new((6..12).collect(), "i32", vec![2, 3]);

    let (code, shape) = compile_i32("ij,ij->", &vec![x, y]);

    assert_eq!(
        code,
        "|arg0: vec[i32], arg1: vec[i32]| merge(appender[i32], \
         result(for(rangeiter(0L, 2L, 1L), merger[i32, +], |b, i, t| merge(b, \
         result(for(rangeiter(0L, 3L, 1L), merger[i32, +], |b, j, t| merge(b, \
         lookup(arg0, (i * 3L) + (j * 1L)) * lookup(arg1, (i * 3L) + (j * 1L)))))))))"
    );
    assert_eq!(shape, vec![1]);
}

#[test]
fn hadamard_product() {
    let x = NDArray::new((0..6).collect(), "i32", vec![2, 3]);
    let y = NDArray::new((6..12).collect(), "i32", vec![2, 3]);

    let (code, shape) = compile_i32("ij,ij->ij", &vec![x, y]);

    assert_eq!(
        code,
        "|arg0: vec[i32], arg1: vec[i32]| flatten(result(for(rangeiter(0L, 2L, 1L), \
         appender[vec[i32]], |b, i, t| merge(b, result(for(rangeiter(0L, 3L, 1L), \
         appender[i32], |b, j, t| merge(b, lookup(arg0, (i * 3L) + (j * 1L)) * \
         lookup(arg1, (i * 3L) + (j * 1L)))))))))"
    );
    assert_eq!(shape, vec![2, 3]);
}

#[test]
fn outer_product() {
    let x = NDArray::new((0..3).collect(), "i32", vec![3]);
    let y = NDArray::new((3..7).collect(), "i32", vec![4]);

    let (code, shape) = compile_i32("i,j->ij", &vec![x, y]);

    assert_eq!(
        code,
        "|arg0: vec[i32], arg1: vec[i32]| flatten(result(for(rangeiter(0L, 3L, 1L), \
         appender[vec[i32]], |b, i, t| merge(b, result(for(rangeiter(0L, 4L, 1L), \
         appender[i32], |b, j, t| merge(b, lookup(arg0, (i * 1L)) * lookup(arg1, \
         (j * 1L)))))))))"
    );
    assert_eq!(shape, vec![3, 4]);
}

#[test]
fn batch_matrix_multiplication() {
    let x = NDArray::new((0..30).collect(), "i32", vec![3, 2, 5]);
    let y = NDArray::new((0..45).collect(), "i32", vec![3, 5, 3]);

    let (code, shape) = compile_i32("ijk,ikl->ijl", &vec![x, y]);

    assert_eq!(
        code,
        "|arg0: vec[i32], arg1: vec[i32]| flatten(flatten(result(for(rangeiter(0L, 3L, \
         1L), appender[vec[vec[i32]]], |b, i, t| merge(b, result(for(rangeiter(0L, 2L, \
         1L), appender[vec[i32]], |b, j, t| merge(b, result(for(rangeiter(0L, 3L, 1L), \
         appender[i32], |b, l, t| merge(b, result(for(rangeiter(0L, 5L, 1L), \
         merger[i32, +], |b, k, t| merge(b, lookup(arg0, (i * 10L) + (j * 5L) + \
         (k * 1L)) * lookup(arg1, (i * 15L) + (k * 3L) + (l * 1L))))))))))))))))"
    );
    assert_eq!(shape, vec![3, 2, 3]);
}

#[test]
fn tensor_contraction() {
    let x = NDArray::new((0..210).collect(), "i32", vec![2, 3, 5, 7]);
    let y = NDArray::new((0..360).collect(), "i32", vec![1, 4, 3, 6, 5]);

    let (_code, shape) = compile_i32("pqrs,tuqvr->pstuv", &vec![x, y]);

    assert_eq!(shape, vec![2, 7, 1, 4, 6]);
}

#[test]
fn bilinear_transformation() {
    let x = NDArray::new((0..6).collect(), "i32", vec![2, 3]);
    let y = NDArray::new((0..105).collect(), "i32", vec![5, 3, 7]);
    let z = NDArray::new((0..14).collect(), "i32", vec![2, 7]);

    let (code, shape) = compile_i32("ik,jkl,il->ij", &vec![x, y, z]);

    assert_eq!(
        code,
        "|arg0: vec[i32], arg1: vec[i32], arg2: vec[i32]| \
         flatten(result(for(rangeiter(0L, 2L, 1L), appender[vec[i32]], |b, i, t| \
         merge(b, result(for(rangeiter(0L, 5L, 1L), appender[i32], |b, j, t| merge(b, \
         result(for(rangeiter(0L, 3L, 1L), merger[i32, +], |b, k, t| merge(b, \
         result(for(rangeiter(0L, 7L, 1L), merger[i32, +], |b, l, t| merge(b, \
         lookup(arg0, (i * 3L) + (k * 1L)) * lookup(arg1, (j * 21L) + (k * 7L) + \
         (l * 1L)) * lookup(arg2, (i * 7L) + (l * 1L)))))))))))))))"
    );
    assert_eq!(shape, vec![2, 5]);
}
