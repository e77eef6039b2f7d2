// Validation, determinism and component-level behavior of the compiler.

use knut::compile_equation;
use knut::parse_equation;
use knut::resolve_dims;
use knut::EinsumError;
use knut::NDArray;

#[test]
fn rejects_non_letter_label() {
    let x = NDArray::new((0..6).collect::<Vec<i32>>(), "i32", vec![2, 3]);

    let r = compile_equation("1j->j", &vec![x]);

    assert_eq!(r.unwrap_err(), EinsumError::MalformedEquation);
}

#[test]
fn rejects_operand_count_mismatch() {
    let x = NDArray::new((0..6).collect::<Vec<i32>>(), "i32", vec![2, 3]);

    let r = compile_equation("ij,jk->ik", &vec![x]);

    assert_eq!(r.unwrap_err(), EinsumError::MalformedEquation);
}

#[test]
fn rejects_missing_arrow() {
    let x = NDArray::new((0..6).collect::<Vec<i32>>(), "i32", vec![2, 3]);

    let r = compile_equation("ij", &vec![x]);

    assert_eq!(r.unwrap_err(), EinsumError::MalformedEquation);
}

#[test]
fn rejects_empty_input_term() {
    let x = NDArray::new((0..6).collect::<Vec<i32>>(), "i32", vec![2, 3]);
    let y = NDArray::new((0..6).collect::<Vec<i32>>(), "i32", vec![2, 3]);

    let r = compile_equation("ij,->", &vec![x, y]);

    assert_eq!(r.unwrap_err(), EinsumError::MalformedEquation);
}

#[test]
fn rejects_uppercase_output_label() {
    let x = NDArray::new((0..6).collect::<Vec<i32>>(), "i32", vec![2, 3]);

    let r = compile_equation("ij->J", &vec![x]);

    assert_eq!(r.unwrap_err(), EinsumError::MalformedEquation);
}

#[test]
fn rejects_term_shorter_than_shape() {
    let x = NDArray::new((0..6).collect::<Vec<i32>>(), "i32", vec![2, 3]);

    let r = compile_equation("i->i", &vec![x]);

    assert_eq!(r.unwrap_err(), EinsumError::ShapeMismatch);
}

#[test]
fn rejects_term_longer_than_shape() {
    let x = NDArray::new((0..6).collect::<Vec<i32>>(), "i32", vec![6]);

    let r = compile_equation("ij->ij", &vec![x]);

    assert_eq!(r.unwrap_err(), EinsumError::ShapeMismatch);
}

#[test]
fn compilation_is_deterministic() {
    let shapes: Vec<Vec<usize>> = vec![vec![2, 3], vec![3, 5]];
    let first = {
        let x = NDArray::new((0..6).collect::<Vec<i32>>(), "i32", shapes[0].clone());
        let y = NDArray::new((0..15).collect::<Vec<i32>>(), "i32", shapes[1].clone());
        compile_equation("ik,kj->ij", &vec![x, y]).unwrap()
    };
    let second = {
        let x = NDArray::new((0..6).collect::<Vec<i32>>(), "i32", shapes[0].clone());
        let y = NDArray::new((0..15).collect::<Vec<i32>>(), "i32", shapes[1].clone());
        compile_equation("ik,kj->ij", &vec![x, y]).unwrap()
    };

    assert_eq!(first.0, second.0);
    assert_eq!(first.1, second.1);
}

#[test]
fn trims_surrounding_whitespace() {
    let x = NDArray::new((0..6).collect::<Vec<i32>>(), "i32", vec![2, 3]);
    let spaced = compile_equation("  ij->ji \t", &vec![x]).unwrap();

    let a = NDArray::new((0..6).collect::<Vec<i32>>(), "i32", vec![2, 3]);
    let plain = compile_equation("ij->ji", &vec![a]).unwrap();

    assert_eq!(spaced.0, plain.0);
    assert_eq!(spaced.1, plain.1);
}

#[test]
fn parses_terms_and_output() {
    let eq = parse_equation("ik,kj->ij", 2).unwrap();

    assert_eq!(eq.input_terms, vec![vec![b'i', b'k'], vec![b'k', b'j']]);
    assert_eq!(eq.output_term, vec![b'i', b'j']);
}

#[test]
fn parses_empty_output_term() {
    let eq = parse_equation(" ij-> ", 1).unwrap();

    assert_eq!(eq.input_terms, vec![vec![b'i', b'j']]);
    assert_eq!(eq.output_term, Vec::<u8>::new());
}

#[test]
fn resolves_sizes_with_later_occurrence_winning() {
    let eq = parse_equation("ij,jk->ik", 2).unwrap();
    let shapes: Vec<Vec<usize>> = vec![vec![2, 3], vec![4, 5]];

    let dt = resolve_dims(&eq, &shapes).unwrap();

    assert_eq!(dt.lookup(b'i'), Some(2));
    // `j` is resolved twice; the later operand's size overwrites.
    assert_eq!(dt.lookup(b'j'), Some(4));
    assert_eq!(dt.lookup(b'k'), Some(5));
    assert_eq!(dt.lookup(b'z'), None);
}

#[test]
fn ndarray_records_size_and_ndim() {
    let a = NDArray::new((0..24).collect::<Vec<i32>>(), "i32", vec![2, 3, 4]);

    assert_eq!(a.size, 24);
    assert_eq!(a.ndim, 3);
    assert_eq!(a.shape, vec![2, 3, 4]);
    assert_eq!(a.dtype, "i32");
}

#[test]
fn ndarray_reshape_replaces_shape_only() {
    let mut a = NDArray::new((0..6).collect::<Vec<i32>>(), "i32", vec![2, 3]);

    a.reshape(vec![3, 2]);

    assert_eq!(a.shape, vec![3, 2]);
    assert_eq!(a.size, 6);
    assert_eq!(a.ndim, 2);
}

#[test]
fn scalar_output_shape_is_one() {
    let x = NDArray::new((0..4).collect::<Vec<i32>>(), "i32", vec![4]);

    let (_code, shape) = compile_equation("i->", &vec![x]).unwrap();

    assert_eq!(shape, vec![1]);
}
