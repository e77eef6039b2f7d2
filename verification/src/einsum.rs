//! The equation-to-program compiler: turns an einsum equation and the
//! operands' shapes into a textual expression program for the external
//! evaluation engine, together with the output array's shape.
//!
//! The generated program looks up one element per operand at a row-major
//! flat offset, multiplies the lookups, sums the product over every axis
//! that does not survive into the output (in ascending label order), builds
//! the output with one nested loop per output axis, and flattens the
//! nesting into a single row-major sequence.

use vstd::prelude::*;
use vstd::string::{StringExecFns, StringSliceAdditionalSpecFns};

use crate::dims::{dims_map, label_used, lemma_dims_map_dom, resolve_dims, DimTable};
use crate::equation::{
    all_lower, arrow_at, arrow_pos, equation_ok, eq_dest, eq_lhs, eq_terms, lemma_split_terms_wf,
    lhs_ok, parse_equation, trimmed, EquationSpec,
};
use crate::ndarray::NDArray;
use crate::text::{dec_seq, dec_string, is_lower, label_str};

verus! {

/// Why an einsum call was rejected before reaching the evaluation engine.
#[derive(Clone, Copy, Debug, PartialEq, Eq, Structural)]
pub enum EinsumError {
    /// The equation string does not match the grammar, or the number of
    /// input terms differs from the number of operands.
    MalformedEquation,
    /// An input term's length differs from its operand's dimensionality.
    ShapeMismatch,
}

/// The row-major stride of the axis at position `i` of `term`: the product
/// of the resolved sizes of all later axes of the same term.
pub open spec fn stride(term: Seq<u8>, dims: Map<u8, usize>, i: int) -> nat
    decreases term.len() - i,
{
    if i + 1 >= term.len() || i < 0 {
        1
    } else {
        (dims[term[i + 1]] as nat) * stride(term, dims, i + 1)
    }
}

/// Every stride of the term fits in `usize`, so the running stride product
/// cannot overflow.
pub open spec fn strides_fit(term: Seq<u8>, dims: Map<u8, usize>) -> bool {
    forall|i: int| 0 <= i < term.len() ==> #[trigger] stride(term, dims, i) <= usize::MAX
}

/// The summation labels at or above letter `c`: labels used in some input
/// term but absent from the output term, in ascending order, deduplicated.
pub open spec fn sum_indices_from(c: int, terms: Seq<Seq<u8>>, dest: Seq<u8>) -> Seq<u8>
    decreases 123 - c,
{
    if c < 97 || c >= 123 {
        Seq::empty()
    } else {
        let rest = sum_indices_from(c + 1, terms, dest);
        if label_used(terms, c as u8) && !dest.contains(c as u8) {
            seq![c as u8] + rest
        } else {
            rest
        }
    }
}

/// All summation labels, ascending and deduplicated.
pub open spec fn sum_indices(terms: Seq<Seq<u8>>, dest: Seq<u8>) -> Seq<u8> {
    sum_indices_from(97, terms, dest)
}

/// One summand of a flat-offset formula: the axis variable times its stride.
pub open spec fn axis_term_text(c: u8, s: nat) -> Seq<char> {
    "("@ + seq![c as char] + " * "@ + dec_seq(s) + "L)"@
}

/// The flat-offset formula of `term` from position `i` on: the axis-times-
/// stride summands joined by `+`.
pub open spec fn index_text_from(term: Seq<u8>, dims: Map<u8, usize>, i: int) -> Seq<char>
    decreases term.len() - i,
{
    if i < 0 || i >= term.len() - 1 {
        axis_term_text(term[i], stride(term, dims, i))
    } else {
        axis_term_text(term[i], stride(term, dims, i)) + " + "@ + index_text_from(
            term,
            dims,
            i + 1,
        )
    }
}

/// The whole flat-offset formula of a (non-empty) term.
pub open spec fn index_text(term: Seq<u8>, dims: Map<u8, usize>) -> Seq<char> {
    index_text_from(term, dims, 0)
}

/// The element lookup of operand `i`: its buffer indexed at the term's
/// flat-offset formula.
pub open spec fn lookup_text(i: nat, term: Seq<u8>, dims: Map<u8, usize>) -> Seq<char> {
    "lookup(arg"@ + dec_seq(i) + ", "@ + index_text(term, dims) + ")"@
}

/// The element product of the operands from `i` on: their lookups joined
/// by `*`, in operand order.
pub open spec fn product_text_from(terms: Seq<Seq<u8>>, dims: Map<u8, usize>, i: int) -> Seq<char>
    decreases terms.len() - i,
{
    if i < 0 || i >= terms.len() - 1 {
        lookup_text(i as nat, terms[i], dims)
    } else {
        lookup_text(i as nat, terms[i], dims) + " * "@ + product_text_from(terms, dims, i + 1)
    }
}

/// The whole element product of a (non-empty) operand list.
pub open spec fn product_text(terms: Seq<Seq<u8>>, dims: Map<u8, usize>) -> Seq<char> {
    product_text_from(terms, dims, 0)
}

/// One summation reduction: iterate axis `c` over its full range and merge
/// the body additively into an accumulator of the element type.
pub open spec fn merger_wrap(c: u8, dim: nat, dtype: Seq<char>, body: Seq<char>) -> Seq<char> {
    "result(for(rangeiter(0L, "@ + dec_seq(dim) + "L, 1L), merger["@ + dtype + ", +], |b, "@
        + seq![c as char] + ", t| merge(b, "@ + body + ")))"@
}

/// The body wrapped in one summation reduction per summation label, the
/// first label of `sums` outermost.
pub open spec fn sum_text(
    sums: Seq<u8>,
    dims: Map<u8, usize>,
    dtype: Seq<char>,
    body: Seq<char>,
) -> Seq<char>
    decreases sums.len(),
{
    if sums.len() == 0 {
        body
    } else {
        merger_wrap(
            sums[0],
            dims[sums[0]] as nat,
            dtype,
            sum_text(sums.skip(1), dims, dtype, body),
        )
    }
}

/// The element type wrapped in `k` levels of `vec[..]`.
pub open spec fn vec_ty(dtype: Seq<char>, k: nat) -> Seq<char>
    decreases k,
{
    if k == 0 {
        dtype
    } else {
        "vec["@ + vec_ty(dtype, (k - 1) as nat) + "]"@
    }
}

/// One output-construction loop: iterate axis `c` over its full range and
/// append the body to a growable sequence of type `ty`.
pub open spec fn appender_wrap(c: u8, dim: nat, ty: Seq<char>, body: Seq<char>) -> Seq<char> {
    "result(for(rangeiter(0L, "@ + dec_seq(dim) + "L, 1L), appender["@ + ty + "], |b, "@
        + seq![c as char] + ", t| merge(b, "@ + body + ")))"@
}

/// The body wrapped in one construction loop per output axis, the first
/// axis of `dest` outermost; the loop for `dest[j]` appends values nested
/// `dest.len() - 1 - j` levels deep.
pub open spec fn out_text(
    dest: Seq<u8>,
    dims: Map<u8, usize>,
    dtype: Seq<char>,
    body: Seq<char>,
) -> Seq<char>
    decreases dest.len(),
{
    if dest.len() == 0 {
        body
    } else {
        appender_wrap(
            dest[0],
            dims[dest[0]] as nat,
            vec_ty(dtype, (dest.len() - 1) as nat),
            out_text(dest.skip(1), dims, dtype, body),
        )
    }
}

/// The body wrapped in `k` applications of `flatten`.
pub open spec fn flatten_text(k: nat, body: Seq<char>) -> Seq<char>
    decreases k,
{
    if k == 0 {
        body
    } else {
        "flatten("@ + flatten_text((k - 1) as nat, body) + ")"@
    }
}

/// A scalar result wrapped into a one-element sequence.
pub open spec fn scalar_wrap(dtype: Seq<char>, body: Seq<char>) -> Seq<char> {
    "merge(appender["@ + dtype + "], "@ + body + ")"@
}

/// The declaration of parameter `i`: a flat sequence of the element type.
pub open spec fn param_text(i: nat, dtype: Seq<char>) -> Seq<char> {
    "arg"@ + dec_seq(i) + ": vec["@ + dtype + "]"@
}

/// The parameter declarations from `i` to `n - 1`, joined by commas.
pub open spec fn params_text_from(n: nat, dtype: Seq<char>, i: int) -> Seq<char>
    decreases n - i,
{
    if i < 0 || i >= n - 1 {
        param_text(i as nat, dtype)
    } else {
        param_text(i as nat, dtype) + ", "@ + params_text_from(n, dtype, i + 1)
    }
}

/// The complete generated program for a parsed equation, resolved
/// dimension map and element type: a lambda taking one flattened buffer
/// per operand, whose body is the product term under the summation
/// reductions, the output-construction loops and the flattening, with a
/// scalar result wrapped into a one-element sequence instead when the
/// output term is empty.
pub open spec fn program_text(
    terms: Seq<Seq<u8>>,
    dest: Seq<u8>,
    dims: Map<u8, usize>,
    dtype: Seq<char>,
) -> Seq<char> {
    let summed = sum_text(sum_indices(terms, dest), dims, dtype, product_text(terms, dims));
    let looped = out_text(dest, dims, dtype, summed);
    let flattened = flatten_text(if dest.len() == 0 {
        0
    } else {
        (dest.len() - 1) as nat
    }, looped);
    let body = if dest.len() == 0 {
        scalar_wrap(dtype, flattened)
    } else {
        flattened
    };
    "|"@ + params_text_from(terms.len(), dtype, 0) + "| "@ + body
}

/// The output array's shape: one resolved size per output label, in output
/// order; a scalar result is stored as a one-element array.
pub open spec fn out_shape(dest: Seq<u8>, dims: Map<u8, usize>) -> Seq<usize> {
    if dest.len() == 0 {
        seq![1usize]
    } else {
        Seq::new(dest.len(), |j: int| dims[dest[j]])
    }
}

/// Every label among the summation indices is a lowercase label that is
/// used in some input term and absent from the output term.
pub proof fn lemma_sum_indices_wf(c: int, terms: Seq<Seq<u8>>, dest: Seq<u8>)
    ensures
        forall|x: int|
            0 <= x < sum_indices_from(c, terms, dest).len() ==> {
                let e = #[trigger] sum_indices_from(c, terms, dest)[x];
                is_lower(e) && label_used(terms, e) && !dest.contains(e)
            },
    decreases 123 - c,
{
    if 97 <= c < 123 {
        lemma_sum_indices_wf(c + 1, terms, dest);
        let rest = sum_indices_from(c + 1, terms, dest);
        if label_used(terms, c as u8) && !dest.contains(c as u8) {
            assert forall|x: int|
                0 <= x < sum_indices_from(c, terms, dest).len() implies {
                let e = #[trigger] sum_indices_from(c, terms, dest)[x];
                is_lower(e) && label_used(terms, e) && !dest.contains(e)
            } by {
                if x >= 1 {
                    assert(sum_indices_from(c, terms, dest)[x] == rest[x - 1]);
                }
            }
        }
    }
}

#[verifier::loop_isolation(false)]
fn contains_label(v: &Vec<u8>, c: u8) -> (r: bool)
    ensures
        r == v@.contains(c),
{
    let mut i: usize = 0;
    while i < v.len()
        invariant
            0 <= i <= v@.len(),
            forall|j: int| 0 <= j < i ==> v@[j] != c,
        decreases v@.len() - i,
    {
        if v[i] == c {
            proof {
                assert(v@[i as int] == c);
            }
            return true;
        }
        i = i + 1;
    }
    proof {
        assert(!v@.contains(c));
    }
    false
}

#[verifier::loop_isolation(false)]
fn label_used_exec(eq: &EquationSpec, c: u8) -> (r: bool)
    ensures
        r == label_used(eq.input_terms.deep_view(), c),
{
    let ghost dv = eq.input_terms.deep_view();
    proof {
        assert(forall|x: int| 0 <= x < dv.len() ==> dv[x] == #[trigger] eq.input_terms@[x]@);
    }
    let mut i: usize = 0;
    while i < eq.input_terms.len()
        invariant
            0 <= i <= dv.len(),
            dv == eq.input_terms.deep_view(),
            dv.len() == eq.input_terms@.len(),
            forall|x: int| 0 <= x < dv.len() ==> dv[x] == #[trigger] eq.input_terms@[x]@,
            forall|i2: int, j: int| 0 <= i2 < i && 0 <= j < dv[i2].len() ==> dv[i2][j] != c,
        decreases dv.len() - i,
    {
        let term: &Vec<u8> = &eq.input_terms[i];
        let mut j: usize = 0;
        while j < term.len()
            invariant
                0 <= j <= term@.len(),
                term@ == dv[i as int],
                0 <= i < dv.len(),
                forall|j2: int| 0 <= j2 < j ==> term@[j2] != c,
            decreases term@.len() - j,
        {
            if term[j] == c {
                proof {
                    assert(dv[i as int][j as int] == c);
                    assert(label_used(dv, c));
                }
                return true;
            }
            j = j + 1;
        }
        proof {
            assert(forall|j2: int| 0 <= j2 < dv[i as int].len() ==> dv[i as int][j2] != c);
        }
        i = i + 1;
    }
    proof {
        assert(!label_used(dv, c));
    }
    false
}

/// Computes the summation labels: used in some input term, absent from the
/// output term, ascending, deduplicated.
#[verifier::loop_isolation(false)]
fn sum_indices_exec(eq: &EquationSpec) -> (r: Vec<u8>)
    ensures
        r@ == sum_indices(eq.input_terms.deep_view(), eq.output_term@),
{
    let ghost terms = eq.input_terms.deep_view();
    let ghost dest = eq.output_term@;
    let mut r: Vec<u8> = Vec::new();
    let mut c: u8 = 97;
    proof {
        assert(r@ + sum_indices_from(97, terms, dest) =~= sum_indices(terms, dest));
    }
    while c < 123
        invariant
            97 <= c <= 123,
            r@ + sum_indices_from(c as int, terms, dest) == sum_indices(terms, dest),
        decreases 123 - c,
    {
        let used = label_used_exec(eq, c);
        let in_dest = contains_label(&eq.output_term, c);
        let ghost r0 = r@;
        if used && !in_dest {
            r.push(c);
            proof {
                assert(sum_indices_from(c as int, terms, dest) == seq![c] + sum_indices_from(
                    c as int + 1,
                    terms,
                    dest,
                ));
                assert(r@ + sum_indices_from(c as int + 1, terms, dest) =~= r0 + sum_indices_from(
                    c as int,
                    terms,
                    dest,
                ));
            }
        } else {
            proof {
                assert(sum_indices_from(c as int, terms, dest) == sum_indices_from(
                    c as int + 1,
                    terms,
                    dest,
                ));
            }
        }
        c = c + 1;
    }
    proof {
        assert(sum_indices_from(123, terms, dest) =~= Seq::empty());
        assert(r@ =~= sum_indices(terms, dest));
    }
    r
}

/// Builds one axis-times-stride summand.
fn axis_text(c: u8, s_val: usize) -> (r: String)
    requires
        is_lower(c),
    ensures
        r@ == axis_term_text(c, s_val as nat),
{
    let mut r = String::from_str("(");
    r.append(label_str(c));
    r.append(" * ");
    let d = dec_string(s_val);
    r.append(d.as_str());
    r.append("L)");
    r
}

/// Builds the flat-offset formula of one term, computing the strides from
/// the innermost axis outward.
#[verifier::loop_isolation(false)]
fn index_text_exec(term: &Vec<u8>, dt: &DimTable) -> (r: String)
    requires
        dt.wf(),
        term@.len() > 0,
        forall|j: int| 0 <= j < term@.len() ==> is_lower(#[trigger] term@[j]),
        forall|j: int| 0 <= j < term@.len() ==> dt@.dom().contains(#[trigger] term@[j]),
        strides_fit(term@, dt@),
    ensures
        r@ == index_text(term@, dt@),
{
    let n = term.len();
    let mut i: usize = n - 1;
    let mut stride_v: usize = 1;
    let mut s = axis_text(term[n - 1], 1);
    proof {
        assert(stride(term@, dt@, n - 1) == 1);
    }
    while i > 0
        invariant
            0 <= i <= n - 1,
            stride_v == stride(term@, dt@, i as int),
            s@ == index_text_from(term@, dt@, i as int),
        decreases i,
    {
        proof {
            assert(stride(term@, dt@, i - 1) == (dt@[term@[i as int]] as nat) * stride(
                term@,
                dt@,
                i as int,
            ));
            assert(stride(term@, dt@, i - 1) <= usize::MAX);
        }
        stride_v = dt.get(term[i]) * stride_v;
        i = i - 1;
        let mut ns = axis_text(term[i], stride_v);
        ns.append(" + ");
        ns.append(s.as_str());
        s = ns;
    }
    s
}

/// Builds the element lookup of operand `i`.
fn lookup_text_exec(i: usize, term: &Vec<u8>, dt: &DimTable) -> (r: String)
    requires
        dt.wf(),
        term@.len() > 0,
        forall|j: int| 0 <= j < term@.len() ==> is_lower(#[trigger] term@[j]),
        forall|j: int| 0 <= j < term@.len() ==> dt@.dom().contains(#[trigger] term@[j]),
        strides_fit(term@, dt@),
    ensures
        r@ == lookup_text(i as nat, term@, dt@),
{
    let mut r = String::from_str("lookup(arg");
    let d = dec_string(i);
    r.append(d.as_str());
    r.append(", ");
    let idx = index_text_exec(term, dt);
    r.append(idx.as_str());
    r.append(")");
    r
}

/// Builds the element product: every operand's lookup joined by `*`.
#[verifier::loop_isolation(false)]
fn product_text_exec(eq: &EquationSpec, dt: &DimTable) -> (r: String)
    requires
        dt.wf(),
        eq.input_terms@.len() > 0,
        forall|i: int|
            0 <= i < eq.input_terms@.len() ==> (#[trigger] eq.input_terms@[i])@.len() > 0,
        forall|i: int, j: int|
            0 <= i < eq.input_terms@.len() && 0 <= j < eq.input_terms@[i]@.len() ==> is_lower(
                #[trigger] eq.input_terms@[i]@[j],
            ),
        forall|i: int, j: int|
            0 <= i < eq.input_terms@.len() && 0 <= j < eq.input_terms@[i]@.len()
                ==> dt@.dom().contains(#[trigger] eq.input_terms@[i]@[j]),
        forall|i: int|
            0 <= i < eq.input_terms@.len() ==> strides_fit(
                (#[trigger] eq.input_terms@[i])@,
                dt@,
            ),
    ensures
        r@ == product_text(eq.input_terms.deep_view(), dt@),
{
    let ghost dv = eq.input_terms.deep_view();
    proof {
        assert(forall|x: int| 0 <= x < dv.len() ==> dv[x] == #[trigger] eq.input_terms@[x]@);
    }
    let n = eq.input_terms.len();
    let mut i: usize = n - 1;
    let mut s = lookup_text_exec(n - 1, &eq.input_terms[n - 1], dt);
    while i > 0
        invariant
            0 <= i <= n - 1,
            s@ == product_text_from(dv, dt@, i as int),
        decreases i,
    {
        i = i - 1;
        let mut ns = lookup_text_exec(i, &eq.input_terms[i], dt);
        ns.append(" * ");
        ns.append(s.as_str());
        s = ns;
    }
    s
}

/// Builds one summation reduction around the body.
fn merger_wrap_exec(c: u8, dim: usize, dtype: &str, body: &str) -> (r: String)
    requires
        is_lower(c),
    ensures
        r@ == merger_wrap(c, dim as nat, dtype@, body@),
{
    let mut r = String::from_str("result(for(rangeiter(0L, ");
    let d = dec_string(dim);
    r.append(d.as_str());
    r.append("L, 1L), merger[");
    r.append(dtype);
    r.append(", +], |b, ");
    r.append(label_str(c));
    r.append(", t| merge(b, ");
    r.append(body);
    r.append(")))");
    r
}

/// Builds one output-construction loop around the body.
fn appender_wrap_exec(c: u8, dim: usize, ty: &str, body: &str) -> (r: String)
    requires
        is_lower(c),
    ensures
        r@ == appender_wrap(c, dim as nat, ty@, body@),
{
    let mut r = String::from_str("result(for(rangeiter(0L, ");
    let d = dec_string(dim);
    r.append(d.as_str());
    r.append("L, 1L), appender[");
    r.append(ty);
    r.append("], |b, ");
    r.append(label_str(c));
    r.append(", t| merge(b, ");
    r.append(body);
    r.append(")))");
    r
}

/// Builds the declaration of parameter `i`.
fn param_text_exec(i: usize, dtype: &str) -> (r: String)
    ensures
        r@ == param_text(i as nat, dtype@),
{
    let mut r = String::from_str("arg");
    let d = dec_string(i);
    r.append(d.as_str());
    r.append(": vec[");
    r.append(dtype);
    r.append("]");
    r
}

/// The shape vectors of the operands, in operand order.
pub open spec fn operand_shapes<T>(ops: Seq<NDArray<T>>) -> Seq<Seq<usize>> {
    ops.map_values(|o: NDArray<T>| o.shape@)
}

/// The trimmed equation matches the grammar and has one input term per
/// operand.
pub open spec fn valid_equation_for(t: Seq<u8>, n: nat) -> bool {
    equation_ok(t) && eq_terms(t).len() == n
}

/// Every input term's length equals its operand's dimensionality.
pub open spec fn shapes_ok(terms: Seq<Seq<u8>>, shapes: Seq<Seq<usize>>) -> bool {
    terms.len() == shapes.len() && forall|i: int|
        0 <= i < terms.len() ==> (#[trigger] terms[i]).len() == shapes[i].len()
}

/// Every output label occurs in some input term, so its size is resolved.
pub open spec fn dest_labels_bound(t: Seq<u8>) -> bool {
    forall|j: int|
        0 <= j < eq_dest(t).len() ==> label_used(eq_terms(t), #[trigger] eq_dest(t)[j])
}

/// Every stride of every input term fits in `usize`.
pub open spec fn all_strides_fit(terms: Seq<Seq<u8>>, dims: Map<u8, usize>) -> bool {
    forall|i: int| 0 <= i < terms.len() ==> strides_fit(#[trigger] terms[i], dims)
}

fn clone_shape(v: &Vec<usize>) -> (r: Vec<usize>)
    ensures
        r@ == v@,
{
    let mut r: Vec<usize> = Vec::new();
    let mut i: usize = 0;
    while i < v.len()
        invariant
            0 <= i <= v@.len(),
            r@ == v@.take(i as int),
        decreases v@.len() - i,
    {
        r.push(v[i]);
        proof {
            assert(v@.take(i + 1) =~= v@.take(i as int).push(v@[i as int]));
        }
        i = i + 1;
    }
    proof {
        assert(v@.take(v@.len() as int) =~= v@);
    }
    r
}

/// Compiles an einsum equation against the operands' shapes into the
/// evaluation engine's expression language.
///
/// Succeeds exactly when the trimmed equation matches the grammar, has one
/// input term per operand, and every term's length equals its operand's
/// dimensionality; the result is then the generated program text, pinned
/// character by character by `program_text`, and the output shape, pinned
/// by `out_shape`. A bad equation is rejected with `MalformedEquation`, a
/// term/shape length disagreement with `ShapeMismatch`.
///
/// An output label that no input term mentions has no resolvable size, and
/// oversized stride products cannot be rendered from machine integers, so
/// such inputs are excluded by precondition.
#[verifier::loop_isolation(false)]
#[verifier::rlimit(100)]
pub fn compile_equation<T>(equation: &str, operands: &Vec<NDArray<T>>) -> (r: Result<
    (String, Vec<usize>),
    EinsumError,
>)
    requires
        ({
            let t = trimmed(equation.spec_bytes());
            (valid_equation_for(t, operands@.len()) && shapes_ok(
                eq_terms(t),
                operand_shapes(operands@),
            )) ==> (dest_labels_bound(t) && all_strides_fit(
                eq_terms(t),
                dims_map(eq_terms(t), operand_shapes(operands@)),
            ))
        }),
    ensures
        ({
            let t = trimmed(equation.spec_bytes());
            let dims = dims_map(eq_terms(t), operand_shapes(operands@));
            &&& (r is Ok <==> valid_equation_for(t, operands@.len()) && shapes_ok(
                eq_terms(t),
                operand_shapes(operands@),
            ))
            &&& (r matches Ok(p) ==> p.0@ == program_text(
                eq_terms(t),
                eq_dest(t),
                dims,
                operands@[0].dtype@,
            ) && p.1@ == out_shape(eq_dest(t), dims))
            &&& (r == Result::<(String, Vec<usize>), EinsumError>::Err(
                EinsumError::MalformedEquation,
            ) <==> !valid_equation_for(t, operands@.len()))
            &&& (r == Result::<(String, Vec<usize>), EinsumError>::Err(EinsumError::ShapeMismatch)
                <==> valid_equation_for(t, operands@.len()) && !shapes_ok(
                eq_terms(t),
                operand_shapes(operands@),
            ))
        }),
{
    let ghost t = trimmed(equation.spec_bytes());
    let ghost shapes_spec = operand_shapes(operands@);
    proof {
        assert(forall|x: int|
            0 <= x < operands@.len() ==> shapes_spec[x] == (#[trigger] operands@[x]).shape@);
    }

    let eq = match parse_equation(equation, operands.len()) {
        Ok(e) => e,
        Err(e) => {
            return Err(e);
        },
    };
    let ghost terms = eq_terms(t);
    let ghost dest = eq_dest(t);
    proof {
        assert(equation_ok(t));
        let w = arrow_pos(t);
        assert(arrow_at(t, w) && lhs_ok(t.take(w)) && all_lower(t.skip(w + 2)));
        lemma_split_terms_wf(eq_lhs(t));
        assert(terms.len() >= 1);
        assert(operands@.len() >= 1);
        assert(forall|j: int| 0 <= j < dest.len() ==> is_lower(#[trigger] dest[j]));
        assert(forall|i: int| 0 <= i < terms.len() ==> all_lower(#[trigger] terms[i]));
        assert(forall|i: int, j: int|
            0 <= i < terms.len() && 0 <= j < terms[i].len() ==> is_lower(#[trigger] terms[i][j]));
        assert(forall|x: int|
            0 <= x < terms.len() ==> #[trigger] eq.input_terms@[x]@ == terms[x]);
    }

    // The operands' shape vectors.
    let mut shapes: Vec<Vec<usize>> = Vec::new();
    let mut si: usize = 0;
    while si < operands.len()
        invariant
            0 <= si <= operands@.len(),
            shapes@.len() == si,
            forall|x: int| 0 <= x < si ==> (#[trigger] shapes@[x])@ == operands@[x].shape@,
        decreases operands@.len() - si,
    {
        shapes.push(clone_shape(&operands[si].shape));
        si = si + 1;
    }
    proof {
        assert(forall|x: int|
            0 <= x < shapes@.len() ==> shapes.deep_view()[x] == #[trigger] shapes@[x]@);
        assert(shapes.deep_view() =~= shapes_spec);
        assert(forall|x: int| 0 <= x < shapes@.len() ==> (#[trigger] shapes@[x])@ == shapes_spec[x]);
    }

    // Resolve the dimension map, rejecting term/shape length mismatches.
    let dt = match resolve_dims(&eq, &shapes) {
        Ok(d) => d,
        Err(e) => {
            proof {
                assert(!shapes_ok(terms, shapes_spec));
            }
            return Err(e);
        },
    };
    let ghost dims = dims_map(terms, shapes_spec);
    proof {
        assert(dt@ == dims);
        assert(shapes_ok(terms, shapes_spec));
        assert(dest_labels_bound(t) && all_strides_fit(terms, dims));
        lemma_dims_map_dom(terms, shapes_spec);
        assert(forall|i: int, j: int|
            0 <= i < terms.len() && 0 <= j < terms[i].len() ==> label_used(
                terms,
                #[trigger] terms[i][j],
            ));
        assert(forall|j: int| 0 <= j < dest.len() ==> dims.dom().contains(#[trigger] dest[j]));
    }

    let dtype: &'static str = operands[0].dtype;

    // The element product of all operands.
    let mut code: String = product_text_exec(&eq, &dt);

    // Wrap in summation reductions, innermost (largest label) first.
    let sum_idx: Vec<u8> = sum_indices_exec(&eq);
    proof {
        lemma_sum_indices_wf(97, terms, dest);
        assert(sum_idx@.skip(sum_idx@.len() as int) =~= Seq::empty());
    }
    let mut wi: usize = sum_idx.len();
    while wi > 0
        invariant
            0 <= wi <= sum_idx@.len(),
            code@ == sum_text(sum_idx@.skip(wi as int), dims, dtype@, product_text(terms, dims)),
        decreases wi,
    {
        wi = wi - 1;
        let c = sum_idx[wi];
        proof {
            assert(sum_idx@[wi as int] == c);
            assert(is_lower(c) && label_used(terms, c));
            assert(dims.dom().contains(c));
            assert(sum_idx@.skip(wi as int)[0] == c);
            assert(sum_idx@.skip(wi as int).skip(1) =~= sum_idx@.skip(wi + 1));
        }
        code = merger_wrap_exec(c, dt.get(c), dtype, code.as_str());
    }
    let ghost summed = sum_text(sum_indices(terms, dest), dims, dtype@, product_text(terms, dims));
    proof {
        assert(sum_idx@.skip(0) =~= sum_idx@);
        assert(code@ == summed);
    }

    // Wrap in output-construction loops, innermost (last output axis) first.
    let dlen = eq.output_term.len();
    let mut ty: String = dtype.to_owned();
    proof {
        assert(dest.skip(dlen as int) =~= Seq::empty());
    }
    let mut oi: usize = dlen;
    while oi > 0
        invariant
            0 <= oi <= dlen,
            dlen == dest.len(),
            ty@ == vec_ty(dtype@, (dlen - oi) as nat),
            code@ == out_text(dest.skip(oi as int), dims, dtype@, summed),
        decreases oi,
    {
        oi = oi - 1;
        let c = eq.output_term[oi];
        proof {
            assert(dest[oi as int] == c);
            assert(is_lower(c));
            assert(dims.dom().contains(c));
            assert(dest.skip(oi as int)[0] == c);
            assert(dest.skip(oi as int).skip(1) =~= dest.skip(oi + 1));
            assert(dest.skip(oi as int).len() - 1 == dlen - oi - 1);
        }
        code = appender_wrap_exec(c, dt.get(c), ty.as_str(), code.as_str());
        let mut nty = String::from_str("vec[");
        nty.append(ty.as_str());
        nty.append("]");
        ty = nty;
    }
    let ghost looped = out_text(dest, dims, dtype@, summed);
    proof {
        assert(dest.skip(0) =~= dest);
        assert(code@ == looped);
    }

    // Flatten the nested result into one row-major sequence.
    if dlen > 0 {
        let mut f: usize = 1;
        while f < dlen
            invariant
                1 <= f <= dlen || (dlen == 0 && f == 1),
                code@ == flatten_text((f - 1) as nat, looped),
            decreases dlen - f,
        {
            let mut nc = String::from_str("flatten(");
            nc.append(code.as_str());
            nc.append(")");
            code = nc;
            f = f + 1;
        }
    }

    // A scalar result becomes a one-element sequence.
    if dlen == 0 {
        let mut nc = String::from_str("merge(appender[");
        nc.append(dtype);
        nc.append("], ");
        nc.append(code.as_str());
        nc.append(")");
        code = nc;
    }

    // Prefix the parameter list: one flattened buffer per operand.
    let n_ops = operands.len();
    let mut params = param_text_exec(n_ops - 1, dtype);
    let mut pi: usize = n_ops - 1;
    while pi > 0
        invariant
            0 <= pi <= n_ops - 1,
            params@ == params_text_from(n_ops as nat, dtype@, pi as int),
        decreases pi,
    {
        pi = pi - 1;
        let mut np = param_text_exec(pi, dtype);
        np.append(", ");
        np.append(params.as_str());
        params = np;
    }
    let mut full = String::from_str("|");
    full.append(params.as_str());
    full.append("| ");
    full.append(code.as_str());

    // The output shape: one resolved size per output label, or `[1]`.
    let mut oshape: Vec<usize> = Vec::new();
    if dlen == 0 {
        oshape.push(1);
        proof {
            assert(oshape@ =~= out_shape(dest, dims));
        }
    } else {
        let mut j: usize = 0;
        while j < dlen
            invariant
                0 <= j <= dlen,
                oshape@.len() == j,
                forall|x: int| 0 <= x < j ==> oshape@[x] == dims[dest[x]],
            decreases dlen - j,
        {
            let c = eq.output_term[j];
            proof {
                assert(dest[j as int] == c);
                assert(is_lower(c) && dims.dom().contains(c));
            }
            oshape.push(dt.get(c));
            j = j + 1;
        }
        proof {
            assert(oshape@ =~= out_shape(dest, dims));
        }
    }

    proof {
        assert(full@ == program_text(terms, dest, dims, dtype@));
    }
    Ok((full, oshape))
}

/// The output shape has exactly one entry per output label, except that an
/// empty output term yields the one-element shape `[1]`.
pub proof fn lemma_output_shape_arity(dest: Seq<u8>, dims: Map<u8, usize>)
    ensures
        dest.len() > 0 ==> out_shape(dest, dims).len() == dest.len(),
        dest.len() == 0 ==> out_shape(dest, dims) == seq![1usize],
{
}

/// Compilation is deterministic: the generated program text and the output
/// shape are functions of the equation and the dimension map alone, so two
/// results that satisfy the compiler's contract for the same inputs are
/// identical, byte for byte.
pub proof fn lemma_compile_deterministic(
    terms: Seq<Seq<u8>>,
    dest: Seq<u8>,
    dims: Map<u8, usize>,
    dtype: Seq<char>,
    code1: Seq<char>,
    shape1: Seq<usize>,
    code2: Seq<char>,
    shape2: Seq<usize>,
)
    requires
        code1 == program_text(terms, dest, dims, dtype),
        shape1 == out_shape(dest, dims),
        code2 == program_text(terms, dest, dims, dtype),
        shape2 == out_shape(dest, dims),
    ensures
        code1 == code2,
        shape1 == shape2,
{
}

} // verus!
