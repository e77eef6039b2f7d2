//! The equation parser and validator: an einsum equation is, after trimming
//! surrounding whitespace, one or more comma-separated non-empty terms of
//! lowercase letters, then `->`, then zero or more lowercase letters.

use vstd::prelude::*;
use vstd::slice::{slice_index_get, slice_subrange, slice_to_vec};
use vstd::string::StringSliceAdditionalSpecFns;

use crate::einsum::EinsumError;
use crate::text::is_lower;

verus! {

/// ASCII whitespace stripped from the ends of the equation string.
pub open spec fn is_space(b: u8) -> bool {
    b == 32 || b == 9 || b == 10 || b == 13
}

pub open spec fn trim_front(s: Seq<u8>) -> Seq<u8>
    decreases s.len(),
{
    if s.len() > 0 && is_space(s[0]) {
        trim_front(s.skip(1))
    } else {
        s
    }
}

pub open spec fn trim_back(s: Seq<u8>) -> Seq<u8>
    decreases s.len(),
{
    if s.len() > 0 && is_space(s.last()) {
        trim_back(s.drop_last())
    } else {
        s
    }
}

/// The equation bytes with leading and trailing whitespace removed.
pub open spec fn trimmed(s: Seq<u8>) -> Seq<u8> {
    trim_back(trim_front(s))
}

proof fn lemma_trim_front_is_skip(s: Seq<u8>, lo: int)
    requires
        0 <= lo <= s.len(),
        forall|j: int| 0 <= j < lo ==> is_space(#[trigger] s[j]),
        lo == s.len() || !is_space(s[lo]),
    ensures
        trim_front(s) == s.skip(lo),
    decreases lo,
{
    if lo == 0 {
        assert(s.skip(0) =~= s);
    } else {
        assert(is_space(s[0]));
        lemma_trim_front_is_skip(s.skip(1), lo - 1);
        assert(s.skip(1).skip(lo - 1) =~= s.skip(lo));
    }
}

proof fn lemma_trim_back_is_take(s: Seq<u8>, hi: int)
    requires
        0 <= hi <= s.len(),
        forall|j: int| hi <= j < s.len() ==> is_space(#[trigger] s[j]),
        hi == 0 || !is_space(s[hi - 1]),
    ensures
        trim_back(s) == s.take(hi),
    decreases s.len(),
{
    if hi == s.len() {
        assert(s.take(hi) =~= s);
    } else {
        assert(is_space(s.last()));
        lemma_trim_back_is_take(s.drop_last(), hi);
        assert(s.drop_last().take(hi) =~= s.take(hi));
    }
}

/// All bytes are lowercase letters.
pub open spec fn all_lower(s: Seq<u8>) -> bool {
    forall|i: int| 0 <= i < s.len() ==> is_lower(#[trigger] s[i])
}

/// A byte allowed on the left of the arrow: a label or the separating comma.
pub open spec fn lower_or_comma(b: u8) -> bool {
    is_lower(b) || b == 44
}

/// The left-hand side of the arrow: non-empty, labels and commas only,
/// with no term left empty (no leading, trailing or doubled comma).
pub open spec fn lhs_ok(l: Seq<u8>) -> bool {
    &&& l.len() > 0
    &&& forall|i: int| 0 <= i < l.len() ==> lower_or_comma(#[trigger] l[i])
    &&& l[0] != 44
    &&& l[l.len() - 1] != 44
    &&& forall|i: int| #![trigger l[i], l[i + 1]] 0 <= i < l.len() - 1 ==> !(l[i] == 44 && l[i
        + 1] == 44)
}

/// The two-byte arrow `->` stands at position `i` of `t`.
pub open spec fn arrow_at(t: Seq<u8>, i: int) -> bool {
    0 <= i && i + 2 <= t.len() && t[i] == 45 && t[i + 1] == 62
}

/// The (trimmed) equation matches the grammar
/// `term(,term)*->label*` with non-empty lowercase terms.
pub open spec fn equation_ok(t: Seq<u8>) -> bool {
    exists|i: int| #[trigger] arrow_at(t, i) && lhs_ok(t.take(i)) && all_lower(t.skip(i + 2))
}

/// Position of the arrow of a well-formed equation.
pub open spec fn arrow_pos(t: Seq<u8>) -> int {
    choose|i: int| #[trigger] arrow_at(t, i) && lhs_ok(t.take(i)) && all_lower(t.skip(i + 2))
}

/// The input-term region of a well-formed equation.
pub open spec fn eq_lhs(t: Seq<u8>) -> Seq<u8> {
    t.take(arrow_pos(t))
}

/// The output term of a well-formed equation.
pub open spec fn eq_dest(t: Seq<u8>) -> Seq<u8> {
    t.skip(arrow_pos(t) + 2)
}

/// In a well-formed equation the grammar's arrow is the first dash: the
/// left side holds only labels and commas, the right side only labels.
proof fn lemma_witness_is_first_dash(t: Seq<u8>, i: int, k: int)
    requires
        arrow_at(t, i),
        lhs_ok(t.take(i)),
        all_lower(t.skip(i + 2)),
        0 <= k <= t.len(),
        forall|j: int| 0 <= j < k ==> t[j] != 45,
        k == t.len() || t[k] == 45,
    ensures
        i == k,
{
    assert(t[i] == 45);
    assert(i >= k);
    if i > k {
        assert(k < t.len() && t[k] == 45);
        if k < i {
            assert(t.take(i)[k] == t[k]);
            assert(lower_or_comma(t.take(i)[k]));
            assert(false);
        }
    }
}

/// Index of the first comma of `l`, or `l.len()` if there is none.
pub open spec fn first_comma(l: Seq<u8>) -> int
    decreases l.len(),
{
    if l.len() == 0 {
        0
    } else if l[0] == 44 {
        0
    } else {
        1 + first_comma(l.skip(1))
    }
}

proof fn lemma_first_comma_bounds(l: Seq<u8>)
    ensures
        0 <= first_comma(l) <= l.len(),
        forall|j: int| 0 <= j < first_comma(l) ==> l[j] != 44,
        first_comma(l) < l.len() ==> l[first_comma(l)] == 44,
    decreases l.len(),
{
    if l.len() == 0 {
    } else if l[0] == 44 {
    } else {
        lemma_first_comma_bounds(l.skip(1));
        assert forall|j: int| 0 <= j < first_comma(l) implies l[j] != 44 by {
            if j >= 1 {
                assert(l.skip(1)[j - 1] == l[j]);
                assert(l.skip(1)[j - 1] != 44);
            }
        }
    }
}

proof fn lemma_first_comma_at(l: Seq<u8>, k: int)
    requires
        0 <= k <= l.len(),
        forall|j: int| 0 <= j < k ==> l[j] != 44,
        k == l.len() || l[k] == 44,
    ensures
        first_comma(l) == k,
    decreases k,
{
    if k == 0 {
        if l.len() > 0 && l[0] != 44 {
            assert(k < l.len());
        }
    } else {
        lemma_first_comma_at(l.skip(1), k - 1);
    }
}

/// The comma-separated pieces of the input-term region, in order.
pub open spec fn split_terms(l: Seq<u8>) -> Seq<Seq<u8>>
    decreases l.len(),
{
    let k = first_comma(l);
    if 0 <= k < l.len() {
        seq![l.take(k)] + split_terms(l.skip(k + 1))
    } else {
        seq![l]
    }
}

/// The input terms of a well-formed equation.
pub open spec fn eq_terms(t: Seq<u8>) -> Seq<Seq<u8>> {
    split_terms(eq_lhs(t))
}

/// Splitting a well-formed left side gives at least one term, each
/// non-empty and all lowercase.
pub proof fn lemma_split_terms_wf(l: Seq<u8>)
    requires
        lhs_ok(l),
    ensures
        split_terms(l).len() >= 1,
        forall|i: int|
            0 <= i < split_terms(l).len() ==> (#[trigger] split_terms(l)[i]).len() > 0
                && all_lower(split_terms(l)[i]),
    decreases l.len(),
{
    lemma_first_comma_bounds(l);
    let k = first_comma(l);
    if 0 <= k < l.len() {
        assert(l[k] == 44);
        assert(k != 0);
        assert(k != l.len() - 1);
        assert(l[k + 1] != 44);
        let rest = l.skip(k + 1);
        assert(rest.len() > 0);
        assert(forall|i: int| 0 <= i < rest.len() ==> rest[i] == l[i + k + 1]);
        assert(rest[0] != 44);
        assert(rest[rest.len() - 1] == l[l.len() - 1]);
        assert(forall|i: int|
            #![trigger rest[i], rest[i + 1]]
            0 <= i < rest.len() - 1 ==> !(rest[i] == 44 && rest[i + 1] == 44)) by {
            assert(forall|i: int|
                #![trigger rest[i], rest[i + 1]]
                0 <= i < rest.len() - 1 ==> rest[i] == l[i + k + 1] && rest[i + 1] == l[i + k
                    + 2]);
        }
        assert(lhs_ok(rest));
        lemma_split_terms_wf(rest);
        let head = l.take(k);
        assert(head.len() > 0);
        assert(all_lower(head)) by {
            assert(forall|i: int| 0 <= i < k ==> head[i] == l[i] && l[i] != 44);
        }
        assert(forall|i: int|
            1 <= i < split_terms(l).len() ==> split_terms(l)[i] == split_terms(rest)[i - 1]);
    } else {
        assert(all_lower(l)) by {
            assert(forall|i: int| 0 <= i < l.len() ==> l[i] != 44);
        }
    }
}

/// The parsed form of an einsum equation: one label list per operand, and
/// the output label list.
pub struct EquationSpec {
    pub input_terms: Vec<Vec<u8>>,
    pub output_term: Vec<u8>,
}

fn is_space_exec(b: u8) -> (r: bool)
    ensures
        r == is_space(b),
{
    b == 32 || b == 9 || b == 10 || b == 13
}

fn is_lower_exec(b: u8) -> (r: bool)
    ensures
        r == is_lower(b),
{
    97 <= b && b <= 122
}

/// Parses and validates the equation against the operand count.
///
/// Returns the parsed `EquationSpec` exactly when the trimmed equation
/// matches the grammar and has one input term per operand; every other
/// input is rejected with `MalformedEquation`.
#[verifier::loop_isolation(false)]
#[verifier::rlimit(100)]
pub fn parse_equation(equation: &str, n_operands: usize) -> (r: Result<EquationSpec, EinsumError>)
    ensures
        r is Ok <==> equation_ok(trimmed(equation.spec_bytes())) && eq_terms(
            trimmed(equation.spec_bytes()),
        ).len() == n_operands,
        r matches Ok(eq) ==> {
            let t = trimmed(equation.spec_bytes());
            &&& eq.input_terms.deep_view() == eq_terms(t)
            &&& eq.output_term@ == eq_dest(t)
            &&& eq.input_terms.len() == n_operands
        },
        r matches Err(e) ==> e == EinsumError::MalformedEquation,
{
    let b: &[u8] = equation.as_bytes();
    let n = b.len();

    // Trim surrounding whitespace.
    let mut lo: usize = 0;
    while lo < n && is_space_exec(*slice_index_get(b, lo))
        invariant
            0 <= lo <= n,
            n == b@.len(),
            forall|j: int| 0 <= j < lo ==> is_space(#[trigger] b@[j]),
        decreases n - lo,
    {
        lo = lo + 1;
    }
    let mut hi: usize = n;
    while hi > lo && is_space_exec(*slice_index_get(b, hi - 1))
        invariant
            lo <= hi <= n,
            n == b@.len(),
            forall|j: int| hi <= j < n ==> is_space(#[trigger] b@[j]),
        decreases hi,
    {
        hi = hi - 1;
    }
    let t: &[u8] = slice_subrange(b, lo, hi);
    proof {
        lemma_trim_front_is_skip(b@, lo as int);
        assert(forall|j: int|
            hi - lo <= j < b@.skip(lo as int).len() ==> is_space(
                #[trigger] b@.skip(lo as int)[j],
            ));
        lemma_trim_back_is_take(b@.skip(lo as int), hi - lo);
        assert(b@.skip(lo as int).take(hi - lo) =~= b@.subrange(lo as int, hi as int));
        assert(t@ == trimmed(equation.spec_bytes()));
    }
    let m = t.len();

    // Find the arrow: in a well-formed equation it sits at the first dash.
    let mut k: usize = 0;
    while k < m && *slice_index_get(t, k) != 45
        invariant
            0 <= k <= m,
            m == t@.len(),
            forall|j: int| 0 <= j < k ==> t@[j] != 45,
        decreases m - k,
    {
        k = k + 1;
    }
    proof {
        if equation_ok(t@) {
            let i = arrow_pos(t@);
            lemma_witness_is_first_dash(t@, i, k as int);
        }
    }
    if m - k <= 1 || *slice_index_get(t, k + 1) != 62 {
        proof {
            assert(!equation_ok(t@));
        }
        return Err(EinsumError::MalformedEquation);
    }

    // Validate the left-hand side.
    if k == 0 || *slice_index_get(t, 0) == 44 || *slice_index_get(t, k - 1) == 44 {
        proof {
            assert(!equation_ok(t@));
        }
        return Err(EinsumError::MalformedEquation);
    }
    let mut idx: usize = 0;
    while idx < k
        invariant
            0 <= idx <= k,
            k + 2 <= m == t@.len(),
            forall|j: int| 0 <= j < idx ==> lower_or_comma(#[trigger] t@[j]),
            forall|j: int|
                #![trigger t@[j], t@[j + 1]]
                0 <= j < idx && j + 1 < k ==> !(t@[j] == 44 && t@[j + 1] == 44),
        decreases k - idx,
    {
        let c = *slice_index_get(t, idx);
        if !(is_lower_exec(c) || c == 44) {
            proof {
                if equation_ok(t@) {
                    let i = arrow_pos(t@);
                    assert(arrow_at(t@, i) && lhs_ok(t@.take(i)) && all_lower(t@.skip(i + 2)));
                    lemma_witness_is_first_dash(t@, i, k as int);
                    assert(t@.take(k as int)[idx as int] == t@[idx as int]);
                    assert(false);
                }
            }
            return Err(EinsumError::MalformedEquation);
        }
        if c == 44 && idx + 1 < k && *slice_index_get(t, idx + 1) == 44 {
            proof {
                if equation_ok(t@) {
                    let i = arrow_pos(t@);
                    assert(arrow_at(t@, i) && lhs_ok(t@.take(i)) && all_lower(t@.skip(i + 2)));
                    lemma_witness_is_first_dash(t@, i, k as int);
                    assert(t@.take(k as int)[idx as int] == t@[idx as int]);
                    assert(t@.take(k as int)[idx + 1] == t@[idx + 1]);
                    assert(false);
                }
            }
            return Err(EinsumError::MalformedEquation);
        }
        idx = idx + 1;
    }

    // Validate the output term.
    let mut idx2: usize = k + 2;
    while idx2 < m
        invariant
            k + 2 <= idx2 <= m,
            m == t@.len(),
            forall|j: int| k + 2 <= j < idx2 ==> is_lower(#[trigger] t@[j]),
        decreases m - idx2,
    {
        if !is_lower_exec(*slice_index_get(t, idx2)) {
            proof {
                if equation_ok(t@) {
                    lemma_witness_is_first_dash(t@, arrow_pos(t@), k as int);
                    assert(is_lower(t@.skip(k + 2 as int)[idx2 - k - 2]));
                }
            }
            return Err(EinsumError::MalformedEquation);
        }
        idx2 = idx2 + 1;
    }

    let ghost lhs = t@.take(k as int);
    proof {
        assert(lhs_ok(lhs)) by {
            assert(forall|j: int| 0 <= j < k ==> lhs[j] == t@[j]);
            assert(forall|j: int|
                #![trigger lhs[j], lhs[j + 1]]
                0 <= j < k - 1 ==> !(lhs[j] == 44 && lhs[j + 1] == 44));
        }
        assert(all_lower(t@.skip(k + 2))) by {
            assert(forall|j: int|
                0 <= j < t@.len() - k - 2 ==> #[trigger] t@.skip(k + 2)[j] == t@[j + k + 2]);
        }
        assert(arrow_at(t@, k as int));
        assert(equation_ok(t@));
        lemma_witness_is_first_dash(t@, arrow_pos(t@), k as int);
        assert(arrow_pos(t@) == k as int);
    }

    // Split the input terms on commas.
    let mut terms: Vec<Vec<u8>> = Vec::new();
    let mut pos: usize = 0;
    proof {
        assert(terms.deep_view() =~= Seq::<Seq<u8>>::empty());
        assert(lhs.skip(0) =~= lhs);
        assert(split_terms(lhs) =~= terms.deep_view() + split_terms(lhs.skip(0)));
    }
    while pos <= k
        invariant
            0 <= pos <= k + 1,
            k + 2 <= m == t@.len(),
            lhs == t@.take(k as int),
            lhs_ok(lhs),
            forall|j: int| 0 <= j < k ==> t@[j] == lhs[j],
            pos <= k ==> (pos == 0 || t@[pos - 1] == 44),
            pos <= k ==> split_terms(lhs) == terms.deep_view() + split_terms(
                lhs.skip(pos as int),
            ),
            pos > k ==> pos == k + 1 && terms.deep_view() == split_terms(lhs),
        decreases k + 1 - pos,
    {
        let mut c: usize = pos;
        while c < k && *slice_index_get(t, c) != 44
            invariant
                pos <= c <= k,
                k + 2 <= m == t@.len(),
                forall|j: int| pos <= j < c ==> t@[j] != 44,
            decreases k - c,
        {
            c = c + 1;
        }
        let piece: Vec<u8> = slice_to_vec(slice_subrange(t, pos, c));
        let ghost suffix = lhs.skip(pos as int);
        proof {
            assert(forall|j: int| 0 <= j < suffix.len() ==> suffix[j] == lhs[j + pos]);
            lemma_first_comma_at(suffix, c - pos);
            assert(piece@ =~= suffix.take(c - pos));
        }
        let ghost dv0 = terms.deep_view();
        terms.push(piece);
        proof {
            assert(terms.deep_view() =~~= dv0.push(piece@));
        }
        if c == k {
            proof {
                assert(first_comma(suffix) == suffix.len());
                assert(split_terms(suffix) == seq![suffix]);
                assert(suffix.take(c - pos) =~= suffix);
            }
            pos = k + 1;
        } else {
            proof {
                assert(t@[c as int] == 44);
                assert(c < k);
                assert(first_comma(suffix) == c - pos);
                assert(split_terms(suffix) == seq![suffix.take(c - pos)] + split_terms(
                    suffix.skip(c - pos + 1),
                ));
                assert(suffix.skip(c - pos + 1) =~= lhs.skip(c + 1 as int));
            }
            pos = c + 1;
        }
        proof {
            assert(pos > k ==> terms.deep_view() =~= split_terms(lhs));
            assert(pos <= k ==> split_terms(lhs) =~= terms.deep_view() + split_terms(
                lhs.skip(pos as int),
            ));
        }
    }

    // The output term's labels.
    let dest: Vec<u8> = slice_to_vec(slice_subrange(t, k + 2, m));
    proof {
        assert(dest@ =~= t@.skip(k + 2));
    }

    if terms.len() != n_operands {
        return Err(EinsumError::MalformedEquation);
    }
    Ok(EquationSpec { input_terms: terms, output_term: dest })
}

} // verus!
