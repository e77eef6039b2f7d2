//! The dimension resolver: scans each operand's shape against its input
//! term and records a size for every axis label. A label seen twice keeps
//! the size recorded last, matching the declared scan order.

use vstd::prelude::*;
use vstd::pervasive::VecAdditionalExecFns;

use crate::einsum::EinsumError;
use crate::equation::EquationSpec;
use crate::text::is_lower;

verus! {

/// The axis sizes recorded after scanning one term against its shape,
/// starting from `m`: position `j` records `term[j] -> shape[j]`, later
/// positions overwriting earlier ones.
pub open spec fn term_dims(m: Map<u8, usize>, term: Seq<u8>, shape: Seq<usize>) -> Map<u8, usize>
    decreases term.len(),
{
    if term.len() == 0 {
        m
    } else {
        term_dims(m, term.drop_last(), shape.drop_last()).insert(term.last(), shape.last())
    }
}

/// The axis sizes recorded after scanning every operand in order, later
/// operands overwriting earlier ones.
pub open spec fn dims_map(terms: Seq<Seq<u8>>, shapes: Seq<Seq<usize>>) -> Map<u8, usize>
    decreases terms.len(),
{
    if terms.len() == 0 {
        Map::empty()
    } else {
        term_dims(dims_map(terms.drop_last(), shapes.drop_last()), terms.last(), shapes.last())
    }
}

/// Label `c` occurs in some input term.
pub open spec fn label_used(terms: Seq<Seq<u8>>, c: u8) -> bool {
    exists|i: int, j: int|
        0 <= i < terms.len() && 0 <= j < terms[i].len() && #[trigger] terms[i][j] == c
}

proof fn lemma_term_dims_dom(m: Map<u8, usize>, term: Seq<u8>, shape: Seq<usize>)
    ensures
        forall|c: u8|
            m.dom().contains(c) ==> #[trigger] term_dims(m, term, shape).dom().contains(c),
        forall|j: int|
            0 <= j < term.len() ==> term_dims(m, term, shape).dom().contains(#[trigger] term[j]),
    decreases term.len(),
{
    if term.len() > 0 {
        lemma_term_dims_dom(m, term.drop_last(), shape.drop_last());
        assert forall|c: u8| m.dom().contains(c) implies #[trigger] term_dims(
            m,
            term,
            shape,
        ).dom().contains(c) by {
            assert(term_dims(m, term.drop_last(), shape.drop_last()).dom().contains(c));
        }
        assert forall|j: int| 0 <= j < term.len() implies term_dims(m, term, shape).dom().contains(
            #[trigger] term[j],
        ) by {
            if j < term.len() - 1 {
                assert(term.drop_last()[j] == term[j]);
                assert(term_dims(m, term.drop_last(), shape.drop_last()).dom().contains(term[j]));
            }
        }
    }
}

/// Every label used in some input term has a recorded size.
pub proof fn lemma_dims_map_dom(terms: Seq<Seq<u8>>, shapes: Seq<Seq<usize>>)
    ensures
        forall|c: u8|
            label_used(terms, c) ==> #[trigger] dims_map(terms, shapes).dom().contains(c),
    decreases terms.len(),
{
    if terms.len() > 0 {
        lemma_dims_map_dom(terms.drop_last(), shapes.drop_last());
        assert forall|c: u8| label_used(terms, c) implies #[trigger] dims_map(
            terms,
            shapes,
        ).dom().contains(c) by {
            let (i, j) = choose|i: int, j: int|
                0 <= i < terms.len() && 0 <= j < terms[i].len() && #[trigger] terms[i][j] == c;
            lemma_term_dims_dom(
                dims_map(terms.drop_last(), shapes.drop_last()),
                terms.last(),
                shapes.last(),
            );
            if i < terms.len() - 1 {
                assert(terms.drop_last()[i][j] == c);
                assert(label_used(terms.drop_last(), c));
            } else {
                assert(terms.last()[j] == c);
            }
        }
    }
}

/// A lookup table from axis label to its resolved size.
pub struct DimTable {
    sizes: Vec<usize>,
    present: Vec<bool>,
}

impl View for DimTable {
    type V = Map<u8, usize>;

    closed spec fn view(&self) -> Map<u8, usize> {
        Map::new(
            |c: u8| is_lower(c) && self.present@[c - 97],
            |c: u8| self.sizes@[c - 97],
        )
    }
}

impl DimTable {
    pub closed spec fn wf(self) -> bool {
        self.sizes@.len() == 26 && self.present@.len() == 26
    }

    pub fn new() -> (r: Self)
        ensures
            r.wf(),
            r@ == Map::<u8, usize>::empty(),
    {
        let mut sizes: Vec<usize> = Vec::new();
        let mut present: Vec<bool> = Vec::new();
        let mut i: usize = 0;
        while i < 26
            invariant
                sizes@.len() == i,
                present@.len() == i,
                forall|j: int| 0 <= j < i ==> !present@[j],
                0 <= i <= 26,
            decreases 26 - i,
        {
            sizes.push(0);
            present.push(false);
            i = i + 1;
        }
        let r = DimTable { sizes, present };
        proof {
            assert(r@ =~= Map::<u8, usize>::empty());
        }
        r
    }

    pub fn set(&mut self, c: u8, v: usize)
        requires
            old(self).wf(),
            is_lower(c),
        ensures
            final(self).wf(),
            final(self)@ == old(self)@.insert(c, v),
    {
        let i = (c - 97) as usize;
        self.sizes.set(i, v);
        self.present.set(i, true);
        proof {
            assert(self@ =~= old(self)@.insert(c, v));
        }
    }

    pub fn get(&self, c: u8) -> (r: usize)
        requires
            self.wf(),
            is_lower(c),
            self@.dom().contains(c),
        ensures
            r == self@[c],
    {
        self.sizes[(c - 97) as usize]
    }

    /// The recorded size of label `c`, if any.
    pub fn lookup(&self, c: u8) -> (r: Option<usize>)
        requires
            self.wf(),
        ensures
            r is Some <==> self@.dom().contains(c),
            r matches Some(v) ==> v == self@[c],
    {
        if c < 97 || c > 122 {
            proof {
                assert(!self@.dom().contains(c));
            }
            return None;
        }
        let i = (c - 97) as usize;
        if self.present[i] {
            Some(self.sizes[i])
        } else {
            None
        }
    }
}

/// Builds the dimension table for a parsed equation and the operands'
/// shape vectors, failing exactly when some term's length differs from
/// its operand's dimensionality.
#[verifier::loop_isolation(false)]
pub fn resolve_dims(eq: &EquationSpec, shapes: &Vec<Vec<usize>>) -> (r: Result<
    DimTable,
    EinsumError,
>)
    requires
        shapes.len() == eq.input_terms.len(),
        forall|i: int, j: int|
            0 <= i < eq.input_terms@.len() && 0 <= j < eq.input_terms@[i]@.len() ==> is_lower(
                #[trigger] eq.input_terms@[i]@[j],
            ),
    ensures
        r is Ok <==> forall|i: int|
            0 <= i < eq.input_terms@.len() ==> (#[trigger] eq.input_terms@[i])@.len()
                == shapes@[i]@.len(),
        r matches Ok(dt) ==> dt.wf() && dt@ == dims_map(
            eq.input_terms.deep_view(),
            shapes.deep_view(),
        ),
        r matches Err(e) ==> e == EinsumError::ShapeMismatch,
{
    let ghost terms_dv = eq.input_terms.deep_view();
    let ghost shapes_dv = shapes.deep_view();
    proof {
        assert(forall|i: int|
            0 <= i < terms_dv.len() ==> #[trigger] terms_dv[i] == eq.input_terms@[i]@);
        assert(forall|i: int| 0 <= i < shapes_dv.len() ==> #[trigger] shapes_dv[i] == shapes@[i]@);
    }
    let n = eq.input_terms.len();
    let mut dt = DimTable::new();
    proof {
        assert(dt@ =~= dims_map(terms_dv.take(0), shapes_dv.take(0)));
    }
    let mut i: usize = 0;
    while i < n
        invariant
            0 <= i <= n,
            dt.wf(),
            dt@ == dims_map(terms_dv.take(i as int), shapes_dv.take(i as int)),
            forall|i2: int|
                0 <= i2 < i ==> (#[trigger] eq.input_terms@[i2])@.len() == shapes@[i2]@.len(),
        decreases n - i,
    {
        let term: &Vec<u8> = &eq.input_terms[i];
        let shape: &Vec<usize> = &shapes[i];
        if term.len() != shape.len() {
            return Err(EinsumError::ShapeMismatch);
        }
        let ghost m0 = dt@;
        let mut j: usize = 0;
        while j < term.len()
            invariant
                0 <= j <= term@.len(),
                dt.wf(),
                dt@ == term_dims(m0, term@.take(j as int), shape@.take(j as int)),
            decreases term@.len() - j,
        {
            proof {
                assert(term@.take(j + 1).drop_last() =~= term@.take(j as int));
                assert(shape@.take(j + 1).drop_last() =~= shape@.take(j as int));
                assert(term@.take(j + 1).last() == term@[j as int]);
                assert(is_lower(term@[j as int]));
            }
            dt.set(term[j], shape[j]);
            j = j + 1;
        }
        proof {
            assert(term@.take(term@.len() as int) =~= term@);
            assert(shape@.take(shape@.len() as int) =~= shape@);
            assert(terms_dv.take(i + 1).drop_last() =~= terms_dv.take(i as int));
            assert(shapes_dv.take(i + 1).drop_last() =~= shapes_dv.take(i as int));
            assert(terms_dv.take(i + 1).last() == term@);
            assert(shapes_dv.take(i + 1).last() == shape@);
        }
        i = i + 1;
    }
    proof {
        assert(terms_dv.take(n as int) =~= terms_dv);
        assert(shapes_dv.take(n as int) =~= shapes_dv);
    }
    Ok(dt)
}

} // verus!
