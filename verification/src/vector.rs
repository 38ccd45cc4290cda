//! The dense-vector store: fixed-width vectors aligned with a parallel
//! array of document ids.
//!
//! The library stores each dimension as the little-endian bit pattern of
//! the 32-bit float the embedder produced; similarity arithmetic on the
//! decoded floats happens outside the library. What is verified here is
//! the layout: one id per vector, every vector exactly `dims` wide, ids
//! appended in strictly increasing order.

use vstd::prelude::*;

verus! {

/// Why an append was refused; the store is left unchanged.
#[derive(Clone, Copy, Debug, PartialEq, Eq, Structural)]
pub enum VectorStoreError {
    /// The vector's length differs from the store's dimension count.
    DimensionMismatch,
    /// The caller's model tag differs from the one the store was made with.
    ModelMismatch,
    /// The document id does not exceed every id already stored.
    OutOfOrder,
}

/// The vector store.
pub struct VectorStore {
    dims: usize,
    model_tag: String,
    vectors: Vec<Vec<u32>>,
    doc_ids: Vec<u64>,
}

impl VectorStore {
    /// The dimension count every stored vector has.
    pub closed spec fn spec_dims(self) -> nat {
        self.dims as nat
    }

    /// The tag of the model whose vectors the store holds.
    pub closed spec fn spec_model_tag(self) -> Seq<char> {
        self.model_tag@
    }

    /// The stored vectors, as rows of float bit patterns, in append order.
    pub closed spec fn rows(self) -> Seq<Seq<u32>> {
        self.vectors@.map_values(|v: Vec<u32>| v@)
    }

    /// The document ids, parallel to the rows.
    pub closed spec fn ids(self) -> Seq<u64> {
        self.doc_ids@
    }

    /// One id per row, every row `dims` wide, ids strictly increasing.
    pub open spec fn wf(self) -> bool {
        &&& self.rows().len() == self.ids().len()
        &&& forall|i: int| 0 <= i < self.rows().len() ==> (#[trigger] self.rows()[i]).len()
            == self.spec_dims()
        &&& forall|i: int, j: int| 0 <= i < j < self.ids().len() ==> self.ids()[i] < self.ids()[j]
    }

    /// An empty store for vectors of width `dims` from model `model_tag`.
    pub fn new(dims: usize, model_tag: String) -> (r: VectorStore)
        ensures
            r.wf(),
            r.spec_dims() == dims as nat,
            r.spec_model_tag() == model_tag@,
            r.rows() == Seq::<Seq<u32>>::empty(),
            r.ids() == Seq::<u64>::empty(),
    {
        let r = VectorStore { dims, model_tag, vectors: Vec::new(), doc_ids: Vec::new() };
        proof {
            assert(r.rows() =~= Seq::<Seq<u32>>::empty());
        }
        r
    }

    /// The number of stored vectors.
    pub fn count(&self) -> (r: usize)
        ensures
            r == self.ids().len(),
            self.wf() ==> r == self.rows().len(),
    {
        self.doc_ids.len()
    }

    /// The store's dimension count.
    pub fn dims(&self) -> (r: usize)
        ensures
            r == self.spec_dims(),
    {
        self.dims
    }

    /// The document id of row `i`.
    pub fn doc_id_at(&self, i: usize) -> (r: u64)
        requires
            i < self.ids().len(),
        ensures
            r == self.ids()[i as int],
    {
        self.doc_ids[i]
    }

    /// The bit patterns of row `i`.
    pub fn row_at(&self, i: usize) -> (r: &Vec<u32>)
        requires
            self.wf(),
            i < self.ids().len(),
        ensures
            r@ == self.rows()[i as int],
    {
        &self.vectors[i]
    }

    /// Appends a vector for `doc_id`.
    ///
    /// The append succeeds exactly when the vector is `dims` wide, the
    /// model tag matches, and `doc_id` exceeds every stored id; on any
    /// refusal the store is unchanged and the error names the first
    /// condition violated, in that order.
    pub fn append(&mut self, doc_id: u64, vector: Vec<u32>, model_tag: &str) -> (r: Result<
        (),
        VectorStoreError,
    >)
        requires
            old(self).wf(),
        ensures
            final(self).wf(),
            final(self).spec_dims() == old(self).spec_dims(),
            final(self).spec_model_tag() == old(self).spec_model_tag(),
            vector@.len() != old(self).spec_dims() ==> (r matches Err(e) && e is DimensionMismatch),
            vector@.len() == old(self).spec_dims() && model_tag@ != old(self).spec_model_tag()
                ==> (r matches Err(e) && e is ModelMismatch),
            vector@.len() == old(self).spec_dims() && model_tag@ == old(self).spec_model_tag() && !(
            old(self).ids().len() == 0 || old(self).ids().last() < doc_id) ==> (r matches Err(e)
                && e is OutOfOrder),
            r is Ok <==> (vector@.len() == old(self).spec_dims() && model_tag@ == old(
                self,
            ).spec_model_tag() && (old(self).ids().len() == 0 || old(self).ids().last() < doc_id)),
            r is Ok ==> (final(self).rows() == old(self).rows().push(vector@) && final(self).ids()
                == old(self).ids().push(doc_id)),
            r is Err ==> (final(self).rows() == old(self).rows() && final(self).ids() == old(
                self,
            ).ids()),
    {
        if vector.len() != self.dims {
            return Err(VectorStoreError::DimensionMismatch);
        }
        let owned_tag = model_tag.to_owned();
        if !(owned_tag == self.model_tag) {
            return Err(VectorStoreError::ModelMismatch);
        }
        if self.doc_ids.len() > 0 {
            let last = self.doc_ids[self.doc_ids.len() - 1];
            if last >= doc_id {
                return Err(VectorStoreError::OutOfOrder);
            }
        }
        self.vectors.push(vector);
        self.doc_ids.push(doc_id);
        proof {
            assert(self.rows() =~= old(self).rows().push(vector@));
        }
        Ok(())
    }
}

} // verus!
