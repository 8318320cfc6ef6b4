//! Record batches and schemas of the columnar engine, as the runtime sees
//! them: values that are carried along, whose schema can be asked for and
//! compared.

use arrow::datatypes::Schema;
use arrow::record_batch::RecordBatch;
use std::sync::Arc;
use vstd::prelude::*;

verus! {

/// One record batch of the columnar engine, an `arrow` `RecordBatch`. The
/// runtime never looks inside: it carries batches along and asks the engine
/// for their schema. Trusted as an opaque value.
#[verifier::external_body]
#[derive(Debug)]
pub struct Batch {
    /// The batch as the columnar engine holds it.
    pub inner: RecordBatch,
}

/// The schema of the columnar engine, an opaque value to the runtime.
#[verifier::external_type_specification]
#[verifier::external_body]
pub struct ExSchema(arrow::datatypes::Schema);

/// The schema that `RecordBatch::schema` reports for a batch.
pub uninterp spec fn schema_of(batch: Batch) -> Schema;

/// What `==` on two schemas of the columnar engine answers.
pub uninterp spec fn schemas_agree(a: Schema, b: Schema) -> bool;

/// The groups collected for one relation, as sequences.
pub open spec fn groups_view(groups: Vec<Vec<Batch>>) -> Seq<Seq<Batch>> {
    groups@.map_values(|g: Vec<Batch>| g@)
}

/// Calls `RecordBatch::schema`. Trusted: the handle that comes back holds
/// the schema named `schema_of` for this batch.
#[verifier::external_body]
pub(crate) fn batch_schema(batch: &Batch) -> (s: Arc<Schema>)
    ensures
        *s == schema_of(*batch),
{
    batch.inner.schema()
}

/// Calls `==` of `Schema`. Trusted: the answer is the one named
/// `schemas_agree` for the two schemas.
#[verifier::external_body]
pub(crate) fn schema_eq(a: &Arc<Schema>, b: &Arc<Schema>) -> (r: bool)
    ensures
        r == schemas_agree(**a, **b),
{
    a == b
}

/// Calls `RecordBatch::clone`. Trusted: the copy is the same batch.
#[verifier::external_body]
pub(crate) fn clone_batch(batch: &Batch) -> (r: Batch)
    ensures
        r == *batch,
{
    Batch { inner: batch.inner.clone() }
}

/// Copies one group of batches.
pub fn clone_group(group: &Vec<Batch>) -> (r: Vec<Batch>)
    ensures
        r@ == group@,
{
    let mut out: Vec<Batch> = Vec::new();
    let mut i: usize = 0;
    while i < group.len()
        invariant
            i <= group.len(),
            out@ == group@.take(i as int),
        decreases group.len() - i,
    {
        out.push(clone_batch(&group[i]));
        assert(group@.take(i + 1) =~= group@.take(i as int).push(group@[i as int]));
        i = i + 1;
    }
    assert(group@.take(group.len() as int) =~= group@);
    out
}

/// Copies the groups of one relation.
pub fn clone_groups(groups: &Vec<Vec<Batch>>) -> (r: Vec<Vec<Batch>>)
    ensures
        groups_view(r) == groups_view(*groups),
{
    let mut out: Vec<Vec<Batch>> = Vec::new();
    let mut i: usize = 0;
    while i < groups.len()
        invariant
            i <= groups.len(),
            groups_view(out) == groups_view(*groups).take(i as int),
        decreases groups.len() - i,
    {
        let g = clone_group(&groups[i]);
        let ghost before = out;
        out.push(g);
        assert(groups_view(out) =~= groups_view(before).push(g@));
        assert(groups_view(*groups).take(i + 1) =~= groups_view(*groups).take(i as int).push(
            groups@[i as int]@,
        ));
        i = i + 1;
    }
    assert(groups_view(*groups).take(groups.len() as int) =~= groups_view(*groups));
    out
}

} // verus!
