//! The write-operation batcher.
//!
//! Entities and edges become one ordered list of write operations: an
//! optional clear-all first, then every node, then every edge, so an edge
//! only ever references nodes created earlier in the same batch. Every
//! relationship label is validated against the allow-list before the list
//! is built; the first invalid label aborts the batch before anything is
//! sent.

use vstd::prelude::*;

use crate::adjacency::Edge;
use crate::errors::IngestError;
use crate::label::is_valid_label;
use crate::label::spec_valid_label;
use crate::normalize::NormalizedCollection;
use crate::normalize::NormalizedEntity;

verus! {

/// One parameterized write against the graph store. Attribute values
/// travel as bound parameters; only the validated edge label is ever
/// interpolated into query text.
#[derive(Debug, Clone, PartialEq)]
pub enum WriteOperation {
    /// Wipe the whole graph; at most one, and only at the head of the list.
    ClearAll,
    /// Create the node of one normalized entity.
    CreateNode { entity: NormalizedEntity },
    /// Create one directed relationship.
    CreateEdge { edge: Edge },
}

/// Index of the first edge whose label fails the allow-list, or `-1`.
pub open spec fn first_invalid_label(edges: Seq<Edge>) -> int
    decreases edges.len(),
{
    if edges.len() == 0 {
        -1
    } else if !spec_valid_label(edges[0].label@) {
        0
    } else {
        let rest = first_invalid_label(edges.drop_first());
        if rest == -1 {
            -1
        } else {
            rest + 1
        }
    }
}

/// What `first_invalid_label` returns: the first offender, or proof that
/// every label passes.
pub proof fn lemma_first_invalid_label(edges: Seq<Edge>)
    ensures
        -1 <= first_invalid_label(edges) < edges.len(),
        first_invalid_label(edges) == -1 ==> forall|i: int|
            0 <= i < edges.len() ==> spec_valid_label(#[trigger] edges[i].label@),
        first_invalid_label(edges) >= 0 ==> {
            &&& !spec_valid_label(edges[first_invalid_label(edges)].label@)
            &&& forall|i: int|
                0 <= i < first_invalid_label(edges) ==> spec_valid_label(
                    #[trigger] edges[i].label@,
                )
        },
    decreases edges.len(),
{
    if edges.len() > 0 && spec_valid_label(edges[0].label@) {
        lemma_first_invalid_label(edges.drop_first());
        let rest = first_invalid_label(edges.drop_first());
        if rest == -1 {
            assert forall|i: int| 0 <= i < edges.len() implies spec_valid_label(
                #[trigger] edges[i].label@,
            ) by {
                if i > 0 {
                    assert(edges.drop_first()[i - 1] == edges[i]);
                }
            }
        } else {
            assert(edges.drop_first()[rest] == edges[rest + 1]);
            assert forall|i: int| 0 <= i < rest + 1 implies spec_valid_label(
                #[trigger] edges[i].label@,
            ) by {
                if i > 0 {
                    assert(edges.drop_first()[i - 1] == edges[i]);
                }
            }
        }
    }
}

/// If edge `i`'s label fails and every earlier label passes, then `i` is
/// what `first_invalid_label` returns.
pub proof fn lemma_first_invalid_label_hit(edges: Seq<Edge>, i: int)
    requires
        0 <= i < edges.len(),
        !spec_valid_label(edges[i].label@),
        forall|j: int| 0 <= j < i ==> spec_valid_label(#[trigger] edges[j].label@),
    ensures
        first_invalid_label(edges) == i,
    decreases edges.len(),
{
    if i > 0 {
        lemma_first_invalid_label_hit(edges.drop_first(), i - 1);
    }
}

/// The operation list of a batch: the optional clear-all, every node in
/// collection order, then every edge in resolution order.
pub open spec fn ops_model(
    coll: NormalizedCollection,
    edges: Seq<Edge>,
    clear_first: bool,
) -> Seq<WriteOperation> {
    (if clear_first {
        seq![WriteOperation::ClearAll]
    } else {
        Seq::empty()
    }) + coll.entities@.map_values(|e: NormalizedEntity| WriteOperation::CreateNode { entity: e })
        + edges.map_values(|e: Edge| WriteOperation::CreateEdge { edge: e })
}

/// Clone an optional string, preserving the value exactly.
fn clone_opt_string(o: &Option<String>) -> (r: Option<String>)
    ensures
        r == *o,
{
    match o {
        Some(s) => Some(s.clone()),
        None => None,
    }
}

/// Clone a normalized entity, preserving the value exactly.
fn clone_normalized(e: &NormalizedEntity) -> (r: NormalizedEntity)
    ensures
        r == *e,
{
    NormalizedEntity {
        kind: e.kind,
        key: e.key.clone(),
        name: e.name.clone(),
        lat: e.lat,
        long: e.long,
        x: e.x,
        y: e.y,
        zone: clone_opt_string(&e.zone),
        postcode: clone_opt_string(&e.postcode),
    }
}

/// Clone an edge, preserving the value exactly.
fn clone_edge(e: &Edge) -> (r: Edge)
    ensures
        r == *e,
{
    Edge {
        source_key: e.source_key.clone(),
        target_key: e.target_key.clone(),
        label: e.label.clone(),
        weight: e.weight,
    }
}

/// Clone a write operation, preserving the value exactly.
pub fn clone_op(op: &WriteOperation) -> (r: WriteOperation)
    ensures
        r == *op,
{
    match op {
        WriteOperation::ClearAll => WriteOperation::ClearAll,
        WriteOperation::CreateNode { entity } => WriteOperation::CreateNode {
            entity: clone_normalized(entity),
        },
        WriteOperation::CreateEdge { edge } => WriteOperation::CreateEdge {
            edge: clone_edge(edge),
        },
    }
}

/// Turn a collection and its edges into the ordered operation list,
/// validating every relationship label first. The first label that fails
/// the allow-list aborts the batch with [`IngestError::InvalidLabel`].
pub fn build_operations(coll: &NormalizedCollection, edges: &Vec<Edge>, clear_first: bool) -> (r:
    Result<Vec<WriteOperation>, IngestError>)
    ensures
        match r {
            Ok(ops) => {
                &&& first_invalid_label(edges@) == -1
                &&& ops@ == ops_model(*coll, edges@, clear_first)
            },
            Err(e) => {
                &&& first_invalid_label(edges@) >= 0
                &&& e matches IngestError::InvalidLabel { label } && label@
                    == edges@[first_invalid_label(edges@)].label@
            },
        },
{
    let ne = edges.len();
    let mut i: usize = 0;
    while i < ne
        invariant
            ne == edges@.len(),
            i <= ne,
            forall|j: int| 0 <= j < i ==> spec_valid_label(#[trigger] edges@[j].label@),
        decreases ne - i,
    {
        if !is_valid_label(&edges[i].label) {
            proof {
                lemma_first_invalid_label_hit(edges@, i as int);
            }
            return Err(IngestError::InvalidLabel { label: edges[i].label.clone() });
        }
        i += 1;
    }
    proof {
        lemma_first_invalid_label(edges@);
    }
    let mut ops: Vec<WriteOperation> = Vec::new();
    if clear_first {
        ops.push(WriteOperation::ClearAll);
    }
    let ghost head: Seq<WriteOperation> = if clear_first {
        seq![WriteOperation::ClearAll]
    } else {
        Seq::empty()
    };
    assert(ops@ =~= head);
    let nn = coll.entities.len();
    let mut j: usize = 0;
    while j < nn
        invariant
            nn == coll.entities@.len(),
            j <= nn,
            ops@.len() == head.len() + j,
            forall|k: int| 0 <= k < head.len() ==> ops@[k] == head[k],
            forall|k: int|
                0 <= k < j ==> ops@[head.len() + k] == (WriteOperation::CreateNode {
                    entity: coll.entities@[k],
                }),
        decreases nn - j,
    {
        ops.push(WriteOperation::CreateNode { entity: clone_normalized(&coll.entities[j]) });
        j += 1;
    }
    let mut m: usize = 0;
    while m < ne
        invariant
            ne == edges@.len(),
            nn == coll.entities@.len(),
            m <= ne,
            ops@.len() == head.len() + nn + m,
            forall|k: int| 0 <= k < head.len() ==> ops@[k] == head[k],
            forall|k: int|
                0 <= k < nn ==> ops@[head.len() + k] == (WriteOperation::CreateNode {
                    entity: coll.entities@[k],
                }),
            forall|k: int|
                0 <= k < m ==> ops@[head.len() + nn + k] == (WriteOperation::CreateEdge {
                    edge: edges@[k],
                }),
        decreases ne - m,
    {
        ops.push(WriteOperation::CreateEdge { edge: clone_edge(&edges[m]) });
        m += 1;
    }
    proof {
        assert(ops@ =~= ops_model(*coll, edges@, clear_first));
    }
    Ok(ops)
}

} // verus!
