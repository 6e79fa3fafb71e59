//! Laws that relate the repository's operations, stated over the partition
//! model that their contracts use.
use vstd::prelude::*;
use crate::codec::{encoded_labels, labels_fit, lemma_labels_round_trip, CodecError};
use crate::model::VertexResultView;
use crate::repository::{lookup, scan_of, stored_vertex};

verus! {

/// Reading an identifier that has no record gives an uninitialized vertex
/// that carries that identifier and no labels.
pub proof fn lemma_lookup_miss(m: Map<Seq<u8>, Seq<u8>>, id: Seq<u8>)
    requires
        !m.contains_key(id),
    ensures
        lookup(m, id) == Ok::<VertexResultView, CodecError>(VertexResultView {
            v: stored_vertex(id, Seq::empty()),
            initialized: false,
        }),
{
}

/// After `add_v` stores labels for an identifier, reading it gives an
/// initialized vertex with exactly those labels, in order.
pub proof fn lemma_lookup_hit(m: Map<Seq<u8>, Seq<u8>>, id: Seq<u8>, labels: Seq<Seq<char>>)
    requires
        labels_fit(labels),
    ensures
        lookup(m.insert(id, encoded_labels(labels)), id) == Ok::<VertexResultView, CodecError>(VertexResultView {
            v: stored_vertex(id, labels),
            initialized: true,
        }),
{
    lemma_labels_round_trip(labels);
}

/// Storing labels for an identifier twice leaves only the second labels
/// readable: nothing of the first list remains.
pub proof fn lemma_overwrite(
    m: Map<Seq<u8>, Seq<u8>>,
    id: Seq<u8>,
    first: Seq<Seq<char>>,
    second: Seq<Seq<char>>,
)
    requires
        labels_fit(first),
        labels_fit(second),
    ensures
        lookup(m.insert(id, encoded_labels(first)).insert(id, encoded_labels(second)), id)
            == Ok::<VertexResultView, CodecError>(VertexResultView { v: stored_vertex(id, second), initialized: true }),
{
    lemma_labels_round_trip(second);
}

/// Dropping an identifier, whether or not it had a record, leaves it unread:
/// a later read gives an uninitialized vertex.
pub proof fn lemma_drop_then_miss(m: Map<Seq<u8>, Seq<u8>>, id: Seq<u8>)
    ensures
        lookup(m.remove(id), id) == Ok::<VertexResultView, CodecError>(VertexResultView {
            v: stored_vertex(id, Seq::empty()),
            initialized: false,
        }),
        !m.contains_key(id) ==> m.remove(id) == m,
{
    assert(!m.contains_key(id) ==> m.remove(id) =~= m);
}

/// A full scan after storing three distinct vertices gives exactly three
/// initialized vertices, one for each identifier, each with its stored labels.
pub proof fn lemma_scan_three(
    a: Seq<u8>,
    b: Seq<u8>,
    c: Seq<u8>,
    la: Seq<Seq<char>>,
    lb: Seq<Seq<char>>,
    lc: Seq<Seq<char>>,
    rs: Seq<VertexResultView>,
)
    requires
        a != b && b != c && a != c,
        labels_fit(la) && labels_fit(lb) && labels_fit(lc),
        scan_of(
            Map::<Seq<u8>, Seq<u8>>::empty().insert(a, encoded_labels(la)).insert(b, encoded_labels(lb)).insert(
                c,
                encoded_labels(lc),
            ),
            rs,
        ),
    ensures
        rs.len() == 3,
        forall|i: int| 0 <= i < rs.len() ==> #[trigger] rs[i].initialized,
        rs.map_values(|r: VertexResultView| r.v.id).to_set() == set![a, b, c],
        forall|i: int| 0 <= i < rs.len() ==> (#[trigger] rs[i].v.id == a ==> rs[i].v.labels == la),
        forall|i: int| 0 <= i < rs.len() ==> (#[trigger] rs[i].v.id == b ==> rs[i].v.labels == lb),
        forall|i: int| 0 <= i < rs.len() ==> (#[trigger] rs[i].v.id == c ==> rs[i].v.labels == lc),
{
    let m = Map::<Seq<u8>, Seq<u8>>::empty().insert(a, encoded_labels(la)).insert(b, encoded_labels(lb)).insert(
        c,
        encoded_labels(lc),
    );
    lemma_labels_round_trip(la);
    lemma_labels_round_trip(lb);
    lemma_labels_round_trip(lc);
    let ids = rs.map_values(|r: VertexResultView| r.v.id);
    assert forall|i: int| 0 <= i < ids.len() implies #[trigger] m.contains_key(ids[i]) by {
        assert(rs[i].initialized);
    }
    assert(ids.to_set() =~= set![a, b, c]) by {
        assert forall|k: Seq<u8>| #[trigger] set![a, b, c].contains(k) implies ids.to_set().contains(k) by {
            assert(m.contains_key(k));
            let i = choose|i: int| 0 <= i < rs.len() && #[trigger] rs[i].v.id == k;
            assert(ids[i] == k);
        }
        assert forall|k: Seq<u8>| #[trigger] ids.to_set().contains(k) implies set![a, b, c].contains(k) by {
            let i = choose|i: int| 0 <= i < ids.len() && ids[i] == k;
            assert(m.contains_key(ids[i]));
        }
    }
    assert(ids.no_duplicates()) by {
        assert forall|i: int, j: int| 0 <= i < ids.len() && 0 <= j < ids.len() && i != j implies ids[i] != ids[j] by {
            if i < j {
                assert(rs[i].v.id != rs[j].v.id);
            } else {
                assert(rs[j].v.id != rs[i].v.id);
            }
        }
    }
    ids.unique_seq_to_set();
    assert(set![a, b, c].len() == 3) by {
        let s0 = Set::<Seq<u8>>::empty();
        assert(!s0.insert(a).contains(b));
        assert(!s0.insert(a).insert(b).contains(c));
    }
    assert forall|i: int| 0 <= i < rs.len() implies (#[trigger] rs[i].v.id == a ==> rs[i].v.labels == la) by {
        assert(rs[i].initialized);
    }
    assert forall|i: int| 0 <= i < rs.len() implies (#[trigger] rs[i].v.id == b ==> rs[i].v.labels == lb) by {
        assert(rs[i].initialized);
    }
    assert forall|i: int| 0 <= i < rs.len() implies (#[trigger] rs[i].v.id == c ==> rs[i].v.labels == lc) by {
        assert(rs[i].initialized);
    }
}

} // verus!
