//! The vertex repository: the `V()`, `addV()`, `property()` and `drop()`
//! steps over the vertex partition of a transaction.
use vstd::prelude::*;
use crate::codec::{
    component_bytes, decode_error, decode_labels, decoded_labels, encode_key, encode_labels, encoded_key,
    encoded_labels, labels_fit, CodecError, Component,
};
use crate::model::{
    copy_bytes, strings_view, GValue, GValueView, Gid, PropertyView, Vertex, VertexResult, VertexResultView,
    VertexView,
};
use crate::store::{pairs_view, PropertyStore, StoreError, Transaction};

verus! {

/// Name of the partition that holds vertex records.
pub const VERTEX_PARTITION: &'static str = "vertices:v1";

/// Why a repository operation failed.
#[derive(Debug, PartialEq, Eq, Clone, Copy, Structural)]
pub enum VertexError {
    /// A stored record does not follow the label layout.
    Decode(CodecError),
    /// A label is longer than 255 UTF-8 bytes.
    LabelTooLong,
    /// The arguments of a step have the wrong shape or kind.
    InputShape,
    /// The storage engine failed.
    Storage(StoreError),
}

/// A vertex as rebuilt from a stored record: its identifier and labels, no properties.
pub open spec fn stored_vertex(id: Seq<u8>, labels: Seq<Seq<char>>) -> VertexView {
    VertexView { id, labels, properties: Seq::empty() }
}

/// What a point read of `id` gives, from what the store returned for it.
pub open spec fn read_result(id: Seq<u8>, found: Option<Seq<u8>>) -> Result<VertexResultView, CodecError> {
    match found {
        None => Ok(VertexResultView { v: stored_vertex(id, Seq::empty()), initialized: false }),
        Some(b) => match decoded_labels(b) {
            Some(ls) => Ok(VertexResultView { v: stored_vertex(id, ls), initialized: true }),
            None => Err(decode_error(b)),
        },
    }
}

/// What a point read of `id` gives against the partition `m`.
pub open spec fn lookup(m: Map<Seq<u8>, Seq<u8>>, id: Seq<u8>) -> Result<VertexResultView, CodecError> {
    read_result(id, if m.contains_key(id) { Some(m[id]) } else { None })
}

pub open spec fn values_view(vals: Seq<GValue>) -> Seq<GValueView> {
    vals.map_values(|g: GValue| g@)
}

/// Every value is a string.
pub open spec fn all_strings(vals: Seq<GValueView>) -> bool {
    forall|i: int| 0 <= i < vals.len() ==> #[trigger] vals[i] is Str
}

/// The strings held by the values, in order.
pub open spec fn strings_of(vals: Seq<GValueView>) -> Seq<Seq<char>> {
    vals.map_values(|g: GValueView| match g {
        GValueView::Str(s) => s,
        _ => Seq::empty(),
    })
}

/// Every record of `m` decodes.
pub open spec fn all_decode(m: Map<Seq<u8>, Seq<u8>>) -> bool {
    forall|k: Seq<u8>| #[trigger] m.contains_key(k) ==> decoded_labels(m[k]) is Some
}

/// `rs` holds one initialized vertex for each record of `m`, rebuilt from it,
/// and nothing else.
pub open spec fn scan_of(m: Map<Seq<u8>, Seq<u8>>, rs: Seq<VertexResultView>) -> bool {
    &&& forall|i: int, j: int| 0 <= i < j < rs.len() ==> rs[i].v.id != rs[j].v.id
    &&& forall|i: int| 0 <= i < rs.len() ==> {
        &&& #[trigger] rs[i].initialized
        &&& m.contains_key(rs[i].v.id)
        &&& decoded_labels(m[rs[i].v.id]) == Some(rs[i].v.labels)
        &&& rs[i].v == stored_vertex(rs[i].v.id, rs[i].v.labels)
    }
    &&& forall|k: Seq<u8>| m.contains_key(k) ==> exists|i: int| 0 <= i < rs.len() && #[trigger] rs[i].v.id == k
}

pub open spec fn results_view(rs: Seq<VertexResult>) -> Seq<VertexResultView> {
    rs.map_values(|r: VertexResult| r@)
}

/// The key of a vertex record: the compound key made of the identifier alone,
/// which is the identifier's bytes.
pub fn vertex_key(id: &Gid) -> (r: Vec<u8>)
    ensures
        r@ == id@,
{
    let cs = vec![Component::Gid(id.duplicate())];
    proof {
        assert(cs@.drop_first() =~= Seq::<Component>::empty());
        assert(id@ + Seq::<u8>::empty() =~= id@);
        assert(encoded_key(Seq::<Component>::empty()) == Ok::<Seq<u8>, CodecError>(Seq::empty()));
        assert(component_bytes(cs@[0]) == Ok::<Seq<u8>, CodecError>(id@));
        assert(encoded_key(cs@) == Ok::<Seq<u8>, CodecError>(id@));
    }
    match encode_key(&cs) {
        Ok(b) => b,
        Err(_) => {
            proof { assert(false); }
            Vec::new()
        },
    }
}

/// Rebuilds a vertex from a stored key and label record.
pub fn from_pair(key: &Vec<u8>, value: &Vec<u8>) -> (r: Result<Vertex, VertexError>)
    ensures
        match r {
            Ok(v) => decoded_labels(value@) == Some(v@.labels) && v@ == stored_vertex(key@, v@.labels),
            Err(e) => decoded_labels(value@) is None && e == VertexError::Decode(decode_error(value@)),
        },
{
    let mut vertex = Vertex::partial_new(Gid::from_bytes(copy_bytes(key)));
    match decode_labels(value) {
        Ok(labels) => {
            let ghost ls = strings_view(labels@);
            let mut i: usize = 0;
            assert(ls.subrange(0, 0) =~= Seq::<Seq<char>>::empty());
            while i < labels.len()
                invariant
                    i <= labels@.len(),
                    ls == strings_view(labels@),
                    vertex@ == stored_vertex(key@, ls.subrange(0, i as int)),
                decreases labels@.len() - i,
            {
                vertex.add_label(labels[i].clone());
                assert(ls.subrange(0, i + 1) =~= ls.subrange(0, i as int).push(ls[i as int]));
                i = i + 1;
            }
            assert(ls.subrange(0, i as int) =~= ls);
            Ok(vertex)
        },
        Err(e) => Err(VertexError::Decode(e)),
    }
}

/// The outcome of a point read, from what the store returned for `id`.
pub fn read_vertex(id: &Gid, found: Option<Vec<u8>>) -> (r: Result<VertexResult, VertexError>)
    ensures
        match read_result(id@, match found { Some(b) => Some(b@), None => None }) {
            Ok(x) => r matches Ok(y) && y@ == x,
            Err(e) => r == Err::<VertexResult, VertexError>(VertexError::Decode(e)),
        },
{
    match found {
        Some(b) => {
            let v = from_pair(id.as_bytes(), &b)?;
            Ok(VertexResult::new(v, true))
        },
        None => {
            let v = Vertex::partial_new(id.duplicate());
            assert(v@ == stored_vertex(id@, Seq::empty()));
            Ok(VertexResult::new(v, false))
        },
    }
}

/// Rebuilds one initialized vertex from each listed pair, in order.
pub fn iterate(pairs: Vec<(Vec<u8>, Vec<u8>)>) -> (r: Result<Vec<VertexResult>, VertexError>)
    ensures
        match r {
            Ok(rs) => {
                &&& rs@.len() == pairs@.len()
                &&& forall|i: int| 0 <= i < rs@.len() ==> decoded_labels(#[trigger] pairs@[i].1@) == Some(rs@[i]@.v.labels)
                    && rs@[i]@ == (VertexResultView { v: stored_vertex(pairs@[i].0@, rs@[i]@.v.labels), initialized: true })
            },
            Err(e) => e is Decode && exists|i: int| 0 <= i < pairs@.len() && decoded_labels(#[trigger] pairs@[i].1@) is None,
        },
{
    let mut out: Vec<VertexResult> = Vec::new();
    let mut i: usize = 0;
    while i < pairs.len()
        invariant
            i <= pairs@.len(),
            out@.len() == i,
            forall|j: int| 0 <= j < i ==> decoded_labels(#[trigger] pairs@[j].1@) == Some(out@[j]@.v.labels)
                && out@[j]@ == (VertexResultView { v: stored_vertex(pairs@[j].0@, out@[j]@.v.labels), initialized: true }),
        decreases pairs@.len() - i,
    {
        let v = match from_pair(&pairs[i].0, &pairs[i].1) {
            Ok(v) => v,
            Err(e) => {
                assert(decoded_labels(pairs@[i as int].1@) is None);
                return Err(e);
            },
        };
        out.push(VertexResult::new(v, true));
        i = i + 1;
    }
    Ok(out)
}

/// Reads and writes vertex records in the vertex partition.
pub struct VertexRepository {
    cf: String,
}

impl VertexRepository {
    /// The name of the partition this repository works in.
    pub closed spec fn cf(&self) -> Seq<char> {
        self.cf@
    }

    /// A repository over the partition `VERTEX_PARTITION`.
    pub fn new() -> (r: VertexRepository)
        ensures
            r.cf() == VERTEX_PARTITION@,
    {
        VertexRepository { cf: VERTEX_PARTITION.to_owned() }
    }

    /// Every stored vertex, as the read-only `snapshot` sees the partition.
    pub fn iterate_all<S: Transaction>(&self, snapshot: &S) -> (r: Result<Vec<VertexResult>, VertexError>)
        ensures
            match r {
                Ok(rs) => scan_of(snapshot.partition(self.cf()), results_view(rs@)),
                Err(e) => e is Storage || (e is Decode && !all_decode(snapshot.partition(self.cf()))),
            },
            snapshot.reads_succeed() && all_decode(snapshot.partition(self.cf())) ==> r is Ok,
    {
        let pairs = match snapshot.iterate(&self.cf) {
            Ok(p) => p,
            Err(e) => return Err(VertexError::Storage(e)),
        };
        let ghost ps = pairs@;
        let ghost pv = pairs_view(pairs@);
        let ghost m = snapshot.partition(self.cf());
        assert(forall|i: int| 0 <= i < pairs@.len() ==> #[trigger] pv[i] == (pairs@[i].0@, pairs@[i].1@));
        let r = iterate(pairs);
        match r {
            Ok(rs) => {
                let ghost rv = results_view(rs@);
                assert forall|i: int, j: int| 0 <= i < j < rv.len() implies rv[i].v.id != rv[j].v.id by {
                    assert(pv[i].0 != pv[j].0);
                }
                assert forall|i: int| 0 <= i < rv.len() implies {
                    &&& #[trigger] rv[i].initialized
                    &&& m.contains_key(rv[i].v.id)
                    &&& decoded_labels(m[rv[i].v.id]) == Some(rv[i].v.labels)
                    &&& rv[i].v == stored_vertex(rv[i].v.id, rv[i].v.labels)
                } by {
                    assert(m.contains_key(pv[i].0));
                }
                assert forall|k: Seq<u8>| m.contains_key(k) implies exists|i: int| 0 <= i < rv.len() && #[trigger] rv[i].v.id == k by {
                    let i = choose|i: int| 0 <= i < pv.len() && #[trigger] pv[i].0 == k;
                    assert(rv[i].v.id == k);
                }
                Ok(rs)
            },
            Err(e) => {
                proof {
                    let i = choose|i: int| 0 <= i < ps.len() && decoded_labels(#[trigger] ps[i].1@) is None;
                    assert(m.contains_key(pv[i].0));
                }
                Err(e)
            },
        }
    }

    /// The `V()` step. With an identifier, reads the first one: a stored record
    /// gives an initialized vertex, a missing one an uninitialized placeholder.
    /// Without one, lists every vertex as `snapshot` sees them.
    pub fn v<T: Transaction, S: Transaction>(&self, tx: &T, snapshot: &S, ids: &Vec<Gid>) -> (r: Result<Vec<VertexResult>, VertexError>)
        ensures
            ids@.len() > 0 ==> match r {
                Ok(rs) => rs@.len() == 1 && lookup(tx.partition(self.cf()), ids@[0]@) == Ok::<VertexResultView, CodecError>(rs@[0]@),
                Err(e) => e is Storage || (e matches VertexError::Decode(c)
                    && lookup(tx.partition(self.cf()), ids@[0]@) == Err::<VertexResultView, CodecError>(c)),
            },
            ids@.len() > 0 && lookup(tx.partition(self.cf()), ids@[0]@) is Err ==> r is Err,
            ids@.len() > 0 && tx.reads_succeed() && lookup(tx.partition(self.cf()), ids@[0]@) is Ok ==> r is Ok,
            ids@.len() == 0 ==> match r {
                Ok(rs) => scan_of(snapshot.partition(self.cf()), results_view(rs@)),
                Err(e) => e is Storage || (e is Decode && !all_decode(snapshot.partition(self.cf()))),
            },
            ids@.len() == 0 && snapshot.reads_succeed() && all_decode(snapshot.partition(self.cf())) ==> r is Ok,
    {
        if ids.len() == 0 {
            return self.iterate_all(snapshot);
        }
        let id = &ids[0];
        let found = match tx.get(&self.cf, &vertex_key(id)) {
            Ok(f) => f,
            Err(e) => return Err(VertexError::Storage(e)),
        };
        let res = read_vertex(id, found)?;
        Ok(vec![res])
    }

    /// The `addV()` step: adds the labels to `v` in order and stores the
    /// vertex under its identifier with exactly those labels, replacing any
    /// earlier record. Every label must be a string of at most 255 UTF-8
    /// bytes; otherwise nothing is written and `v` is left as it was.
    pub fn add_v<T: Transaction>(&self, tx: &mut T, v: &mut Vertex, labels: &Vec<GValue>, initialized: bool) -> (r: Result<VertexResult, VertexError>)
        ensures
            match r {
                Ok(res) => {
                    &&& all_strings(values_view(labels@))
                    &&& labels_fit(strings_of(values_view(labels@)))
                    &&& forall|c: Seq<char>| #[trigger] final(tx).partition(c) == if c == self.cf() {
                        old(tx).partition(c).insert(old(v)@.id, encoded_labels(strings_of(values_view(labels@))))
                    } else {
                        old(tx).partition(c)
                    }
                    &&& final(v)@ == (VertexView { labels: old(v)@.labels + strings_of(values_view(labels@)), ..old(v)@ })
                    &&& res@ == (VertexResultView { v: final(v)@, initialized })
                },
                Err(e) => {
                    &&& forall|c: Seq<char>| #[trigger] final(tx).partition(c) == old(tx).partition(c)
                    &&& final(v)@ == old(v)@
                    &&& match e {
                        VertexError::InputShape => !all_strings(values_view(labels@)),
                        VertexError::LabelTooLong => all_strings(values_view(labels@))
                            && !labels_fit(strings_of(values_view(labels@))),
                        VertexError::Storage(_) => all_strings(values_view(labels@))
                            && labels_fit(strings_of(values_view(labels@))),
                        VertexError::Decode(_) => false,
                    }
                },
            },
            all_strings(values_view(labels@)) && labels_fit(strings_of(values_view(labels@)))
                && old(tx).writes_succeed() ==> r is Ok,
            final(tx).reads_succeed() == old(tx).reads_succeed(),
            final(tx).writes_succeed() == old(tx).writes_succeed(),
    {
        let ghost vals = values_view(labels@);
        let ghost want = strings_of(vals);
        let mut strs: Vec<String> = Vec::new();
        let mut i: usize = 0;
        while i < labels.len()
            invariant
                i <= labels@.len(),
                vals == values_view(labels@),
                want == strings_of(vals),
                forall|j: int| 0 <= j < i ==> #[trigger] vals[j] is Str,
                strings_view(strs@) == want.subrange(0, i as int),
            decreases labels@.len() - i,
        {
            match labels[i].get_string() {
                Some(s) => {
                    let ghost prev = strs@;
                    strs.push(s);
                    assert(strs@ =~= prev.push(s));
                    assert(strings_view(strs@) =~= strings_view(prev).push(s@));
                    assert(want.subrange(0, i + 1) =~= want.subrange(0, i as int).push(want[i as int]));
                    i = i + 1;
                },
                None => {
                    assert(!(vals[i as int] is Str));
                    return Err(VertexError::InputShape);
                },
            }
        }
        assert(want.subrange(0, i as int) =~= want);
        let bytes = match encode_labels(&strs) {
            Ok(b) => b,
            Err(_) => return Err(VertexError::LabelTooLong),
        };
        let key = vertex_key(v.id());
        match tx.set(&self.cf, key, bytes) {
            Ok(()) => {},
            Err(e) => return Err(VertexError::Storage(e)),
        }
        let ghost before = v@;
        let mut j: usize = 0;
        while j < strs.len()
            invariant
                j <= strs@.len(),
                strings_view(strs@) == want,
                v@ == (VertexView { labels: before.labels + want.subrange(0, j as int), ..before }),
            decreases strs@.len() - j,
        {
            v.add_label(strs[j].clone());
            assert(before.labels + want.subrange(0, j + 1) =~= (before.labels + want.subrange(0, j as int)).push(want[j as int]));
            j = j + 1;
        }
        assert(want.subrange(0, j as int) =~= want);
        Ok(VertexResult::new(v.duplicate(), initialized))
    }

    /// Adds a fresh vertex, one with no identifier assigned, through `add_v`,
    /// marked as not initialized.
    pub fn new_v<T: Transaction>(&self, tx: &mut T, labels: &Vec<GValue>) -> (r: Result<VertexResult, VertexError>)
        ensures
            match r {
                Ok(res) => {
                    &&& all_strings(values_view(labels@))
                    &&& labels_fit(strings_of(values_view(labels@)))
                    &&& forall|c: Seq<char>| #[trigger] final(tx).partition(c) == if c == self.cf() {
                        old(tx).partition(c).insert(Seq::empty(), encoded_labels(strings_of(values_view(labels@))))
                    } else {
                        old(tx).partition(c)
                    }
                    &&& res@ == (VertexResultView {
                        v: stored_vertex(Seq::empty(), strings_of(values_view(labels@))),
                        initialized: false,
                    })
                },
                Err(e) => {
                    &&& forall|c: Seq<char>| #[trigger] final(tx).partition(c) == old(tx).partition(c)
                    &&& match e {
                        VertexError::InputShape => !all_strings(values_view(labels@)),
                        VertexError::LabelTooLong => all_strings(values_view(labels@))
                            && !labels_fit(strings_of(values_view(labels@))),
                        VertexError::Storage(_) => all_strings(values_view(labels@))
                            && labels_fit(strings_of(values_view(labels@))),
                        VertexError::Decode(_) => false,
                    }
                },
            },
            all_strings(values_view(labels@)) && labels_fit(strings_of(values_view(labels@)))
                && old(tx).writes_succeed() ==> r is Ok,
            final(tx).reads_succeed() == old(tx).reads_succeed(),
            final(tx).writes_succeed() == old(tx).writes_succeed(),
    {
        let mut fresh = Vertex::new();
        let r = self.add_v(tx, &mut fresh, labels, false);
        proof {
            if r is Ok {
                assert(Seq::<Seq<char>>::empty() + strings_of(values_view(labels@)) =~= strings_of(values_view(labels@)));
            }
        }
        r
    }

    /// The `property()` step: `args` holds the property's label, a string,
    /// then its value. Writes the property for `v` through `tx` and appends it
    /// to `v`'s properties. Does not write the vertex record.
    pub fn property<P: PropertyStore>(&self, v: &mut Vertex, tx: &mut P, args: &Vec<GValue>, initialized: bool) -> (r: Result<VertexResult, VertexError>)
        ensures
            match r {
                Ok(res) => {
                    &&& args@.len() >= 2
                    &&& args@[0]@ matches GValueView::Str(label)
                    &&& final(tx).written() == old(tx).written().push(
                        (old(v)@.id, PropertyView { label, value: args@[1]@ }),
                    )
                    &&& final(v)@ == (VertexView {
                        properties: old(v)@.properties.push(PropertyView { label, value: args@[1]@ }),
                        ..old(v)@
                    })
                    &&& res@ == (VertexResultView { v: final(v)@, initialized })
                },
                Err(e) => {
                    &&& final(tx).written() == old(tx).written()
                    &&& final(v)@ == old(v)@
                    &&& match e {
                        VertexError::InputShape => args@.len() < 2 || !(args@[0]@ is Str),
                        VertexError::Storage(_) => args@.len() >= 2 && args@[0]@ is Str,
                        _ => false,
                    }
                },
            },
            args@.len() >= 2 && args@[0]@ is Str && old(tx).writes_succeed() ==> r is Ok,
            final(tx).writes_succeed() == old(tx).writes_succeed(),
    {
        if args.len() < 2 {
            return Err(VertexError::InputShape);
        }
        let label = match args[0].get_string() {
            Some(s) => s,
            None => return Err(VertexError::InputShape),
        };
        let property = match tx.set_property(v.id(), &label, &args[1]) {
            Ok(p) => p,
            Err(e) => return Err(VertexError::Storage(e)),
        };
        v.add_property(property);
        Ok(VertexResult::new(v.duplicate(), initialized))
    }

    /// Attaches a property to a fresh vertex, one with no identifier
    /// assigned, through `property`, marked as not initialized.
    pub fn new_property<P: PropertyStore>(&self, tx: &mut P, args: &Vec<GValue>) -> (r: Result<VertexResult, VertexError>)
        ensures
            match r {
                Ok(res) => {
                    &&& args@.len() >= 2
                    &&& args@[0]@ matches GValueView::Str(label)
                    &&& final(tx).written() == old(tx).written().push(
                        (Seq::<u8>::empty(), PropertyView { label, value: args@[1]@ }),
                    )
                    &&& res@ == (VertexResultView {
                        v: VertexView {
                            id: Seq::empty(),
                            labels: Seq::empty(),
                            properties: seq![PropertyView { label, value: args@[1]@ }],
                        },
                        initialized: false,
                    })
                },
                Err(e) => {
                    &&& final(tx).written() == old(tx).written()
                    &&& match e {
                        VertexError::InputShape => args@.len() < 2 || !(args@[0]@ is Str),
                        VertexError::Storage(_) => args@.len() >= 2 && args@[0]@ is Str,
                        _ => false,
                    }
                },
            },
            args@.len() >= 2 && args@[0]@ is Str && old(tx).writes_succeed() ==> r is Ok,
            final(tx).writes_succeed() == old(tx).writes_succeed(),
    {
        let mut fresh = Vertex::new();
        let r = self.property(&mut fresh, tx, args, false);
        proof {
            if r is Ok {
                assert(Seq::<PropertyView>::empty().push(r->Ok_0@.v.properties.last()) =~= r->Ok_0@.v.properties);
            }
        }
        r
    }

    /// The `drop()` step: removes the record of `id`. Removing an identifier
    /// with no record succeeds and changes nothing.
    pub fn drop_v<T: Transaction>(&self, tx: &mut T, id: &Gid) -> (r: Result<(), VertexError>)
        ensures
            forall|c: Seq<char>| #[trigger] final(tx).partition(c) == if r is Ok && c == self.cf() {
                old(tx).partition(c).remove(id@)
            } else {
                old(tx).partition(c)
            },
            r matches Err(e) ==> e is Storage,
            old(tx).writes_succeed() ==> r is Ok,
            final(tx).reads_succeed() == old(tx).reads_succeed(),
            final(tx).writes_succeed() == old(tx).writes_succeed(),
    {
        match tx.del(&self.cf, &vertex_key(id)) {
            Ok(()) => Ok(()),
            Err(e) => Err(VertexError::Storage(e)),
        }
    }
}

} // verus!
