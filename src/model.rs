//! Vertex identifiers, dynamic values, properties and vertices.
use vstd::prelude::*;
use vstd::utf8::encode_utf8;

verus! {

/// An opaque vertex identifier, known by its bytes: two identifiers with the
/// same bytes name the same vertex.
#[derive(Debug, Clone)]
pub struct Gid {
    bytes: Vec<u8>,
}

impl View for Gid {
    type V = Seq<u8>;

    closed spec fn view(&self) -> Seq<u8> {
        self.bytes@
    }
}

/// Copies a byte vector element by element.
pub fn copy_bytes(b: &Vec<u8>) -> (r: Vec<u8>)
    ensures
        r@ == b@,
{
    let mut out: Vec<u8> = Vec::new();
    let mut i: usize = 0;
    while i < b.len()
        invariant
            i <= b@.len(),
            out@ == b@.subrange(0, i as int),
        decreases b@.len() - i,
    {
        out.push(b[i]);
        i = i + 1;
        assert(out@ =~= b@.subrange(0, i as int));
    }
    assert(out@ =~= b@);
    out
}

impl Gid {
    /// An identifier made of the given bytes.
    pub fn from_bytes(bytes: Vec<u8>) -> (r: Gid)
        ensures
            r@ == bytes@,
    {
        Gid { bytes }
    }

    /// An identifier made of the UTF-8 bytes of a string.
    pub fn from_string(s: &str) -> (r: Gid)
        ensures
            r@ == encode_utf8(s@),
    {
        let b = s.as_bytes();
        let mut out: Vec<u8> = Vec::new();
        let mut i: usize = 0;
        while i < b.len()
            invariant
                i <= b@.len(),
                out@ == b@.subrange(0, i as int),
            decreases b@.len() - i,
        {
            out.push(b[i]);
            i = i + 1;
            assert(out@ =~= b@.subrange(0, i as int));
        }
        assert(out@ =~= b@);
        Gid { bytes: out }
    }

    /// The identifier's bytes.
    pub fn as_bytes(&self) -> (r: &Vec<u8>)
        ensures
            r@ == self@,
    {
        &self.bytes
    }

    pub fn duplicate(&self) -> (r: Gid)
        ensures
            r@ == self@,
    {
        Gid { bytes: copy_bytes(&self.bytes) }
    }
}

/// A dynamically typed value handed in by a traversal step.
#[derive(Debug, Clone)]
pub enum GValue {
    Bool(bool),
    Int64(i64),
    Str(String),
}

/// The mathematical form of a `GValue`.
pub enum GValueView {
    Bool(bool),
    Int64(i64),
    Str(Seq<char>),
}

impl View for GValue {
    type V = GValueView;

    open spec fn view(&self) -> GValueView {
        match self {
            GValue::Bool(b) => GValueView::Bool(*b),
            GValue::Int64(n) => GValueView::Int64(*n),
            GValue::Str(s) => GValueView::Str(s@),
        }
    }
}

impl GValue {
    /// The value as a string, where it holds one.
    pub fn get_string(&self) -> (r: Option<String>)
        ensures
            match self@ {
                GValueView::Str(s) => r matches Some(t) && t@ == s,
                _ => r is None,
            },
    {
        match self {
            GValue::Str(s) => Some(s.clone()),
            _ => None,
        }
    }

    pub fn duplicate(&self) -> (r: GValue)
        ensures
            r@ == self@,
    {
        match self {
            GValue::Bool(b) => GValue::Bool(*b),
            GValue::Int64(n) => GValue::Int64(*n),
            GValue::Str(s) => GValue::Str(s.clone()),
        }
    }
}

/// A key/value attribute attached to a vertex.
#[derive(Debug, Clone)]
pub struct Property {
    pub label: String,
    pub value: GValue,
}

pub struct PropertyView {
    pub label: Seq<char>,
    pub value: GValueView,
}

impl View for Property {
    type V = PropertyView;

    open spec fn view(&self) -> PropertyView {
        PropertyView { label: self.label@, value: self.value@ }
    }
}

impl Property {
    pub fn duplicate(&self) -> (r: Property)
        ensures
            r@ == self@,
    {
        Property { label: self.label.clone(), value: self.value.duplicate() }
    }
}

pub open spec fn strings_view(v: Seq<String>) -> Seq<Seq<char>> {
    v.map_values(|s: String| s@)
}

pub open spec fn properties_view(v: Seq<Property>) -> Seq<PropertyView> {
    v.map_values(|p: Property| p@)
}

/// A vertex: its identifier, its labels in the order they were added, and the
/// properties attached to it in memory.
#[derive(Debug, Clone)]
pub struct Vertex {
    id: Gid,
    labels: Vec<String>,
    properties: Vec<Property>,
}

pub struct VertexView {
    pub id: Seq<u8>,
    pub labels: Seq<Seq<char>>,
    pub properties: Seq<PropertyView>,
}

impl View for Vertex {
    type V = VertexView;

    closed spec fn view(&self) -> VertexView {
        VertexView {
            id: self.id@,
            labels: strings_view(self.labels@),
            properties: properties_view(self.properties@),
        }
    }
}

/// Copies a list of strings.
fn copy_strings(v: &Vec<String>) -> (r: Vec<String>)
    ensures
        strings_view(r@) == strings_view(v@),
{
    let mut out: Vec<String> = Vec::new();
    let mut i: usize = 0;
    while i < v.len()
        invariant
            i <= v@.len(),
            strings_view(out@) == strings_view(v@.subrange(0, i as int)),
        decreases v@.len() - i,
    {
        let c = v[i].clone();
        let ghost prev = out@;
        out.push(c);
        assert(out@ =~= prev.push(c));
        assert(v@.subrange(0, i + 1) =~= v@.subrange(0, i as int).push(v@[i as int]));
        assert(strings_view(out@) =~= strings_view(prev).push(c@));
        assert(strings_view(v@.subrange(0, i + 1)) =~= strings_view(v@.subrange(0, i as int)).push(v@[i as int]@));
        i = i + 1;
    }
    assert(v@.subrange(0, i as int) =~= v@);
    out
}

/// Copies a list of properties.
fn copy_properties(v: &Vec<Property>) -> (r: Vec<Property>)
    ensures
        properties_view(r@) == properties_view(v@),
{
    let mut out: Vec<Property> = Vec::new();
    let mut i: usize = 0;
    while i < v.len()
        invariant
            i <= v@.len(),
            properties_view(out@) == properties_view(v@.subrange(0, i as int)),
        decreases v@.len() - i,
    {
        let c = v[i].duplicate();
        let ghost prev = out@;
        out.push(c);
        assert(out@ =~= prev.push(c));
        assert(v@.subrange(0, i + 1) =~= v@.subrange(0, i as int).push(v@[i as int]));
        assert(properties_view(out@) =~= properties_view(prev).push(c@));
        assert(properties_view(v@.subrange(0, i + 1)) =~= properties_view(v@.subrange(0, i as int)).push(v@[i as int]@));
        i = i + 1;
    }
    assert(v@.subrange(0, i as int) =~= v@);
    out
}

impl Vertex {
    /// A fresh vertex with no identifier assigned yet (empty bytes), no labels
    /// and no properties.
    pub fn new() -> (r: Vertex)
        ensures
            r@.id == Seq::<u8>::empty(),
            r@.labels == Seq::<Seq<char>>::empty(),
            r@.properties == Seq::<PropertyView>::empty(),
    {
        let v = Vertex { id: Gid { bytes: Vec::new() }, labels: Vec::new(), properties: Vec::new() };
        assert(v@.labels =~= Seq::<Seq<char>>::empty());
        assert(v@.properties =~= Seq::<PropertyView>::empty());
        v
    }

    /// A vertex that carries only an identifier.
    pub fn partial_new(id: Gid) -> (r: Vertex)
        ensures
            r@.id == id@,
            r@.labels == Seq::<Seq<char>>::empty(),
            r@.properties == Seq::<PropertyView>::empty(),
    {
        let v = Vertex { id, labels: Vec::new(), properties: Vec::new() };
        assert(v@.labels =~= Seq::<Seq<char>>::empty());
        assert(v@.properties =~= Seq::<PropertyView>::empty());
        v
    }

    pub fn id(&self) -> (r: &Gid)
        ensures
            r@ == self@.id,
    {
        &self.id
    }

    pub fn labels(&self) -> (r: &Vec<String>)
        ensures
            strings_view(r@) == self@.labels,
    {
        &self.labels
    }

    pub fn properties(&self) -> (r: &Vec<Property>)
        ensures
            properties_view(r@) == self@.properties,
    {
        &self.properties
    }

    /// Appends a label after the existing ones.
    pub fn add_label(&mut self, label: String)
        ensures
            final(self)@ == (VertexView { labels: old(self)@.labels.push(label@), ..old(self)@ }),
    {
        let ghost before = strings_view(self.labels@);
        self.labels.push(label);
        assert(strings_view(self.labels@) =~= before.push(label@));
    }

    /// Appends a property after the existing ones.
    pub fn add_property(&mut self, property: Property)
        ensures
            final(self)@ == (VertexView {
                properties: old(self)@.properties.push(property@),
                ..old(self)@
            }),
    {
        let ghost before = properties_view(self.properties@);
        self.properties.push(property);
        assert(properties_view(self.properties@) =~= before.push(property@));
    }

    pub fn duplicate(&self) -> (r: Vertex)
        ensures
            r@ == self@,
    {
        Vertex {
            id: self.id.duplicate(),
            labels: copy_strings(&self.labels),
            properties: copy_properties(&self.properties),
        }
    }
}

/// A vertex together with whether it was read from a stored record.
#[derive(Debug, Clone)]
pub struct VertexResult {
    v: Vertex,
    initialized: bool,
}

pub struct VertexResultView {
    pub v: VertexView,
    pub initialized: bool,
}

impl View for VertexResult {
    type V = VertexResultView;

    closed spec fn view(&self) -> VertexResultView {
        VertexResultView { v: self.v@, initialized: self.initialized }
    }
}

impl VertexResult {
    pub fn new(v: Vertex, initialized: bool) -> (r: VertexResult)
        ensures
            r@ == (VertexResultView { v: v@, initialized }),
    {
        VertexResult { v, initialized }
    }

    /// A copy of the vertex.
    pub fn v(&self) -> (r: Vertex)
        ensures
            r@ == self@.v,
    {
        self.v.duplicate()
    }

    /// Whether the vertex was read from a stored record.
    pub fn initialized(&self) -> (r: bool)
        ensures
            r == self@.initialized,
    {
        self.initialized
    }
}

} // verus!
