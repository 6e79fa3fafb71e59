use vertex_store::codec::CodecError;
use vertex_store::model::{GValue, Gid, Vertex};
use vertex_store::repository::{from_pair, iterate, read_vertex, VertexError, VertexRepository, VERTEX_PARTITION};
use vertex_store::store::{MemoryPropertyStore, MemoryTransaction, StoreError, Transaction};

fn labels(v: &[&str]) -> Vec<GValue> {
    v.iter().map(|s| GValue::Str(s.to_string())).collect()
}

fn label_strings(v: &Vertex) -> Vec<String> {
    v.labels().clone()
}

#[test]
fn lookup_miss_gives_placeholder() {
    let repo = VertexRepository::new();
    let tx = MemoryTransaction::new(true);
    let id = Gid::from_string("nobody");
    let rs = repo.v(&tx, &tx.snapshot(), &vec![id]).unwrap();
    assert_eq!(rs.len(), 1);
    assert!(!rs[0].initialized());
    assert_eq!(rs[0].v().id().as_bytes(), &b"nobody".to_vec());
    assert!(rs[0].v().labels().is_empty());
}

#[test]
fn lookup_hit_after_add() {
    let repo = VertexRepository::new();
    let mut tx = MemoryTransaction::new(true);
    let mut v = Vertex::partial_new(Gid::from_string("x"));
    let added = repo.add_v(&mut tx, &mut v, &labels(&["person", "admin"]), true).unwrap();
    assert!(added.initialized());
    assert_eq!(label_strings(&v), vec!["person".to_string(), "admin".to_string()]);
    let rs = repo.v(&tx, &tx.snapshot(), &vec![Gid::from_string("x")]).unwrap();
    assert_eq!(rs.len(), 1);
    assert!(rs[0].initialized());
    assert_eq!(label_strings(&rs[0].v()), vec!["person".to_string(), "admin".to_string()]);
}

#[test]
fn add_v_stores_label_record_under_id_bytes() {
    let repo = VertexRepository::new();
    let mut tx = MemoryTransaction::new(true);
    let mut v = Vertex::partial_new(Gid::from_bytes(vec![1, 2]));
    repo.add_v(&mut tx, &mut v, &labels(&["ab", "c"]), false).unwrap();
    let cf = VERTEX_PARTITION.to_string();
    assert_eq!(tx.get(&cf, &vec![1, 2]), Ok(Some(vec![2, b'a', b'b', 1, b'c'])));
    assert_eq!(tx.get(&"other".to_string(), &vec![1, 2]), Ok(None));
}

#[test]
fn overwrite_keeps_only_second_labels() {
    let repo = VertexRepository::new();
    let mut tx = MemoryTransaction::new(true);
    let mut v1 = Vertex::partial_new(Gid::from_string("x"));
    repo.add_v(&mut tx, &mut v1, &labels(&["person", "admin"]), true).unwrap();
    let mut v2 = Vertex::partial_new(Gid::from_string("x"));
    repo.add_v(&mut tx, &mut v2, &labels(&["robot"]), true).unwrap();
    let rs = repo.v(&tx, &tx.snapshot(), &vec![Gid::from_string("x")]).unwrap();
    assert!(rs[0].initialized());
    assert_eq!(label_strings(&rs[0].v()), vec!["robot".to_string()]);
}

#[test]
fn add_v_keeps_earlier_in_memory_labels() {
    let repo = VertexRepository::new();
    let mut tx = MemoryTransaction::new(true);
    let mut v = Vertex::partial_new(Gid::from_string("x"));
    v.add_label("old".to_string());
    let r = repo.add_v(&mut tx, &mut v, &labels(&["new"]), false).unwrap();
    assert!(!r.initialized());
    assert_eq!(label_strings(&r.v()), vec!["old".to_string(), "new".to_string()]);
    let rs = repo.v(&tx, &tx.snapshot(), &vec![Gid::from_string("x")]).unwrap();
    assert_eq!(label_strings(&rs[0].v()), vec!["new".to_string()]);
}

#[test]
fn drop_missing_id_succeeds() {
    let repo = VertexRepository::new();
    let mut tx = MemoryTransaction::new(true);
    assert_eq!(repo.drop_v(&mut tx, &Gid::from_string("ghost")), Ok(()));
    let rs = repo.v(&tx, &tx.snapshot(), &vec![Gid::from_string("ghost")]).unwrap();
    assert!(!rs[0].initialized());
}

#[test]
fn drop_removes_record() {
    let repo = VertexRepository::new();
    let mut tx = MemoryTransaction::new(true);
    let mut v = Vertex::partial_new(Gid::from_string("x"));
    repo.add_v(&mut tx, &mut v, &labels(&["person"]), true).unwrap();
    repo.drop_v(&mut tx, &Gid::from_string("x")).unwrap();
    let rs = repo.v(&tx, &tx.snapshot(), &vec![Gid::from_string("x")]).unwrap();
    assert!(!rs[0].initialized());
    assert!(rs[0].v().labels().is_empty());
}

#[test]
fn full_scan_lists_each_vertex_once() {
    let repo = VertexRepository::new();
    let mut tx = MemoryTransaction::new(true);
    for (id, ls) in [("a", vec!["p"]), ("b", vec!["q", "r"]), ("c", vec![])] {
        let mut v = Vertex::partial_new(Gid::from_string(id));
        repo.add_v(&mut tx, &mut v, &labels(&ls), true).unwrap();
    }
    let snapshot = tx.snapshot();
    let all = repo.iterate_all(&snapshot).unwrap();
    assert_eq!(all.len(), 3);
    let mut seen: Vec<(Vec<u8>, Vec<String>)> = all
        .iter()
        .map(|r| {
            assert!(r.initialized());
            (r.v().id().as_bytes().clone(), label_strings(&r.v()))
        })
        .collect();
    seen.sort();
    assert_eq!(
        seen,
        vec![
            (b"a".to_vec(), vec!["p".to_string()]),
            (b"b".to_vec(), vec!["q".to_string(), "r".to_string()]),
            (b"c".to_vec(), vec![]),
        ]
    );
    let by_v = repo.v(&tx, &snapshot, &vec![]).unwrap();
    assert_eq!(by_v.len(), 3);
}

#[test]
fn scan_uses_the_snapshot_not_the_transaction() {
    let repo = VertexRepository::new();
    let mut tx = MemoryTransaction::new(true);
    let snapshot = tx.snapshot();
    let mut v = Vertex::partial_new(Gid::from_string("a"));
    repo.add_v(&mut tx, &mut v, &labels(&["p"]), true).unwrap();
    assert_eq!(repo.v(&tx, &snapshot, &vec![]).unwrap().len(), 0);
}

#[test]
fn label_of_256_bytes_rejected_before_write() {
    let repo = VertexRepository::new();
    let mut tx = MemoryTransaction::new(true);
    let mut v = Vertex::partial_new(Gid::from_string("x"));
    let long = "y".repeat(256);
    let r = repo.add_v(&mut tx, &mut v, &labels(&["ok", &long]), true);
    assert_eq!(r.unwrap_err(), VertexError::LabelTooLong);
    assert!(v.labels().is_empty());
    let rs = repo.v(&tx, &tx.snapshot(), &vec![Gid::from_string("x")]).unwrap();
    assert!(!rs[0].initialized());
}

#[test]
fn label_of_255_bytes_is_stored() {
    let repo = VertexRepository::new();
    let mut tx = MemoryTransaction::new(true);
    let mut v = Vertex::partial_new(Gid::from_string("x"));
    let long = "y".repeat(255);
    repo.add_v(&mut tx, &mut v, &labels(&[&long]), true).unwrap();
    let rs = repo.v(&tx, &tx.snapshot(), &vec![Gid::from_string("x")]).unwrap();
    assert_eq!(label_strings(&rs[0].v()), vec![long]);
}

#[test]
fn non_string_label_is_input_shape_error() {
    let repo = VertexRepository::new();
    let mut tx = MemoryTransaction::new(true);
    let mut v = Vertex::partial_new(Gid::from_string("x"));
    let r = repo.add_v(&mut tx, &mut v, &vec![GValue::Int64(3)], true);
    assert_eq!(r.unwrap_err(), VertexError::InputShape);
    assert_eq!(tx.get(&VERTEX_PARTITION.to_string(), &b"x".to_vec()), Ok(None));
}

#[test]
fn read_only_transaction_reports_storage_error() {
    let repo = VertexRepository::new();
    let mut tx = MemoryTransaction::new(false);
    let mut v = Vertex::partial_new(Gid::from_string("x"));
    let r = repo.add_v(&mut tx, &mut v, &labels(&["p"]), true);
    assert_eq!(r.unwrap_err(), VertexError::Storage(StoreError::ReadOnly));
    assert_eq!(repo.drop_v(&mut tx, &Gid::from_string("x")), Err(VertexError::Storage(StoreError::ReadOnly)));
}

#[test]
fn corrupt_record_is_decode_error() {
    let repo = VertexRepository::new();
    let mut tx = MemoryTransaction::new(true);
    tx.set(&VERTEX_PARTITION.to_string(), b"bad".to_vec(), vec![9, b'a']).unwrap();
    let r = repo.v(&tx, &tx.snapshot(), &vec![Gid::from_string("bad")]);
    assert_eq!(r.unwrap_err(), VertexError::Decode(CodecError::Truncated));
    assert_eq!(repo.iterate_all(&tx.snapshot()).unwrap_err(), VertexError::Decode(CodecError::Truncated));
}

#[test]
fn new_v_adds_vertex_without_id() {
    let repo = VertexRepository::new();
    let mut tx = MemoryTransaction::new(true);
    let r = repo.new_v(&mut tx, &labels(&["person"])).unwrap();
    assert!(!r.initialized());
    assert!(r.v().id().as_bytes().is_empty());
    assert_eq!(label_strings(&r.v()), vec!["person".to_string()]);
}

#[test]
fn empty_args_rejected_without_write() {
    let repo = VertexRepository::new();
    let mut store = MemoryPropertyStore::new();
    let mut v = Vertex::partial_new(Gid::from_string("x"));
    let r = repo.property(&mut v, &mut store, &vec![], false);
    assert_eq!(r.unwrap_err(), VertexError::InputShape);
    assert_eq!(store.len(), 0);
    assert!(v.properties().is_empty());
}

#[test]
fn property_with_one_arg_or_non_string_label_rejected() {
    let repo = VertexRepository::new();
    let mut store = MemoryPropertyStore::new();
    let mut v = Vertex::partial_new(Gid::from_string("x"));
    let one = vec![GValue::Str("age".to_string())];
    assert_eq!(repo.property(&mut v, &mut store, &one, false).unwrap_err(), VertexError::InputShape);
    let bad = vec![GValue::Bool(true), GValue::Int64(1)];
    assert_eq!(repo.property(&mut v, &mut store, &bad, false).unwrap_err(), VertexError::InputShape);
    assert_eq!(store.len(), 0);
}

#[test]
fn property_attaches_and_writes() {
    let repo = VertexRepository::new();
    let mut store = MemoryPropertyStore::new();
    let mut v = Vertex::partial_new(Gid::from_string("x"));
    let args = vec![GValue::Str("age".to_string()), GValue::Int64(30)];
    let r = repo.property(&mut v, &mut store, &args, true).unwrap();
    assert!(r.initialized());
    assert_eq!(store.len(), 1);
    let props = r.v().properties().clone();
    assert_eq!(props.len(), 1);
    assert_eq!(props[0].label, "age".to_string());
    assert!(matches!(props[0].value, GValue::Int64(30)));
    assert_eq!(v.properties().len(), 1);
}

#[test]
fn new_property_uses_fresh_vertex() {
    let repo = VertexRepository::new();
    let mut store = MemoryPropertyStore::new();
    let args = vec![GValue::Str("name".to_string()), GValue::Str("ann".to_string())];
    let r = repo.new_property(&mut store, &args).unwrap();
    assert!(!r.initialized());
    assert!(r.v().labels().is_empty());
    assert_eq!(r.v().properties().len(), 1);
}

#[test]
fn from_pair_rebuilds_vertex() {
    let v = from_pair(&b"id".to_vec(), &vec![1, b'a', 2, b'b', b'c']).unwrap();
    assert_eq!(v.id().as_bytes(), &b"id".to_vec());
    assert_eq!(label_strings(&v), vec!["a".to_string(), "bc".to_string()]);
    assert!(v.properties().is_empty());
    assert_eq!(from_pair(&b"id".to_vec(), &vec![1, 0xfe]).unwrap_err(), VertexError::Decode(CodecError::InvalidUtf8));
}

#[test]
fn read_vertex_outcomes() {
    let id = Gid::from_string("k");
    let miss = read_vertex(&id, None).unwrap();
    assert!(!miss.initialized());
    let hit = read_vertex(&id, Some(vec![2, b'h', b'i'])).unwrap();
    assert!(hit.initialized());
    assert_eq!(label_strings(&hit.v()), vec!["hi".to_string()]);
}

#[test]
fn iterate_decodes_each_pair() {
    let rs = iterate(vec![(b"a".to_vec(), vec![1, b'x']), (b"b".to_vec(), vec![])]).unwrap();
    assert_eq!(rs.len(), 2);
    assert_eq!(rs[0].v().id().as_bytes(), &b"a".to_vec());
    assert_eq!(label_strings(&rs[0].v()), vec!["x".to_string()]);
    assert!(rs[1].initialized());
    assert!(iterate(vec![(b"a".to_vec(), vec![4])]).is_err());
}

#[test]
fn gvalue_get_string() {
    assert_eq!(GValue::Str("s".to_string()).get_string(), Some("s".to_string()));
    assert_eq!(GValue::Bool(false).get_string(), None);
}
