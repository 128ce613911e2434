use hkvdb::key::{primary_prefix, search_ci_key, make_index_key, TAG_INDEX, TAG_PRIMARY};
use hkvdb::merge::merge_operator;
use hkvdb::store::{entry_under_id, index_request, merge_request, postings, primary_entry, KeyCounts};
use hkvdb::value::{Range32, Set32, Set64, Value};
use hkvdb::CaseSensitivity;
use std::collections::{BTreeMap, HashMap};

/// An ordered in-memory key space that applies every merge at once.
struct Engine<V> {
    map: BTreeMap<Vec<u8>, Vec<u8>>,
    _values: std::marker::PhantomData<V>,
}

impl<V: Value> Engine<V> {
    fn new() -> Self {
        Engine { map: BTreeMap::new(), _values: std::marker::PhantomData }
    }

    fn merge(&mut self, key: Vec<u8>, operand: Vec<u8>) {
        let existing = self.map.get(&key).cloned();
        let (value, error) =
            merge_operator::<V>(&key, existing.as_deref(), &[operand.as_slice()]);
        assert!(error.is_none());
        match value {
            Some(v) => {
                self.map.insert(key, v);
            }
            None => {
                self.map.remove(&key);
            }
        }
    }

    fn from(&self, start: &[u8]) -> Vec<(Vec<u8>, Vec<u8>)> {
        self.map
            .range(start.to_vec()..)
            .map(|(k, v)| (k.clone(), v.clone()))
            .collect()
    }

    fn put(&mut self, id: u64, label: &str, value: V) {
        let (key, operand) = merge_request(id, label.as_bytes(), value);
        self.merge(key, operand);
    }

    fn get(&self, id: u64) -> HashMap<String, V> {
        let mut result = HashMap::new();
        for (key, value) in self.from(&primary_prefix(id)) {
            match entry_under_id::<V>(id, &key, &value).unwrap() {
                Some((label, v)) => {
                    result.insert(String::from_utf8(label).unwrap(), v);
                }
                None => break,
            }
        }
        result
    }

    fn iter(&self) -> Vec<(u64, String, V)> {
        let mut result = Vec::new();
        for (key, value) in self.from(&[TAG_PRIMARY]) {
            match primary_entry::<V>(&key, &value).unwrap() {
                Some((id, label, v)) => result.push((id, String::from_utf8(label).unwrap(), v)),
                None => break,
            }
        }
        result
    }

    fn get_counts(&self) -> (u64, u64) {
        let mut counts = KeyCounts::new();
        for (key, _) in self.from(&[TAG_PRIMARY]) {
            if !counts.observe(&key).unwrap() {
                break;
            }
        }
        counts.counts()
    }

    fn make_index(&mut self, case_sensitivity: CaseSensitivity) {
        for (key, _) in self.from(&[TAG_PRIMARY]) {
            match index_request(&key, case_sensitivity).unwrap() {
                Some((index_key, ids)) => self.merge(index_key, ids),
                None => break,
            }
        }
    }

    fn search_key(&self, key: &[u8]) -> Vec<u64> {
        postings(self.map.get(key).map(|v| v.as_slice())).unwrap()
    }

    fn search(&self, data: &str) -> Vec<u64> {
        self.search_key(&make_index_key(data.as_bytes(), CaseSensitivity::Sensitive).unwrap())
    }

    fn search_ci(&self, data: &str) -> Vec<u64> {
        self.search_key(&search_ci_key(data).unwrap())
    }
}

fn observations() -> Vec<(u64, &'static str, u32)> {
    vec![
        (1, "foo", 101),
        (1, "bar", 1),
        (1, "foo", 23),
        (2, "FOO", 23),
        (1, "qux", 50),
        (1, "bar", 1),
        (1, "qux", 0),
        (2, "abc", 23),
    ]
}

fn range_engine() -> Engine<Range32> {
    let mut db = Engine::new();
    for (id, label, timestamp) in observations() {
        db.put(id, label, Range32::singleton(timestamp));
    }
    db
}

fn set_engine() -> Engine<Set32> {
    let mut db = Engine::new();
    for (id, label, timestamp) in observations() {
        db.put(id, label, Set32::singleton(timestamp));
    }
    db
}

fn expected_ranges() -> HashMap<String, Range32> {
    vec![
        ("foo".to_string(), Range32::new(23, 101)),
        ("bar".to_string(), Range32::new(1, 1)),
        ("qux".to_string(), Range32::new(0, 50)),
    ]
    .into_iter()
    .collect()
}

#[test]
fn get_counts() {
    assert_eq!(range_engine().get_counts(), (2, 5));
}

#[test]
fn put_raw_batch() {
    let mut db: Engine<Range32> = Engine::new();
    let requests: Vec<(Vec<u8>, Vec<u8>)> = observations()
        .iter()
        .map(|(id, label, timestamp)| merge_request(*id, label.as_bytes(), Range32::singleton(*timestamp)))
        .collect();
    for (key, operand) in requests {
        db.merge(key, operand);
    }
    assert_eq!(db.get(1), expected_ranges());
}

#[test]
fn put_batch() {
    let mut db: Engine<Range32> = Engine::new();
    for (id, label, timestamp) in observations() {
        db.put(id, label, Range32::singleton(timestamp));
    }
    assert_eq!(db.get(1), expected_ranges());
}

#[test]
fn iter() {
    let expected: Vec<(u64, String, Range32)> = vec![
        (1, "bar".to_string(), Range32::new(1, 1)),
        (1, "foo".to_string(), Range32::new(23, 101)),
        (1, "qux".to_string(), Range32::new(0, 50)),
        (2, "FOO".to_string(), Range32::new(23, 23)),
        (2, "abc".to_string(), Range32::new(23, 23)),
    ];
    assert_eq!(range_engine().iter(), expected);
}

#[test]
fn timestamp_range() {
    assert_eq!(range_engine().get(1), expected_ranges());
}

#[test]
fn timestamp_set() {
    let expected: HashMap<String, Set32> = vec![
        ("foo".to_string(), Set32::new(&[23, 101])),
        ("bar".to_string(), Set32::new(&[1])),
        ("qux".to_string(), Set32::new(&[0, 50])),
    ]
    .into_iter()
    .collect();
    let db = set_engine();
    assert_eq!(db.get(1), expected);
    assert_eq!(db.get(1)["qux"].values(), &[0, 50]);
}

#[test]
fn search() {
    let mut db = set_engine();
    db.make_index(CaseSensitivity::Sensitive);
    assert_eq!(db.search("foo"), vec![1]);
}

#[test]
fn search_ci() {
    let mut db = set_engine();
    db.make_index(CaseSensitivity::Insensitive);
    assert_eq!(db.search_ci("foo"), vec![1, 2]);
}

#[test]
fn both_indexes_coexist() {
    let mut db = set_engine();
    db.make_index(CaseSensitivity::Sensitive);
    db.make_index(CaseSensitivity::Insensitive);
    // A lower-case label folds onto the same key under both policies.
    assert_eq!(db.search("foo"), vec![1, 2]);
    assert_eq!(db.search("FOO"), vec![2]);
    assert_eq!(db.search("abc"), vec![2]);
    assert_eq!(db.search_ci("FOO"), vec![1, 2]);
}

#[test]
fn make_index_twice_does_not_duplicate() {
    let mut db = set_engine();
    db.make_index(CaseSensitivity::Insensitive);
    db.make_index(CaseSensitivity::Insensitive);
    assert_eq!(db.search_ci("foo"), vec![1, 2]);
}

#[test]
fn search_absent_key_is_empty() {
    let mut db = set_engine();
    db.make_index(CaseSensitivity::Sensitive);
    assert_eq!(db.search("nothing"), Vec::<u64>::new());
    assert_eq!(postings(None).unwrap(), Vec::<u64>::new());
}

#[test]
fn get_of_other_id_is_isolated() {
    let db = range_engine();
    let two = db.get(2);
    assert_eq!(two.len(), 2);
    assert!(!two.contains_key("foo"));
    assert!(db.get(3).is_empty());
}

#[test]
fn demo_test() {
    let mut db: Engine<Range32> = Engine::new();
    db.put(770781940341288960, "RudyGiuliani", Range32::singleton(1577933499));
    db.put(770781940341288960, "xxxxxxx37583982", Range32::singleton(1479920042));
    db.put(6510972, "travisbrown", Range32::singleton(1643648042));

    let mut expected = HashMap::new();
    expected.insert("xxxxxxx37583982".to_string(), Range32::singleton(1479920042));
    expected.insert("RudyGiuliani".to_string(), Range32::singleton(1577933499));
    assert_eq!(db.get(770781940341288960), expected);

    db.make_index(CaseSensitivity::Insensitive);
    assert_eq!(db.search_ci("RuDYgiuLianI"), vec![770781940341288960]);
}

#[test]
fn unknown_namespace_keeps_latest_operand() {
    let (value, error) = merge_operator::<Range32>(&[9, 1], Some(&[1u8, 2][..]), &[&[3u8][..], &[4u8, 5][..]]);
    assert_eq!(value, Some(vec![4, 5]));
    assert!(error.is_none());
    let (value, _) = merge_operator::<Range32>(&[], Some(&[1u8, 2][..]), &[]);
    assert_eq!(value, Some(vec![1, 2]));
}

#[test]
fn index_namespace_merges_posting_sets() {
    let key = vec![TAG_INDEX, b'a'];
    let existing = Set64::new(&[5, 9]).encode();
    let one = Set64::singleton(7).encode();
    let (value, error) = merge_operator::<Range32>(&key, Some(existing.as_slice()), &[one.as_slice()]);
    assert!(error.is_none());
    assert_eq!(value, Some(Set64::new(&[5, 7, 9]).encode()));
}

#[test]
fn corrupt_operand_reports_error_and_keeps_fallback() {
    let key = hkvdb::key::primary_key(1, b"foo");
    let existing = Range32::new(1, 2).encode();
    let (value, error) = merge_operator::<Range32>(&key, Some(existing.as_slice()), &[&[1u8, 2, 3][..]]);
    assert_eq!(value, Some(existing.clone()));
    assert!(matches!(error, Some(hkvdb::Error::InvalidValue(_))));
}

#[test]
fn short_primary_key_is_invalid() {
    assert!(matches!(primary_entry::<Range32>(&[TAG_PRIMARY, 1], &[]), Err(hkvdb::Error::InvalidKey(_))));
    let mut counts = KeyCounts::new();
    assert!(counts.observe(&[TAG_PRIMARY]).is_err());
    assert_eq!(counts.counts(), (0, 0));
    assert!(matches!(index_request(&[TAG_PRIMARY, 1, 2], CaseSensitivity::Sensitive), Err(hkvdb::Error::InvalidKey(_))));
}

#[test]
fn corrupt_first_operand_keeps_it_rather_than_deleting() {
    let key = hkvdb::key::primary_key(1, b"foo");
    let (value, error) = merge_operator::<Range32>(&key, None, &[&[1u8, 2, 3][..]]);
    assert_eq!(value, Some(vec![1, 2, 3]));
    assert!(matches!(error, Some(hkvdb::Error::InvalidValue(_))));
}
