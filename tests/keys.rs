use hkvdb::error::Error;
use hkvdb::key::{
    make_index_key, namespace_of, primary_key, primary_prefix, search_ci_key, split_primary_key,
    Namespace, TAG_INDEX, TAG_PRIMARY,
};
use hkvdb::store::label_string;
use hkvdb::CaseSensitivity;

#[test]
fn primary_key_layout() {
    let key = primary_key(0x0102030405060708, b"foo");
    assert_eq!(key, vec![TAG_PRIMARY, 1, 2, 3, 4, 5, 6, 7, 8, b'f', b'o', b'o']);
    assert_eq!(primary_prefix(0x0102030405060708), key[..9].to_vec());
    assert_eq!(split_primary_key(&key).unwrap(), (0x0102030405060708, b"foo".to_vec()));
}

#[test]
fn primary_keys_order_ids_numerically() {
    assert!(primary_key(1, b"zzz") < primary_key(2, b"aaa"));
    assert!(primary_key(255, b"") < primary_key(256, b""));
}

#[test]
fn split_rejects_short_or_foreign_keys() {
    assert!(matches!(split_primary_key(&[TAG_PRIMARY, 0, 0]), Err(Error::InvalidKey(_))));
    assert!(matches!(split_primary_key(&[TAG_INDEX, 0, 0, 0, 0, 0, 0, 0, 1]), Err(Error::InvalidKey(_))));
}

#[test]
fn namespaces_by_tag() {
    assert_eq!(namespace_of(&primary_key(1, b"a")), Namespace::Primary);
    assert_eq!(namespace_of(&[TAG_INDEX, b'a']), Namespace::Index);
    assert_eq!(namespace_of(&[]), Namespace::Unknown);
    assert_eq!(namespace_of(&[200]), Namespace::Unknown);
}

#[test]
fn index_key_case_policies() {
    assert_eq!(make_index_key(b"FoO", CaseSensitivity::Sensitive).unwrap(), vec![TAG_INDEX, b'F', b'o', b'O']);
    assert_eq!(make_index_key(b"FoO", CaseSensitivity::Insensitive).unwrap(), vec![TAG_INDEX, b'f', b'o', b'o']);
    assert_ne!(
        make_index_key(b"FOO", CaseSensitivity::Sensitive).unwrap(),
        make_index_key(b"FOO", CaseSensitivity::Insensitive).unwrap()
    );
}

#[test]
fn index_key_folding_needs_utf8() {
    assert!(matches!(make_index_key(&[0xff, 0xfe], CaseSensitivity::Insensitive), Err(Error::InvalidUtf8(_))));
    assert_eq!(make_index_key(&[0xff], CaseSensitivity::Sensitive).unwrap(), vec![TAG_INDEX, 0xff]);
}

#[test]
fn search_ci_key_folds_query() {
    assert_eq!(search_ci_key("RuDYgiuLianI").unwrap(), make_index_key(b"rudygiuliani", CaseSensitivity::Sensitive).unwrap());
}

#[test]
fn label_string_reads_utf8() {
    assert_eq!(label_string("héllo".as_bytes()).unwrap(), "héllo".to_string());
    assert!(matches!(label_string(&[0xc3]), Err(Error::InvalidUtf8(_))));
}
