use hkvdb::error::Error;
use hkvdb::value::{merge, Range32, Set32, Set64, Value};

#[test]
fn range_accessors() {
    let r = Range32::new(3, 9);
    assert_eq!(r.first(), 3);
    assert_eq!(r.last(), 9);
    assert_eq!(Range32::singleton(7), Range32::new(7, 7));
    assert_eq!(Range32::from((1, 2)), Range32::new(1, 2));
}

#[test]
fn range_combine_takes_min_and_max() {
    let r = Range32::new(23, 101).combine(Range32::new(0, 50));
    assert_eq!(r, Range32::new(0, 101));
}

#[test]
fn range_combine_commutes_and_associates() {
    let (a, b, c) = ((5, 9), (1, 7), (6, 12));
    let r = |p: (u32, u32)| Range32::new(p.0, p.1);
    assert_eq!(r(a).combine(r(b)), r(b).combine(r(a)));
    assert_eq!(
        r(a).combine(r(b)).combine(r(c)),
        r(a).combine(r(b).combine(r(c)))
    );
    assert_eq!(r(a).combine(r(a)), r(a));
}

#[test]
fn range_encoding_is_big_endian() {
    let bytes = Range32::new(0x01020304, 0x0a0b0c0d).encode();
    assert_eq!(bytes, vec![1, 2, 3, 4, 10, 11, 12, 13]);
    assert_eq!(Range32::prepare(&bytes).unwrap(), Range32::new(0x01020304, 0x0a0b0c0d));
}

#[test]
fn range_rejects_wrong_length() {
    for len in [0usize, 1, 7, 9, 16] {
        let bytes = vec![0u8; len];
        match Range32::prepare(&bytes) {
            Err(Error::InvalidValue(b)) => assert_eq!(b, bytes),
            other => panic!("unexpected {:?}", other),
        }
    }
}

#[test]
fn set32_new_sorts_and_dedups() {
    let s = Set32::new(&[50, 0, 50, 7]);
    assert_eq!(s.values(), &[0, 7, 50]);
    assert_eq!(Set32::singleton(4).into_inner(), vec![4]);
}

#[test]
fn set32_union_laws() {
    let a = || Set32::new(&[1, 5, 9]);
    let b = || Set32::new(&[5, 2]);
    let c = || Set32::new(&[10, 0]);
    assert_eq!(a().combine(b()).values(), &[1, 2, 5, 9]);
    assert_eq!(a().combine(b()), b().combine(a()));
    assert_eq!(a().combine(b()).combine(c()), a().combine(b().combine(c())));
    assert_eq!(a().combine(a()), a());
}

#[test]
fn set32_round_trip_and_length_check() {
    let bytes = Set32::new(&[0, 50]).encode();
    assert_eq!(bytes, vec![0, 0, 0, 0, 0, 0, 0, 50]);
    assert_eq!(Set32::prepare(&bytes).unwrap(), Set32::new(&[0, 50]));
    assert!(matches!(Set32::prepare(&[0, 0, 0]), Err(Error::InvalidValue(_))));
    assert_eq!(Set32::prepare(&[]).unwrap().into_inner(), Vec::<u32>::new());
}

#[test]
fn set32_decode_sorts_unsorted_layout() {
    let bytes = vec![0, 0, 0, 9, 0, 0, 0, 1, 0, 0, 0, 9];
    assert_eq!(Set32::prepare(&bytes).unwrap().values(), &[1, 9]);
}

#[test]
fn set64_union_and_present_singleton() {
    let a = Set64::new(&[3, 1, 2]);
    assert_eq!(a.values(), &[1, 2, 3]);
    let b = a.combine(Set64::singleton(2));
    assert_eq!(b.values(), &[1, 2, 3]);
    let c = b.combine(Set64::singleton(u64::MAX));
    assert_eq!(c.into_inner(), vec![1, 2, 3, u64::MAX]);
}

#[test]
fn set64_round_trip_and_length_check() {
    let bytes = Set64::new(&[1, 770781940341288960]).encode();
    assert_eq!(bytes.len(), 16);
    assert_eq!(&bytes[0..8], &[0, 0, 0, 0, 0, 0, 0, 1]);
    assert_eq!(Set64::prepare(&bytes).unwrap(), Set64::new(&[1, 770781940341288960]));
    assert!(matches!(Set64::prepare(&[1, 2, 3, 4]), Err(Error::InvalidValue(_))));
}

#[test]
fn merge_folds_existing_and_operands() {
    let existing = Range32::new(10, 20).encode();
    let a = Range32::singleton(5).encode();
    let b = Range32::singleton(30).encode();
    let out = merge::<Range32>(Some(existing.as_slice()), &[a.as_slice(), b.as_slice()]).unwrap();
    assert_eq!(out, Some(Range32::new(5, 30).encode()));
}

#[test]
fn merge_without_anything_is_empty() {
    assert_eq!(merge::<Set32>(None, &[]).unwrap(), None);
}

#[test]
fn merge_bad_operand_falls_back_to_aggregate() {
    let a = Range32::singleton(5).encode();
    let bad = vec![1u8, 2, 3];
    let c = Range32::singleton(9).encode();
    match merge::<Range32>(None, &[a.as_slice(), bad.as_slice(), c.as_slice()]) {
        Err((Error::InvalidValue(b), fallback)) => {
            assert_eq!(b, bad);
            assert_eq!(fallback, Some(a.clone()));
        }
        other => panic!("unexpected {:?}", other),
    }
}

#[test]
fn merge_bad_existing_falls_back_to_last_operand() {
    let bad = vec![9u8];
    let a = Range32::singleton(5).encode();
    let c = Range32::singleton(9).encode();
    match merge::<Range32>(Some(bad.as_slice()), &[a.as_slice(), c.as_slice()]) {
        Err((Error::InvalidValue(b), fallback)) => {
            assert_eq!(b, bad);
            assert_eq!(fallback, Some(c.clone()));
        }
        other => panic!("unexpected {:?}", other),
    }
    match merge::<Range32>(Some(bad.as_slice()), &[]) {
        Err((_, fallback)) => assert_eq!(fallback, None),
        other => panic!("unexpected {:?}", other),
    }
}

#[test]
fn error_constructor_copies_bytes() {
    match Error::invalid_value(&[1, 2]) {
        Error::InvalidValue(b) => assert_eq!(b, vec![1, 2]),
        other => panic!("unexpected {:?}", other),
    }
}

#[test]
fn range_from_conversions() {
    assert_eq!(Range32::from(7u32), Range32::new(7, 7));
    let r: Range32 = (23, 101).into();
    assert_eq!(r, Range32::new(23, 101));
}

#[test]
fn merge_in_rounds_matches_single_merge() {
    let existing = Set32::new(&[4]).encode();
    let ops: Vec<Vec<u8>> = vec![
        Set32::singleton(9).encode(),
        Set32::singleton(1).encode(),
        Set32::singleton(4).encode(),
        Set32::new(&[2, 9]).encode(),
    ];
    let all: Vec<&[u8]> = ops.iter().map(|o| o.as_slice()).collect();
    let once = merge::<Set32>(Some(existing.as_slice()), &all).unwrap();
    let first = merge::<Set32>(Some(existing.as_slice()), &all[..2]).unwrap().unwrap();
    let twice = merge::<Set32>(Some(first.as_slice()), &all[2..]).unwrap();
    assert_eq!(once, twice);
    assert_eq!(once, Some(Set32::new(&[1, 2, 4, 9]).encode()));
}

#[test]
fn merge_bad_first_operand_falls_back_to_last_operand() {
    let bad = vec![1u8, 2, 3];
    let b = Range32::singleton(5).encode();
    let c = vec![7u8];
    match merge::<Range32>(None, &[bad.as_slice(), b.as_slice(), c.as_slice()]) {
        Err((Error::InvalidValue(v), fallback)) => {
            assert_eq!(v, bad);
            assert_eq!(fallback, Some(c.clone()));
        }
        other => panic!("unexpected {:?}", other),
    }
    match merge::<Range32>(None, &[bad.as_slice()]) {
        Err((_, fallback)) => assert_eq!(fallback, Some(bad.clone())),
        other => panic!("unexpected {:?}", other),
    }
}

#[test]
fn set_from_conversions() {
    assert_eq!(Set32::from(7u32), Set32::singleton(7));
    let s: Set32 = (&[9u32, 1, 9][..]).into();
    assert_eq!(s.values(), &[1, 9]);
    assert_eq!(Set64::from(3u64), Set64::singleton(3));
    let t: Set64 = (&[5u64, 2][..]).into();
    assert_eq!(t.into_inner(), vec![2, 5]);
}
