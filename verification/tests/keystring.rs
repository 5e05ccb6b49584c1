use std::borrow::Cow;
use std::cmp::Ordering;

use keystring::DeserializationError;
use keystring::KeyString;
use keystring::Scalar;

#[test]
fn empty_key_is_empty() {
    let k = KeyString::new("");
    assert!(k.is_empty());
    assert_eq!(k.len(), 0);
}

#[test]
fn len_is_byte_length_not_char_count() {
    let k = KeyString::new("café");
    assert_eq!(k.len(), 5);
    assert_eq!(k.as_str().chars().count(), 4);
    assert!(!k.is_empty());
}

#[test]
fn len_matches_text_byte_length() {
    for s in ["", "a", "abc", "héllo", "日本語"] {
        assert_eq!(KeyString::new(s).len(), s.len());
        assert_eq!(KeyString::new(s).is_empty(), s.is_empty());
    }
}

#[test]
fn as_str_returns_the_text() {
    assert_eq!(KeyString::new("héllo").as_str(), "héllo");
    assert_eq!(KeyString::new("").as_str(), "");
}

#[test]
fn constructors_agree() {
    let from_slice = KeyString::new("value");
    let from_owned = KeyString::from_string(String::from("value"));
    let from_borrowed_cow = KeyString::from_cow(Cow::Borrowed("value"));
    let from_owned_cow = KeyString::from_cow(Cow::Owned(String::from("value")));
    assert_eq!(from_slice, from_owned);
    assert_eq!(from_slice, from_borrowed_cow);
    assert_eq!(from_slice, from_owned_cow);
}

#[test]
fn equality_with_plain_text() {
    let k = KeyString::new("lookup");
    assert!(k.eq_str("lookup"));
    assert!(!k.eq_str("Lookup"));
    assert!(!k.eq_str("lookup "));
    assert!(!KeyString::new("").eq_str("x"));
    assert!(KeyString::new("").eq_str(""));
}

#[test]
fn equality_between_keys() {
    assert_eq!(KeyString::new("a"), KeyString::new("a"));
    assert_ne!(KeyString::new("a"), KeyString::new("b"));
    assert_ne!(KeyString::new("a"), KeyString::new("ab"));
}

#[test]
fn ordering_matches_text_ordering() {
    let pairs = [("a", "b"), ("a", "ab"), ("z", "é"), ("abc", "abd"), ("", "a"), ("日", "本")];
    for (s1, s2) in pairs {
        let k1 = KeyString::new(s1);
        let k2 = KeyString::new(s2);
        assert_eq!(k1 < k2, s1 < s2);
        assert_eq!(k2 < k1, s2 < s1);
        assert_eq!(k1.partial_cmp(&k2), s1.partial_cmp(s2));
    }
    let k = KeyString::new("x");
    assert_eq!(k.partial_cmp(&KeyString::new("x")), Some(Ordering::Equal));
}

#[test]
fn ordering_agrees_pairwise_with_text() {
    let samples = ["", "a", "ab", "b", "ba", "z", "é", "és", "日", "日本", "🦀"];
    for s1 in samples {
        for s2 in samples {
            assert_eq!(KeyString::new(s1) < KeyString::new(s2), s1 < s2);
            assert_eq!(KeyString::new(s1) == KeyString::new(s2), s1 == s2);
        }
    }
}

#[test]
fn keys_work_in_ordered_maps() {
    let mut m = std::collections::BTreeMap::new();
    m.insert(KeyString::new("b"), 2);
    m.insert(KeyString::new("a"), 1);
    m.insert(KeyString::new("é"), 3);
    let keys: Vec<String> = m.keys().map(|k| k.as_str().to_string()).collect();
    assert_eq!(keys, vec!["a".to_string(), "b".to_string(), "é".to_string()]);
    assert_eq!(m.get(&KeyString::new("a")), Some(&1));
    assert_eq!(m.get(&KeyString::new("missing")), None);
}

#[test]
fn clone_shares_the_backing_buffer() {
    let k = KeyString::new("shared buffer");
    let c = k.clone();
    let b1 = k.to_bytes();
    let b2 = c.to_bytes();
    assert_eq!(b1.as_ref().as_ptr(), b2.as_ref().as_ptr());
    assert_eq!(c, k);
}

#[test]
fn to_bytes_shares_and_matches_contents() {
    let k = KeyString::new("café");
    let b1 = k.to_bytes();
    let b2 = k.to_bytes();
    assert_eq!(b1.as_ref(), "café".as_bytes());
    assert_eq!(b1.as_ref().as_ptr(), b2.as_ref().as_ptr());
}

#[test]
fn into_bytes_copies_the_contents() {
    let b = KeyString::new("café").into_bytes();
    assert_eq!(&*b, "café".as_bytes());
    let empty = KeyString::new("").into_bytes();
    assert_eq!(empty.len(), 0);
}

#[test]
fn conversion_identity() {
    let s = String::from("naïve");
    let k = KeyString::new(&s);
    assert_eq!(k.clone().into_string(), s);
    let rebuilt = KeyString::new(&k.clone().into_string());
    assert_eq!(rebuilt, k);
}

#[test]
fn serialization_round_trip() {
    for s in ["", "plain", "café", "🦀 keys"] {
        let k = KeyString::new(s);
        let scalar = k.serialize();
        match &scalar {
            Scalar::Text(t) => assert_eq!(t.as_str(), s),
            _ => panic!("a key must serialize to a text scalar"),
        }
        let back = KeyString::deserialize(scalar).unwrap();
        assert_eq!(back, k);
        assert_eq!(back.as_str(), s);
    }
}

#[test]
fn cafe_round_trips_to_the_text_scalar() {
    let k = KeyString::new("café");
    let scalar = k.serialize();
    assert!(matches!(&scalar, Scalar::Text(t) if t == "café"));
    let back = KeyString::deserialize(scalar).unwrap();
    assert_eq!(back, k);
    assert_eq!(back.len(), 5);
}

#[test]
fn deserializing_non_text_scalars_fails() {
    assert_eq!(KeyString::deserialize(Scalar::Integer(7)), Err(DeserializationError));
    assert_eq!(KeyString::deserialize(Scalar::Integer(0)), Err(DeserializationError));
    assert_eq!(KeyString::deserialize(Scalar::Boolean(true)), Err(DeserializationError));
    assert_eq!(KeyString::deserialize(Scalar::Boolean(false)), Err(DeserializationError));
}

#[test]
fn deserializing_text_succeeds() {
    let k = KeyString::deserialize(Scalar::Text(String::from("field"))).unwrap();
    assert!(k.eq_str("field"));
}
