//! The cache of image features and its keys.
use std::hash::{DefaultHasher, Hasher};

use mlxrs::array::Array;
use mlxrs::error::Error;
use mlxrs::vlm::feature_cache::{Key, VisionFeatureCache, DEFAULT_MAX_SIZE};

fn features(n: usize) -> Array {
    Array::zeros(&[n]).unwrap()
}

fn width(a: Option<Array>) -> Option<usize> {
    a.map(|a| a.size())
}

#[test]
fn keys_have_their_texts() {
    assert_eq!(Key::from_source("a.png").as_str(), "a.png");
    assert_eq!(Key::from_sources(&["a.png", "b.png"]).as_str(), "a.png|b.png");
    assert_eq!(Key::from_sources(&[]).as_str(), "");
    assert_eq!(Key::from_hash(0x0123_4567_89ab_cdef).as_str(), "pil:0123456789abcdef");
    assert_eq!(Key::from("a.png"), Key::from_source("a.png"));
}

#[test]
fn keys_of_bytes_tell_them_apart() {
    let a = Key::from_bytes(&[1, 2, 3]);
    assert_eq!(a, Key::from_bytes(&[1, 2, 3]));
    assert_ne!(a, Key::from_bytes(&[1, 2, 4]));
    assert_ne!(a, Key::from_bytes(&[1, 2, 3, 0]));
    assert_eq!(a.as_str().len(), 20);
    let mut hasher = DefaultHasher::new();
    hasher.write(&[3, 0, 0, 0, 0, 0, 0, 0]);
    hasher.write(&[1, 2, 3]);
    assert_eq!(a, Key::from_hash(hasher.finish()));
    assert!(a.as_str().starts_with("pil:"));
}

#[test]
fn cache_gives_back_what_was_put() {
    let mut cache = VisionFeatureCache::new();
    assert_eq!(cache.max_size(), DEFAULT_MAX_SIZE);
    assert!(cache.is_empty());
    let key = Key::from_source("a");
    assert_eq!(width(cache.get(&key).unwrap()), None);
    cache.put(key.clone(), &features(3)).unwrap();
    assert!(cache.contains(&key));
    assert_eq!(width(cache.get(&key).unwrap()), Some(3));
    cache.put(key.clone(), &features(5)).unwrap();
    assert_eq!(cache.len(), 1);
    assert_eq!(width(cache.get(&key).unwrap()), Some(5));
    cache.clear();
    assert!(cache.is_empty());
    assert!(!cache.contains(&key));
}

#[test]
fn cache_drops_what_was_used_longest_ago() {
    let mut cache = VisionFeatureCache::with_max_size(2).unwrap();
    let (a, b, c) = (Key::from("a"), Key::from("b"), Key::from("c"));
    cache.put(a.clone(), &features(1)).unwrap();
    cache.put(b.clone(), &features(2)).unwrap();
    assert_eq!(width(cache.get(&a).unwrap()), Some(1));
    cache.put(c.clone(), &features(3)).unwrap();
    assert_eq!(cache.len(), 2);
    assert!(cache.contains(&a));
    assert!(!cache.contains(&b));
    assert!(cache.contains(&c));
}

#[test]
fn cache_needs_room() {
    assert!(matches!(VisionFeatureCache::with_max_size(0), Err(Error::ShapeMismatch { .. })));
    assert_eq!(
        VisionFeatureCache::with_max_size(0).unwrap_err().message(),
        "VisionFeatureCache: max_size must be >= 1 (a zero-capacity cache can never hold an entry)"
    );
    assert_eq!(VisionFeatureCache::default().max_size(), DEFAULT_MAX_SIZE);
}
