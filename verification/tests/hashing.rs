use std::hash::{Hash, Hasher};
use valkey_cuckoo::hasher::FixedHasher;

/// `Hasher` over the library's fixed hasher, as the filter engine uses it.
#[derive(Default)]
struct StdHasher(FixedHasher);

impl Hasher for StdHasher {
    fn finish(&self) -> u64 {
        self.0.finish()
    }
    fn write(&mut self, bytes: &[u8]) {
        self.0.write(bytes);
    }
    fn write_usize(&mut self, value: usize) {
        self.0.write_usize(value);
    }
}

#[test]
fn slice_hash_representation_stays_compatible() {
    for length in 0..=1024 {
        let data: Vec<u8> = (0..length).map(|i| (i * 37) as u8).collect();
        let mut through_std = StdHasher::default();
        data.as_slice().hash(&mut through_std);
        let mut canonical = StdHasher::default();
        canonical.write(&(length as u64).to_le_bytes());
        canonical.write(&data);
        assert_eq!(through_std.finish(), canonical.finish(), "length {length}");
    }
}

#[test]
fn digest_is_keyless_siphash13() {
    assert_eq!(FixedHasher::new().finish(), 15130871412783076140);
    let mut hasher = FixedHasher::default();
    hasher.write(b"abc");
    assert_eq!(hasher.finish(), 13851880170939887858);
    let mut prefixed = FixedHasher::new();
    prefixed.write_usize(3);
    prefixed.write(b"abc");
    assert_eq!(prefixed.finish(), 5378393838603134665);
}

#[test]
fn split_writes_hash_like_one_write() {
    let mut whole = FixedHasher::new();
    whole.write(b"0123456789abcdefXYZ");
    let mut split = FixedHasher::new();
    split.write(b"0123");
    split.write(b"456789abcdef");
    split.write(b"XYZ");
    assert_eq!(whole.finish(), split.finish());
    assert_ne!(whole.finish(), FixedHasher::new().finish());
}
