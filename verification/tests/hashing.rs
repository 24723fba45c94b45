use arceos_loader::map::{random_next, DefaultHasher, RandomState, RAND_MAX};
use siphasher::sip::SipHasher13;
use std::hash::{BuildHasher, Hasher};

fn sip(k0: u64, k1: u64, bytes: &[u8]) -> u64 {
    let mut h = SipHasher13::new_with_keys(k0, k1);
    h.write(bytes);
    h.finish()
}

#[test]
fn default_hasher_is_zero_keyed_siphash13() {
    let mut h = DefaultHasher::new();
    h.write(b"hello");
    h.write(b" world");
    assert_eq!(h.finish(), sip(0, 0, b"hello world"));
    assert_ne!(h.finish(), sip(0, 0, b"hello"));
}

#[test]
fn default_hasher_default_matches_new() {
    let mut a = DefaultHasher::new();
    let mut b: DefaultHasher = Default::default();
    a.write(&[1, 2, 3]);
    b.write(&[1, 2, 3]);
    assert_eq!(a.finish(), b.finish());
    assert_eq!(DefaultHasher::new().finish(), sip(0, 0, &[]));
}

#[test]
fn write_str_appends_ff() {
    let mut h = DefaultHasher::new();
    h.write_str("abc");
    assert_eq!(h.finish(), sip(0, 0, &[b'a', b'b', b'c', 0xff]));
    let mut a = DefaultHasher::new();
    a.write_str("ab");
    a.write_str("c");
    let mut b = DefaultHasher::new();
    b.write_str("a");
    b.write_str("bc");
    assert_ne!(a.finish(), b.finish());
}

#[test]
fn random_state_splits_its_bits() {
    let bits: u128 = 0x0123_4567_89ab_cdef_fedc_ba98_7654_3210;
    let s = RandomState::new(bits);
    let mut h = s.build_hasher();
    h.write(b"key");
    assert_eq!(h.finish(), sip(0x0123_4567_89ab_cdef, 0xfedc_ba98_7654_3210, b"key"));
    assert_ne!(h.finish(), sip(0xfedc_ba98_7654_3210, 0x0123_4567_89ab_cdef, b"key"));
}

#[test]
fn built_hashers_agree() {
    let s = RandomState::new(42);
    let mut a = s.build_hasher();
    let mut b = s.build_hasher();
    a.write(b"same");
    b.write(b"same");
    assert_eq!(a.finish(), b.finish());
    assert_eq!(a.finish(), sip(0, 42, b"same"));
}

#[test]
fn random_from_seed_one() {
    let mut seed: u32 = 1;
    let r = random_next(&mut seed, 0);
    assert_eq!(r, 0x0000bc8f_8ae257e1_ccf8b8fa_26c7829f);
    assert_eq!(seed, 650609311);
    let r2 = random_next(&mut seed, 0);
    assert_eq!(r2, 0x2d5ed761_fe25ac99_a1cc80a8_8fb7b504);
    assert_eq!(seed, 2411181316);
    assert!((seed as u64) < RAND_MAX);
}

#[test]
fn random_seeds_from_clock_when_unseeded() {
    let mut seed: u32 = 0;
    let r = random_next(&mut seed, 0x1_2345_6789_abcd);
    assert_eq!(r, 0xf011cfc5_2e886bde_2d6b6b48_41c9eeac);
    assert_eq!(seed, 1103752876);
    let mut seeded: u32 = 1;
    assert_eq!(random_next(&mut seeded, 0x1_2345_6789_abcd), 0x0000bc8f_8ae257e1_ccf8b8fa_26c7829f);
}

#[test]
fn cloned_hasher_continues_independently() {
    let mut a = DefaultHasher::new();
    a.write(b"ab");
    let mut b = a.clone();
    b.write(b"c");
    assert_eq!(a.finish(), sip(0, 0, b"ab"));
    assert_eq!(b.finish(), sip(0, 0, b"abc"));
}

#[test]
fn new_and_default_agree_on_a_sequence() {
    let mut a = DefaultHasher::new();
    let mut b: DefaultHasher = Default::default();
    for h in [&mut a, &mut b] {
        h.write(&[9, 8, 7]);
        h.write_str("name");
        h.write(&[]);
        h.write_str("");
    }
    assert_eq!(a.finish(), b.finish());
    assert_eq!(a.finish(), sip(0, 0, &[9, 8, 7, b'n', b'a', b'm', b'e', 0xff, 0xff]));
}
