use ufbx::platform::atomics::{AtomicCounter, THREAD_SAFE};
use ufbx::platform::config::{
    Features, EPSILON_F32_BITS, EPSILON_F64_BITS, MAX_NODE_DEPTH, MAX_NON_ARRAY_VALUES, MAX_XML_DEPTH,
};
use ufbx::platform::{
    is_little_endian, likely, pack_version, path_separator, unlikely, unpack_version, version_string,
    FLT_EPSILON_BITS, INFINITY_BITS, MAXIMUM_ALIGNMENT, NAN_BITS, SOURCE_VERSION, UINTPTR_SIZE,
};

#[test]
fn test_atomic_counter() {
    let counter = AtomicCounter::new();
    assert_eq!(counter.load(), 0);

    let prev = counter.inc();
    assert_eq!(prev, 0);
    assert_eq!(counter.load(), 1);

    let prev = counter.inc();
    assert_eq!(prev, 1);
    assert_eq!(counter.load(), 2);

    let prev = counter.dec();
    assert_eq!(prev, 2);
    assert_eq!(counter.load(), 1);
}

#[test]
fn test_atomic_counter_init() {
    let counter = AtomicCounter::new();
    counter.store(42);
    assert_eq!(counter.load(), 42);
    counter.init();
    assert_eq!(counter.load(), 0);
}

#[test]
fn test_clone() {
    let counter1 = AtomicCounter::new();
    counter1.store(42);
    let counter2 = counter1.clone();
    assert_eq!(counter2.load(), 42);
    counter1.inc();
    assert_eq!(counter1.load(), 43);
    assert_eq!(counter2.load(), 42);
}

#[test]
fn test_thread_safe_constant() {
    assert!(THREAD_SAFE);
}

#[test]
fn test_features() {
    let full = Features::full();
    assert!(full.subdivision);
    assert!(full.xml());
    assert!(full.kd());

    let minimal = Features::minimal();
    assert!(!minimal.subdivision);
    assert!(!minimal.xml());
    assert!(minimal.partial());
}

#[test]
fn test_epsilon() {
    assert!(f32::from_bits(EPSILON_F32_BITS) > 0.0);
    assert!(f64::from_bits(EPSILON_F64_BITS) > 0.0);
}

#[test]
fn config_test_constants() {
    assert_eq!(MAX_NON_ARRAY_VALUES, 8);
    assert_eq!(MAX_NODE_DEPTH, 32);
    assert_eq!(MAX_XML_DEPTH, 32);
}

#[test]
fn mod_test_version() {
    assert_eq!(SOURCE_VERSION, pack_version(0, 21, 2));
    assert_eq!(unpack_version(SOURCE_VERSION), (0, 21, 2));
    assert_eq!(version_string(), "0.21.2");
}

#[test]
fn test_pack_unpack_version() {
    let v = pack_version(1, 2, 3);
    assert_eq!(v, 1002003);
    assert_eq!(unpack_version(v), (1, 2, 3));

    let v2 = pack_version(12, 345, 678);
    assert_eq!(unpack_version(v2), (12, 345, 678));
}

#[test]
fn test_platform_constants() {
    assert!(MAXIMUM_ALIGNMENT >= 8);
    assert!(UINTPTR_SIZE > 0);
    assert_eq!(path_separator(), std::path::MAIN_SEPARATOR);
}

#[test]
fn test_endianness() {
    let bytes = 0x12345678u32.to_ne_bytes();
    if is_little_endian() {
        assert_eq!(bytes[0], 0x78);
    } else {
        assert_eq!(bytes[0], 0x12);
    }
}

#[test]
fn test_unlikely() {
    assert!(!unlikely(false));
    assert!(unlikely(true));
}

#[test]
fn test_likely() {
    assert!(!likely(false));
    assert!(likely(true));
}

#[test]
fn mod_test_constants() {
    assert!(f64::from_bits(INFINITY_BITS).is_infinite());
    assert!(f64::from_bits(NAN_BITS).is_nan());
    assert!(f32::from_bits(FLT_EPSILON_BITS) > 0.0);
    assert_eq!(f32::from_bits(FLT_EPSILON_BITS), f32::EPSILON);
}
