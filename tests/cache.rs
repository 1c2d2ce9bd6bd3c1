use memflow::cache::{CacheValidator, CachedMemoryAccess, StaticCacheValidator, TimedCacheValidator};
use memflow::dummy::BufferMemory;
use memflow::phys_mem::{PhysicalMemory, PhysicalReadData};
use memflow::types::{Error, PhysicalAddress};

fn pattern() -> Vec<u8> {
    (0..0x4000usize).map(|i| (i * 7 % 251) as u8).collect()
}

#[test]
fn cache_hit_single_backend_read() {
    let mem = BufferMemory::from_bytes(pattern());
    let mut cache = CachedMemoryAccess::new(mem, StaticCacheValidator {}, 0x1000, 0x4000).unwrap();
    let mut a = vec![0u8; 8];
    let mut b = vec![0u8; 8];
    cache.phys_read_into(PhysicalAddress::from_address(0x1010), &mut a).unwrap();
    cache.phys_read_into(PhysicalAddress::from_address(0x1010), &mut b).unwrap();
    assert_eq!(a, b);
    let inner = cache.destroy();
    assert_eq!(inner.read_batches(), 1);
}

#[test]
fn cached_equals_uncached() {
    let mut plain = BufferMemory::from_bytes(pattern());
    let mut cache =
        CachedMemoryAccess::new(BufferMemory::from_bytes(pattern()), StaticCacheValidator {}, 0x1000, 0x2000).unwrap();
    let reqs = [(0x10u64, 8usize), (0xFFC, 8), (0x3FF8, 16), (0x2000, 0x1000), (0x1234, 3), (0x10, 8)];
    let mut d1: Vec<PhysicalReadData> =
        reqs.iter().map(|&(a, l)| PhysicalReadData { addr: PhysicalAddress::from_address(a), buf: vec![0; l] }).collect();
    let mut d2: Vec<PhysicalReadData> =
        reqs.iter().map(|&(a, l)| PhysicalReadData { addr: PhysicalAddress::from_address(a), buf: vec![0; l] }).collect();
    let ok1 = plain.phys_read_raw_iter(&mut d1).unwrap();
    let ok2 = cache.phys_read_raw_iter(&mut d2).unwrap();
    assert_eq!(ok1, ok2);
    assert_eq!(ok1, vec![true, true, false, true, true, true]);
    for i in 0..reqs.len() {
        assert_eq!(d1[i].buf, d2[i].buf);
    }
}

#[test]
fn write_invalidates_cached_page() {
    let mut cache =
        CachedMemoryAccess::new(BufferMemory::from_bytes(pattern()), StaticCacheValidator {}, 0x1000, 0x4000).unwrap();
    let mut before = vec![0u8; 4];
    cache.phys_read_into(PhysicalAddress::from_address(0x2100), &mut before).unwrap();
    assert_eq!(cache.phys_write(PhysicalAddress::from_address(0x2102), &vec![1, 2, 3, 4]), Ok(true));
    let mut after = vec![0u8; 8];
    cache.phys_read_into(PhysicalAddress::from_address(0x2100), &mut after).unwrap();
    assert_eq!(&after[..2], &before[..2]);
    assert_eq!(&after[2..6], &[1, 2, 3, 4]);
}

#[test]
fn write_out_of_range_fails() {
    let mut cache =
        CachedMemoryAccess::new(BufferMemory::from_bytes(pattern()), StaticCacheValidator {}, 0x1000, 0x4000).unwrap();
    assert_eq!(cache.phys_write(PhysicalAddress::from_address(0x3FFE), &vec![1, 2, 3, 4]), Ok(false));
}

#[test]
fn cache_bad_page_size() {
    let r = CachedMemoryAccess::new(BufferMemory::new(16), StaticCacheValidator {}, 0, 0x4000);
    assert_eq!(r.err(), Some(Error::Config));
}

#[test]
fn timed_validator_expires() {
    let mut v = TimedCacheValidator::new(1000);
    v.update_validity(500);
    let t = v.current_token();
    assert!(v.is_valid(t));
    v.update_validity(1500);
    assert!(!v.is_valid(t));
    let mut cache =
        CachedMemoryAccess::new(BufferMemory::from_bytes(pattern()), TimedCacheValidator::new(1000), 0x1000, 0x4000).unwrap();
    let mut a = vec![0u8; 8];
    cache.phys_read_into(PhysicalAddress::from_address(0x10), &mut a).unwrap();
    cache.update_validity(5000);
    cache.phys_read_into(PhysicalAddress::from_address(0x10), &mut a).unwrap();
    assert_eq!(cache.destroy().read_batches(), 2);
}
