use quetzalcoatl::capacity::Capacity;
use quetzalcoatl::mpmc::config::validate;
use quetzalcoatl::mpmc::{Cfg, Config, DefaultConfig, RingBuffer};

#[test]
fn default_values_match_the_documented_sweep() {
    assert_eq!(DefaultConfig::PRODUCER_BATCH, 32);
    assert_eq!(DefaultConfig::CAS_FAIL_SKIP, 128);
    assert_eq!(DefaultConfig::CONSUMED_FLUSH, 64);
}

#[test]
fn cfg_bakes_its_parameters_into_the_impl() {
    assert_eq!(<Cfg<16, 64, 32> as Config>::PRODUCER_BATCH, 16);
    assert_eq!(<Cfg<16, 64, 32> as Config>::CAS_FAIL_SKIP, 64);
    assert_eq!(<Cfg<16, 64, 32> as Config>::CONSUMED_FLUSH, 32);
}

#[test]
fn a_violating_config_is_rejected_at_monomorphization() {
    assert!(validate::<Cfg<1, 1, 1>>());
    assert!(validate::<Cfg<32, 1, 1>>());
    assert!(validate::<DefaultConfig>());
    assert!(!validate::<Cfg<0, 1, 1>>());
    assert!(!validate::<Cfg<33, 1, 1>>());
    assert!(!validate::<Cfg<32, 0, 1>>());
    assert!(!validate::<Cfg<32, 1, 0>>());
}

#[test]
fn a_ring_builds_around_an_inline_config() {
    let mut ring = RingBuffer::<u64, Cfg<16, 64, 32>>::new(Capacity::exact(64));
    let (mut p, mut c) = ring.split();
    p.push(&mut ring, 1).unwrap();
    assert_eq!(c.pop(&mut ring), Some(1));
}
