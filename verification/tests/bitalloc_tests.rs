use verieasy::bitalloc::{
    alloc_contiguous, bitalloc16, bitalloc1m_dealloc, bitalloc4k, bitalloc_contiguous,
    find_contiguous, BitAlloc, BitAlloc16, BitAlloc256, BitField,
};
use verieasy::checker::{Checker, Source};
use verieasy::components::DifferentialFuzzing;
use verieasy::config::DiffFuzzConfig;
use verieasy::path::Path;

#[test]
fn leaf_allocates_lowest_free_bits() {
    let mut ba = BitAlloc16::default();
    assert_eq!(BitAlloc16::capacity(), 16);
    ba.insert(0..16);
    for i in 0..16 {
        assert!(ba.test(i));
    }
    ba.remove(2..8);
    assert_eq!(ba.allocate(), Some(0));
    assert_eq!(ba.allocate(), Some(1));
    assert_eq!(ba.allocate(), Some(8));
    ba.dealloc(0);
    ba.dealloc(1);
    ba.dealloc(8);
    for _ in 0..10 {
        assert!(ba.allocate().is_some());
    }
    assert!(!ba.any());
    assert!(ba.allocate().is_none());
}

#[test]
fn leaf_contiguous_runs_are_first_fit() {
    let mut ba0 = BitAlloc16::default();
    ba0.insert(0..16);
    ba0.remove(3..6);
    assert_eq!(ba0.next(0), Some(0));
    assert_eq!(alloc_contiguous(&mut ba0, 1, 1), Some(0));
    assert_eq!(find_contiguous(&ba0, 4096, 2, 0), Some(1));
}

#[test]
fn cascade_mirrors_its_bitmap_words() {
    let mut words = [0u16; 16];
    words[0] = 0b101;
    words[3] = 0b1;
    let mut ba = BitAlloc256::verieasy_new(words);
    assert!(ba.test(0));
    assert!(!ba.test(1));
    assert!(ba.test(2));
    assert!(ba.test(48));
    assert_eq!(ba.verieasy_get().as_slice(), &words[..]);
    assert_eq!(ba.allocate(), Some(0));
    assert_eq!(ba.allocate(), Some(2));
    assert_eq!(ba.allocate(), Some(48));
    assert_eq!(ba.allocate(), None);
    ba.dealloc(100);
    assert_eq!(ba.next(0), Some(100));
}

#[test]
fn word_bit_field_round_trips() {
    let mut value = 0u16;
    value.set_bit(1, true);
    assert_eq!(value, 2u16);
    value.set_bit(3, true);
    assert_eq!(value, 10u16);
    value.set_bit(1, false);
    assert_eq!(value, 8u16);
    assert_eq!(0b110101u16.get_bits(0..3), 0b101);
    assert_eq!(0b110101u16.get_bits(2..6), 0b1101);
    let mut v = 0u16;
    v.set_bits(0..2, 0b11);
    assert_eq!(v, 0b11);
    v.set_bits(0..4, 0b1010);
    assert_eq!(v, 0b1010);
}

#[test]
fn verified_scenarios_also_run() {
    bitalloc16();
    bitalloc4k();
    bitalloc_contiguous();
    bitalloc1m_dealloc();
}

#[test]
fn fuzzer_mismatch_fails_the_named_method() {
    let src = || {
        Source::new(
            "x.rs".to_string(),
            String::new(),
            Vec::new(),
            Vec::new(),
            Vec::new(),
        )
    };
    let mut checker = Checker::new(src(), src(), Vec::new(), false);
    checker
        .under_checking_funcs
        .push(verieasy::defs::CommonFunction::new(
            verieasy::defs::FunctionMetadata::new(
                Path::from_str("BitAlloc16::alloc_contiguous"),
                verieasy::defs::Signature {
                    ident: "alloc_contiguous".to_string(),
                    inputs: Vec::new(),
                    output: None,
                },
                None,
            ),
            "{ 1 }".to_string(),
            "{ 2 }".to_string(),
        ));
    let df = DifferentialFuzzing::new(DiffFuzzConfig::default());
    let functions = vec![Path::from_str("BitAlloc16::alloc_contiguous")];
    let lines = vec!["MISMATCH: BitAlloc16::alloc_contiguous".to_string()];
    let res = df.analyze_output(&functions, &lines);
    assert!(res.ok.is_empty());
    assert_eq!(res.fail.len(), 1);
    assert_eq!(res.fail[0].to_string(), "BitAlloc16::alloc_contiguous");
    checker.apply_component_result(false, &res);
    assert_eq!(checker.failed_funcs.len(), 1);
    assert!(checker.under_checking_funcs.is_empty());
}

#[test]
fn empty_ranges_change_nothing() {
    let mut ba = BitAlloc16::default();
    ba.insert(0..8);
    ba.insert(4..4);
    ba.remove(7..7);
    for i in 0..8 {
        assert!(ba.test(i));
    }
    for i in 8..16 {
        assert!(!ba.test(i));
    }
    let mut big = BitAlloc256::default();
    big.insert(16..16);
    big.remove(0..0);
    assert!(!big.any());
}
