//! The generator of values.
use coverage_fuzzer::corpus::FRACTION_DRAWS;
use coverage_fuzzer::input_gen::{
    InputGenConfig, SorobanInputGen, SorobanValue, SorobanValueType, EDGE_DRAWS, SMALL_DRAWS,
};
use coverage_fuzzer::strkey::{compute_crc16, encode_address};
use rand::{Rng, SeedableRng};
use serde_json::Value;

fn gen() -> SorobanInputGen {
    SorobanInputGen::new(InputGenConfig { seed: Some(42), ..Default::default() })
}

fn all_valid(seed: u64) -> SorobanInputGen {
    SorobanInputGen::new(InputGenConfig {
        seed: Some(seed),
        valid_draws: FRACTION_DRAWS,
        ..Default::default()
    })
}

#[test]
fn address_is_56_chars() {
    let mut g = gen();
    for _ in 0..50 {
        let a = g.gen_stellar_address();
        assert_eq!(a.len(), 56, "address must be 56 chars");
        assert!(a.starts_with('G'), "address must start with G");
    }
}

#[test]
fn symbol_within_limit() {
    let mut g = gen();
    for _ in 0..50 {
        let s = g.gen_symbol();
        assert!(s.len() <= 32, "symbol must be ≤ 32 chars");
        assert!(!s.is_empty(), "symbol must not be empty");
    }
}

#[test]
fn i128_edge_cases_appear() {
    let mut g = gen();
    let mut found_max = false;
    let mut found_min = false;
    for _ in 0..1000 {
        let v = g.gen_i128();
        if v == i128::MAX {
            found_max = true;
        }
        if v == i128::MIN {
            found_min = true;
        }
    }
    assert!(found_max, "should generate i128::MAX");
    assert!(found_min, "should generate i128::MIN");
}

#[test]
fn valid_ratio_enforced() {
    let mut g = all_valid(99);
    for _ in 0..20 {
        let v = g.generate(&SorobanValueType::Address);
        assert!(matches!(v, SorobanValue::Address(_)));
    }
}

#[test]
fn invalid_ratio_produces_invalid_bytes() {
    let mut g = SorobanInputGen::new(InputGenConfig {
        seed: Some(7),
        valid_draws: 0,
        ..Default::default()
    });
    for _ in 0..10 {
        let v = g.generate(&SorobanValueType::I128);
        assert!(matches!(v, SorobanValue::InvalidBytes(_)));
    }
}

#[test]
fn vec_generation_respects_depth() {
    let mut g = gen();
    let nested_type = SorobanValueType::Vec(Box::new(SorobanValueType::Vec(Box::new(
        SorobanValueType::Vec(Box::new(SorobanValueType::Vec(Box::new(SorobanValueType::I128)))),
    ))));
    let _ = g.generate(&nested_type);
}

#[test]
fn mutate_bytes_changes_data() {
    let mut g = gen();
    let original = vec![0x41u8; 32];
    let mut mutated = original.clone();
    g.mutate_bytes(&mut mutated, 0);
    assert_ne!(original, mutated, "mutation should change the bytes");
}

#[test]
fn defaults_make_nine_in_ten_valid() {
    let config = InputGenConfig::default();
    assert_eq!(config.valid_draws as f64 / FRACTION_DRAWS as f64, 0.9);
    assert_eq!(config.max_depth, 4);
    assert_eq!(config.max_vec_len, 50);
    assert_eq!(config.max_map_size, 20);
    assert_eq!(config.seed, None);
    let mut g = gen();
    let mut noise = 0;
    for _ in 0..1000 {
        if let SorobanValue::InvalidBytes(b) = g.generate(&SorobanValueType::Bool) {
            assert!(!b.is_empty() && b.len() <= 128);
            noise += 1;
        }
    }
    assert!(noise > 60 && noise < 140);
}

#[test]
fn addresses_have_valid_checksums() {
    let digits = "ABCDEFGHIJKLMNOPQRSTUVWXYZ234567";
    let mut g = gen();
    for _ in 0..50 {
        let address = g.gen_stellar_address();
        let mut bits = 0u32;
        let mut count = 0;
        let mut bytes = Vec::new();
        for c in address.chars() {
            bits = (bits << 5) | digits.find(c).unwrap() as u32;
            count += 5;
            if count >= 8 {
                count -= 8;
                bytes.push((bits >> count) as u8);
                bits &= (1 << count) - 1;
            }
        }
        assert_eq!(bytes.len(), 35);
        assert_eq!(bytes[0], 0x30);
        let crc = compute_crc16(&bytes[..33]);
        assert_eq!(crc.to_le_bytes(), [bytes[33], bytes[34]]);
    }
}

#[test]
fn known_addresses() {
    assert_eq!(compute_crc16(b"123456789"), 0x31c3);
    assert_eq!(
        encode_address(&[0; 32]),
        "GAAAAAAAAAAAAAAAAAAAAAAAAAAAAAAAAAAAAAAAAAAAAAAAAAAAAWHF"
    );
}

#[test]
fn small_integers_stay_small() {
    let mut g = gen();
    let mut twin = rand_chacha::ChaCha8Rng::seed_from_u64(42);
    let mut small = 0;
    for _ in 0..2000 {
        let start = g.rng.any_u64() / 2048;
        assert_eq!(start as f64 / FRACTION_DRAWS as f64, twin.gen::<f64>());
        assert_eq!(start < EDGE_DRAWS, (start as f64 / FRACTION_DRAWS as f64) < 0.30);
        assert_eq!(start < SMALL_DRAWS, (start as f64 / FRACTION_DRAWS as f64) < 0.70);
    }
    assert_eq!((EDGE_DRAWS as f64 / FRACTION_DRAWS as f64) < 0.30, false);
    assert_eq!(((EDGE_DRAWS - 1) as f64 / FRACTION_DRAWS as f64) < 0.30, true);
    assert_eq!((SMALL_DRAWS as f64 / FRACTION_DRAWS as f64) < 0.70, false);
    assert_eq!(((SMALL_DRAWS - 1) as f64 / FRACTION_DRAWS as f64) < 0.70, true);
    let mut h = gen();
    for _ in 0..2000 {
        let v = h.gen_i128();
        if (-1000..=1000).contains(&v) {
            small += 1;
        }
    }
    assert!(small > 700);
}

#[test]
fn dangerous_u64_values_appear() {
    let mut g = gen();
    let values: Vec<u64> = (0..500).map(|_| g.gen_u64()).collect();
    for edge in [0, 1, u64::MAX, u64::MAX - 1, 0xffff_ffff, 1 << 32, 1 << 48, 1 << 60] {
        assert!(values.contains(&edge), "{}", edge);
    }
}

#[test]
fn values_have_their_types() {
    let mut g = all_valid(5);
    for _ in 0..30 {
        assert!(matches!(g.generate(&SorobanValueType::Symbol), SorobanValue::Symbol(_)));
        assert!(matches!(g.generate(&SorobanValueType::I128), SorobanValue::I128(_)));
        assert!(matches!(g.generate(&SorobanValueType::U64), SorobanValue::U64(_)));
        assert!(matches!(g.generate(&SorobanValueType::U32), SorobanValue::U32(_)));
        assert!(matches!(g.generate(&SorobanValueType::Bool), SorobanValue::Bool(_)));
        assert!(matches!(g.generate(&SorobanValueType::Invalid), SorobanValue::InvalidBytes(_)));
        match g.generate(&SorobanValueType::Bytes) {
            SorobanValue::Bytes(b) => assert!(b.len() <= 64),
            other => panic!("{:?}", other),
        }
        match g.generate(&SorobanValueType::BytesN(33)) {
            SorobanValue::Bytes(b) => assert_eq!(b.len(), 33),
            other => panic!("{:?}", other),
        }
        match g.generate(&SorobanValueType::String) {
            SorobanValue::String(s) => {
                assert!(s.len() <= 64 && s.chars().all(|c| (' '..='~').contains(&c)));
            }
            other => panic!("{:?}", other),
        }
    }
}

#[test]
fn collections_have_their_bounds() {
    let mut g = SorobanInputGen::new(InputGenConfig {
        seed: Some(3),
        valid_draws: FRACTION_DRAWS,
        max_vec_len: 3,
        max_map_size: 2,
        max_depth: 2,
    });
    let map = SorobanValueType::Mapping(
        Box::new(SorobanValueType::Symbol),
        Box::new(SorobanValueType::Vec(Box::new(SorobanValueType::Vec(Box::new(
            SorobanValueType::Bool,
        ))))),
    );
    let fields = SorobanValueType::Struct(vec![
        ("flag".to_string(), SorobanValueType::Bool),
        ("list".to_string(), SorobanValueType::Vec(Box::new(SorobanValueType::U32))),
    ]);
    let mut longest = 0;
    for _ in 0..50 {
        match g.generate(&map) {
            SorobanValue::Mapping(pairs) => {
                assert!(pairs.len() <= 2);
                for (key, value) in &pairs {
                    assert!(matches!(key, SorobanValue::Symbol(_)));
                    match value {
                        SorobanValue::Vec(items) => {
                            assert!(items.len() <= 3);
                            longest = longest.max(items.len());
                            for item in items {
                                // The third level is beyond the maximum depth.
                                assert!(matches!(item, SorobanValue::Vec(v) if v.is_empty()));
                            }
                        }
                        other => panic!("{:?}", other),
                    }
                }
            }
            other => panic!("{:?}", other),
        }
        match g.generate(&fields) {
            SorobanValue::Struct(values) => {
                assert_eq!(values.len(), 2);
                assert_eq!(values[0].0, "flag");
                assert!(matches!(values[0].1, SorobanValue::Bool(_)));
                assert_eq!(values[1].0, "list");
                assert!(matches!(values[1].1, SorobanValue::Vec(_)));
            }
            other => panic!("{:?}", other),
        }
    }
    assert_eq!(longest, 3);
}

#[test]
fn arguments_follow_the_schema() {
    let schema = vec![
        ("to".to_string(), SorobanValueType::Address),
        ("amount".to_string(), SorobanValueType::I128),
    ];
    let args = all_valid(1).generate_args(&schema);
    assert_eq!(args.len(), 2);
    assert_eq!(args[0].0, "to");
    assert!(matches!(args[0].1, SorobanValue::Address(_)));
    assert_eq!(args[1].0, "amount");
    let again = all_valid(1).generate_args(&schema);
    assert_eq!(args[0].1.to_bytes(), again[0].1.to_bytes());
    assert_eq!(args[1].1.to_bytes(), again[1].1.to_bytes());
}

#[test]
fn generators_without_a_seed_differ() {
    let mut a = SorobanInputGen::new(InputGenConfig::default());
    let mut b = SorobanInputGen::new(InputGenConfig::default());
    assert_ne!(a.gen_stellar_address(), b.gen_stellar_address());
}

fn member(value: &SorobanValue, name: &str) -> Value {
    let text = value.to_bytes();
    let parsed: Value = serde_json::from_slice(&text).unwrap();
    assert_eq!(serde_json::to_vec(&parsed).unwrap(), text);
    let object = parsed.as_object().unwrap();
    assert_eq!(object.len(), 1);
    object[name].clone()
}

#[test]
fn values_are_stored_as_json() {
    let quoted = "a \"b\" \\ \n\u{1} é🦀";
    let text = |s: &str| Value::String(s.to_string());
    assert_eq!(member(&SorobanValue::Address("G".to_string()), "Address"), text("G"));
    assert_eq!(member(&SorobanValue::Symbol(quoted.to_string()), "Symbol"), text(quoted));
    assert_eq!(member(&SorobanValue::String(quoted.to_string()), "String"), text(quoted));
    assert_eq!(member(&SorobanValue::I128(-5), "I128"), Value::from(-5));
    assert_eq!(member(&SorobanValue::U64(u64::MAX), "U64"), Value::from(u64::MAX));
    assert_eq!(member(&SorobanValue::U32(0), "U32"), Value::from(0));
    assert_eq!(member(&SorobanValue::Bool(true), "Bool"), Value::from(true));
    assert_eq!(member(&SorobanValue::Bool(false), "Bool"), Value::from(false));
    let bytes = Value::from(vec![0, 7, 255]);
    assert_eq!(member(&SorobanValue::Bytes(vec![0, 7, 255]), "Bytes"), bytes);
    assert_eq!(member(&SorobanValue::InvalidBytes(vec![0, 7, 255]), "InvalidBytes"), bytes);
}

#[test]
fn nested_values_are_stored_as_json() {
    let value = SorobanValue::Vec(vec![
        SorobanValue::Mapping(vec![(SorobanValue::U32(1), SorobanValue::Bool(true))]),
        SorobanValue::Struct(vec![("a\"".to_string(), SorobanValue::I128(i128::MIN))]),
        SorobanValue::Bytes(vec![]),
        SorobanValue::Vec(vec![]),
    ]);
    let expected = concat_parts(&[
        "{\"Vec\":[{\"Map\":[[{\"U32\":1},{\"Bool\":true}]]},",
        "{\"Struct\":[[\"a\\\"\",{\"I128\":-170141183460469231731687303715884105728}]]},",
        "{\"Bytes\":[]},{\"Vec\":[]}]}",
    ]);
    assert_eq!(String::from_utf8(value.to_bytes()).unwrap(), expected);
}

fn concat_parts(parts: &[&str]) -> String {
    parts.iter().map(|p| p.to_string()).collect()
}

#[test]
fn each_way_of_mutating_bytes() {
    let original: Vec<u8> = (10..30).collect();
    let mut g = gen();
    for round in 0..50u8 {
        let mut bytes = original.clone();
        g.mutate_bytes(&mut bytes, 0);
        let bits: u32 = bytes.iter().zip(&original).map(|(a, b)| (a ^ b).count_ones()).sum();
        assert_eq!(bits, 1);

        let mut bytes = original.clone();
        g.mutate_bytes(&mut bytes, 1);
        let changed: Vec<u8> =
            bytes.iter().zip(&original).filter(|(a, b)| a != b).map(|(a, _)| *a).collect();
        assert!(changed == vec![0] || changed == vec![0xff]);

        let mut bytes = original.clone();
        g.mutate_bytes(&mut bytes, 2);
        let sum: u8 = bytes
            .iter()
            .zip(&original)
            .fold(0u8, |t, (a, b)| t.wrapping_add(a.wrapping_sub(*b)));
        assert!((1..=35).contains(&sum));

        let mut bytes = original.clone();
        g.mutate_bytes(&mut bytes, 3);
        assert_eq!(bytes.len(), 21);

        let mut bytes = original.clone();
        g.mutate_bytes(&mut bytes, 4);
        assert_eq!(bytes.len(), 19);

        let mut bytes = original.clone();
        g.mutate_bytes(&mut bytes, 5 + 6 * (round % 40));
        assert!(bytes.len() > 20 && bytes.len() <= 28);
    }
    let mut single = vec![1u8];
    g.mutate_bytes(&mut single, 4);
    assert_eq!(single, vec![1]);
    let mut empty: Vec<u8> = Vec::new();
    g.mutate_bytes(&mut empty, 4);
    assert_eq!(empty.len(), 1);
}

#[test]
fn strings_are_escaped() {
    let value = SorobanValue::String("\u{1}\u{8}\t\n\u{b}\u{c}\r\u{1f} \"\\/\u{7f}é".to_string());
    let expected = concat_parts(&[
        "{\"String\":\"\\u0001\\b\\t\\n\\u000b\\f\\r\\u001f ",
        "\\\"\\\\/\u{7f}é\"}",
    ]);
    assert_eq!(String::from_utf8(value.to_bytes()).unwrap(), expected);
}

#[test]
fn values_and_types_are_copied() {
    let value = SorobanValue::Vec(vec![
        SorobanValue::Mapping(vec![(SorobanValue::U32(1), SorobanValue::Bool(true))]),
        SorobanValue::Struct(vec![("a".to_string(), SorobanValue::I128(-1))]),
        SorobanValue::InvalidBytes(vec![7]),
    ]);
    assert_eq!(value.clone().to_bytes(), value.to_bytes());
    let ty = SorobanValueType::Struct(vec![(
        "a".to_string(),
        SorobanValueType::Mapping(
            Box::new(SorobanValueType::BytesN(4)),
            Box::new(SorobanValueType::Vec(Box::new(SorobanValueType::Bool))),
        ),
    )]);
    assert_eq!(ty.clone(), ty);
}
