use cbor_encode::CborType;
use std::collections::BTreeMap;

struct UIntCase {
    value: u64,
    expected: Vec<u8>,
}

struct NIntCase {
    value: i64,
    expected: Vec<u8>,
}

struct BytesCase {
    value: Vec<u8>,
    expected: Vec<u8>,
}

struct TextCase {
    value: String,
    expected: Vec<u8>,
}

struct ArrCase<'a> {
    value: Vec<CborType<'a>>,
    expected: Vec<u8>,
}

#[test]
fn test_uint() {
    let testcases: Vec<UIntCase> = vec![
        UIntCase { value: 0, expected: vec![0] },
        UIntCase { value: 1, expected: vec![1] },
        UIntCase { value: 10, expected: vec![0x0a] },
        UIntCase { value: 23, expected: vec![0x17] },
        UIntCase { value: 24, expected: vec![0x18, 0x18] },
        UIntCase { value: 25, expected: vec![0x18, 0x19] },
        UIntCase { value: 100, expected: vec![0x18, 0x64] },
        UIntCase { value: 1000, expected: vec![0x19, 0x03, 0xe8] },
        UIntCase { value: 1000000, expected: vec![0x1a, 0x00, 0x0f, 0x42, 0x40] },
        UIntCase {
            value: 1000000000000,
            expected: vec![0x1b, 0x00, 0x00, 0x00, 0xe8, 0xd4, 0xa5, 0x10, 0x00],
        },
        UIntCase {
            value: 18446744073709551615,
            expected: vec![0x1b, 0xff, 0xff, 0xff, 0xff, 0xff, 0xff, 0xff, 0xff],
        },
    ];
    for testcase in testcases {
        let cbor = CborType::UInt(testcase.value);
        assert_eq!(testcase.expected, cbor.serialize());
    }
}

#[test]
fn test_nint() {
    let testcases: Vec<NIntCase> = vec![
        NIntCase { value: -1, expected: vec![0x20] },
        NIntCase { value: -10, expected: vec![0x29] },
        NIntCase { value: -100, expected: vec![0x38, 0x63] },
        NIntCase { value: -1000, expected: vec![0x39, 0x03, 0xe7] },
        NIntCase { value: -1000000, expected: vec![0x3a, 0x00, 0x0f, 0x42, 0x3f] },
        NIntCase {
            value: -4611686018427387903,
            expected: vec![0x3b, 0x3f, 0xff, 0xff, 0xff, 0xff, 0xff, 0xff, 0xfe],
        },
    ];
    for testcase in testcases {
        let cbor = CborType::NInt(testcase.value);
        assert_eq!(testcase.expected, cbor.serialize());
    }
}

#[test]
fn test_bstr() {
    let testcases: Vec<BytesCase> = vec![
        BytesCase { value: vec![], expected: vec![0x40] },
        BytesCase {
            value: vec![0x01, 0x02, 0x03, 0x04],
            expected: vec![0x44, 0x01, 0x02, 0x03, 0x04],
        },
        BytesCase {
            value: vec![
                0xaf, 0xaf, 0xaf, 0xaf, 0xaf, 0xaf, 0xaf, 0xaf, 0xaf, 0xaf, 0xaf, 0xaf, 0xaf,
                0xaf, 0xaf, 0xaf, 0xaf, 0xaf, 0xaf, 0xaf, 0xaf, 0xaf, 0xaf, 0xaf, 0xaf,
            ],
            expected: vec![
                0x58, 0x19, 0xaf, 0xaf, 0xaf, 0xaf, 0xaf, 0xaf, 0xaf, 0xaf, 0xaf, 0xaf, 0xaf,
                0xaf, 0xaf, 0xaf, 0xaf, 0xaf, 0xaf, 0xaf, 0xaf, 0xaf, 0xaf, 0xaf, 0xaf, 0xaf,
                0xaf,
            ],
        },
    ];
    for testcase in testcases {
        let cbor = CborType::BStr(testcase.value.as_slice());
        assert_eq!(testcase.expected, cbor.serialize());
    }
}

#[test]
fn test_tstr() {
    let testcases: Vec<TextCase> = vec![
        TextCase { value: String::new(), expected: vec![0x60] },
        TextCase { value: String::from("a"), expected: vec![0x61, 0x61] },
        TextCase { value: String::from("IETF"), expected: vec![0x64, 0x49, 0x45, 0x54, 0x46] },
        TextCase { value: String::from("\"\\"), expected: vec![0x62, 0x22, 0x5c] },
        TextCase { value: String::from("\u{6c34}"), expected: vec![0x63, 0xe6, 0xb0, 0xb4] },
    ];
    for testcase in testcases {
        let cbor = CborType::TStr(&testcase.value);
        assert_eq!(testcase.expected, cbor.serialize());
    }
}

#[test]
fn test_arr() {
    let nested_arr_1 = vec![CborType::UInt(2), CborType::UInt(3)];
    let nested_arr_2 = vec![CborType::UInt(4), CborType::UInt(5)];
    let testcases: Vec<ArrCase> = vec![
        ArrCase { value: vec![], expected: vec![0x80] },
        ArrCase {
            value: vec![CborType::UInt(1), CborType::UInt(2), CborType::UInt(3)],
            expected: vec![0x83, 0x01, 0x02, 0x03],
        },
        ArrCase {
            value: vec![
                CborType::UInt(1),
                CborType::Arr(&nested_arr_1),
                CborType::Arr(&nested_arr_2),
            ],
            expected: vec![0x83, 0x01, 0x82, 0x02, 0x03, 0x82, 0x04, 0x05],
        },
        ArrCase {
            value: vec![
                CborType::UInt(1), CborType::UInt(2), CborType::UInt(3), CborType::UInt(4),
                CborType::UInt(5), CborType::UInt(6), CborType::UInt(7), CborType::UInt(8),
                CborType::UInt(9), CborType::UInt(10), CborType::UInt(11), CborType::UInt(12),
                CborType::UInt(13), CborType::UInt(14), CborType::UInt(15), CborType::UInt(16),
                CborType::UInt(17), CborType::UInt(18), CborType::UInt(19), CborType::UInt(20),
                CborType::UInt(21), CborType::UInt(22), CborType::UInt(23), CborType::UInt(24),
                CborType::UInt(25),
            ],
            expected: vec![
                0x98, 0x19, 0x01, 0x02, 0x03, 0x04, 0x05, 0x06, 0x07, 0x08, 0x09, 0x0a, 0x0b,
                0x0c, 0x0d, 0x0e, 0x0f, 0x10, 0x11, 0x12, 0x13, 0x14, 0x15, 0x16, 0x17, 0x18,
                0x18, 0x18, 0x19,
            ],
        },
    ];
    for testcase in testcases {
        let cbor = CborType::Arr(&testcase.value);
        assert_eq!(testcase.expected, cbor.serialize());
    }
}

#[test]
fn test_map() {
    let empty_map: BTreeMap<i64, CborType> = BTreeMap::new();
    assert_eq!(vec![0xa0], CborType::IntMap(&empty_map).serialize());

    let mut positive_map: BTreeMap<i64, CborType> = BTreeMap::new();
    positive_map.insert(20, CborType::UInt(10));
    positive_map.insert(10, CborType::UInt(20));
    positive_map.insert(15, CborType::UInt(15));
    assert_eq!(
        vec![0xa3, 0x0a, 0x14, 0x0f, 0x0f, 0x14, 0x0a],
        CborType::IntMap(&positive_map).serialize()
    );

    let mut negative_map: BTreeMap<i64, CborType> = BTreeMap::new();
    negative_map.insert(-4, CborType::UInt(10));
    negative_map.insert(-1, CborType::UInt(20));
    negative_map.insert(-5, CborType::UInt(15));
    negative_map.insert(-6, CborType::UInt(10));
    assert_eq!(
        vec![0xa4, 0x25, 0x0a, 0x24, 0x0f, 0x23, 0x0a, 0x20, 0x14],
        CborType::IntMap(&negative_map).serialize()
    );

    let mut mixed_map: BTreeMap<i64, CborType> = BTreeMap::new();
    mixed_map.insert(0, CborType::UInt(10));
    mixed_map.insert(-10, CborType::UInt(20));
    mixed_map.insert(15, CborType::UInt(15));
    assert_eq!(
        vec![0xa3, 0x29, 0x14, 0x00, 0x0a, 0x0f, 0x0f],
        CborType::IntMap(&mixed_map).serialize()
    );
}
