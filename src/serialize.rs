use std::collections::BTreeMap;
use vstd::prelude::*;
use vstd::std_specs::cmp::OrdSpec;
use vstd::std_specs::iter::IteratorSpec;

verus! {

broadcast use vstd::std_specs::btree::group_btree_axioms, vstd::std_specs::vec::group_vec_axioms;

/// A value of the encoding's data model. Every variant borrows from data owned by the caller;
/// `serialize` produces an independent byte vector.
pub enum CborType<'a> {
    UInt(u64),
    NInt(i64),
    BStr(&'a [u8]),
    TStr(&'a String),
    Arr(&'a Vec<CborType<'a>>),
    IntMap(&'a BTreeMap<i64, CborType<'a>>),
}

/// How many big-endian bytes follow the header byte for the magnitude `v`.
pub open spec fn additional_bytes(v: u64) -> nat {
    if v <= 23 {
        0
    } else if v <= 255 {
        1
    } else if v <= 65535 {
        2
    } else if v <= 4294967295 {
        4
    } else {
        8
    }
}

/// The low five bits of the header byte: the magnitude itself, or the escape code that says
/// how many bytes follow.
pub open spec fn additional_info(v: u64) -> u8 {
    if v <= 23 {
        v as u8
    } else if v <= 255 {
        24
    } else if v <= 65535 {
        25
    } else if v <= 4294967295 {
        26
    } else {
        27
    }
}

/// The low `n` bytes of `v`, most significant first.
pub open spec fn be_bytes(v: nat, n: nat) -> Seq<u8>
    decreases n,
{
    if n == 0 {
        seq![]
    } else {
        be_bytes(v / 256, (n - 1) as nat).push((v % 256) as u8)
    }
}

/// The minimal-length header for major type `tag` and magnitude `v`.
pub open spec fn header(tag: u8, v: u64) -> Seq<u8> {
    seq![(tag * 32 + additional_info(v)) as u8] + be_bytes(v as nat, additional_bytes(v))
}

/// The magnitude that stands for the negative integer `n`: 0 for -1, 1 for -2, and so on.
pub open spec fn negative_magnitude(n: i64) -> u64 {
    (-1 - n) as u64
}

/// A map key: as a negative integer if it is below zero, else as an unsigned integer.
pub open spec fn encode_key(k: i64) -> Seq<u8> {
    if k < 0 {
        header(1, negative_magnitude(k))
    } else {
        header(0, k as u64)
    }
}

/// Each key of `ks` is smaller than every key after it.
pub open spec fn strictly_ascending(ks: Seq<i64>) -> bool {
    forall|i: int, j: int| 0 <= i < j < ks.len() ==> ks[i] < ks[j]
}

/// `ks` lists the keys of `d` in ascending order, each once.
pub open spec fn is_key_order(d: Set<i64>, ks: Seq<i64>) -> bool {
    &&& strictly_ascending(ks)
    &&& forall|k: i64| d.contains(k) <==> ks.contains(k)
}

/// The keys of a finite set in ascending numeric order.
pub open spec fn key_order(d: Set<i64>) -> Seq<i64> {
    choose|ks: Seq<i64>| is_key_order(d, ks)
}

/// The UTF-8 bytes of a text.
pub open spec fn utf8_of(s: Seq<char>) -> Seq<u8> {
    vstd::utf8::encode_utf8(s)
}

/// Every `NInt` in the tree holds a value below zero.
pub open spec fn well_formed(v: CborType) -> bool
    decreases v,
{
    match v {
        CborType::NInt(n) => n < 0,
        CborType::Arr(a) => forall|i: int| 0 <= i < a@.len() ==> well_formed(#[trigger] a@[i]),
        CborType::IntMap(m) => forall|k: i64|
            #[trigger] m@.dom().contains(k) ==> well_formed(m@[k]),
        _ => true,
    }
}

/// The encoding of a value.
pub open spec fn encode(v: CborType) -> Seq<u8>
    decreases v,
{
    match v {
        CborType::UInt(u) => header(0, u),
        CborType::NInt(n) => header(1, negative_magnitude(n)),
        CborType::BStr(b) => header(2, b@.len() as u64) + b@,
        CborType::TStr(s) => header(3, utf8_of(s@).len() as u64) + utf8_of(s@),
        CborType::Arr(a) => header(4, a@.len() as u64) + encode_items(a@),
        CborType::IntMap(m) => header(5, m@.len() as u64) + encode_entries(m@, key_order(m@.dom())),
    }
}

/// The encodings of the items of `s`, one after the other.
pub open spec fn encode_items(s: Seq<CborType>) -> Seq<u8>
    decreases s,
{
    if s.len() == 0 {
        seq![]
    } else {
        encode_items(s.drop_last()) + encode(s.last())
    }
}

/// Each key of `ks` followed by its value in `m`, one pair after the other.
pub open spec fn encode_entries(m: Map<i64, CborType>, ks: Seq<i64>) -> Seq<u8>
    decreases m, ks,
{
    if ks.len() == 0 {
        seq![]
    } else if m.dom().finite() && m.dom().contains(ks.last()) {
        encode_entries(m, ks.drop_last()) + encode_key(ks.last()) + encode(m[ks.last()])
    } else {
        encode_entries(m, ks.drop_last())
    }
}

/// Appends the low `n` bytes of `value`, most significant first.
fn push_big_endian(output: &mut Vec<u8>, value: u64, n: usize)
    ensures
        final(output)@ == old(output)@ + be_bytes(value as nat, n as nat),
    decreases n,
{
    if n > 0 {
        push_big_endian(output, value / 256, n - 1);
        output.push((value % 256) as u8);
        assert(final(output)@ =~= old(output)@ + be_bytes(value as nat, n as nat));
    }
}

/// Appends the minimal-length header for major type `tag` and magnitude `value`: a byte with
/// the tag in its top three bits and the magnitude or an escape code in its low five, then the
/// big-endian bytes that the escape code announces.
fn common_encode_unsigned(output: &mut Vec<u8>, tag: u8, value: u64)
    requires
        tag < 8,
    ensures
        final(output)@ == old(output)@ + header(tag, value),
{
    let (info, count): (u8, usize) = if value <= 23 {
        (value as u8, 0)
    } else if value <= 255 {
        (24, 1)
    } else if value <= 65535 {
        (25, 2)
    } else if value <= 4294967295 {
        (26, 4)
    } else {
        (27, 8)
    };
    let first: u8 = (tag << 5) | info;
    assert((tag << 5) | info == tag * 32 + info) by (bit_vector)
        requires
            tag < 8,
            info < 32,
    ;
    output.push(first);
    push_big_endian(output, value, count);
    assert(final(output)@ =~= old(output)@ + header(tag, value));
}

/// Major type 0: the value itself is the magnitude.
fn encode_unsigned(output: &mut Vec<u8>, unsigned: u64)
    ensures
        final(output)@ == old(output)@ + header(0, unsigned),
{
    common_encode_unsigned(output, 0, unsigned);
}

/// Major type 1: the magnitude is -1 minus the value, so that -1 is written as 0.
fn encode_negative(output: &mut Vec<u8>, negative: i64)
    requires
        negative < 0,
    ensures
        final(output)@ == old(output)@ + header(1, negative_magnitude(negative)),
{
    let value_to_encode: u64 = (-1 - negative) as u64;
    common_encode_unsigned(output, 1, value_to_encode);
}

/// Appends every byte of `bytes` in order.
fn push_bytes(output: &mut Vec<u8>, bytes: &[u8])
    ensures
        final(output)@ == old(output)@ + bytes@,
{
    let mut i: usize = 0;
    while i < bytes.len()
        invariant
            i <= bytes@.len(),
            output@ == old(output)@ + bytes@.subrange(0, i as int),
        decreases bytes@.len() - i,
    {
        output.push(bytes[i]);
        i = i + 1;
        assert(output@ =~= old(output)@ + bytes@.subrange(0, i as int));
    }
    assert(bytes@.subrange(0, i as int) =~= bytes@);
}

/// Major type 2: the length, then the bytes unchanged.
fn encode_bstr(output: &mut Vec<u8>, bstr: &[u8])
    ensures
        final(output)@ == old(output)@ + header(2, bstr@.len() as u64) + bstr@,
{
    common_encode_unsigned(output, 2, bstr.len() as u64);
    push_bytes(output, bstr);
}

/// Major type 3: the length in UTF-8 bytes, then those bytes.
fn encode_tstr(output: &mut Vec<u8>, tstr: &String)
    ensures
        final(output)@ == old(output)@ + header(3, utf8_of(tstr@).len() as u64) + utf8_of(tstr@),
{
    let utf8_bytes = tstr.as_str().as_bytes();
    common_encode_unsigned(output, 3, utf8_bytes.len() as u64);
    push_bytes(output, utf8_bytes);
}

/// Major type 4: the number of items, then each item's encoding in the given order.
fn encode_array(output: &mut Vec<u8>, array: &Vec<CborType>)
    requires
        forall|i: int| 0 <= i < array@.len() ==> well_formed(#[trigger] array@[i]),
    ensures
        final(output)@ == old(output)@ + header(4, array@.len() as u64) + encode_items(array@),
    decreases array, 0nat,
{
    common_encode_unsigned(output, 4, array.len() as u64);
    let ghost start = output@;
    let mut i: usize = 0;
    while i < array.len()
        invariant
            i <= array@.len(),
            forall|j: int| 0 <= j < array@.len() ==> well_formed(#[trigger] array@[j]),
            output@ == start + encode_items(array@.subrange(0, i as int)),
        decreases array@.len() - i,
    {
        let element = &array[i];
        proof {
            assert(decreases_to!(array => array@[i as int]));
        }
        let mut element_encoded = element.serialize();
        output.append(&mut element_encoded);
        i = i + 1;
        assert(array@.subrange(0, i as int).drop_last() =~= array@.subrange(0, i - 1));
        assert(output@ =~= start + encode_items(array@.subrange(0, i as int)));
    }
    assert(array@.subrange(0, i as int) =~= array@);
}

/// Two ascending key sequences with the same keys are the same sequence.
pub proof fn lemma_key_order_unique(d: Set<i64>, a: Seq<i64>, b: Seq<i64>)
    requires
        is_key_order(d, a),
        is_key_order(d, b),
    ensures
        a == b,
    decreases a.len(),
{
    if a.len() == 0 {
        if b.len() > 0 {
            assert(b.contains(b[0]));
        }
        assert(a =~= b);
    } else {
        assert(a.contains(a[0]));
        assert(b.contains(a[0]));
        let j = choose|j: int| 0 <= j < b.len() && b[j] == a[0];
        assert(b.contains(b[0]));
        assert(a.contains(b[0]));
        let i = choose|i: int| 0 <= i < a.len() && a[i] == b[0];
        assert(a[0] <= a[i]);
        assert(b[0] <= b[j]);
        let x = a[0];
        let d2 = d.remove(x);
        let a2 = a.drop_first();
        let b2 = b.drop_first();
        assert forall|k: i64| d2.contains(k) <==> a2.contains(k) by {
            if a2.contains(k) {
                let n = choose|n: int| 0 <= n < a2.len() && a2[n] == k;
                assert(a[n + 1] == k);
                assert(a.contains(k));
            }
            if d2.contains(k) {
                assert(a.contains(k));
                let n = choose|n: int| 0 <= n < a.len() && a[n] == k;
                assert(n != 0);
                assert(a2[n - 1] == k);
            }
        }
        assert forall|k: i64| d2.contains(k) <==> b2.contains(k) by {
            if b2.contains(k) {
                let n = choose|n: int| 0 <= n < b2.len() && b2[n] == k;
                assert(b[n + 1] == k);
                assert(b.contains(k));
            }
            if d2.contains(k) {
                assert(b.contains(k));
                let n = choose|n: int| 0 <= n < b.len() && b[n] == k;
                assert(n != 0);
                assert(b2[n - 1] == k);
            }
        }
        lemma_key_order_unique(d2, a2, b2);
        assert(a =~= seq![x] + a2);
        assert(b =~= seq![x] + b2);
    }
}

/// Major type 5: the number of pairs, then each key and its value, keys in ascending order.
fn encode_map(output: &mut Vec<u8>, map: &BTreeMap<i64, CborType>)
    requires
        forall|k: i64| #[trigger] map@.dom().contains(k) ==> well_formed(map@[k]),
    ensures
        final(output)@ == old(output)@ + header(5, map@.len() as u64) + encode_entries(
            map@,
            key_order(map@.dom()),
        ),
    decreases map, 0nat,
{
    common_encode_unsigned(output, 5, map.len() as u64);
    let ghost start = output@;
    let iter = map.iter();
    let ghost items = iter.remaining();
    let ghost keys = items.map_values(|kv: (&i64, &CborType)| *kv.0);
    proof {
        assert(map@.dom().finite());
        assert forall|i: int, j: int| 0 <= i < j < keys.len() implies keys[i] < keys[j] by {
            assert(keys[i].cmp_spec(&keys[j]) is Less);
        }
        assert forall|k: i64| map@.dom().contains(k) <==> keys.contains(k) by {
            if map@.dom().contains(k) {
                assert(items.contains((&k, &map@[k])));
                let n = choose|n: int| 0 <= n < items.len() && items[n] == (&k, &map@[k]);
                assert(keys[n] == k);
            }
            if keys.contains(k) {
                let n = choose|n: int| 0 <= n < keys.len() && keys[n] == k;
                assert(map@.contains_key(*items[n].0));
            }
        }
        assert(is_key_order(map@.dom(), keys));
        lemma_key_order_unique(map@.dom(), keys, key_order(map@.dom()));
    }
    for kv in it: iter
        invariant
            it.seq() == items,
            keys == items.map_values(|kv: (&i64, &CborType)| *kv.0),
            keys.len() == items.len(),
            map@.dom().finite(),
            forall|n: int|
                0 <= n < items.len() ==> map@.contains_key(*items[n].0) && map@[*items[n].0]
                    == *items[n].1,
            forall|k: i64| #[trigger] map@.dom().contains(k) ==> well_formed(map@[k]),
            output@ == start + encode_entries(map@, keys.subrange(0, it.index())),
    {
        let (key, value) = kv;
        let ghost n = it.index();
        if *key < 0 {
            encode_negative(output, *key);
        } else {
            encode_unsigned(output, *key as u64);
        }
        proof {
            assert(*key == keys[n]);
            assert(decreases_to!(map => map@));
            assert(decreases_to!(map@ => map@[*key]));
        }
        let mut value_encoded = value.serialize();
        output.append(&mut value_encoded);
        proof {
            let ks = keys.subrange(0, n + 1);
            assert(ks.drop_last() =~= keys.subrange(0, n));
            assert(output@ =~= start + encode_entries(map@, ks));
        }
    }
    assert(keys.subrange(0, keys.len() as int) =~= keys);
}

impl<'a> CborType<'a> {
    /// The encoding of this value, in a vector of its own.
    pub fn serialize(&self) -> (bytes: Vec<u8>)
        requires
            well_formed(*self),
        ensures
            bytes@ == encode(*self),
        decreases *self, 1nat,
    {
        let mut bytes: Vec<u8> = Vec::new();
        match *self {
            CborType::UInt(unsigned) => encode_unsigned(&mut bytes, unsigned),
            CborType::NInt(negative) => encode_negative(&mut bytes, negative),
            CborType::BStr(bstr) => encode_bstr(&mut bytes, bstr),
            CborType::TStr(tstr) => encode_tstr(&mut bytes, tstr),
            CborType::Arr(arr) => encode_array(&mut bytes, arr),
            CborType::IntMap(map) => encode_map(&mut bytes, map),
        }
        assert(bytes@ =~= encode(*self));
        bytes
    }
}

} // verus!
