use crate::serialize::{
    additional_bytes, additional_info, be_bytes, encode, encode_entries, encode_items, header,
    is_key_order, key_order, lemma_key_order_unique, negative_magnitude, utf8_of, CborType,
};
use std::collections::BTreeMap;
use vstd::arithmetic::div_mod::{lemma_mod_breakdown, lemma_small_mod};
use vstd::prelude::*;

verus! {

/// The number that a sequence of big-endian bytes stands for.
pub open spec fn be_value(s: Seq<u8>) -> nat
    decreases s.len(),
{
    if s.len() == 0 {
        0
    } else {
        be_value(s.drop_last()) * 256 + s.last() as nat
    }
}

/// 256 to the power `n`: one more than the largest number that `n` bytes hold.
pub open spec fn pow256(n: nat) -> nat
    decreases n,
{
    if n == 0 {
        1
    } else {
        256 * pow256((n - 1) as nat)
    }
}

/// Reading back the low `n` bytes of `v` gives `v` modulo 256 to the `n`.
pub proof fn lemma_be_bytes_value(v: nat, n: nat)
    ensures
        be_bytes(v, n).len() == n,
        pow256(n) > 0,
        be_value(be_bytes(v, n)) == v % pow256(n),
    decreases n,
{
    if n > 0 {
        lemma_be_bytes_value(v / 256, (n - 1) as nat);
        let p = pow256((n - 1) as nat);
        assert(be_bytes(v, n).drop_last() == be_bytes(v / 256, (n - 1) as nat));
        lemma_mod_breakdown(v as int, 256, p as int);
    }
}

/// A magnitude is written in one header byte and as many further bytes as its range needs:
/// none up to 23, then 1, 2, 4 or 8. The header byte holds the major type in its top three
/// bits and, in its low five, the magnitude itself up to 23, else the escape code 24, 25, 26
/// or 27. Where further bytes follow, they read back, big-endian, as the magnitude, and no
/// shorter form could hold it.
pub proof fn lemma_header_minimal(tag: u8, v: u64)
    requires
        tag < 8,
    ensures
        header(tag, v).len() == 1 + additional_bytes(v),
        header(tag, v)[0] / 32 == tag,
        header(tag, v)[0] % 32 == additional_info(v),
        v <= 23 ==> additional_bytes(v) == 0 && additional_info(v) == v,
        24 <= v <= 255 ==> additional_bytes(v) == 1 && additional_info(v) == 24,
        256 <= v <= 65535 ==> additional_bytes(v) == 2 && additional_info(v) == 25,
        65536 <= v <= 4294967295 ==> additional_bytes(v) == 4 && additional_info(v) == 26,
        4294967296 <= v ==> additional_bytes(v) == 8 && additional_info(v) == 27,
        additional_bytes(v) >= 1 ==> be_value(header(tag, v).subrange(1, header(tag, v).len() as int))
            == v,
        additional_bytes(v) >= 1 ==> v >= 24,
        additional_bytes(v) >= 2 ==> v >= pow256(additional_bytes(v) / 2),
{
    let n = additional_bytes(v);
    let h = header(tag, v);
    lemma_be_bytes_value(v as nat, n);
    assert(h.subrange(1, h.len() as int) =~= be_bytes(v as nat, n));
    reveal_with_fuel(pow256, 9);
    assert(pow256(1) == 256 && pow256(2) == 65536 && pow256(4) == 4294967296);
    assert(pow256(8) == 18446744073709551616);
    if n >= 1 {
        assert(v < pow256(n));
        lemma_small_mod(v as nat, pow256(n));
    }
}

/// A negative integer is written as the unsigned integer -1 - n would be, with the major type
/// bits of the header byte set to 1 instead of 0.
pub proof fn lemma_negative_law(n: i64)
    requires
        n < 0,
    ensures
        ({
            let u = encode(CborType::UInt((-1 - n) as u64));
            let e = encode(CborType::NInt(n));
            &&& e.len() == u.len()
            &&& u[0] < 32
            &&& e[0] == u[0] + 32
            &&& e.subrange(1, e.len() as int) == u.subrange(1, u.len() as int)
        }),
{
    let m = negative_magnitude(n);
    assert(m == (-1 - n) as u64);
    lemma_header_minimal(0, m);
    lemma_header_minimal(1, m);
    let u = header(0, m);
    let e = header(1, m);
    assert(e.subrange(1, e.len() as int) =~= u.subrange(1, u.len() as int));
}

/// A byte string is its header (major type 2, its length) and then its bytes unchanged; a text
/// is its header (major type 3, its length in UTF-8 bytes) and then those bytes.
pub proof fn lemma_string_law(b: &[u8], t: &String)
    ensures
        encode(CborType::BStr(b)) == header(2, b@.len() as u64) + b@,
        encode(CborType::TStr(t)) == header(3, utf8_of(t@).len() as u64) + utf8_of(t@),
{
}

/// The encodings of two runs of items, one after the other, are the encoding of the joined run.
pub proof fn lemma_items_concat(s: Seq<CborType>, t: Seq<CborType>)
    ensures
        encode_items(s + t) == encode_items(s) + encode_items(t),
    decreases t.len(),
{
    if t.len() == 0 {
        assert(s + t =~= s);
        assert(encode_items(s) + encode_items(t) =~= encode_items(s));
    } else {
        lemma_items_concat(s, t.drop_last());
        assert((s + t).drop_last() =~= s + t.drop_last());
        assert((s + t).last() == t.last());
        assert(encode_items(s + t) =~= encode_items(s) + encode_items(t));
    }
}

/// An array is its header (major type 4, its number of items) and then its items' encodings in
/// their given order: at whatever place the items are split, the encoding of those before comes
/// first, then that of those after, and a single item is just its own encoding.
pub proof fn lemma_array_law(a: &Vec<CborType>, i: int)
    requires
        0 <= i <= a@.len(),
    ensures
        encode(CborType::Arr(a)) == header(4, a@.len() as u64) + encode_items(a@.subrange(0, i))
            + encode_items(a@.subrange(i, a@.len() as int)),
        i < a@.len() ==> encode_items(a@.subrange(i, i + 1)) == encode(a@[i]),
{
    lemma_items_concat(a@.subrange(0, i), a@.subrange(i, a@.len() as int));
    assert(a@.subrange(0, i) + a@.subrange(i, a@.len() as int) =~= a@);
    if i < a@.len() {
        let one = a@.subrange(i, i + 1);
        assert(one.drop_last() =~= Seq::<CborType>::empty());
        assert(encode_items(Seq::<CborType>::empty()) == Seq::<u8>::empty());
        assert(one.last() == a@[i]);
        assert(encode_items(one) =~= encode(a@[i]));
    }
}

/// A map is its header (major type 5, its number of pairs) and then its pairs, each key before
/// its value, keys in strictly ascending numeric order: any listing of its keys in that order
/// gives its encoding.
pub proof fn lemma_map_order(m: &BTreeMap<i64, CborType>, ks: Seq<i64>)
    requires
        is_key_order(m@.dom(), ks),
    ensures
        encode(CborType::IntMap(m)) == header(5, m@.len() as u64) + encode_entries(m@, ks),
{
    lemma_key_order_unique(m@.dom(), ks, key_order(m@.dom()));
}

/// Two maps that hold the same pairs have the same encoding, whatever order the pairs were
/// inserted in.
pub proof fn lemma_map_insertion_order(m1: &BTreeMap<i64, CborType>, m2: &BTreeMap<i64, CborType>)
    requires
        m1@ == m2@,
    ensures
        encode(CborType::IntMap(m1)) == encode(CborType::IntMap(m2)),
{
}

/// Encoding is a function of the value alone: equal values give equal bytes.
pub proof fn lemma_encode_deterministic(a: CborType, b: CborType)
    requires
        a == b,
    ensures
        encode(a) == encode(b),
{
}

} // verus!
