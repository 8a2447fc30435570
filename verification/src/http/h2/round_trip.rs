//! What the HPACK decoder makes of the encoder's output: the same header list,
//! and the same dynamic table.
use vstd::prelude::*;
use vstd::utf8::{encode_utf8, decode_utf8, valid_utf8};
use vstd::arithmetic::power2::{pow2, lemma_pow2_adds, lemma_pow2_strictly_increases, lemma2_to64, lemma_pow2_pos};
use crate::text::lossy_text;
use super::hpack::{TableV, IntV, StrV, PairV, LitV, DecodeV, int_cont, int_spec, str_spec, get_spec, lit_spec,
    lit_value, decode_from, decode_spec, cont_bytes, int_bytes, str_bytes, field_bytes, field_indexes,
    encode_bytes, encode_table, encode_overflows, add_entry_spec, add_entry_overflows, find_static_from,
    find_static_spec, static_table, prefix_max, utf8_len, resize_spec};

verus! {

proof fn lemma_cont_byte_bits(x: nat)
    requires
        x < 128,
    ensures
        (x as u8) & 0x80 == 0,
        (x as u8) & 0x7f == x,
        ((x + 128) as u8) & 0x80 != 0,
        ((x + 128) as u8) & 0x7f == x,
{
    let b = x as u8;
    assert(b & 0x80 == 0 && b & 0x7f == b) by (bit_vector)
        requires b < 128u8;
    assert(((b + 128u8) as u8) & 0x80u8 != 0 && ((b + 128u8) as u8) & 0x7fu8 == b) by (bit_vector)
        requires b < 128u8;
}

proof fn lemma_pow2_bound(m: nat)
    requires
        pow2(m) <= usize::MAX,
    ensures
        m < usize::BITS,
{
    lemma2_to64();
    if m >= usize::BITS {
        lemma_pow2_strictly_increases(usize::BITS as nat, m);
        if usize::BITS == 32 {
            assert(pow2(32) == 0x1_0000_0000);
        } else {
            assert(pow2(64) == 0x1_0000_0000_0000_0000);
        }
        assert(false) by {
            if m > usize::BITS {
                lemma_pow2_strictly_increases(usize::BITS as nat, m);
            }
        }
    }
}

/// Continuation bytes decode to the remainder they encode, shifted into place.
proof fn lemma_int_cont_bytes(d: Seq<u8>, pos: nat, m: nat, value: nat, r: nat)
    requires
        pos + cont_bytes(r).len() <= d.len(),
        d.subrange(pos as int, (pos + cont_bytes(r).len()) as int) == cont_bytes(r),
        m < usize::BITS,
        value + r * pow2(m) <= usize::MAX,
    ensures
        int_cont(d, pos, m, value) == (IntV::Got { value: value + r * pow2(m), consumed: pos + cont_bytes(r).len() }),
    decreases r,
{
    let n = cont_bytes(r).len();
    let b = d[pos as int];
    assert(b == d.subrange(pos as int, (pos + n) as int)[0]);
    lemma_pow2_pos(m);
    let low = r % 128;
    assert(low * pow2(m) <= r * pow2(m)) by (nonlinear_arith)
        requires low <= r, pow2(m) > 0;
    let x = (b & 0x7f) as usize;
    if r < 128 {
        lemma_cont_byte_bits(r);
        assert(x == r);
        vstd::bits::lemma_usize_shl_is_mul(x, m as usize);
    } else {
        lemma_cont_byte_bits(low);
        assert(x == low);
        vstd::bits::lemma_usize_shl_is_mul(x, m as usize);
        let term = low * pow2(m);
        let r2 = r / 128;
        lemma_pow2_adds(m, 7);
        lemma2_to64();
        assert(pow2(m + 7) == pow2(m) * 128);
        assert(term + r2 * pow2(m + 7) == r * pow2(m)) by (nonlinear_arith)
            requires term == (r % 128) * pow2(m), r2 == r / 128, pow2(m + 7) == pow2(m) * 128;
        assert(r2 >= 1);
        assert(pow2(m + 7) <= r2 * pow2(m + 7)) by (nonlinear_arith)
            requires r2 >= 1;
        lemma_pow2_bound(m + 7);
        assert(cont_bytes(r).subrange(1, n as int) =~= cont_bytes(r2));
        assert(d.subrange((pos + 1) as int, (pos + 1 + cont_bytes(r2).len()) as int) =~= cont_bytes(r).subrange(1, n as int));
        lemma_int_cont_bytes(d, pos + 1, m + 7, value + term, r2);
    }
}

/// An encoded integer decodes to its value and takes exactly its bytes.
proof fn lemma_int_bytes(d: Seq<u8>, v: nat, prefix: nat, first: u8)
    requires
        prefix == 6 || prefix == 7,
        first & prefix_max(prefix) == 0,
        v <= usize::MAX,
        int_bytes(v, prefix, first).len() <= d.len(),
        d.take(int_bytes(v, prefix, first).len() as int) == int_bytes(v, prefix, first),
    ensures
        int_spec(d, prefix) == (IntV::Got { value: v, consumed: int_bytes(v, prefix, first).len() }),
{
    let maxp = prefix_max(prefix);
    let bs = int_bytes(v, prefix, first);
    assert(d[0] == bs[0]);
    if v < maxp {
        let y = v as u8;
        if prefix == 6 {
            assert((first | y) & 63u8 == y) by (bit_vector)
                requires first & 63u8 == 0, y < 63u8;
        } else {
            assert((first | y) & 127u8 == y) by (bit_vector)
                requires first & 127u8 == 0, y < 127u8;
        }
    } else {
        if prefix == 6 {
            assert((first | 63u8) & 63u8 == 63u8) by (bit_vector);
        } else {
            assert((first | 127u8) & 127u8 == 127u8) by (bit_vector);
        }
        let r = (v - maxp) as nat;
        assert(pow2(0) == 1) by { lemma2_to64(); }
        assert(d.subrange(1, (1 + cont_bytes(r).len()) as int) =~= bs.subrange(1, bs.len() as int));
        assert(bs.subrange(1, bs.len() as int) =~= cont_bytes(r));
        lemma_int_cont_bytes(d, 1, 0, maxp as nat, r);
    }
}

/// An encoded string literal decodes to its text and takes exactly its bytes.
proof fn lemma_str_bytes(d: Seq<u8>, s: Seq<char>)
    requires
        str_bytes(s).len() <= d.len() <= usize::MAX,
        d.take(str_bytes(s).len() as int) == str_bytes(s),
    ensures
        str_spec(d) == (StrV::Got { s, consumed: str_bytes(s).len() }),
{
    let ib = int_bytes(utf8_len(s), 7, 0);
    let eb = encode_utf8(s);
    assert(str_bytes(s) == ib + eb);
    assert(d.take(ib.len() as int) =~= ib) by {
        assert(d.take(ib.len() as int) =~= str_bytes(s).take(ib.len() as int));
    }
    assert(0u8 & 127u8 == 0) by (bit_vector);
    lemma_int_bytes(d, utf8_len(s), 7, 0);
    let pos = ib.len();
    let len = utf8_len(s);
    assert(d.subrange(pos as int, (pos + len) as int) =~= eb) by {
        assert(d.subrange(pos as int, (pos + len) as int) =~= str_bytes(s).subrange(pos as int, (pos + len) as int));
    }
    vstd::utf8::encode_utf8_valid_utf8(s);
    vstd::utf8::encode_utf8_decode_utf8(s);
    assert(lossy_text(eb) == s);
}

proof fn lemma_find_static(name: Seq<char>, value: Seq<char>, i: int)
    requires
        0 <= i,
    ensures
        find_static_from(name, value, i) matches Some((k, b)) ==> 1 <= k <= 61
            && static_table(k - 1).0@ == name && b == (static_table(k - 1).1@ == value),
    decreases 61 - i,
{
    if i < 61 && static_table(i).0@ != name {
        lemma_find_static(name, value, i + 1);
    }
}

/// The table after encoding (or decoding) one header field.
pub open spec fn field_table(t: TableV, name: Seq<char>, value: Seq<char>) -> TableV {
    if field_indexes(name, value) { add_entry_spec(t, name, value) } else { t }
}

/// Decoding one encoded field at `pos` gives the field and the table the encoder
/// has after it, and moves past exactly its bytes.
#[verifier::spinoff_prover]
#[verifier::rlimit(40)]
proof fn lemma_decode_field(
    t: TableV,
    d: Seq<u8>,
    pos: nat,
    acc: Seq<(Seq<char>, Seq<char>)>,
    name: Seq<char>,
    value: Seq<char>,
)
    requires
        d.len() <= usize::MAX,
        pos + field_bytes(name, value).len() <= d.len(),
        d.subrange(pos as int, (pos + field_bytes(name, value).len()) as int) == field_bytes(name, value),
        field_indexes(name, value) ==> !add_entry_overflows(t, name, value),
    ensures
        decode_from(t, d, pos, acc) == decode_from(
            field_table(t, name, value),
            d,
            pos + field_bytes(name, value).len(),
            acc.push((name, value)),
        ),
{
    let fb = field_bytes(name, value);
    let rest = d.skip(pos as int);
    lemma_find_static(name, value, 0);
    assert(rest.take(fb.len() as int) =~= fb);
    assert(rest.len() <= usize::MAX);
    match find_static_spec(name, value) {
        Some((i, true)) => {
            let y = i as u8;
            assert(0x80u8 & 127u8 == 0) by (bit_vector);
            lemma_int_bytes(rest, i, 7, 0x80);
            assert(fb =~= seq![0x80u8 | y]);
            assert((0x80u8 | y) & 0x80u8 != 0) by (bit_vector);
            assert(d[pos as int] == fb[0]);
        },
        Some((i, false)) => {
            let y = i as u8;
            let ib = int_bytes(i, 6, 0x40);
            assert(ib =~= seq![0x40u8 | y]);
            assert(0x40u8 & 63u8 == 0) by (bit_vector);
            assert(rest.take(1) =~= ib);
            lemma_int_bytes(rest, i, 6, 0x40);
            assert((0x40u8 | y) & 0x80u8 == 0 && (0x40u8 | y) & 0x40u8 != 0) by (bit_vector)
                requires y < 64u8;
            assert(d[pos as int] == fb[0]);
            let r1 = rest.skip(1);
            assert(r1.take(str_bytes(value).len() as int) =~= str_bytes(value));
            lemma_str_bytes(r1, value);
            assert(lit_value(t, rest, 1, name, true) == LitV::Got {
                name,
                value,
                consumed: 1 + str_bytes(value).len(),
                table: add_entry_spec(t, name, value),
            });
        },
        None => {
            assert(0x40u8 & 63u8 == 0 && 0x40u8 & 0x80u8 == 0 && 0x40u8 & 0x40u8 != 0) by (bit_vector);
            assert(int_bytes(0, 6, 0x40) =~= seq![0x40u8]) by {
                assert(0x40u8 | 0u8 == 0x40u8) by (bit_vector);
            }
            assert(rest.take(1) =~= seq![0x40u8]);
            lemma_int_bytes(rest, 0, 6, 0x40);
            assert(d[pos as int] == fb[0]);
            let sn = str_bytes(name);
            let r1 = rest.skip(1);
            assert(r1.take(sn.len() as int) =~= sn);
            lemma_str_bytes(r1, name);
            let r2 = rest.skip((1 + sn.len()) as int);
            assert(r2.take(str_bytes(value).len() as int) =~= str_bytes(value));
            lemma_str_bytes(r2, value);
            assert(rest.skip((1 + sn.len()) as int) =~= r2);
        },
    }
}

/// `encode_bytes`, `encode_table` and `encode_overflows` taken from the front.
proof fn lemma_encode_front(t: TableV, h: Seq<(Seq<char>, Seq<char>)>)
    requires
        h.len() > 0,
    ensures
        encode_bytes(h) == field_bytes(h[0].0, h[0].1) + encode_bytes(h.skip(1)),
        encode_table(t, h) == encode_table(field_table(t, h[0].0, h[0].1), h.skip(1)),
        encode_overflows(t, h) == ((field_indexes(h[0].0, h[0].1) && add_entry_overflows(t, h[0].0, h[0].1))
            || encode_overflows(field_table(t, h[0].0, h[0].1), h.skip(1))),
    decreases h.len(),
{
    let t1 = field_table(t, h[0].0, h[0].1);
    if h.len() == 1 {
        assert(h.drop_last() =~= Seq::<(Seq<char>, Seq<char>)>::empty());
        assert(h.skip(1) =~= Seq::<(Seq<char>, Seq<char>)>::empty());
        assert(encode_bytes(h) =~= field_bytes(h[0].0, h[0].1) + encode_bytes(h.skip(1)));
        assert(encode_table(t, h.drop_last()) == t);
        assert(!encode_overflows(t, h.drop_last()));
        assert(h.last() == h[0]);
        assert(encode_table(t, h) == field_table(t, h[0].0, h[0].1));
        assert(encode_overflows(t, h) == (field_indexes(h[0].0, h[0].1) && add_entry_overflows(t, h[0].0, h[0].1)));
    } else {
        let p = h.drop_last();
        lemma_encode_front(t, p);
        assert(h.skip(1).drop_last() =~= p.skip(1));
        assert(h.skip(1).last() == h.last());
        assert(p[0] == h[0]);
        assert(encode_bytes(h) =~= field_bytes(h[0].0, h[0].1) + encode_bytes(h.skip(1)));
        let q = h.skip(1);
        let l = h.last();
        assert(encode_table(t1, q) == (if field_indexes(l.0, l.1) {
            add_entry_spec(encode_table(t1, p.skip(1)), l.0, l.1)
        } else {
            encode_table(t1, p.skip(1))
        }));
        assert(encode_overflows(t1, q) == (encode_overflows(t1, p.skip(1)) || (field_indexes(l.0, l.1)
            && add_entry_overflows(encode_table(t1, p.skip(1)), l.0, l.1))));
    }
}

#[verifier::spinoff_prover]
#[verifier::rlimit(40)]
proof fn lemma_decode_encoded(
    t: TableV,
    d: Seq<u8>,
    pos: nat,
    acc: Seq<(Seq<char>, Seq<char>)>,
    h: Seq<(Seq<char>, Seq<char>)>,
)
    requires
        d.len() <= usize::MAX,
        pos + encode_bytes(h).len() == d.len(),
        d.skip(pos as int) == encode_bytes(h),
        !encode_overflows(t, h),
    ensures
        decode_from(t, d, pos, acc) == (DecodeV::Done { result: Ok(acc + h), table: encode_table(t, h) }),
    decreases h.len(),
{
    if h.len() == 0 {
        assert(acc + h =~= acc);
    } else {
        lemma_encode_front(t, h);
        let name = h[0].0;
        let value = h[0].1;
        let fb = field_bytes(name, value);
        assert(d.subrange(pos as int, (pos + fb.len()) as int) =~= fb) by {
            assert(d.subrange(pos as int, (pos + fb.len()) as int) =~= d.skip(pos as int).take(fb.len() as int));
        }
        lemma_decode_field(t, d, pos, acc, name, value);
        assert(d.skip((pos + fb.len()) as int) =~= encode_bytes(h.skip(1))) by {
            assert(d.skip((pos + fb.len()) as int) =~= d.skip(pos as int).skip(fb.len() as int));
        }
        lemma_decode_encoded(field_table(t, name, value), d, pos + fb.len(), acc.push((name, value)), h.skip(1));
        assert(acc.push((name, value)) + h.skip(1) =~= acc + h);
    }
}

/// Any decoder, whatever it decoded before (its table `t`), decodes an encoded
/// header block to exactly the encoded header list; its table ends as encoding
/// the list into `t` leaves it (so a decoder whose table equals the encoder's
/// stays equal to it). The block's bytes do not depend on the encoder's table.
/// The bounds say that the sizes the decoder adds up fit in `usize`.
pub proof fn law_hpack_round_trip(t: TableV, h: Seq<(Seq<char>, Seq<char>)>)
    requires
        !encode_overflows(t, h),
        encode_bytes(h).len() <= usize::MAX,
    ensures
        decode_spec(t, encode_bytes(h)) == (DecodeV::Done { result: Ok(h), table: encode_table(t, h) }),
{
    let d = encode_bytes(h);
    assert(d.skip(0) =~= d);
    lemma_decode_encoded(t, d, 0, Seq::empty(), h);
    assert(Seq::<(Seq<char>, Seq<char>)>::empty() + h =~= h);
}

/// A string literal of RFC 7541 (section 5.2) without Huffman coding: its
/// length in one byte (below 127), then its bytes.
pub open spec fn short_string(x: Seq<u8>) -> Seq<u8> {
    seq![x.len() as u8] + x
}

proof fn lemma_short_string(x: Seq<u8>, rest: Seq<u8>)
    requires
        x.len() < 127,
        valid_utf8(x),
    ensures
        str_spec(short_string(x) + rest) == (StrV::Got { s: decode_utf8(x), consumed: x.len() + 1 }),
{
    let d = short_string(x) + rest;
    let l = x.len() as u8;
    assert(d[0] == l);
    assert(l & 127 == l) by (bit_vector)
        requires l < 127u8;
    assert(prefix_max(7) == 127);
    assert(int_spec(d, 7) == (IntV::Got { value: x.len(), consumed: 1 }));
    assert(d.subrange(1, x.len() + 1 as int) =~= x);
}

proof fn lemma_literal_field(t: TableV, n: Seq<u8>, v: Seq<u8>, f: u8, prefix: nat, index: bool)
    requires
        n.len() < 127,
        v.len() < 127,
        valid_utf8(n),
        valid_utf8(v),
        !add_entry_overflows(t, decode_utf8(n), decode_utf8(v)),
        prefix == 6 || prefix == 4,
        f & 0x80 == 0,
        (f & 0x40 != 0) == index,
        !index ==> f & 0x20 == 0,
        index <==> prefix == 6,
        f & prefix_max(prefix) == 0,
    ensures
        decode_spec(t, seq![f] + short_string(n) + short_string(v)) == (DecodeV::Done {
            result: Ok(seq![(decode_utf8(n), decode_utf8(v))]),
            table: if index { add_entry_spec(t, decode_utf8(n), decode_utf8(v)) } else { t },
        }),
{
    let name = decode_utf8(n);
    let value = decode_utf8(v);
    let tail = short_string(v);
    lemma_short_string(v, Seq::empty());
    assert(tail + Seq::<u8>::empty() =~= tail);
    let pairs = seq![(name, value)];
    assert(Seq::<(Seq<char>, Seq<char>)>::empty().push((name, value)) =~= pairs);
    let d = seq![f] + short_string(n) + short_string(v);
    assert(d[0] == f);
    assert(d.skip(0) =~= d);
    let d1 = d.skip(1);
    assert(d1 =~= short_string(n) + tail);
    lemma_short_string(n, tail);
    let p0 = n.len() + 2;
    assert(d.skip(p0 as int) =~= tail);
    assert(int_spec(d, prefix) == (IntV::Got { value: 0, consumed: 1 }));
    assert(lit_spec(t, d, prefix, index) == lit_value(t, d, p0, name, index));
    let table = if index { add_entry_spec(t, name, value) } else { t };
    assert(lit_spec(t, d, prefix, index) == (LitV::Got { name, value, consumed: d.len(), table }));
    assert(decode_from(table, d, d.len(), pairs) == (DecodeV::Done { result: Ok(pairs), table }));
}

/// Literal header fields follow RFC 7541 (sections 6.2.1 and 6.2.2): a field
/// that starts with 0x40 and gives its name and value as string literals
/// decodes to that (name, value) and adds it to the dynamic table; one that
/// starts with 0x00 decodes to it and leaves the table as it was.
pub proof fn law_hpack_literal_fields(t: TableV, n: Seq<u8>, v: Seq<u8>)
    requires
        n.len() < 127,
        v.len() < 127,
        valid_utf8(n),
        valid_utf8(v),
        !add_entry_overflows(t, decode_utf8(n), decode_utf8(v)),
    ensures
        decode_spec(t, seq![0x40u8] + short_string(n) + short_string(v)) == (DecodeV::Done {
            result: Ok(seq![(decode_utf8(n), decode_utf8(v))]),
            table: add_entry_spec(t, decode_utf8(n), decode_utf8(v)),
        }),
        decode_spec(t, seq![0x00u8] + short_string(n) + short_string(v)) == (DecodeV::Done {
            result: Ok(seq![(decode_utf8(n), decode_utf8(v))]),
            table: t,
        }),
{
    let x: u8 = 0x40;
    let z: u8 = 0;
    assert(x & 0x80 == 0 && x & 0x40 != 0 && x & 63 == 0) by (bit_vector)
        requires x == 0x40u8;
    assert(z & 0x80 == 0 && z & 0x40 == 0 && z & 0x20 == 0 && z & 15 == 0) by (bit_vector)
        requires z == 0u8;
    assert(prefix_max(6) == 63 && prefix_max(4) == 15);
    lemma_literal_field(t, n, v, x, 6, true);
    lemma_literal_field(t, n, v, z, 4, false);
}

/// Integers past their prefix continue in further bytes (RFC 7541 section
/// 5.1): a size update (0x20, 5-bit prefix) of 0x3f followed by a byte m below
/// 128 sets the table's limit to 31 + m; one of 0x20 + k, for k below 31, to k.
pub proof fn law_hpack_integer_prefix(t: TableV, m: u8, k: u8)
    requires
        m < 128,
        k < 31,
    ensures
        decode_spec(t, seq![0x3fu8, m]) == (DecodeV::Done { result: Ok(Seq::empty()), table: resize_spec(t, (31 + m) as nat) }),
        decode_spec(t, seq![(0x20 + k) as u8]) == (DecodeV::Done { result: Ok(Seq::empty()), table: resize_spec(t, k as nat) }),
{
    let a: u8 = 0x3f;
    assert(a & 0x80 == 0 && a & 0x40 == 0 && a & 0x20 != 0 && a & 31 == 31) by (bit_vector)
        requires a == 0x3fu8;
    assert(m & 0x80 == 0 && m & 0x7f == m) by (bit_vector)
        requires m < 128u8;
    assert(prefix_max(5) == 31);
    let d = seq![a, m];
    assert(d.skip(0) =~= d);
    assert(((m & 0x7f) as usize) << 0usize == m as usize) by (bit_vector)
        requires m < 128u8;
    assert(int_cont(d, 1, 0, 31) == (IntV::Got { value: (31 + m) as nat, consumed: 2 }));
    assert(int_spec(d, 5) == (IntV::Got { value: (31 + m) as nat, consumed: 2 }));
    assert(d[0] == a);
    assert(decode_from(resize_spec(t, (31 + m) as nat), d, 2, Seq::empty())
        == (DecodeV::Done { result: Ok(Seq::empty()), table: resize_spec(t, (31 + m) as nat) }));
    assert(decode_spec(t, d) == decode_from(resize_spec(t, (31 + m) as nat), d, 2, Seq::empty()));
    let b = (0x20 + k) as u8;
    assert(b & 0x80 == 0 && b & 0x40 == 0 && b & 0x20 != 0 && b & 31 == k) by (bit_vector)
        requires b == 0x20u8 + k, k < 31u8;
    let e = seq![b];
    assert(e.skip(0) =~= e);
    assert(e[0] == b);
    assert(int_spec(e, 5) == (IntV::Got { value: k as nat, consumed: 1 }));
    assert(decode_from(resize_spec(t, k as nat), e, 1, Seq::empty())
        == (DecodeV::Done { result: Ok(Seq::empty()), table: resize_spec(t, k as nat) }));
    assert(decode_spec(t, e) == decode_from(resize_spec(t, k as nat), e, 1, Seq::empty()));
}

} // verus!
