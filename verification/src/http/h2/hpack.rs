//! HPACK header compression (RFC 7541): static and dynamic tables, integer
//! and string literals, and the decoder and encoder of header blocks.
//!
//! Huffman-coded strings are not decoded: their raw bytes are taken as text.
use vstd::prelude::*;
use vstd::utf8::{encode_utf8, decode_utf8, valid_utf8};
use vstd::string::StringExecFns;
use std::collections::VecDeque;
use bytes::{Bytes, BytesMut};
use crate::buf::{bytes_view, bytes_mut_view, bm_new, bm_put_u8, bm_extend, bm_freeze};
use crate::text::{lossy_text, string_from_utf8_lossy, str_eq};
use crate::num::{decimal, push_decimal};

verus! {

/// Number of entries in the static table.
pub const STATIC_TABLE_LEN: usize = 61;

/// Entry `i` (0-based) of the HPACK static table (RFC 7541, appendix A).
pub open spec fn static_table(i: int) -> (&'static str, &'static str) {
    if i == 0 { (":authority", "") }
    else if i == 1 { (":method", "GET") }
    else if i == 2 { (":method", "POST") }
    else if i == 3 { (":path", "/") }
    else if i == 4 { (":path", "/index.html") }
    else if i == 5 { (":scheme", "http") }
    else if i == 6 { (":scheme", "https") }
    else if i == 7 { (":status", "200") }
    else if i == 8 { (":status", "204") }
    else if i == 9 { (":status", "206") }
    else if i == 10 { (":status", "304") }
    else if i == 11 { (":status", "400") }
    else if i == 12 { (":status", "404") }
    else if i == 13 { (":status", "500") }
    else if i == 14 { ("accept-charset", "") }
    else if i == 15 { ("accept-encoding", "gzip, deflate") }
    else if i == 16 { ("accept-language", "") }
    else if i == 17 { ("accept-ranges", "") }
    else if i == 18 { ("accept", "") }
    else if i == 19 { ("access-control-allow-origin", "") }
    else if i == 20 { ("age", "") }
    else if i == 21 { ("allow", "") }
    else if i == 22 { ("authorization", "") }
    else if i == 23 { ("cache-control", "") }
    else if i == 24 { ("content-disposition", "") }
    else if i == 25 { ("content-encoding", "") }
    else if i == 26 { ("content-language", "") }
    else if i == 27 { ("content-length", "") }
    else if i == 28 { ("content-location", "") }
    else if i == 29 { ("content-range", "") }
    else if i == 30 { ("content-type", "") }
    else if i == 31 { ("cookie", "") }
    else if i == 32 { ("date", "") }
    else if i == 33 { ("etag", "") }
    else if i == 34 { ("expect", "") }
    else if i == 35 { ("expires", "") }
    else if i == 36 { ("from", "") }
    else if i == 37 { ("host", "") }
    else if i == 38 { ("if-match", "") }
    else if i == 39 { ("if-modified-since", "") }
    else if i == 40 { ("if-none-match", "") }
    else if i == 41 { ("if-range", "") }
    else if i == 42 { ("if-unmodified-since", "") }
    else if i == 43 { ("last-modified", "") }
    else if i == 44 { ("link", "") }
    else if i == 45 { ("location", "") }
    else if i == 46 { ("max-forwards", "") }
    else if i == 47 { ("proxy-authenticate", "") }
    else if i == 48 { ("proxy-authorization", "") }
    else if i == 49 { ("range", "") }
    else if i == 50 { ("referer", "") }
    else if i == 51 { ("refresh", "") }
    else if i == 52 { ("retry-after", "") }
    else if i == 53 { ("server", "") }
    else if i == 54 { ("set-cookie", "") }
    else if i == 55 { ("strict-transport-security", "") }
    else if i == 56 { ("transfer-encoding", "") }
    else if i == 57 { ("user-agent", "") }
    else if i == 58 { ("vary", "") }
    else if i == 59 { ("via", "") }
    else { ("www-authenticate", "") }
}

/// The static table of RFC 7541 (appendix A), index 1 first.
pub open spec fn rfc7541_static_table() -> Seq<(Seq<char>, Seq<char>)> {
    seq![
        (":authority"@, ""@),
        (":method"@, "GET"@),
        (":method"@, "POST"@),
        (":path"@, "/"@),
        (":path"@, "/index.html"@),
        (":scheme"@, "http"@),
        (":scheme"@, "https"@),
        (":status"@, "200"@),
        (":status"@, "204"@),
        (":status"@, "206"@),
        (":status"@, "304"@),
        (":status"@, "400"@),
        (":status"@, "404"@),
        (":status"@, "500"@),
        ("accept-charset"@, ""@),
        ("accept-encoding"@, "gzip, deflate"@),
        ("accept-language"@, ""@),
        ("accept-ranges"@, ""@),
        ("accept"@, ""@),
        ("access-control-allow-origin"@, ""@),
        ("age"@, ""@),
        ("allow"@, ""@),
        ("authorization"@, ""@),
        ("cache-control"@, ""@),
        ("content-disposition"@, ""@),
        ("content-encoding"@, ""@),
        ("content-language"@, ""@),
        ("content-length"@, ""@),
        ("content-location"@, ""@),
        ("content-range"@, ""@),
        ("content-type"@, ""@),
        ("cookie"@, ""@),
        ("date"@, ""@),
        ("etag"@, ""@),
        ("expect"@, ""@),
        ("expires"@, ""@),
        ("from"@, ""@),
        ("host"@, ""@),
        ("if-match"@, ""@),
        ("if-modified-since"@, ""@),
        ("if-none-match"@, ""@),
        ("if-range"@, ""@),
        ("if-unmodified-since"@, ""@),
        ("last-modified"@, ""@),
        ("link"@, ""@),
        ("location"@, ""@),
        ("max-forwards"@, ""@),
        ("proxy-authenticate"@, ""@),
        ("proxy-authorization"@, ""@),
        ("range"@, ""@),
        ("referer"@, ""@),
        ("refresh"@, ""@),
        ("retry-after"@, ""@),
        ("server"@, ""@),
        ("set-cookie"@, ""@),
        ("strict-transport-security"@, ""@),
        ("transfer-encoding"@, ""@),
        ("user-agent"@, ""@),
        ("vary"@, ""@),
        ("via"@, ""@),
        ("www-authenticate"@, ""@)
    ]
}

/// The decoder's static table is RFC 7541's: a field that names static index
/// `k` (1 to 61) decodes to the RFC's entry `k`, whatever the dynamic table
/// holds, and a one-byte indexed field for `k` decodes to exactly that header.
pub proof fn law_static_table_is_rfc7541(t: TableV, k: nat)
    requires
        1 <= k <= 61,
    ensures
        rfc7541_static_table().len() == 61,
        get_spec(t, k) == (PairV::Got {
            name: rfc7541_static_table()[k - 1].0,
            value: rfc7541_static_table()[k - 1].1,
        }),
        decode_spec(t, seq![(0x80 + k) as u8]) == (DecodeV::Done {
            result: Ok(seq![rfc7541_static_table()[k - 1]]),
            table: t,
        }),
{
    let i = k - 1;
    assert forall|j: int| 0 <= j < 61 implies (#[trigger] rfc7541_static_table()[j]) == (static_table(j).0@, static_table(j).1@) by {
        lemma_static_entry_is_rfc7541(j);
    }
    let b = (0x80 + k) as u8;
    let kk = k as u8;
    assert(b & 0x80 != 0 && b & 0x7f == kk) by (bit_vector)
        requires b == 0x80u8 + kk, 1u8 <= kk <= 61u8;
    let d = seq![b];
    assert(d.skip(0) =~= d);
    assert(int_spec(d, 7) == (IntV::Got { value: k, consumed: 1 }));
    assert(decode_from(t, d, 1, seq![(static_table(i).0@, static_table(i).1@)]) == (DecodeV::Done {
        result: Ok(seq![(static_table(i).0@, static_table(i).1@)]),
        table: t,
    }));
    assert(Seq::<(Seq<char>, Seq<char>)>::empty().push((static_table(i).0@, static_table(i).1@))
        =~= seq![(static_table(i).0@, static_table(i).1@)]);
}

proof fn lemma_static_entry_is_rfc7541(i: int)
    requires
        0 <= i < 61,
    ensures
        rfc7541_static_table()[i] == (static_table(i).0@, static_table(i).1@),
{
    if i == 0 {
        assert(rfc7541_static_table()[0] == (":authority"@, ""@));
    } else if i == 1 {
        assert(rfc7541_static_table()[1] == (":method"@, "GET"@));
    } else if i == 2 {
        assert(rfc7541_static_table()[2] == (":method"@, "POST"@));
    } else if i == 3 {
        assert(rfc7541_static_table()[3] == (":path"@, "/"@));
    } else if i == 4 {
        assert(rfc7541_static_table()[4] == (":path"@, "/index.html"@));
    } else if i == 5 {
        assert(rfc7541_static_table()[5] == (":scheme"@, "http"@));
    } else if i == 6 {
        assert(rfc7541_static_table()[6] == (":scheme"@, "https"@));
    } else if i == 7 {
        assert(rfc7541_static_table()[7] == (":status"@, "200"@));
    } else if i == 8 {
        assert(rfc7541_static_table()[8] == (":status"@, "204"@));
    } else if i == 9 {
        assert(rfc7541_static_table()[9] == (":status"@, "206"@));
    } else if i == 10 {
        assert(rfc7541_static_table()[10] == (":status"@, "304"@));
    } else if i == 11 {
        assert(rfc7541_static_table()[11] == (":status"@, "400"@));
    } else if i == 12 {
        assert(rfc7541_static_table()[12] == (":status"@, "404"@));
    } else if i == 13 {
        assert(rfc7541_static_table()[13] == (":status"@, "500"@));
    } else if i == 14 {
        assert(rfc7541_static_table()[14] == ("accept-charset"@, ""@));
    } else if i == 15 {
        assert(rfc7541_static_table()[15] == ("accept-encoding"@, "gzip, deflate"@));
    } else if i == 16 {
        assert(rfc7541_static_table()[16] == ("accept-language"@, ""@));
    } else if i == 17 {
        assert(rfc7541_static_table()[17] == ("accept-ranges"@, ""@));
    } else if i == 18 {
        assert(rfc7541_static_table()[18] == ("accept"@, ""@));
    } else if i == 19 {
        assert(rfc7541_static_table()[19] == ("access-control-allow-origin"@, ""@));
    } else if i == 20 {
        assert(rfc7541_static_table()[20] == ("age"@, ""@));
    } else if i == 21 {
        assert(rfc7541_static_table()[21] == ("allow"@, ""@));
    } else if i == 22 {
        assert(rfc7541_static_table()[22] == ("authorization"@, ""@));
    } else if i == 23 {
        assert(rfc7541_static_table()[23] == ("cache-control"@, ""@));
    } else if i == 24 {
        assert(rfc7541_static_table()[24] == ("content-disposition"@, ""@));
    } else if i == 25 {
        assert(rfc7541_static_table()[25] == ("content-encoding"@, ""@));
    } else if i == 26 {
        assert(rfc7541_static_table()[26] == ("content-language"@, ""@));
    } else if i == 27 {
        assert(rfc7541_static_table()[27] == ("content-length"@, ""@));
    } else if i == 28 {
        assert(rfc7541_static_table()[28] == ("content-location"@, ""@));
    } else if i == 29 {
        assert(rfc7541_static_table()[29] == ("content-range"@, ""@));
    } else if i == 30 {
        assert(rfc7541_static_table()[30] == ("content-type"@, ""@));
    } else if i == 31 {
        assert(rfc7541_static_table()[31] == ("cookie"@, ""@));
    } else if i == 32 {
        assert(rfc7541_static_table()[32] == ("date"@, ""@));
    } else if i == 33 {
        assert(rfc7541_static_table()[33] == ("etag"@, ""@));
    } else if i == 34 {
        assert(rfc7541_static_table()[34] == ("expect"@, ""@));
    } else if i == 35 {
        assert(rfc7541_static_table()[35] == ("expires"@, ""@));
    } else if i == 36 {
        assert(rfc7541_static_table()[36] == ("from"@, ""@));
    } else if i == 37 {
        assert(rfc7541_static_table()[37] == ("host"@, ""@));
    } else if i == 38 {
        assert(rfc7541_static_table()[38] == ("if-match"@, ""@));
    } else if i == 39 {
        assert(rfc7541_static_table()[39] == ("if-modified-since"@, ""@));
    } else if i == 40 {
        assert(rfc7541_static_table()[40] == ("if-none-match"@, ""@));
    } else if i == 41 {
        assert(rfc7541_static_table()[41] == ("if-range"@, ""@));
    } else if i == 42 {
        assert(rfc7541_static_table()[42] == ("if-unmodified-since"@, ""@));
    } else if i == 43 {
        assert(rfc7541_static_table()[43] == ("last-modified"@, ""@));
    } else if i == 44 {
        assert(rfc7541_static_table()[44] == ("link"@, ""@));
    } else if i == 45 {
        assert(rfc7541_static_table()[45] == ("location"@, ""@));
    } else if i == 46 {
        assert(rfc7541_static_table()[46] == ("max-forwards"@, ""@));
    } else if i == 47 {
        assert(rfc7541_static_table()[47] == ("proxy-authenticate"@, ""@));
    } else if i == 48 {
        assert(rfc7541_static_table()[48] == ("proxy-authorization"@, ""@));
    } else if i == 49 {
        assert(rfc7541_static_table()[49] == ("range"@, ""@));
    } else if i == 50 {
        assert(rfc7541_static_table()[50] == ("referer"@, ""@));
    } else if i == 51 {
        assert(rfc7541_static_table()[51] == ("refresh"@, ""@));
    } else if i == 52 {
        assert(rfc7541_static_table()[52] == ("retry-after"@, ""@));
    } else if i == 53 {
        assert(rfc7541_static_table()[53] == ("server"@, ""@));
    } else if i == 54 {
        assert(rfc7541_static_table()[54] == ("set-cookie"@, ""@));
    } else if i == 55 {
        assert(rfc7541_static_table()[55] == ("strict-transport-security"@, ""@));
    } else if i == 56 {
        assert(rfc7541_static_table()[56] == ("transfer-encoding"@, ""@));
    } else if i == 57 {
        assert(rfc7541_static_table()[57] == ("user-agent"@, ""@));
    } else if i == 58 {
        assert(rfc7541_static_table()[58] == ("vary"@, ""@));
    } else if i == 59 {
        assert(rfc7541_static_table()[59] == ("via"@, ""@));
    } else if i == 60 {
        assert(rfc7541_static_table()[60] == ("www-authenticate"@, ""@));
    }
}

/// Entry `i` (0-based) of the static table.
fn static_entry(i: usize) -> (res: (&'static str, &'static str))
    requires
        i < STATIC_TABLE_LEN,
    ensures
        res == static_table(i as int),
{
    if i == 0 { (":authority", "") }
    else if i == 1 { (":method", "GET") }
    else if i == 2 { (":method", "POST") }
    else if i == 3 { (":path", "/") }
    else if i == 4 { (":path", "/index.html") }
    else if i == 5 { (":scheme", "http") }
    else if i == 6 { (":scheme", "https") }
    else if i == 7 { (":status", "200") }
    else if i == 8 { (":status", "204") }
    else if i == 9 { (":status", "206") }
    else if i == 10 { (":status", "304") }
    else if i == 11 { (":status", "400") }
    else if i == 12 { (":status", "404") }
    else if i == 13 { (":status", "500") }
    else if i == 14 { ("accept-charset", "") }
    else if i == 15 { ("accept-encoding", "gzip, deflate") }
    else if i == 16 { ("accept-language", "") }
    else if i == 17 { ("accept-ranges", "") }
    else if i == 18 { ("accept", "") }
    else if i == 19 { ("access-control-allow-origin", "") }
    else if i == 20 { ("age", "") }
    else if i == 21 { ("allow", "") }
    else if i == 22 { ("authorization", "") }
    else if i == 23 { ("cache-control", "") }
    else if i == 24 { ("content-disposition", "") }
    else if i == 25 { ("content-encoding", "") }
    else if i == 26 { ("content-language", "") }
    else if i == 27 { ("content-length", "") }
    else if i == 28 { ("content-location", "") }
    else if i == 29 { ("content-range", "") }
    else if i == 30 { ("content-type", "") }
    else if i == 31 { ("cookie", "") }
    else if i == 32 { ("date", "") }
    else if i == 33 { ("etag", "") }
    else if i == 34 { ("expect", "") }
    else if i == 35 { ("expires", "") }
    else if i == 36 { ("from", "") }
    else if i == 37 { ("host", "") }
    else if i == 38 { ("if-match", "") }
    else if i == 39 { ("if-modified-since", "") }
    else if i == 40 { ("if-none-match", "") }
    else if i == 41 { ("if-range", "") }
    else if i == 42 { ("if-unmodified-since", "") }
    else if i == 43 { ("last-modified", "") }
    else if i == 44 { ("link", "") }
    else if i == 45 { ("location", "") }
    else if i == 46 { ("max-forwards", "") }
    else if i == 47 { ("proxy-authenticate", "") }
    else if i == 48 { ("proxy-authorization", "") }
    else if i == 49 { ("range", "") }
    else if i == 50 { ("referer", "") }
    else if i == 51 { ("refresh", "") }
    else if i == 52 { ("retry-after", "") }
    else if i == 53 { ("server", "") }
    else if i == 54 { ("set-cookie", "") }
    else if i == 55 { ("strict-transport-security", "") }
    else if i == 56 { ("transfer-encoding", "") }
    else if i == 57 { ("user-agent", "") }
    else if i == 58 { ("vary", "") }
    else if i == 59 { ("via", "") }
    else { ("www-authenticate", "") }
}

/// Length of a text in UTF-8 bytes.
pub open spec fn utf8_len(s: Seq<char>) -> nat {
    encode_utf8(s).len()
}

/// A dynamic-table entry as the contracts see it.
pub struct EntryV {
    pub name: Seq<char>,
    pub value: Seq<char>,
    pub size: nat,
}

/// A dynamic table as the contracts see it: newest entry first.
pub struct TableV {
    pub entries: Seq<EntryV>,
    pub max_size: nat,
    pub current_size: nat,
}

/// The size RFC 7541 counts for an entry: 32 plus the lengths of name and value.
pub open spec fn entry_size(name: Seq<char>, value: Seq<char>) -> nat {
    32 + utf8_len(name) + utf8_len(value)
}

/// Sum of the sizes of the entries.
pub open spec fn sum_sizes(e: Seq<EntryV>) -> nat
    decreases e.len(),
{
    if e.len() == 0 { 0 } else { sum_sizes(e.drop_last()) + e.last().size }
}

/// The table's bookkeeping: the current size is the sum of the entry sizes and within the limit.
pub open spec fn table_wf(t: TableV) -> bool {
    &&& t.current_size == sum_sizes(t.entries)
    &&& t.current_size <= t.max_size
    &&& t.max_size <= usize::MAX
}

/// The table without its oldest entry.
pub open spec fn drop_oldest(t: TableV) -> TableV {
    TableV {
        entries: t.entries.drop_last(),
        max_size: t.max_size,
        current_size: (t.current_size - t.entries.last().size) as nat,
    }
}

/// Evicts oldest entries until an entry of `size` fits or the table is empty.
pub open spec fn evict_for(t: TableV, size: nat) -> TableV
    decreases t.entries.len(),
{
    if t.current_size + size > t.max_size && t.entries.len() > 0 {
        evict_for(drop_oldest(t), size)
    } else {
        t
    }
}

/// The table after inserting (name, value): oldest entries are evicted to make room;
/// an entry larger than the limit is not inserted (and the table ends up empty).
pub open spec fn add_entry_spec(t: TableV, name: Seq<char>, value: Seq<char>) -> TableV {
    let size = entry_size(name, value);
    let t1 = evict_for(t, size);
    if size <= t1.max_size {
        TableV {
            entries: seq![EntryV { name, value, size }] + t1.entries,
            max_size: t1.max_size,
            current_size: t1.current_size + size,
        }
    } else {
        t1
    }
}

/// Whether inserting (name, value) overflows `usize` while computing sizes.
pub open spec fn add_entry_overflows(t: TableV, name: Seq<char>, value: Seq<char>) -> bool {
    t.current_size + entry_size(name, value) > usize::MAX
}

/// Evicts oldest entries until the table fits its limit.
pub open spec fn shrink(t: TableV) -> TableV
    decreases t.entries.len(),
{
    if t.current_size > t.max_size && t.entries.len() > 0 {
        shrink(drop_oldest(t))
    } else {
        t
    }
}

/// The table after a size update to `new_size`.
pub open spec fn resize_spec(t: TableV, new_size: nat) -> TableV {
    shrink(TableV { entries: t.entries, max_size: new_size, current_size: t.current_size })
}

/// The largest value an N-bit prefix holds (N = 4..7).
pub open spec fn prefix_max(prefix: nat) -> u8 {
    if prefix == 4 { 15 } else if prefix == 5 { 31 } else if prefix == 6 { 63 } else { 127 }
}

/// Outcome of decoding an integer.
pub enum IntV {
    Got { value: nat, consumed: nat },
    Fail { msg: Seq<char> },
    Overflow,
}

/// Message for an integer with no bytes.
pub open spec fn msg_empty_int() -> Seq<char> { "Empty data for integer"@ }
/// Message for an integer whose continuation bytes run out.
pub open spec fn msg_truncated() -> Seq<char> { "Truncated integer"@ }
/// Message for a string literal with no bytes.
pub open spec fn msg_empty_string() -> Seq<char> { "Empty string data"@ }
/// Message for a string literal longer than the data.
pub open spec fn msg_too_long() -> Seq<char> { "String too long"@ }
/// Message for index 0.
pub open spec fn msg_index_zero() -> Seq<char> { "Invalid index 0"@ }
/// Message for an index past the dynamic table.
pub open spec fn msg_bad_dynamic(i: nat) -> Seq<char> { "Invalid dynamic index "@ + decimal(i) }

/// Continuation bytes of an integer from `pos`: each adds its low 7 bits shifted
/// left by `m`, until a byte without the top bit. A shift by the width of `usize` or more, or a sum
/// past `usize::MAX`, is an overflow.
pub open spec fn int_cont(d: Seq<u8>, pos: nat, m: nat, value: nat) -> IntV
    decreases d.len() - pos,
{
    if pos >= d.len() {
        IntV::Fail { msg: msg_truncated() }
    } else if m >= usize::BITS {
        IntV::Overflow
    } else {
        let term = (((d[pos as int] & 0x7f) as usize) << (m as usize)) as nat;
        if value + term > usize::MAX {
            IntV::Overflow
        } else if d[pos as int] & 0x80 == 0 {
            IntV::Got { value: value + term, consumed: pos + 1 }
        } else {
            int_cont(d, pos + 1, m + 7, value + term)
        }
    }
}

/// An integer with an N-bit prefix at the start of `d`.
pub open spec fn int_spec(d: Seq<u8>, prefix: nat) -> IntV {
    if d.len() == 0 {
        IntV::Fail { msg: msg_empty_int() }
    } else {
        let v0 = d[0] & prefix_max(prefix);
        if v0 < prefix_max(prefix) {
            IntV::Got { value: v0 as nat, consumed: 1 }
        } else {
            int_cont(d, 1, 0, v0 as nat)
        }
    }
}

/// Outcome of decoding a string literal.
pub enum StrV {
    Got { s: Seq<char>, consumed: nat },
    Fail { msg: Seq<char> },
    Overflow,
}

/// A string literal at the start of `d`: a length with a 7-bit prefix, then that many bytes.
pub open spec fn str_spec(d: Seq<u8>) -> StrV {
    if d.len() == 0 {
        StrV::Fail { msg: msg_empty_string() }
    } else {
        match int_spec(d, 7) {
            IntV::Overflow => StrV::Overflow,
            IntV::Fail { msg } => StrV::Fail { msg },
            IntV::Got { value: len, consumed: pos } =>
                if pos + len > usize::MAX {
                    StrV::Overflow
                } else if pos + len > d.len() {
                    StrV::Fail { msg: msg_too_long() }
                } else {
                    StrV::Got { s: lossy_text(d.subrange(pos as int, (pos + len) as int)), consumed: pos + len }
                },
        }
    }
}

/// Outcome of an index lookup.
pub enum PairV {
    Got { name: Seq<char>, value: Seq<char> },
    Fail { msg: Seq<char> },
}

/// The header an index names: 1..=61 the static table, then the dynamic table, newest first.
pub open spec fn get_spec(t: TableV, index: nat) -> PairV {
    if index == 0 {
        PairV::Fail { msg: msg_index_zero() }
    } else if index <= 61 {
        PairV::Got { name: static_table(index - 1).0@, value: static_table(index - 1).1@ }
    } else {
        let di = (index - 62) as nat;
        if di >= t.entries.len() {
            PairV::Fail { msg: msg_bad_dynamic(di) }
        } else {
            PairV::Got { name: t.entries[di as int].name, value: t.entries[di as int].value }
        }
    }
}

/// Outcome of decoding a literal header field.
pub enum LitV {
    Got { name: Seq<char>, value: Seq<char>, consumed: nat, table: TableV },
    Fail { msg: Seq<char> },
    Overflow,
}

/// The value part of a literal field at `pos`, and the table after it.
pub open spec fn lit_value(t: TableV, d: Seq<u8>, pos: nat, name: Seq<char>, index: bool) -> LitV {
    match str_spec(d.skip(pos as int)) {
        StrV::Overflow => LitV::Overflow,
        StrV::Fail { msg } => LitV::Fail { msg },
        StrV::Got { s: value, consumed: c } =>
            if index {
                if add_entry_overflows(t, name, value) {
                    LitV::Overflow
                } else {
                    LitV::Got { name, value, consumed: pos + c, table: add_entry_spec(t, name, value) }
                }
            } else {
                LitV::Got { name, value, consumed: pos + c, table: t }
            },
    }
}

/// A literal header field: a name index with an N-bit prefix (0: a literal name
/// follows), then the value; with `index`, the field is added to the table.
pub open spec fn lit_spec(t: TableV, d: Seq<u8>, prefix: nat, index: bool) -> LitV {
    match int_spec(d, prefix) {
        IntV::Overflow => LitV::Overflow,
        IntV::Fail { msg } => LitV::Fail { msg },
        IntV::Got { value: ni, consumed: p0 } =>
            if ni == 0 {
                match str_spec(d.skip(p0 as int)) {
                    StrV::Overflow => LitV::Overflow,
                    StrV::Fail { msg } => LitV::Fail { msg },
                    StrV::Got { s: name, consumed: c1 } => lit_value(t, d, p0 + c1, name, index),
                }
            } else {
                match get_spec(t, ni) {
                    PairV::Fail { msg } => LitV::Fail { msg },
                    PairV::Got { name, value: _ } => lit_value(t, d, p0, name, index),
                }
            },
    }
}

proof fn lemma_int_cont_bounds(d: Seq<u8>, pos: nat, m: nat, value: nat)
    ensures
        int_cont(d, pos, m, value) matches IntV::Got { value: v, consumed: c } ==> pos < c <= d.len() && v <= usize::MAX,
    decreases d.len() - pos,
{
    if pos < d.len() && m < usize::BITS {
        lemma_int_cont_bounds(d, pos + 1, m + 7, value + (((d[pos as int] & 0x7f) as usize) << (m as usize)) as nat);
    }
}

/// A decoded integer consumed at least one byte and no more than there are, and fits `usize`.
pub proof fn lemma_int_bounds(d: Seq<u8>, prefix: nat)
    ensures
        int_spec(d, prefix) matches IntV::Got { value: v, consumed: c } ==> 1 <= c <= d.len() && v <= usize::MAX,
{
    if d.len() > 0 {
        lemma_int_cont_bounds(d, 1, 0, (d[0] & prefix_max(prefix)) as nat);
    }
}

/// A decoded string consumed at least one byte and no more than there are.
pub proof fn lemma_str_bounds(d: Seq<u8>)
    ensures
        str_spec(d) matches StrV::Got { consumed: c, .. } ==> 1 <= c <= d.len(),
{
    lemma_int_bounds(d, 7);
}

/// A decoded literal consumed at least one byte and no more than there are.
pub proof fn lemma_lit_bounds(t: TableV, d: Seq<u8>, prefix: nat, index: bool)
    ensures
        lit_spec(t, d, prefix, index) matches LitV::Got { consumed: c, .. } ==> 1 <= c <= d.len(),
{
    lemma_int_bounds(d, prefix);
    if let IntV::Got { value: ni, consumed: p0 } = int_spec(d, prefix) {
        if ni == 0 {
            lemma_str_bounds(d.skip(p0 as int));
            if let StrV::Got { consumed: c1, .. } = str_spec(d.skip(p0 as int)) {
                lemma_str_bounds(d.skip((p0 + c1) as int));
            }
        } else {
            lemma_str_bounds(d.skip(p0 as int));
        }
    }
}

/// Outcome of decoding a header block: the headers (or the first error) and the table after it.
pub enum DecodeV {
    Done { result: Result<Seq<(Seq<char>, Seq<char>)>, Seq<char>>, table: TableV },
    Overflow,
}

/// Decodes the fields from `pos` on, after `acc` has been decoded. Each field is
/// indexed (top bit), literal with indexing (0x40), a table size update (0x20),
/// or literal without indexing.
pub open spec fn decode_from(t: TableV, d: Seq<u8>, pos: nat, acc: Seq<(Seq<char>, Seq<char>)>) -> DecodeV
    decreases d.len() - pos,
{
    if pos >= d.len() {
        DecodeV::Done { result: Ok(acc), table: t }
    } else {
        let rest = d.skip(pos as int);
        let first = d[pos as int];
        proof {
            lemma_int_bounds(rest, 7);
            lemma_int_bounds(rest, 5);
            lemma_lit_bounds(t, rest, 6, true);
            lemma_lit_bounds(t, rest, 4, false);
        }
        if first & 0x80 != 0 {
            match int_spec(rest, 7) {
                IntV::Overflow => DecodeV::Overflow,
                IntV::Fail { msg } => DecodeV::Done { result: Err(msg), table: t },
                IntV::Got { value: idx, consumed: c } => match get_spec(t, idx) {
                    PairV::Fail { msg } => DecodeV::Done { result: Err(msg), table: t },
                    PairV::Got { name, value } => decode_from(t, d, pos + c, acc.push((name, value))),
                },
            }
        } else if first & 0x40 != 0 {
            match lit_spec(t, rest, 6, true) {
                LitV::Overflow => DecodeV::Overflow,
                LitV::Fail { msg } => DecodeV::Done { result: Err(msg), table: t },
                LitV::Got { name, value, consumed, table } =>
                    decode_from(table, d, pos + consumed, acc.push((name, value))),
            }
        } else if first & 0x20 != 0 {
            match int_spec(rest, 5) {
                IntV::Overflow => DecodeV::Overflow,
                IntV::Fail { msg } => DecodeV::Done { result: Err(msg), table: t },
                IntV::Got { value: new_size, consumed: c } => decode_from(resize_spec(t, new_size), d, pos + c, acc),
            }
        } else {
            match lit_spec(t, rest, 4, false) {
                LitV::Overflow => DecodeV::Overflow,
                LitV::Fail { msg } => DecodeV::Done { result: Err(msg), table: t },
                LitV::Got { name, value, consumed, table } =>
                    decode_from(table, d, pos + consumed, acc.push((name, value))),
            }
        }
    }
}

/// Decoding a whole header block against a table.
pub open spec fn decode_spec(t: TableV, d: Seq<u8>) -> DecodeV {
    decode_from(t, d, 0, Seq::empty())
}


/// A dynamic-table entry.
#[derive(Debug, Clone)]
struct DynamicEntry {
    name: String,
    value: String,
    size: usize,
}

impl DynamicEntry {
    spec fn view(&self) -> EntryV {
        EntryV { name: self.name@, value: self.value@, size: self.size as nat }
    }

    fn new(name: String, value: String) -> (e: Self)
        requires
            entry_size(name@, value@) <= usize::MAX,
        ensures
            e@ == (EntryV { name: name@, value: value@, size: entry_size(name@, value@) }),
    {
        let size = 32 + name.as_str().len() + value.as_str().len();
        DynamicEntry { name, value, size }
    }
}

/// The table a deque of entries stands for.
spec fn table_of(entries: VecDeque<DynamicEntry>, max_size: usize, current_size: usize) -> TableV {
    TableV {
        entries: entries@.map_values(|e: DynamicEntry| e@),
        max_size: max_size as nat,
        current_size: current_size as nat,
    }
}

proof fn lemma_drop_oldest(e: Seq<DynamicEntry>, max_size: usize, current_size: usize)
    requires
        e.len() > 0,
        current_size as nat == sum_sizes(e.map_values(|x: DynamicEntry| x@)),
    ensures
        e.drop_last().map_values(|x: DynamicEntry| x@) == e.map_values(|x: DynamicEntry| x@).drop_last(),
        e.last().size <= current_size,
        sum_sizes(e.drop_last().map_values(|x: DynamicEntry| x@)) == current_size - e.last().size,
{
    assert(e.drop_last().map_values(|x: DynamicEntry| x@) =~= e.map_values(|x: DynamicEntry| x@).drop_last());
}

/// Evicts oldest entries of a deque table while `cond` asks for it; shared by decoder and encoder.
fn evict_while(entries: &mut VecDeque<DynamicEntry>, current_size: &mut usize, max_size: usize, size: usize)
    requires
        *old(current_size) as nat == sum_sizes(old(entries)@.map_values(|x: DynamicEntry| x@)),
        *old(current_size) + size <= usize::MAX,
    ensures
        table_of(*final(entries), max_size, *final(current_size))
            == evict_for(table_of(*old(entries), max_size, *old(current_size)), size as nat),
        *final(current_size) as nat == sum_sizes(final(entries)@.map_values(|x: DynamicEntry| x@)),
        *final(current_size) <= *old(current_size),
{
    while *current_size + size > max_size && entries.len() > 0
        invariant
            *current_size as nat == sum_sizes(entries@.map_values(|x: DynamicEntry| x@)),
            *current_size <= *old(current_size),
            *old(current_size) + size <= usize::MAX,
            evict_for(table_of(*entries, max_size, *current_size), size as nat)
                == evict_for(table_of(*old(entries), max_size, *old(current_size)), size as nat),
        decreases entries@.len(),
    {
        let ghost before = entries@;
        proof { lemma_drop_oldest(before, max_size, *current_size); }
        let removed = entries.pop_back();
        match removed {
            Some(r) => {
                *current_size = *current_size - r.size;
            },
            None => {},
        }
        proof {
            assert(entries@ =~= before.drop_last());
        }
    }
}

/// Evicts oldest entries while the table is over its limit.
fn shrink_table(entries: &mut VecDeque<DynamicEntry>, current_size: &mut usize, max_size: usize)
    requires
        *old(current_size) as nat == sum_sizes(old(entries)@.map_values(|x: DynamicEntry| x@)),
    ensures
        table_of(*final(entries), max_size, *final(current_size))
            == shrink(table_of(*old(entries), max_size, *old(current_size))),
        *final(current_size) as nat == sum_sizes(final(entries)@.map_values(|x: DynamicEntry| x@)),
{
    while *current_size > max_size && entries.len() > 0
        invariant
            *current_size as nat == sum_sizes(entries@.map_values(|x: DynamicEntry| x@)),
            shrink(table_of(*entries, max_size, *current_size))
                == shrink(table_of(*old(entries), max_size, *old(current_size))),
        decreases entries@.len(),
    {
        let ghost before = entries@;
        proof { lemma_drop_oldest(before, max_size, *current_size); }
        let removed = entries.pop_back();
        match removed {
            Some(r) => {
                *current_size = *current_size - r.size;
            },
            None => {},
        }
        proof {
            assert(entries@ =~= before.drop_last());
        }
    }
}

/// Inserts an entry at the front of a deque table, evicting as `add_entry_spec` says.
fn insert_entry(entries: &mut VecDeque<DynamicEntry>, current_size: &mut usize, max_size: usize, name: String, value: String)
    requires
        table_wf(table_of(*old(entries), max_size, *old(current_size))),
        !add_entry_overflows(table_of(*old(entries), max_size, *old(current_size)), name@, value@),
    ensures
        table_of(*final(entries), max_size, *final(current_size))
            == add_entry_spec(table_of(*old(entries), max_size, *old(current_size)), name@, value@),
        table_wf(table_of(*final(entries), max_size, *final(current_size))),
{
    let ghost t0 = table_of(*entries, max_size, *current_size);
    let entry = DynamicEntry::new(name, value);
    let entry_size = entry.size;
    evict_while(entries, current_size, max_size, entry_size);
    let ghost t1 = table_of(*entries, max_size, *current_size);
    if entry_size <= max_size {
        *current_size = *current_size + entry_size;
        let ghost before = entries@;
        entries.push_front(entry);
        proof {
            assert(entries@.map_values(|x: DynamicEntry| x@) =~= seq![entry@] + before.map_values(|x: DynamicEntry| x@));
            lemma_sum_sizes_front(entry@, before.map_values(|x: DynamicEntry| x@));
        }
    }
    proof {
        lemma_evict_fits(t0, entry_size as nat);
    }
}

proof fn lemma_sum_sizes_front(e: EntryV, s: Seq<EntryV>)
    ensures
        sum_sizes(seq![e] + s) == e.size + sum_sizes(s),
    decreases s.len(),
{
    let es = seq![e] + s;
    if s.len() == 0 {
        assert(es =~= seq![e]);
        assert(es.drop_last() =~= Seq::<EntryV>::empty());
        assert(sum_sizes(es) == sum_sizes(es.drop_last()) + es.last().size);
    } else {
        lemma_sum_sizes_front(e, s.drop_last());
        assert(es.drop_last() =~= seq![e] + s.drop_last());
        assert(es.last() == s.last());
        assert(sum_sizes(es) == sum_sizes(es.drop_last()) + es.last().size);
        assert(sum_sizes(s) == sum_sizes(s.drop_last()) + s.last().size);
    }
}

proof fn lemma_evict_fits(t: TableV, size: nat)
    requires
        table_wf(t),
    ensures
        evict_for(t, size).max_size == t.max_size,
        evict_for(t, size).current_size <= t.current_size,
        evict_for(t, size).current_size == sum_sizes(evict_for(t, size).entries),
        evict_for(t, size).current_size + size <= t.max_size || evict_for(t, size).entries.len() == 0,
        evict_for(t, size).entries.len() == 0 ==> evict_for(t, size).current_size == 0,
    decreases t.entries.len(),
{
    if t.current_size + size > t.max_size && t.entries.len() > 0 {
        let t2 = drop_oldest(t);
        assert(sum_sizes(t.entries) == sum_sizes(t.entries.drop_last()) + t.entries.last().size);
        lemma_evict_fits(t2, size);
    } else if t.entries.len() == 0 {
    }
}

proof fn lemma_shrink_fits(t: TableV)
    requires
        t.current_size == sum_sizes(t.entries),
        t.max_size <= usize::MAX,
    ensures
        table_wf(shrink(t)),
        shrink(t).max_size == t.max_size,
    decreases t.entries.len(),
{
    if t.current_size > t.max_size && t.entries.len() > 0 {
        lemma_shrink_fits(drop_oldest(t));
    }
}

proof fn lemma_evict_keeps_newest(t: TableV, size: nat)
    ensures
        evict_for(t, size).entries.len() <= t.entries.len(),
        evict_for(t, size).entries == t.entries.take(evict_for(t, size).entries.len() as int),
    decreases t.entries.len(),
{
    if t.current_size + size > t.max_size && t.entries.len() > 0 {
        let t2 = drop_oldest(t);
        lemma_evict_keeps_newest(t2, size);
        let k = evict_for(t, size).entries.len() as int;
        assert(t2.entries.take(k) =~= t.entries.take(k));
    } else {
        assert(t.entries.take(t.entries.len() as int) =~= t.entries);
    }
}

proof fn lemma_shrink_keeps_newest(t: TableV)
    ensures
        shrink(t).entries.len() <= t.entries.len(),
        shrink(t).entries == t.entries.take(shrink(t).entries.len() as int),
    decreases t.entries.len(),
{
    if t.current_size > t.max_size && t.entries.len() > 0 {
        let t2 = drop_oldest(t);
        lemma_shrink_keeps_newest(t2);
        let k = shrink(t).entries.len() as int;
        assert(t2.entries.take(k) =~= t.entries.take(k));
    } else {
        assert(t.entries.take(t.entries.len() as int) =~= t.entries);
    }
}

/// Inserting an entry keeps the table within its limit. The entry goes in as the
/// newest (first) one after the oldest entries are evicted to make room, and the
/// entries kept are the newest ones, in order; an entry larger than the limit
/// empties the table and is not inserted.
pub proof fn law_add_entry_keeps_bound(t: TableV, name: Seq<char>, value: Seq<char>)
    requires
        table_wf(t),
    ensures
        table_wf(add_entry_spec(t, name, value)),
        add_entry_spec(t, name, value).max_size == t.max_size,
        entry_size(name, value) <= t.max_size ==> ({
            let r = add_entry_spec(t, name, value);
            &&& r.entries.len() >= 1
            &&& r.entries[0] == (EntryV { name, value, size: entry_size(name, value) })
            &&& r.entries.skip(1) == t.entries.take(r.entries.len() - 1)
        }),
        entry_size(name, value) > t.max_size ==> add_entry_spec(t, name, value).entries.len() == 0,
{
    let size = entry_size(name, value);
    lemma_evict_fits(t, size);
    lemma_evict_keeps_newest(t, size);
    let t1 = evict_for(t, size);
    if size <= t1.max_size {
        let e = EntryV { name, value, size };
        lemma_sum_sizes_front(e, t1.entries);
        let r = add_entry_spec(t, name, value);
        assert(r.entries.skip(1) =~= t1.entries);
    }
}

/// A size update keeps the table within the new limit, keeping the newest
/// entries in order and evicting the oldest first.
pub proof fn law_resize_keeps_bound(t: TableV, new_size: nat)
    requires
        table_wf(t),
        new_size <= usize::MAX,
    ensures
        table_wf(resize_spec(t, new_size)),
        resize_spec(t, new_size).max_size == new_size,
        resize_spec(t, new_size).entries == t.entries.take(resize_spec(t, new_size).entries.len() as int),
{
    let t0 = TableV { entries: t.entries, max_size: new_size, current_size: t.current_size };
    lemma_shrink_fits(t0);
    lemma_shrink_keeps_newest(t0);
}

proof fn lemma_lit_keeps_bound(t: TableV, d: Seq<u8>, prefix: nat, index: bool)
    requires
        table_wf(t),
    ensures
        lit_spec(t, d, prefix, index) matches LitV::Got { table, .. } ==> table_wf(table),
{
    if let IntV::Got { value: ni, consumed: p0 } = int_spec(d, prefix) {
        if ni == 0 {
            if let StrV::Got { s: name, consumed: c1 } = str_spec(d.skip(p0 as int)) {
                lemma_lit_value_keeps_bound(t, d, p0 + c1, name, index);
            }
        } else {
            if let PairV::Got { name, value: _ } = get_spec(t, ni) {
                lemma_lit_value_keeps_bound(t, d, p0, name, index);
            }
        }
    }
}

proof fn lemma_lit_value_keeps_bound(t: TableV, d: Seq<u8>, pos: nat, name: Seq<char>, index: bool)
    requires
        table_wf(t),
    ensures
        lit_value(t, d, pos, name, index) matches LitV::Got { table, .. } ==> table_wf(table),
{
    if let StrV::Got { s: value, consumed: _ } = str_spec(d.skip(pos as int)) {
        if index {
            law_add_entry_keeps_bound(t, name, value);
        }
    }
}

proof fn lemma_decode_from_keeps_bound(t: TableV, d: Seq<u8>, pos: nat, acc: Seq<(Seq<char>, Seq<char>)>)
    requires
        table_wf(t),
    ensures
        decode_from(t, d, pos, acc) matches DecodeV::Done { table, .. } ==> table_wf(table),
    decreases d.len() - pos,
{
    if pos < d.len() {
        let rest = d.skip(pos as int);
        let first = d[pos as int];
        lemma_int_bounds(rest, 7);
        lemma_int_bounds(rest, 5);
        lemma_lit_bounds(t, rest, 6, true);
        lemma_lit_bounds(t, rest, 4, false);
        if first & 0x80 != 0 {
            if let IntV::Got { value: idx, consumed: c } = int_spec(rest, 7) {
                if let PairV::Got { name, value } = get_spec(t, idx) {
                    lemma_decode_from_keeps_bound(t, d, pos + c, acc.push((name, value)));
                }
            }
        } else if first & 0x40 != 0 {
            lemma_lit_keeps_bound(t, rest, 6, true);
            if let LitV::Got { name, value, consumed, table } = lit_spec(t, rest, 6, true) {
                lemma_decode_from_keeps_bound(table, d, pos + consumed, acc.push((name, value)));
            }
        } else if first & 0x20 != 0 {
            if let IntV::Got { value: new_size, consumed: c } = int_spec(rest, 5) {
                law_resize_keeps_bound(t, new_size);
                lemma_decode_from_keeps_bound(resize_spec(t, new_size), d, pos + c, acc);
            }
        } else {
            lemma_lit_keeps_bound(t, rest, 4, false);
            if let LitV::Got { name, value, consumed, table } = lit_spec(t, rest, 4, false) {
                lemma_decode_from_keeps_bound(table, d, pos + consumed, acc.push((name, value)));
            }
        }
    }
}

/// The decoder's table after decoding the blocks `ds` in turn from table `t`; a
/// block that would overflow (which `decode` does not take) is left out.
pub open spec fn table_after_blocks(t: TableV, ds: Seq<Seq<u8>>) -> TableV
    decreases ds.len(),
{
    if ds.len() == 0 {
        t
    } else {
        let t1 = table_after_blocks(t, ds.drop_last());
        match decode_spec(t1, ds.last()) {
            DecodeV::Done { table, .. } => table,
            DecodeV::Overflow => t1,
        }
    }
}

/// Decoding keeps the dynamic table within its limit: whatever blocks a decoder
/// decodes in turn, after each one its size is the sum of its entries' sizes
/// and at most its current maximum (the last size update's, or the one it was
/// made with). Insertions and size updates evict the oldest entries first (see
/// `law_add_entry_keeps_bound` and `law_resize_keeps_bound`).
pub proof fn law_decode_keeps_bound(t: TableV, ds: Seq<Seq<u8>>)
    requires
        table_wf(t),
    ensures
        table_wf(table_after_blocks(t, ds)),
    decreases ds.len(),
{
    if ds.len() > 0 {
        law_decode_keeps_bound(t, ds.drop_last());
        lemma_decode_from_keeps_bound(table_after_blocks(t, ds.drop_last()), ds.last(), 0, Seq::empty());
    }
}

/// Whether a table of `current_size` has room in `usize` for (name, value).
fn entry_fits(current_size: usize, name: &String, value: &String) -> (b: bool)
    ensures
        b == (current_size + entry_size(name@, value@) <= usize::MAX),
{
    let nl = name.as_str().as_bytes().len();
    let vl = value.as_str().as_bytes().len();
    if current_size > usize::MAX - 32 {
        false
    } else if nl > usize::MAX - 32 - current_size {
        false
    } else {
        vl <= usize::MAX - 32 - current_size - nl
    }
}

/// HPACK decoder: turns header blocks into header lists, keeping its dynamic table.
pub struct HpackDecoder {
    dynamic_table: VecDeque<DynamicEntry>,
    max_size: usize,
    current_size: usize,
}

impl HpackDecoder {
    /// The decoder's dynamic table.
    pub closed spec fn view(&self) -> TableV {
        table_of(self.dynamic_table, self.max_size, self.current_size)
    }

    /// The table's bookkeeping holds.
    pub closed spec fn wf(&self) -> bool {
        table_wf(self@)
    }

    /// The dynamic table's size is the sum of its entries' sizes and within its limit.
    pub proof fn law_table_within_limit(&self)
        requires
            self.wf(),
        ensures
            table_wf(self@),
            self@.current_size <= self@.max_size,
            self@.current_size == sum_sizes(self@.entries),
    {
    }

    /// A decoder with an empty dynamic table of the given size limit.
    pub fn new(max_size: usize) -> (d: Self)
        ensures
            d.wf(),
            d@ == (TableV { entries: Seq::empty(), max_size: max_size as nat, current_size: 0 }),
    {
        let d = HpackDecoder { dynamic_table: VecDeque::new(), max_size, current_size: 0 };
        assert(d@.entries =~= Seq::<EntryV>::empty());
        d
    }

    /// Decodes an integer with an N-bit prefix (N = 4..7) at the start of `data`,
    /// checking its size: `None` when it does not fit in `usize`.
    fn integer_checked(&self, data: &[u8], prefix: usize) -> (res: Option<Result<(usize, usize), String>>)
        requires
            4 <= prefix <= 7,
        ensures
            match int_spec(data@, prefix as nat) {
                IntV::Got { value, consumed } => res matches Some(Ok((v, c))) && v == value && c == consumed,
                IntV::Fail { msg } => res matches Some(Err(e)) && e@ == msg,
                IntV::Overflow => res is None,
            },
    {
        if data.len() == 0 {
            return Some(Err(String::from_str("Empty data for integer")));
        }
        let mask: u8 = if prefix == 4 { 15 } else if prefix == 5 { 31 } else if prefix == 6 { 63 } else { 127 };
        let mut value = (data[0] & mask) as usize;
        if value < mask as usize {
            return Some(Ok((value, 1)));
        }
        let mut m: usize = 0;
        let mut pos: usize = 1;
        loop
            invariant_except_break
                1 <= pos <= data@.len(),
                m < usize::BITS + 7,
                int_cont(data@, pos as nat, m as nat, value as nat) == int_spec(data@, prefix as nat),
            ensures
                int_spec(data@, prefix as nat) == (IntV::Got { value: value as nat, consumed: pos as nat }),
            decreases data@.len() - pos,
        {
            if pos >= data.len() {
                return Some(Err(String::from_str("Truncated integer")));
            }
            if m >= usize::BITS as usize {
                return None;
            }
            let byte = data[pos];
            let b = byte as usize;
            assert((b & 0x7f) == ((byte & 0x7f) as usize)) by (bit_vector)
                requires b == byte as usize;
            assert(b & 0x80 == 0 <==> byte & 0x80 == 0) by (bit_vector)
                requires b == byte as usize;
            let term = (b & 0x7f) << m;
            if value > usize::MAX - term {
                return None;
            }
            value = value + term;
            m = m + 7;
            pos = pos + 1;
            if b & 0x80 == 0 {
                break;
            }
        }
        Some(Ok((value, pos)))
    }

    /// Decodes an integer with an N-bit prefix (N = 4..7) at the start of `data`:
    /// its value and how many bytes it took.
    pub fn decode_integer(&self, data: &[u8], prefix: usize) -> (res: Result<(usize, usize), String>)
        requires
            4 <= prefix <= 7,
            !(int_spec(data@, prefix as nat) is Overflow),
        ensures
            match int_spec(data@, prefix as nat) {
                IntV::Got { value, consumed } => res matches Ok((v, c)) && v == value && c == consumed,
                IntV::Fail { msg } => res matches Err(e) && e@ == msg,
                IntV::Overflow => false,
            },
    {
        match self.integer_checked(data, prefix) {
            Some(r) => r,
            None => Err(String::new()),
        }
    }

    /// Decodes a string literal at the start of `data`, checking its size: `None`
    /// when its length does not fit in `usize`.
    fn string_checked(&self, data: &[u8]) -> (res: Option<Result<(String, usize), String>>)
        ensures
            match str_spec(data@) {
                StrV::Got { s, consumed } => res matches Some(Ok((t, c))) && t@ == s && c == consumed,
                StrV::Fail { msg } => res matches Some(Err(e)) && e@ == msg,
                StrV::Overflow => res is None,
            },
    {
        if data.len() == 0 {
            return Some(Err(String::from_str("Empty string data")));
        }
        let huffman = data[0] & 0x80 != 0;
        let (len, pos) = match self.integer_checked(data, 7) {
            Some(Ok(x)) => x,
            Some(Err(e)) => return Some(Err(e)),
            None => return None,
        };
        proof { lemma_int_bounds(data@, 7); }
        if len > usize::MAX - pos {
            return None;
        }
        if pos + len > data.len() {
            return Some(Err(String::from_str("String too long")));
        }
        let bytes = vstd::slice::slice_subrange(data, pos, pos + len);
        let s = if huffman {
            string_from_utf8_lossy(bytes)
        } else {
            string_from_utf8_lossy(bytes)
        };
        Some(Ok((s, pos + len)))
    }

    /// Decodes a string literal at the start of `data`: its text and how many bytes it took.
    pub fn decode_string(&self, data: &[u8]) -> (res: Result<(String, usize), String>)
        requires
            !(str_spec(data@) is Overflow),
        ensures
            match str_spec(data@) {
                StrV::Got { s, consumed } => res matches Ok((t, c)) && t@ == s && c == consumed,
                StrV::Fail { msg } => res matches Err(e) && e@ == msg,
                StrV::Overflow => false,
            },
    {
        match self.string_checked(data) {
            Some(r) => r,
            None => Err(String::new()),
        }
    }

    /// The header an index names: 1..=61 from the static table, then the dynamic table, newest first.
    pub fn get_indexed(&self, index: usize) -> (res: Result<(String, String), String>)
        ensures
            match get_spec(self@, index as nat) {
                PairV::Got { name, value } => res matches Ok((n, v)) && n@ == name && v@ == value,
                PairV::Fail { msg } => res matches Err(e) && e@ == msg,
            },
    {
        if index == 0 {
            return Err(String::from_str("Invalid index 0"));
        }
        if index <= STATIC_TABLE_LEN {
            let (name, value) = static_entry(index - 1);
            return Ok((name.to_owned(), value.to_owned()));
        }
        let dyn_index = index - STATIC_TABLE_LEN - 1;
        if dyn_index >= self.dynamic_table.len() {
            let mut msg = String::from_str("Invalid dynamic index ");
            push_decimal(&mut msg, dyn_index);
            return Err(msg);
        }
        let entry = &self.dynamic_table[dyn_index];
        Ok((entry.name.clone(), entry.value.clone()))
    }

    /// Adds (name, value) at the front of the dynamic table, evicting from the back as needed.
    pub fn add_entry(&mut self, name: String, value: String)
        requires
            old(self).wf(),
            !add_entry_overflows(old(self)@, name@, value@),
        ensures
            final(self).wf(),
            final(self)@ == add_entry_spec(old(self)@, name@, value@),
    {
        insert_entry(&mut self.dynamic_table, &mut self.current_size, self.max_size, name, value);
    }

    /// Sets a new size limit and evicts from the back until the table fits.
    pub fn resize(&mut self, new_size: usize)
        requires
            old(self).wf(),
        ensures
            final(self).wf(),
            final(self)@ == resize_spec(old(self)@, new_size as nat),
    {
        self.max_size = new_size;
        proof {
            lemma_shrink_fits(table_of(self.dynamic_table, self.max_size, self.current_size));
        }
        shrink_table(&mut self.dynamic_table, &mut self.current_size, self.max_size);
    }

    /// Decodes a literal header field like `decode_literal`, checking sizes: `None`
    /// (the table unchanged) when a length or the table size would not fit in `usize`.
    fn literal_checked(&mut self, data: &[u8], prefix: usize, index: bool) -> (res: Option<Result<(String, String, usize), String>>)
        requires
            old(self).wf(),
            4 <= prefix <= 7,
        ensures
            final(self).wf(),
            match lit_spec(old(self)@, data@, prefix as nat, index) {
                LitV::Got { name, value, consumed, table } => res matches Some(Ok((n, v, c)))
                    && n@ == name && v@ == value && c == consumed && final(self)@ == table,
                LitV::Fail { msg } => res matches Some(Err(e)) && e@ == msg && final(self)@ == old(self)@,
                LitV::Overflow => res is None && final(self)@ == old(self)@,
            },
    {
        proof {
            lemma_int_bounds(data@, prefix as nat);
        }
        let (name_index, mut pos) = match self.integer_checked(data, prefix) {
            Some(Ok(x)) => x,
            Some(Err(e)) => return Some(Err(e)),
            None => return None,
        };
        let name = if name_index == 0 {
            let rest = vstd::slice::slice_subrange(data, pos, data.len());
            assert(rest@ =~= data@.skip(pos as int));
            proof { lemma_str_bounds(rest@); }
            let (n, consumed) = match self.string_checked(rest) {
                Some(Ok(x)) => x,
                Some(Err(e)) => return Some(Err(e)),
                None => return None,
            };
            pos = pos + consumed;
            n
        } else {
            match self.get_indexed(name_index) {
                Ok((n, _)) => n,
                Err(e) => return Some(Err(e)),
            }
        };
        let rest = vstd::slice::slice_subrange(data, pos, data.len());
        assert(rest@ =~= data@.skip(pos as int));
        proof { lemma_str_bounds(rest@); }
        let (value, consumed) = match self.string_checked(rest) {
            Some(Ok(x)) => x,
            Some(Err(e)) => return Some(Err(e)),
            None => return None,
        };
        pos = pos + consumed;
        if index {
            if !entry_fits(self.current_size, &name, &value) {
                return None;
            }
            self.add_entry(name.clone(), value.clone());
        }
        Some(Ok((name, value, pos)))
    }

    /// Decodes a literal header field with an N-bit name-index prefix; with `index`
    /// the field is also added to the dynamic table.
    pub fn decode_literal(&mut self, data: &[u8], prefix: usize, index: bool) -> (res: Result<(String, String, usize), String>)
        requires
            old(self).wf(),
            4 <= prefix <= 7,
            !(lit_spec(old(self)@, data@, prefix as nat, index) is Overflow),
        ensures
            final(self).wf(),
            match lit_spec(old(self)@, data@, prefix as nat, index) {
                LitV::Got { name, value, consumed, table } => res matches Ok((n, v, c))
                    && n@ == name && v@ == value && c == consumed && final(self)@ == table,
                LitV::Fail { msg } => res matches Err(e) && e@ == msg && final(self)@ == old(self)@,
                LitV::Overflow => false,
            },
    {
        match self.literal_checked(data, prefix, index) {
            Some(r) => r,
            None => Err(String::new()),
        }
    }

    /// Decodes a header block like `decode`, checking sizes as it goes: `None`
    /// when an integer, a string length or the table size would not fit in
    /// `usize` (the fields before it have then already updated the table).
    pub fn decode_checked(&mut self, data: &[u8]) -> (res: Option<Result<Vec<(String, String)>, String>>)
        requires
            old(self).wf(),
        ensures
            final(self).wf(),
            match decode_spec(old(self)@, data@) {
                DecodeV::Done { result, table } => final(self)@ == table && match result {
                    Ok(hs) => res matches Some(Ok(v)) && headers_view(v@) == hs,
                    Err(m) => res matches Some(Err(e)) && e@ == m,
                },
                DecodeV::Overflow => res is None,
            },
    {
        let mut headers: Vec<(String, String)> = Vec::new();
        let mut pos: usize = 0;
        assert(headers_view(headers@) =~= Seq::<(Seq<char>, Seq<char>)>::empty());
        while pos < data.len()
            invariant
                self.wf(),
                pos <= data@.len(),
                decode_from(self@, data@, pos as nat, headers_view(headers@)) == decode_spec(old(self)@, data@),
            decreases data@.len() - pos,
        {
            let first = data[pos];
            let rest = vstd::slice::slice_subrange(data, pos, data.len());
            assert(rest@ =~= data@.skip(pos as int));
            let ghost t = self@;
            let ghost acc = headers_view(headers@);
            proof {
                lemma_int_bounds(rest@, 7);
                lemma_int_bounds(rest@, 5);
                lemma_lit_bounds(t, rest@, 6, true);
                lemma_lit_bounds(t, rest@, 4, false);
            }
            if first & 0x80 != 0 {
                let (index, consumed) = match self.integer_checked(rest, 7) {
                    Some(Ok(x)) => x,
                    Some(Err(e)) => return Some(Err(e)),
                    None => return None,
                };
                pos = pos + consumed;
                let (name, value) = match self.get_indexed(index) {
                    Ok(x) => x,
                    Err(e) => return Some(Err(e)),
                };
                headers.push((name, value));
                assert(headers_view(headers@) =~= acc.push((name@, value@)));
            } else if first & 0x40 != 0 {
                let (name, value, consumed) = match self.literal_checked(rest, 6, true) {
                    Some(Ok(x)) => x,
                    Some(Err(e)) => return Some(Err(e)),
                    None => return None,
                };
                pos = pos + consumed;
                headers.push((name, value));
                assert(headers_view(headers@) =~= acc.push((name@, value@)));
            } else if first & 0x20 != 0 {
                let (new_size, consumed) = match self.integer_checked(rest, 5) {
                    Some(Ok(x)) => x,
                    Some(Err(e)) => return Some(Err(e)),
                    None => return None,
                };
                pos = pos + consumed;
                self.resize(new_size);
            } else {
                let (name, value, consumed) = match self.literal_checked(rest, 4, false) {
                    Some(Ok(x)) => x,
                    Some(Err(e)) => return Some(Err(e)),
                    None => return None,
                };
                pos = pos + consumed;
                headers.push((name, value));
                assert(headers_view(headers@) =~= acc.push((name@, value@)));
            }
        }
        Some(Ok(headers))
    }

    /// Decodes a header block into its (name, value) list, updating the dynamic table
    /// as the block says; the first malformed field ends decoding with an error (what
    /// was added to the table before it stays).
    pub fn decode(&mut self, data: &[u8]) -> (res: Result<Vec<(String, String)>, String>)
        requires
            old(self).wf(),
            !(decode_spec(old(self)@, data@) is Overflow),
        ensures
            final(self).wf(),
            match decode_spec(old(self)@, data@) {
                DecodeV::Done { result, table } => final(self)@ == table && match result {
                    Ok(hs) => res matches Ok(v) && headers_view(v@) == hs,
                    Err(m) => res matches Err(e) && e@ == m,
                },
                DecodeV::Overflow => false,
            },
    {
        match self.decode_checked(data) {
            Some(r) => r,
            None => Err(String::new()),
        }
    }
}

/// A header list as the contracts see it.
pub open spec fn headers_view(v: Seq<(String, String)>) -> Seq<(Seq<char>, Seq<char>)> {
    v.map_values(|p: (String, String)| (p.0@, p.1@))
}

impl Default for HpackDecoder {
    /// A decoder with the protocol's default table size of 4096.
    fn default() -> (d: Self)
        ensures
            d.wf(),
            d@ == (TableV { entries: Seq::empty(), max_size: 4096, current_size: 0 }),
    {
        HpackDecoder::new(4096)
    }
}


/// The first static entry whose name is `name` (1-based index), and whether its value is `value` too.
pub open spec fn find_static_from(name: Seq<char>, value: Seq<char>, i: int) -> Option<(nat, bool)>
    decreases 61 - i,
{
    if i >= 61 || i < 0 {
        None
    } else if static_table(i).0@ == name {
        Some(((i + 1) as nat, static_table(i).1@ == value))
    } else {
        find_static_from(name, value, i + 1)
    }
}

proof fn lemma_find_static_range(name: Seq<char>, value: Seq<char>, i: int)
    ensures
        find_static_from(name, value, i) matches Some((k, _)) ==> 1 <= k <= 61,
    decreases 61 - i,
{
    if 0 <= i < 61 && static_table(i).0@ != name {
        lemma_find_static_range(name, value, i + 1);
    }
}

/// Static-table lookup of a header: the index of the first entry with its name,
/// and whether that entry's value matches as well.
pub open spec fn find_static_spec(name: Seq<char>, value: Seq<char>) -> Option<(nat, bool)> {
    find_static_from(name, value, 0)
}

/// Continuation bytes of an integer remainder: 7 bits at a time, low bits first,
/// the top bit set on all but the last.
pub open spec fn cont_bytes(r: nat) -> Seq<u8>
    decreases r,
{
    if r >= 128 {
        seq![((r % 128) + 128) as u8] + cont_bytes(r / 128)
    } else {
        seq![r as u8]
    }
}

/// An integer with an N-bit prefix, the prefix byte's other bits taken from `first`.
pub open spec fn int_bytes(value: nat, prefix: nat, first: u8) -> Seq<u8> {
    let maxp = prefix_max(prefix);
    if value < maxp {
        seq![first | (value as u8)]
    } else {
        seq![first | maxp] + cont_bytes((value - maxp) as nat)
    }
}

/// A string literal: its UTF-8 length (7-bit prefix, no Huffman) and its UTF-8 bytes.
pub open spec fn str_bytes(s: Seq<char>) -> Seq<u8> {
    int_bytes(utf8_len(s), 7, 0) + encode_utf8(s)
}

/// The bytes of one header: indexed when the static table holds name and value,
/// a literal with an indexed name when it holds the name, else a literal with a
/// literal name; literals are sent with incremental indexing.
pub open spec fn field_bytes(name: Seq<char>, value: Seq<char>) -> Seq<u8> {
    match find_static_spec(name, value) {
        Some((i, true)) => int_bytes(i, 7, 0x80),
        Some((i, false)) => int_bytes(i, 6, 0x40) + str_bytes(value),
        None => seq![0x40u8] + str_bytes(name) + str_bytes(value),
    }
}

/// Whether encoding the header adds it to the dynamic table.
pub open spec fn field_indexes(name: Seq<char>, value: Seq<char>) -> bool {
    !(find_static_spec(name, value) matches Some((_, true)))
}

/// The bytes of a header list.
pub open spec fn encode_bytes(h: Seq<(Seq<char>, Seq<char>)>) -> Seq<u8>
    decreases h.len(),
{
    if h.len() == 0 {
        Seq::empty()
    } else {
        encode_bytes(h.drop_last()) + field_bytes(h.last().0, h.last().1)
    }
}

/// The table after encoding a header list.
pub open spec fn encode_table(t: TableV, h: Seq<(Seq<char>, Seq<char>)>) -> TableV
    decreases h.len(),
{
    if h.len() == 0 {
        t
    } else {
        let t1 = encode_table(t, h.drop_last());
        if field_indexes(h.last().0, h.last().1) { add_entry_spec(t1, h.last().0, h.last().1) } else { t1 }
    }
}

/// Whether some table insertion along the header list overflows `usize`.
pub open spec fn encode_overflows(t: TableV, h: Seq<(Seq<char>, Seq<char>)>) -> bool
    decreases h.len(),
{
    if h.len() == 0 {
        false
    } else {
        encode_overflows(t, h.drop_last()) || (field_indexes(h.last().0, h.last().1)
            && add_entry_overflows(encode_table(t, h.drop_last()), h.last().0, h.last().1))
    }
}

/// HPACK encoder: turns header lists into header blocks, keeping its own dynamic table.
pub struct HpackEncoder {
    dynamic_table: VecDeque<DynamicEntry>,
    max_size: usize,
    current_size: usize,
}

impl HpackEncoder {
    /// The encoder's dynamic table.
    pub closed spec fn view(&self) -> TableV {
        table_of(self.dynamic_table, self.max_size, self.current_size)
    }

    /// The table's bookkeeping holds.
    pub closed spec fn wf(&self) -> bool {
        table_wf(self@)
    }

    /// The dynamic table's size is the sum of its entries' sizes and within its limit.
    pub proof fn law_table_within_limit(&self)
        requires
            self.wf(),
        ensures
            table_wf(self@),
            self@.current_size <= self@.max_size,
            self@.current_size == sum_sizes(self@.entries),
    {
    }

    /// An encoder with an empty dynamic table of the given size limit.
    pub fn new(max_size: usize) -> (e: Self)
        ensures
            e.wf(),
            e@ == (TableV { entries: Seq::empty(), max_size: max_size as nat, current_size: 0 }),
    {
        let e = HpackEncoder { dynamic_table: VecDeque::new(), max_size, current_size: 0 };
        assert(e@.entries =~= Seq::<EntryV>::empty());
        e
    }

    /// Looks a header up in the static table (see `find_static_spec`).
    pub fn find_static(&self, name: &str, value: &str) -> (res: Option<(usize, bool)>)
        ensures
            match find_static_spec(name@, value@) {
                Some((i, b)) => res == Some((i as usize, b)),
                None => res is None,
            },
    {
        let mut i: usize = 0;
        while i < STATIC_TABLE_LEN
            invariant
                i <= 61,
                find_static_from(name@, value@, i as int) == find_static_spec(name@, value@),
            decreases 61 - i,
        {
            let (n, v) = static_entry(i);
            if str_eq(n, name) {
                if str_eq(v, value) {
                    return Some((i + 1, true));
                }
                return Some((i + 1, false));
            }
            i = i + 1;
        }
        None
    }

    /// Appends an integer with an N-bit prefix (N = 6 or 7) to `buf`.
    pub fn encode_integer(&self, buf: &mut BytesMut, value: usize, prefix: usize, first_byte: u8)
        requires
            prefix == 6 || prefix == 7,
            bytes_mut_view(*old(buf)).len() + int_bytes(value as nat, prefix as nat, first_byte).len() <= usize::MAX,
        ensures
            bytes_mut_view(*final(buf)) == bytes_mut_view(*old(buf)) + int_bytes(value as nat, prefix as nat, first_byte),
    {
        let max_prefix: usize = if prefix == 6 { 63 } else { 127 };
        if value < max_prefix {
            bm_put_u8(buf, first_byte | value as u8);
        } else {
            bm_put_u8(buf, first_byte | max_prefix as u8);
            let mut remaining = value - max_prefix;
            let ghost r0 = remaining as nat;
            proof { lemma_cont_bytes_len(r0); }
            while remaining >= 128
                invariant
                    bytes_mut_view(*buf) + cont_bytes(remaining as nat)
                        == bytes_mut_view(*old(buf)) + int_bytes(value as nat, prefix as nat, first_byte),
                    bytes_mut_view(*old(buf)).len() + int_bytes(value as nat, prefix as nat, first_byte).len() <= usize::MAX,
                decreases remaining,
            {
                let ghost before = bytes_mut_view(*buf);
                let byte = #[verifier::truncate] ((remaining & 0x7f | 0x80) as u8);
                assert(byte == ((remaining as nat % 128) + 128) as u8 && remaining >> 7 == remaining / 128) by (bit_vector)
                    requires byte == (remaining & 0x7f | 0x80) as u8;
                proof { lemma_cont_bytes_len(remaining as nat); }
                assert(cont_bytes(remaining as nat) == seq![byte] + cont_bytes(remaining as nat / 128));
                proof { lemma_cont_bytes_len(remaining as nat / 128); }
                let ghost total = bytes_mut_view(*old(buf)) + int_bytes(value as nat, prefix as nat, first_byte);
                assert(before + cont_bytes(remaining as nat) == total);
                assert((before + cont_bytes(remaining as nat)).len() == before.len() + cont_bytes(remaining as nat).len());
                bm_put_u8(buf, byte);
                remaining = remaining >> 7;
                assert(bytes_mut_view(*buf) + cont_bytes(remaining as nat) =~= before + (seq![byte] + cont_bytes(remaining as nat)));
            }
            proof { lemma_cont_bytes_len(remaining as nat); }
            assert(cont_bytes(remaining as nat) == seq![remaining as u8]);
            assert(bytes_mut_view(*buf).len() + 1
                == bytes_mut_view(*old(buf)).len() + int_bytes(value as nat, prefix as nat, first_byte).len());
            bm_put_u8(buf, remaining as u8);
            assert(bytes_mut_view(*buf) =~= bytes_mut_view(*old(buf)) + int_bytes(value as nat, prefix as nat, first_byte));
        }
    }

    /// Appends a string literal (length, then UTF-8 bytes; no Huffman coding) to `buf`.
    pub fn encode_string(&self, buf: &mut BytesMut, s: &str)
        requires
            bytes_mut_view(*old(buf)).len() + str_bytes(s@).len() <= usize::MAX,
        ensures
            bytes_mut_view(*final(buf)) == bytes_mut_view(*old(buf)) + str_bytes(s@),
    {
        let bytes = s.as_bytes();
        self.encode_integer(buf, bytes.len(), 7, 0);
        bm_extend(buf, bytes);
        assert(bytes_mut_view(*buf) =~= bytes_mut_view(*old(buf)) + str_bytes(s@));
    }

    /// Adds (name, value) at the front of the encoder's dynamic table, evicting from the back as needed.
    pub fn add_entry(&mut self, name: String, value: String)
        requires
            old(self).wf(),
            !add_entry_overflows(old(self)@, name@, value@),
        ensures
            final(self).wf(),
            final(self)@ == add_entry_spec(old(self)@, name@, value@),
    {
        insert_entry(&mut self.dynamic_table, &mut self.current_size, self.max_size, name, value);
    }

    /// Encodes a header list into a header block (see `field_bytes`); literal fields
    /// are added to the encoder's dynamic table.
    pub fn encode(&mut self, headers: &[(String, String)]) -> (res: Bytes)
        requires
            old(self).wf(),
            !encode_overflows(old(self)@, headers_view(headers@)),
            encode_bytes(headers_view(headers@)).len() <= usize::MAX,
        ensures
            final(self).wf(),
            bytes_view(res) == encode_bytes(headers_view(headers@)),
            final(self)@ == encode_table(old(self)@, headers_view(headers@)),
    {
        let ghost hv = headers_view(headers@);
        let mut buf = bm_new();
        let mut i: usize = 0;
        assert(hv.take(0) =~= Seq::<(Seq<char>, Seq<char>)>::empty());
        while i < headers.len()
            invariant
                i <= headers@.len(),
                hv == headers_view(headers@),
                self.wf(),
                bytes_mut_view(buf) == encode_bytes(hv.take(i as int)),
                self@ == encode_table(old(self)@, hv.take(i as int)),
                !encode_overflows(old(self)@, hv),
                encode_bytes(hv).len() <= usize::MAX,
            decreases headers.len() - i,
        {
            let ghost before = bytes_mut_view(buf);
            let ghost h1 = hv.take(i + 1);
            proof {
                lemma_encode_prefix(old(self)@, hv, i + 1);
                assert(h1.drop_last() =~= hv.take(i as int));
                assert(h1.last() == hv[i as int]);
            }
            let name = &headers[i].0;
            let value = &headers[i].1;
            assert(hv[i as int] == (name@, value@));
            assert(encode_bytes(h1) == before + field_bytes(name@, value@));
            assert(encode_bytes(h1).len() <= usize::MAX);
            proof { lemma_find_static_range(name@, value@, 0); }
            match self.find_static(name.as_str(), value.as_str()) {
                Some((index, has_value)) => {
                    if has_value {
                        self.encode_integer(&mut buf, index, 7, 0x80);
                    } else {
                        self.encode_integer(&mut buf, index, 6, 0x40);
                        self.encode_string(&mut buf, value.as_str());
                        self.add_entry(name.clone(), value.clone());
                    }
                },
                None => {
                    bm_put_u8(&mut buf, 0x40);
                    self.encode_string(&mut buf, name.as_str());
                    self.encode_string(&mut buf, value.as_str());
                    self.add_entry(name.clone(), value.clone());
                },
            }
            assert(bytes_mut_view(buf) =~= encode_bytes(h1));
            i = i + 1;
        }
        assert(hv.take(i as int) =~= hv);
        bm_freeze(buf)
    }
}

proof fn lemma_encode_prefix(t: TableV, h: Seq<(Seq<char>, Seq<char>)>, k: int)
    requires
        0 <= k <= h.len(),
    ensures
        encode_bytes(h.take(k)).len() <= encode_bytes(h).len(),
        !encode_overflows(t, h) ==> !encode_overflows(t, h.take(k)),
    decreases h.len(),
{
    if k == h.len() {
        assert(h.take(k) =~= h);
    } else {
        lemma_encode_prefix(t, h.drop_last(), k);
        assert(h.drop_last().take(k) =~= h.take(k));
    }
}

proof fn lemma_cont_bytes_len(r: nat)
    ensures
        cont_bytes(r).len() >= 1,
    decreases r,
{
    if r >= 128 {
        lemma_cont_bytes_len(r / 128);
    }
}

} // verus!
