//! Identifiers of URN shape numbered by a counter: `urn:uuid:`, the high eight
//! hexadecimal digits of the counter, `-0000-4000-8000-0000`, and its low eight digits.
//! Distinct counters give distinct identifiers, which is what a registry needs when it
//! must find an identifier that none of its entries holds yet.
use crate::rpc::{is_lower_hex, is_v4_urn};
use vstd::prelude::*;
use vstd::utf8::*;

verus! {

/// The lower-case hexadecimal digit of `d`, for `d` in `0..16`.
pub open spec fn hex_char(d: int) -> char {
    if d < 10 {
        (48 + d) as char
    } else {
        (87 + d) as char
    }
}

/// The `i`-th hexadecimal digit of `j`, counted from the most significant one.
pub open spec fn nibble(j: u64, i: int) -> u64 {
    (j >> ((60 - 4 * i) as u64)) & 15u64
}

/// The character at position `p` of the identifier numbered `j`.
pub open spec fn counter_char(j: u64, p: int) -> char {
    if p == 0 || p == 4 || p == 5 {
        'u'
    } else if p == 1 {
        'r'
    } else if p == 2 {
        'n'
    } else if p == 3 || p == 8 {
        ':'
    } else if p == 6 {
        'i'
    } else if p == 7 {
        'd'
    } else if 9 <= p < 17 {
        hex_char(nibble(j, p - 9) as int)
    } else if p == 17 || p == 22 || p == 27 || p == 32 {
        '-'
    } else if p == 23 {
        '4'
    } else if p == 28 {
        '8'
    } else if 37 <= p < 45 {
        hex_char(nibble(j, p - 29) as int)
    } else {
        '0'
    }
}

/// The identifier numbered `j`.
pub open spec fn counter_urn(j: u64) -> Seq<char> {
    Seq::new(45, |p: int| counter_char(j, p))
}

proof fn lemma_nibble_bound(j: u64, s: u64)
    ensures
        (j >> s) & 15u64 < 16,
{
    assert((j >> s) & 15u64 < 16) by (bit_vector);
}

proof fn lemma_hex_char(d: int)
    requires
        0 <= d < 16,
    ensures
        is_lower_hex(hex_char(d)),
        hex_char(d) != '-',
        (hex_char(d) as u8) as int == if d < 10 { 48 + d } else { 87 + d },
{
}

proof fn lemma_hex_char_injective(x: int, y: int)
    requires
        0 <= x < 16,
        0 <= y < 16,
        hex_char(x) == hex_char(y),
    ensures
        x == y,
{
}

/// Every numbered identifier has the shape of a version-4 URN.
pub proof fn lemma_counter_urn_shape(j: u64)
    ensures
        is_v4_urn(counter_urn(j)),
        is_ascii_chars(counter_urn(j)),
{
    let s = counter_urn(j);
    assert forall|p: int| 0 <= p < 45 implies is_lower_hex(#[trigger] s[p]) || s[p] == '-'
        || p < 9 by {
        if 9 <= p < 17 {
            lemma_nibble_bound(j, (60 - 4 * (p - 9)) as u64);
            lemma_hex_char(nibble(j, p - 9) as int);
        } else if 37 <= p < 45 {
            lemma_nibble_bound(j, (60 - 4 * (p - 29)) as u64);
            lemma_hex_char(nibble(j, p - 29) as int);
        }
    }
    assert forall|p: int| 9 <= p < 45 implies if p == 17 || p == 22 || p == 27 || p == 32 {
        #[trigger] s[p] == '-'
    } else {
        is_lower_hex(s[p])
    } by {
        if 9 <= p < 17 {
            lemma_nibble_bound(j, (60 - 4 * (p - 9)) as u64);
            lemma_hex_char(nibble(j, p - 9) as int);
        } else if 37 <= p < 45 {
            lemma_nibble_bound(j, (60 - 4 * (p - 29)) as u64);
            lemma_hex_char(nibble(j, p - 29) as int);
        }
    }
    assert forall|p: int| 0 <= p < s.len() implies '\0' <= #[trigger] s[p] <= '\u{7f}' by {
        if 9 <= p < 17 {
            lemma_nibble_bound(j, (60 - 4 * (p - 9)) as u64);
            lemma_hex_char(nibble(j, p - 9) as int);
        } else if 37 <= p < 45 {
            lemma_nibble_bound(j, (60 - 4 * (p - 29)) as u64);
            lemma_hex_char(nibble(j, p - 29) as int);
        }
    }
}

/// Distinct counters give distinct identifiers.
pub proof fn lemma_counter_urn_injective(a: u64, b: u64)
    requires
        counter_urn(a) == counter_urn(b),
    ensures
        a == b,
{
    let sa = counter_urn(a);
    let sb = counter_urn(b);
    assert forall|i: int| 0 <= i < 16 implies nibble(a, i) == nibble(b, i) by {
        let p = if i < 8 { 9 + i } else { 29 + i };
        assert(sa[p] == sb[p]);
        lemma_nibble_bound(a, (60 - 4 * i) as u64);
        lemma_nibble_bound(b, (60 - 4 * i) as u64);
        lemma_hex_char_injective(nibble(a, i) as int, nibble(b, i) as int);
    }
    assert(nibble(a, 0) == nibble(b, 0));
    assert(nibble(a, 1) == nibble(b, 1));
    assert(nibble(a, 2) == nibble(b, 2));
    assert(nibble(a, 3) == nibble(b, 3));
    assert(nibble(a, 4) == nibble(b, 4));
    assert(nibble(a, 5) == nibble(b, 5));
    assert(nibble(a, 6) == nibble(b, 6));
    assert(nibble(a, 7) == nibble(b, 7));
    assert(nibble(a, 8) == nibble(b, 8));
    assert(nibble(a, 9) == nibble(b, 9));
    assert(nibble(a, 10) == nibble(b, 10));
    assert(nibble(a, 11) == nibble(b, 11));
    assert(nibble(a, 12) == nibble(b, 12));
    assert(nibble(a, 13) == nibble(b, 13));
    assert(nibble(a, 14) == nibble(b, 14));
    assert(nibble(a, 15) == nibble(b, 15));
    assert(a == b) by (bit_vector)
        requires
            (a >> 60u64) & 15u64 == (b >> 60u64) & 15u64,
            (a >> 56u64) & 15u64 == (b >> 56u64) & 15u64,
            (a >> 52u64) & 15u64 == (b >> 52u64) & 15u64,
            (a >> 48u64) & 15u64 == (b >> 48u64) & 15u64,
            (a >> 44u64) & 15u64 == (b >> 44u64) & 15u64,
            (a >> 40u64) & 15u64 == (b >> 40u64) & 15u64,
            (a >> 36u64) & 15u64 == (b >> 36u64) & 15u64,
            (a >> 32u64) & 15u64 == (b >> 32u64) & 15u64,
            (a >> 28u64) & 15u64 == (b >> 28u64) & 15u64,
            (a >> 24u64) & 15u64 == (b >> 24u64) & 15u64,
            (a >> 20u64) & 15u64 == (b >> 20u64) & 15u64,
            (a >> 16u64) & 15u64 == (b >> 16u64) & 15u64,
            (a >> 12u64) & 15u64 == (b >> 12u64) & 15u64,
            (a >> 8u64) & 15u64 == (b >> 8u64) & 15u64,
            (a >> 4u64) & 15u64 == (b >> 4u64) & 15u64,
            (a >> 0u64) & 15u64 == (b >> 0u64) & 15u64,
    ;
}

/// The byte of the hexadecimal digit `i` of `j`.
fn hex_byte(j: u64, i: u64) -> (r: u8)
    requires
        i < 16,
    ensures
        r == hex_char(nibble(j, i as int) as int) as u8,
{
    let d: u64 = (j >> (60 - 4 * i)) & 15;
    proof {
        lemma_nibble_bound(j, (60 - 4 * i) as u64);
        lemma_hex_char(d as int);
    }
    let d8: u8 = d as u8;
    if d8 < 10 {
        48 + d8
    } else {
        87 + d8
    }
}

/// The byte at position `p` of the identifier numbered `j`.
fn counter_byte(j: u64, p: usize) -> (r: u8)
    requires
        p < 45,
    ensures
        r == counter_char(j, p as int) as u8,
{
    if p == 0 || p == 4 || p == 5 {
        117
    } else if p == 1 {
        114
    } else if p == 2 {
        110
    } else if p == 3 || p == 8 {
        58
    } else if p == 6 {
        105
    } else if p == 7 {
        100
    } else if 9 <= p && p < 17 {
        hex_byte(j, (p - 9) as u64)
    } else if p == 17 || p == 22 || p == 27 || p == 32 {
        45
    } else if p == 23 {
        52
    } else if p == 28 {
        56
    } else if 37 <= p && p < 45 {
        hex_byte(j, (p - 29) as u64)
    } else {
        48
    }
}

/// The identifier numbered `j`, as a string.
pub fn counter_urn_string(j: u64) -> (r: String)
    ensures
        r@ == counter_urn(j),
{
    let ghost cs = counter_urn(j);
    let mut b: Vec<u8> = Vec::new();
    let mut p: usize = 0;
    while p < 45
        invariant
            p <= 45,
            b@.len() == p,
            cs == counter_urn(j),
            forall|q: int| 0 <= q < p ==> #[trigger] b@[q] == cs[q] as u8,
        decreases 45 - p,
    {
        let c = counter_byte(j, p);
        b.push(c);
        p = p + 1;
    }
    proof {
        lemma_counter_urn_shape(j);
        is_ascii_chars_encode_utf8(cs);
        assert(encode_utf8(cs) =~= b@);
        encode_utf8_valid_utf8(cs);
    }
    let s = crate::args::str_from_utf8(b.as_slice()).unwrap();
    proof {
        encode_utf8_decode_utf8(s@);
        encode_utf8_decode_utf8(cs);
    }
    s.to_owned()
}

} // verus!
