//! Verified textual encodings of numbers: lowercase hexadecimal for
//! digests and token fields, and decimal for display labels.

use vstd::prelude::*;

verus! {

/// The sixteen lowercase hexadecimal digit characters, in value order.
pub open spec fn hex_char_of(n: int) -> char
    recommends
        0 <= n < 16,
{
    seq!['0', '1', '2', '3', '4', '5', '6', '7', '8', '9', 'a', 'b', 'c', 'd', 'e', 'f'][n]
}

/// Value of one hexadecimal digit character, `None` for any other char.
pub open spec fn spec_hex_nibble(c: char) -> Option<u8> {
    if c == '0' {
        Some(0u8)
    } else if c == '1' {
        Some(1u8)
    } else if c == '2' {
        Some(2u8)
    } else if c == '3' {
        Some(3u8)
    } else if c == '4' {
        Some(4u8)
    } else if c == '5' {
        Some(5u8)
    } else if c == '6' {
        Some(6u8)
    } else if c == '7' {
        Some(7u8)
    } else if c == '8' {
        Some(8u8)
    } else if c == '9' {
        Some(9u8)
    } else if c == 'a' {
        Some(10u8)
    } else if c == 'b' {
        Some(11u8)
    } else if c == 'c' {
        Some(12u8)
    } else if c == 'd' {
        Some(13u8)
    } else if c == 'e' {
        Some(14u8)
    } else if c == 'f' {
        Some(15u8)
    } else {
        None
    }
}

pub proof fn lemma_hex_char_nibble(v: int)
    requires
        0 <= v < 16,
    ensures
        spec_hex_nibble(hex_char_of(v)) == Some(v as u8),
{
}

/// Lowercase hexadecimal encoding of a byte sequence, two digits per
/// byte, high nibble first.
pub open spec fn hex_of(bytes: Seq<u8>) -> Seq<char>
    decreases bytes.len(),
{
    if bytes.len() == 0 {
        Seq::<char>::empty()
    } else {
        hex_of(bytes.drop_last()) + seq![
            hex_char_of(bytes.last() as int / 16),
            hex_char_of(bytes.last() as int % 16),
        ]
    }
}

pub proof fn lemma_hex_of_len(bytes: Seq<u8>)
    ensures
        hex_of(bytes).len() == 2 * bytes.len(),
    decreases bytes.len(),
{
    if bytes.len() > 0 {
        lemma_hex_of_len(bytes.drop_last());
    }
}

/// Fixed-width hexadecimal rendering of the low `digits` hex digits of
/// `n`, most significant first.
pub open spec fn hex_fixed(n: nat, digits: nat) -> Seq<char>
    decreases digits,
{
    if digits == 0 {
        Seq::<char>::empty()
    } else {
        hex_fixed(n / 16, (digits - 1) as nat).push(hex_char_of(n as int % 16))
    }
}

/// Sixteen to the power `d`.
pub open spec fn p16(d: nat) -> nat
    decreases d,
{
    if d == 0 {
        1
    } else {
        16 * p16((d - 1) as nat)
    }
}

/// Whether every character of `s` is a lowercase hexadecimal digit.
pub open spec fn is_hex_seq(s: Seq<char>) -> bool {
    forall|i: int| 0 <= i < s.len() ==> #[trigger] spec_hex_nibble(s[i]) is Some
}

/// Numeric value of a hexadecimal digit string, most significant first.
pub open spec fn parse_hex(s: Seq<char>) -> nat
    decreases s.len(),
{
    if s.len() == 0 {
        0
    } else {
        parse_hex(s.drop_last()) * 16 + spec_hex_nibble(s.last()).unwrap_or(0u8) as nat
    }
}

pub proof fn lemma_parse_hex_bound(s: Seq<char>)
    ensures
        parse_hex(s) < p16(s.len()),
    decreases s.len(),
{
    if s.len() == 0 {
    } else {
        lemma_parse_hex_bound(s.drop_last());
        assert(parse_hex(s.drop_last()) <= p16((s.len() - 1) as nat) - 1);
        assert(spec_hex_nibble(s.last()).unwrap_or(0u8) < 16);
    }
}

pub proof fn lemma_p16_16()
    ensures
        p16(16) == 0x1_0000_0000_0000_0000,
{
    reveal_with_fuel(p16, 17);
}

/// Rendering `n` to `d` hex digits and parsing the digits back yields
/// `n` modulo sixteen to the `d`.
pub proof fn lemma_hex_fixed_parse(n: nat, d: nat)
    ensures
        hex_fixed(n, d).len() == d,
        is_hex_seq(hex_fixed(n, d)),
        parse_hex(hex_fixed(n, d)) == n % p16(d),
    decreases d,
{
    if d == 0 {
        assert(n % 1nat == 0);
    } else {
        let rest = hex_fixed(n / 16, (d - 1) as nat);
        lemma_hex_fixed_parse(n / 16, (d - 1) as nat);
        let s = hex_fixed(n, d);
        assert(s == rest.push(hex_char_of(n as int % 16)));
        assert(s.drop_last() =~= rest);
        assert(s.last() == hex_char_of(n as int % 16));
        lemma_hex_char_nibble(n as int % 16);
        assert forall|i: int| 0 <= i < s.len() implies #[trigger] spec_hex_nibble(s[i]) is Some by {
            if i < s.len() - 1 {
                assert(s[i] == rest[i]);
            }
        }
        assert(parse_hex(s) == ((n / 16) % p16((d - 1) as nat)) * 16 + n % 16);
        lemma_p16_pos((d - 1) as nat);
        vstd::arithmetic::div_mod::lemma_breakdown(n as int, 16, p16((d - 1) as nat) as int);
        assert(n as int % (16 * p16((d - 1) as nat) as int) == 16 * ((n as int / 16) % p16(
            (d - 1) as nat,
        ) as int) + n as int % 16);
    }
}

/// Renders the low `digits` hexadecimal digits of `n`, most significant
/// first, in lowercase.
pub fn u64_to_hex_fixed(n: u64, digits: usize) -> (r: String)
    ensures
        r@ == hex_fixed(n as nat, digits as nat),
    decreases digits,
{
    proof {
        reveal_strlit("0123456789abcdef");
    }
    let table = "0123456789abcdef";
    assert(table@ =~= seq![
        '0',
        '1',
        '2',
        '3',
        '4',
        '5',
        '6',
        '7',
        '8',
        '9',
        'a',
        'b',
        'c',
        'd',
        'e',
        'f',
    ]);
    if digits == 0 {
        let r = String::new();
        assert(r@ =~= hex_fixed(n as nat, 0));
        r
    } else {
        let rest = u64_to_hex_fixed(n / 16, digits - 1);
        let d = (n % 16) as usize;
        let digit = table.substring_char(d, d + 1);
        assert(digit@ =~= seq![hex_char_of(n as int % 16)]);
        let r = rest.concat(digit);
        assert(r@ =~= hex_fixed(n as nat, digits as nat));
        r
    }
}

/// Value of one hexadecimal digit character, `None` for any other.
pub fn hex_nibble(c: char) -> (r: Option<u8>)
    ensures
        r == spec_hex_nibble(c),
{
    match c {
        '0' => Some(0),
        '1' => Some(1),
        '2' => Some(2),
        '3' => Some(3),
        '4' => Some(4),
        '5' => Some(5),
        '6' => Some(6),
        '7' => Some(7),
        '8' => Some(8),
        '9' => Some(9),
        'a' => Some(10),
        'b' => Some(11),
        'c' => Some(12),
        'd' => Some(13),
        'e' => Some(14),
        'f' => Some(15),
        _ => None,
    }
}

/// Parses exactly sixteen hexadecimal characters of `s`, starting at
/// character index `start`, as a big-endian 64-bit value.
pub fn parse_hex16(s: &str, start: usize) -> (r: Option<u64>)
    requires
        start + 16 <= s@.len(),
        s@.len() <= usize::MAX,
    ensures
        match r {
            Some(v) => {
                &&& is_hex_seq(s@.subrange(start as int, start + 16))
                &&& v as nat == parse_hex(s@.subrange(start as int, start + 16))
            },
            None => !is_hex_seq(s@.subrange(start as int, start + 16)),
        },
{
    let ghost whole = s@.subrange(start as int, start + 16);
    let mut acc: u64 = 0;
    let mut i: usize = 0;
    while i < 16
        invariant
            start + 16 <= s@.len(),
            s@.len() <= usize::MAX,
            0 <= i <= 16,
            whole == s@.subrange(start as int, start + 16),
            is_hex_seq(whole.subrange(0, i as int)),
            acc as nat == parse_hex(whole.subrange(0, i as int)),
            (acc as nat) < p16(i as nat),
        decreases 16 - i,
    {
        let c = s.get_char(start + i);
        assert(c == whole[i as int]);
        let nib = match hex_nibble(c) {
            Some(v) => v,
            None => {
                assert(!is_hex_seq(whole)) by {
                    assert(spec_hex_nibble(whole[i as int]) is None);
                }
                return None;
            },
        };
        proof {
            assert(p16((i + 1) as nat) == 16 * p16(i as nat));
            lemma_p16_le((i + 1) as nat, 16);
            lemma_p16_16();
            assert((acc as nat) * 16 + (nib as nat) < p16((i + 1) as nat));
        }
        let new_acc = acc * 16 + nib as u64;
        proof {
            let pre = whole.subrange(0, i as int);
            let post = whole.subrange(0, i + 1 as int);
            assert(post.drop_last() =~= pre);
            assert(post.last() == whole[i as int]);
            assert(new_acc as nat == parse_hex(post));
            assert forall|j: int| 0 <= j < post.len() implies #[trigger] spec_hex_nibble(
                post[j],
            ) is Some by {
                if j < i {
                    assert(post[j] == pre[j]);
                }
            }
        }
        acc = new_acc;
        i += 1;
    }
    assert(whole.subrange(0, 16) =~= whole);
    Some(acc)
}

/// Sixteen to a smaller power is at most sixteen to a larger power.
pub proof fn lemma_p16_le(a: nat, b: nat)
    requires
        a <= b,
    ensures
        p16(a) <= p16(b),
    decreases b,
{
    if a < b {
        lemma_p16_le(a, (b - 1) as nat);
        assert(p16(b) == 16 * p16((b - 1) as nat));
        lemma_p16_pos((b - 1) as nat);
    }
}

pub proof fn lemma_p16_pos(d: nat)
    ensures
        p16(d) >= 1,
    decreases d,
{
    if d > 0 {
        lemma_p16_pos((d - 1) as nat);
    }
}

/// Decimal digit character for a value below ten.
pub open spec fn dec_char_of(n: int) -> char
    recommends
        0 <= n < 10,
{
    seq!['0', '1', '2', '3', '4', '5', '6', '7', '8', '9'][n]
}

/// Decimal rendering of `n`, most significant digit first, with no
/// leading zeros (a single `'0'` for zero).
pub open spec fn dec_str(n: nat) -> Seq<char>
    decreases n,
{
    if n < 10 {
        seq![dec_char_of(n as int)]
    } else {
        dec_str(n / 10) + seq![dec_char_of(n as int % 10)]
    }
}

/// Renders `n` in decimal, without leading zeros.
pub fn u64_to_dec(n: u64) -> (r: String)
    ensures
        r@ == dec_str(n as nat),
    decreases n,
{
    proof {
        reveal_strlit("0123456789");
    }
    let table = "0123456789";
    assert(table@ =~= seq!['0', '1', '2', '3', '4', '5', '6', '7', '8', '9']);
    if n < 10 {
        let d = n as usize;
        let digit = table.substring_char(d, d + 1);
        assert(digit@ =~= seq![dec_char_of(n as int)]);
        digit.to_owned()
    } else {
        let rest = u64_to_dec(n / 10);
        let d = (n % 10) as usize;
        let digit = table.substring_char(d, d + 1);
        assert(digit@ =~= seq![dec_char_of(n as int % 10)]);
        let r = rest.concat(digit);
        assert(r@ =~= dec_str(n as nat));
        r
    }
}

} // verus!
