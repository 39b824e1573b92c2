//! Names of data and hint files: the file id in decimal, padded with zeros
//! to at least eight digits, and the extension `.data` or `.hint`.
use crate::text::{digit_char, empty_string, push_char, push_decimal, spec_decimal};
use vstd::prelude::*;
use vstd::string::StringSliceAdditionalSpecFns;

verus! {

/// `n` in decimal, padded with zeros on the left to at least eight digits.
pub open spec fn spec_padded_id(n: nat) -> Seq<char> {
    let d = spec_decimal(n);
    if d.len() < 8 {
        Seq::new((8 - d.len()) as nat, |i: int| '0') + d
    } else {
        d
    }
}

/// The name of the data file with id `id`, such as `00000001.data`.
pub open spec fn spec_data_file_name(id: u32) -> Seq<char> {
    spec_padded_id(id as nat) + seq!['.', 'd', 'a', 't', 'a']
}

/// The name of the hint file with id `id`, such as `00000001.hint`.
pub open spec fn spec_hint_file_name(id: u32) -> Seq<char> {
    spec_padded_id(id as nat) + seq!['.', 'h', 'i', 'n', 't']
}

/// Ten to the power `k`.
pub open spec fn pow10(k: nat) -> nat
    decreases k,
{
    if k == 0 {
        1
    } else {
        10 * pow10((k - 1) as nat)
    }
}

/// A number below `10^k` has at most `k` decimal digits.
proof fn lemma_decimal_len_below_pow(n: nat, k: nat)
    requires
        k >= 1,
        n < pow10(k),
    ensures
        spec_decimal(n).len() <= k,
    decreases n,
{
    if n >= 10 {
        let p = pow10((k - 1) as nat);
        assert(k >= 2) by {
            if k == 1 {
                assert(pow10(1) == 10 * pow10(0));
            }
        }
        assert(n / 10 < p) by (nonlinear_arith)
            requires
                n < 10 * p,
        ;
        lemma_decimal_len_below_pow(n / 10, (k - 1) as nat);
    }
}

/// The number of decimal digits of `n`.
pub fn decimal_len(n: u64) -> (len: usize)
    ensures
        len == spec_decimal(n as nat).len(),
{
    proof {
        assert(pow10(20) == 100000000000000000000) by {
            reveal_with_fuel(pow10, 21);
        }
        lemma_decimal_len_below_pow(n as nat, 20);
    }
    let mut m = n;
    let mut len: usize = 1;
    while m >= 10
        invariant
            1 <= len,
            len + spec_decimal(m as nat).len() == spec_decimal(n as nat).len() + 1,
            spec_decimal(n as nat).len() <= 20,
        decreases m,
    {
        proof {
            assert(spec_decimal(m as nat) == spec_decimal((m / 10) as nat).push(digit_char((m % 10) as nat)));
            assert(spec_decimal((m / 10) as nat).len() >= 1) by {
                lemma_decimal_nonempty((m / 10) as nat);
            }
        }
        m = m / 10;
        len = len + 1;
    }
    len
}

proof fn lemma_decimal_nonempty(n: nat)
    ensures
        spec_decimal(n).len() >= 1,
    decreases n,
{
    if n >= 10 {
        lemma_decimal_nonempty(n / 10);
    }
}

fn push_padded_id(s: &mut String, id: u32)
    ensures
        final(s)@ == old(s)@ + spec_padded_id(id as nat),
{
    let len = decimal_len(id as u64);
    let ghost start = s@;
    if len < 8 {
        let mut k: usize = 0;
        while k < 8 - len
            invariant
                len < 8,
                k <= 8 - len,
                s@ == start + Seq::new(k as nat, |i: int| '0'),
            decreases 8 - len - k,
        {
            push_char(s, '0');
            k = k + 1;
            proof {
                assert(s@ =~= start + Seq::new(k as nat, |i: int| '0'));
            }
        }
    }
    push_decimal(s, id as u64);
    proof {
        assert(s@ =~= start + spec_padded_id(id as nat));
    }
}

/// The name of the data file with id `id`, such as `00000001.data`.
pub fn data_file_name(id: u32) -> (name: String)
    ensures
        name@ == spec_data_file_name(id),
{
    let mut s = empty_string();
    push_padded_id(&mut s, id);
    push_char(&mut s, '.');
    push_char(&mut s, 'd');
    push_char(&mut s, 'a');
    push_char(&mut s, 't');
    push_char(&mut s, 'a');
    proof {
        assert(s@ =~= spec_data_file_name(id));
    }
    s
}

/// The name of the hint file with id `id`, such as `00000001.hint`.
pub fn hint_file_name(id: u32) -> (name: String)
    ensures
        name@ == spec_hint_file_name(id),
{
    let mut s = empty_string();
    push_padded_id(&mut s, id);
    push_char(&mut s, '.');
    push_char(&mut s, 'h');
    push_char(&mut s, 'i');
    push_char(&mut s, 'n');
    push_char(&mut s, 't');
    proof {
        assert(s@ =~= spec_hint_file_name(id));
    }
    s
}

// ---- parsing ----------------------------------------------------------------
/// Whether a byte is an ASCII decimal digit.
pub open spec fn is_digit_byte(b: u8) -> bool {
    48 <= b <= 57
}

/// The number that a string of ASCII digits spells.
pub open spec fn digits_value(b: Seq<u8>) -> nat
    decreases b.len(),
{
    if b.len() == 0 {
        0
    } else {
        digits_value(b.drop_last()) * 10 + (b.last() - 48) as nat
    }
}

/// Whether every byte is an ASCII decimal digit.
pub open spec fn all_digits(d: Seq<u8>) -> bool {
    forall|i: int| 0 <= i < d.len() ==> is_digit_byte(#[trigger] d[i])
}

/// How `u32`'s `FromStr` reads bytes: an optional `+`, then one or more
/// ASCII digits whose value fits in a `u32`.
pub open spec fn spec_parse_u32(b: Seq<u8>) -> Option<u32> {
    let d = if b.len() > 0 && b[0] == 43 {
        b.drop_first()
    } else {
        b
    };
    if d.len() == 0 {
        None
    } else if !all_digits(d) {
        None
    } else if digits_value(d) > u32::MAX {
        None
    } else {
        Some(digits_value(d) as u32)
    }
}

/// The bytes of `.data`.
pub open spec fn data_suffix() -> Seq<u8> {
    seq![46u8, 100u8, 97u8, 116u8, 97u8]
}

/// The id a file name stands for: names ending in `.data` whose stem reads
/// as a `u32`.
pub open spec fn spec_parse_data_file_id(name: Seq<u8>) -> Option<u32> {
    if name.len() < 5 || name.subrange(name.len() - 5, name.len() as int) != data_suffix() {
        None
    } else {
        spec_parse_u32(name.subrange(0, name.len() - 5))
    }
}

proof fn lemma_digits_value_prefix_le(d: Seq<u8>, k: int)
    requires
        0 <= k <= d.len(),
        forall|i: int| 0 <= i < d.len() ==> is_digit_byte(#[trigger] d[i]),
    ensures
        digits_value(d.subrange(0, k)) <= digits_value(d),
    decreases d.len() - k,
{
    if k < d.len() {
        lemma_digits_value_prefix_le(d, k + 1);
        let p = d.subrange(0, k + 1);
        assert(p.drop_last() =~= d.subrange(0, k));
    } else {
        assert(d.subrange(0, k) =~= d);
    }
}

/// Reads a decimal `u32` as `u32`'s `FromStr` does.
fn parse_u32_bytes(b: &[u8]) -> (r: Option<u32>)
    ensures
        r == spec_parse_u32(b@),
{
    let n = b.len();
    let start: usize = if n > 0 && b[0] == 43u8 {
        1
    } else {
        0
    };
    let ghost d = if b@.len() > 0 && b@[0] == 43 {
        b@.drop_first()
    } else {
        b@
    };
    proof {
        assert(d =~= b@.subrange(start as int, n as int));
    }
    if start == n {
        return None;
    }
    let mut value: u64 = 0;
    let mut i: usize = start;
    while i < n
        invariant
            start <= i <= n,
            n == b@.len(),
            d == b@.subrange(start as int, n as int),
            value == digits_value(b@.subrange(start as int, i as int)),
            value <= u32::MAX,
            forall|t: int| start <= t < i ==> is_digit_byte(#[trigger] b@[t]),
            d == (if b@.len() > 0 && b@[0] == 43 {
                b@.drop_first()
            } else {
                b@
            }),
            d.len() > 0,
        decreases n - i,
    {
        let c = b[i];
        proof {
            let p = b@.subrange(start as int, i + 1);
            assert(p.drop_last() =~= b@.subrange(start as int, i as int));
        }
        if c < 48u8 || c > 57u8 {
            proof {
                assert(d[i - start] == b@[i as int]);
                assert(!is_digit_byte(d[i - start]));
            }
            return None;
        }
        value = value * 10 + (c - 48u8) as u64;
        i = i + 1;
        if value > 4294967295u64 {
            proof {
                if all_digits(d) {
                    lemma_digits_value_prefix_le(d, i - start);
                    assert(d.subrange(0, i - start) =~= b@.subrange(start as int, i as int));
                }
            }
            return None;
        }
    }
    proof {
        assert(b@.subrange(start as int, n as int) =~= d);
        assert forall|t: int| 0 <= t < d.len() implies is_digit_byte(#[trigger] d[t]) by {
            assert(d[t] == b@[start + t]);
        }
    }
    Some(value as u32)
}

/// The id of a data file, read from its file name: the name must end in
/// `.data` and its stem must read as a `u32`.
pub fn parse_data_file_id(file_name: &str) -> (id: Option<u32>)
    ensures
        id == spec_parse_data_file_id(file_name.spec_bytes()),
{
    let b = file_name.as_bytes();
    let n = b.len();
    if n < 5 {
        return None;
    }
    let suffix_ok = b[n - 5] == 46u8 && b[n - 4] == 100u8 && b[n - 3] == 97u8 && b[n - 2] == 116u8
        && b[n - 1] == 97u8;
    proof {
        let tail = b@.subrange(n - 5, n as int);
        if suffix_ok {
            assert(tail =~= data_suffix());
        } else {
            assert(tail != data_suffix()) by {
                if tail == data_suffix() {
                    assert(tail[0] == b@[n - 5]);
                    assert(tail[1] == b@[n - 4]);
                    assert(tail[2] == b@[n - 3]);
                    assert(tail[3] == b@[n - 2]);
                    assert(tail[4] == b@[n - 1]);
                }
            }
        }
    }
    if !suffix_ok {
        return None;
    }
    parse_u32_bytes(&b[0..n - 5])
}

// ---- laws -------------------------------------------------------------------
proof fn lemma_decimal_bytes(n: nat)
    ensures
        all_digits(spec_decimal(n).map_values(|c: char| c as u8)),
        digits_value(spec_decimal(n).map_values(|c: char| c as u8)) == n,
        vstd::utf8::is_ascii_chars(spec_decimal(n)),
    decreases n,
{
    let b = spec_decimal(n).map_values(|c: char| c as u8);
    if n < 10 {
        assert(b.drop_last() =~= Seq::<u8>::empty());
        assert(b.last() == (48 + n) as u8);
        assert(b.len() == 1);
        assert(digits_value(b) == digits_value(b.drop_last()) * 10 + (b.last() - 48) as nat);
        assert(digits_value(b.drop_last()) == 0);
        assert(is_digit_byte(b[0]));
    } else {
        lemma_decimal_bytes(n / 10);
        let pb = spec_decimal(n / 10).map_values(|c: char| c as u8);
        assert(b.drop_last() =~= pb);
        assert(b.last() == (48 + n % 10) as u8);
        assert(n == (n / 10) * 10 + n % 10);
        assert(digits_value(b) == digits_value(b.drop_last()) * 10 + (b.last() - 48) as nat);
        assert forall|i: int| 0 <= i < b.len() implies is_digit_byte(#[trigger] b[i]) by {
            if i < pb.len() {
                assert(b[i] == pb[i]);
            }
        }
        assert forall|i: int| 0 <= i < spec_decimal(n).len() implies '\0' <= #[trigger] spec_decimal(n)[i] <= '\u{7f}' by {
            if i < spec_decimal(n / 10).len() {
                assert(spec_decimal(n)[i] == spec_decimal(n / 10)[i]);
            }
        }
    }
}

proof fn lemma_zeros_value(k: nat)
    ensures
        digits_value(Seq::new(k, |i: int| 48u8)) == 0,
    decreases k,
{
    if k > 0 {
        lemma_zeros_value((k - 1) as nat);
        assert(Seq::new(k, |i: int| 48u8).drop_last() =~= Seq::new((k - 1) as nat, |i: int| 48u8));
    }
}

proof fn lemma_leading_zeros_value(k: nat, b: Seq<u8>)
    ensures
        digits_value(Seq::new(k, |i: int| 48u8) + b) == digits_value(b),
    decreases b.len(),
{
    let z = Seq::new(k, |i: int| 48u8);
    if b.len() == 0 {
        assert(z + b =~= z);
        lemma_zeros_value(k);
    } else {
        lemma_leading_zeros_value(k, b.drop_last());
        assert((z + b).drop_last() =~= z + b.drop_last());
    }
}

/// Reading the id back from a data file's name gives the id it was named
/// for.
pub proof fn law_parse_data_file_id_inverts_name(id: u32)
    ensures
        spec_parse_data_file_id(vstd::utf8::encode_utf8(spec_data_file_name(id))) == Some(id),
{
    let d = spec_decimal(id as nat);
    lemma_decimal_bytes(id as nat);
    let name = spec_data_file_name(id);
    let padded = spec_padded_id(id as nat);
    let stem_bytes = padded.map_values(|c: char| c as u8);
    let k: nat = if d.len() < 8 { (8 - d.len()) as nat } else { 0 };
    assert(padded =~= Seq::new(k, |i: int| '0') + d);
    assert(stem_bytes =~= Seq::new(k, |i: int| 48u8) + d.map_values(|c: char| c as u8));
    lemma_leading_zeros_value(k, d.map_values(|c: char| c as u8));
    assert(vstd::utf8::is_ascii_chars(name)) by {
        assert forall|i: int| 0 <= i < name.len() implies '\0' <= #[trigger] name[i] <= '\u{7f}' by {
            if i < padded.len() {
                if i >= k {
                    assert(padded[i] == d[i - k]);
                }
            }
        }
    }
    vstd::utf8::is_ascii_chars_encode_utf8(name);
    let bytes = vstd::utf8::encode_utf8(name);
    let n = bytes.len();
    assert(bytes.subrange(n - 5, n as int) =~= data_suffix());
    assert(bytes.subrange(0, n - 5) =~= stem_bytes);
    assert(all_digits(stem_bytes)) by {
        assert forall|i: int| 0 <= i < stem_bytes.len() implies is_digit_byte(#[trigger] stem_bytes[i]) by {
            if i >= k {
                assert(stem_bytes[i] == d.map_values(|c: char| c as u8)[i - k]);
            }
        }
    }
    assert(stem_bytes[0] != 43u8) by {
        assert(is_digit_byte(stem_bytes[0]));
    }
}

} // verus!
