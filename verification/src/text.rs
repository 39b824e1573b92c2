//! Decimal rendering of numbers.
use vstd::prelude::*;

verus! {

broadcast use vstd::string::axiom_spec_iter;

/// The ASCII digit for `d`.
pub open spec fn digit_char(d: nat) -> char {
    (48 + d) as char
}

/// The decimal digits of `n`, most significant first, without leading
/// zeros (a single `0` for zero).
pub open spec fn spec_decimal(n: nat) -> Seq<char>
    decreases n,
{
    if n < 10 {
        seq![digit_char(n)]
    } else {
        spec_decimal(n / 10).push(digit_char(n % 10))
    }
}

/// The lowercase hexadecimal digit for `d` (below 16).
pub open spec fn hex_char(d: nat) -> char {
    if d < 10 {
        (48 + d) as char
    } else {
        (87 + d) as char
    }
}

/// The lowercase hexadecimal digits of `n`, most significant first,
/// without leading zeros (a single `0` for zero).
pub open spec fn spec_hex(n: nat) -> Seq<char>
    decreases n,
{
    if n < 16 {
        seq![hex_char(n)]
    } else {
        spec_hex(n / 16).push(hex_char(n % 16))
    }
}

/// `digits` with a comma between every group of three, counting from the
/// right.
pub open spec fn spec_group_thousands(digits: Seq<char>) -> Seq<char>
    decreases digits.len(),
{
    if digits.len() <= 3 {
        digits
    } else {
        spec_group_thousands(digits.subrange(0, digits.len() - 3)) + seq![',']
            + digits.subrange(digits.len() - 3, digits.len() as int)
    }
}

/// `String::push`: appends one character.
#[verifier::external_body]
pub(crate) fn push_char(s: &mut String, c: char)
    ensures
        final(s)@ == old(s)@.push(c),
{
    s.push(c);
}

/// An empty string.
pub fn empty_string() -> (s: String)
    ensures
        s@ == Seq::<char>::empty(),
{
    String::new()
}

/// The decimal digits of `n`, least significant first.
fn decimal_digits_rev(n: u64) -> (v: Vec<u8>)
    ensures
        v@.len() == spec_decimal(n as nat).len(),
        forall|i: int|
            0 <= i < v@.len() ==> v@[i] < 10 && digit_char(v@[i] as nat) == spec_decimal(
                n as nat,
            )[spec_decimal(n as nat).len() - 1 - i],
{
    let mut v: Vec<u8> = Vec::new();
    let mut m: u64 = n;
    while m >= 10
        invariant
            spec_decimal(n as nat) == spec_decimal(m as nat) + Seq::new(
                v@.len(),
                |i: int| digit_char(v@[v@.len() - 1 - i] as nat),
            ),
            forall|i: int| 0 <= i < v@.len() ==> v@[i] < 10,
        decreases m,
    {
        let d = (m % 10) as u8;
        let ghost old_v = v@;
        let ghost old_m = m;
        v.push(d);
        m = m / 10;
        proof {
            let tail_old = Seq::new(old_v.len(), |i: int| digit_char(old_v[old_v.len() - 1 - i] as nat));
            let tail_new = Seq::new(v@.len(), |i: int| digit_char(v@[v@.len() - 1 - i] as nat));
            assert(spec_decimal(old_m as nat) == spec_decimal(m as nat).push(digit_char(d as nat)));
            assert(tail_new =~= seq![digit_char(d as nat)] + tail_old);
            assert(spec_decimal(m as nat).push(digit_char(d as nat)) + tail_old =~= spec_decimal(
                m as nat,
            ) + tail_new);
        }
    }
    let ghost old_v = v@;
    v.push(m as u8);
    proof {
        let tail_old = Seq::new(old_v.len(), |i: int| digit_char(old_v[old_v.len() - 1 - i] as nat));
        assert(spec_decimal(m as nat) == seq![digit_char(m as nat)]);
        let whole = spec_decimal(n as nat);
        assert(whole =~= seq![digit_char(m as nat)] + tail_old);
        assert forall|i: int| 0 <= i < v@.len() implies v@[i] < 10 && digit_char(v@[i] as nat)
            == whole[whole.len() - 1 - i] by {
            if i < old_v.len() {
                assert(tail_old[old_v.len() - 1 - i] == digit_char(old_v[i] as nat));
            }
        }
    }
    v
}

/// Appends the decimal digits of `n` to `s`.
pub fn push_decimal(s: &mut String, n: u64)
    ensures
        final(s)@ == old(s)@ + spec_decimal(n as nat),
{
    let digits = decimal_digits_rev(n);
    let ghost whole = spec_decimal(n as nat);
    let mut i: usize = digits.len();
    while i > 0
        invariant
            i <= digits@.len(),
            digits@.len() == whole.len(),
            forall|t: int|
                0 <= t < digits@.len() ==> digits@[t] < 10 && digit_char(digits@[t] as nat)
                    == whole[whole.len() - 1 - t],
            s@ == old(s)@ + whole.subrange(0, whole.len() - i),
        decreases i,
    {
        i = i - 1;
        let d = digits[i];
        let c = (48u8 + d) as char;
        proof {
            assert(c == digit_char(d as nat));
            assert(whole.subrange(0, whole.len() - i) =~= whole.subrange(0, whole.len() - i - 1).push(
                whole[whole.len() - 1 - i],
            ));
        }
        push_char(s, c);
    }
    proof {
        assert(whole.subrange(0, whole.len() as int) =~= whole);
    }
}

/// Appends the lowercase hexadecimal digits of `n` to `s`.
pub fn push_hex(s: &mut String, n: u64)
    ensures
        final(s)@ == old(s)@ + spec_hex(n as nat),
    decreases n,
{
    if n >= 16 {
        push_hex(s, n / 16);
    }
    let d = (n % 16) as u8;
    let c = if d < 10 {
        (48u8 + d) as char
    } else {
        (87u8 + d) as char
    };
    proof {
        assert(c == hex_char(d as nat));
    }
    push_char(s, c);
    proof {
        if n >= 16 {
            assert(spec_hex(n as nat) == spec_hex((n / 16) as nat).push(hex_char((n % 16) as nat)));
        }
        assert(s@ =~= old(s)@ + spec_hex(n as nat));
    }
}

/// The decimal rendering of `n`.
pub fn decimal_string(n: u64) -> (s: String)
    ensures
        s@ == spec_decimal(n as nat),
{
    let mut s = empty_string();
    push_decimal(&mut s, n);
    s
}

/// The first `p` digits of `d` as they appear in its grouped rendering,
/// with a comma before each digit that starts a group of three counted
/// from the right.
pub open spec fn grouped_prefix(d: Seq<char>, p: nat) -> Seq<char>
    decreases p,
{
    if p == 0 || p > d.len() {
        Seq::empty()
    } else {
        let j = p - 1;
        let sep = if j > 0 && (d.len() - j) % 3 == 0 {
            seq![',']
        } else {
            Seq::<char>::empty()
        };
        grouped_prefix(d, (p - 1) as nat) + sep + seq![d[j]]
    }
}

proof fn lemma_grouped_prefix_short(d: Seq<char>, k: nat)
    requires
        d.len() <= 3,
        k <= d.len(),
    ensures
        grouped_prefix(d, k) == d.subrange(0, k as int),
    decreases k,
{
    if k > 0 {
        lemma_grouped_prefix_short(d, (k - 1) as nat);
        assert(d.subrange(0, k as int) =~= d.subrange(0, k - 1) + seq![d[k - 1]]);
        let j = k - 1;
        if j > 0 {
            assert((d.len() - j) % 3 != 0);
        }
        assert(grouped_prefix(d, k) =~= d.subrange(0, k - 1) + Seq::<char>::empty() + seq![d[k - 1]]);
    }
}

proof fn lemma_grouped_prefix_head(d: Seq<char>, k: nat)
    requires
        d.len() > 3,
        k <= d.len() - 3,
    ensures
        grouped_prefix(d, k) == grouped_prefix(d.subrange(0, d.len() - 3), k),
    decreases k,
{
    if k > 0 {
        lemma_grouped_prefix_head(d, (k - 1) as nat);
        let h = d.subrange(0, d.len() - 3);
        let j = k - 1;
        assert((d.len() - j) % 3 == (h.len() - j) % 3);
        assert(h[j] == d[j]);
    }
}

proof fn lemma_grouped_prefix_whole(d: Seq<char>)
    ensures
        grouped_prefix(d, d.len()) == spec_group_thousands(d),
    decreases d.len(),
{
    if d.len() <= 3 {
        lemma_grouped_prefix_short(d, d.len());
        assert(d.subrange(0, d.len() as int) =~= d);
    } else {
        let n = d.len();
        let h = d.subrange(0, n - 3);
        lemma_grouped_prefix_whole(h);
        lemma_grouped_prefix_head(d, (n - 3) as nat);
        assert(grouped_prefix(d, (n - 2) as nat) =~= grouped_prefix(d, (n - 3) as nat) + seq![','] + seq![d[n - 3]]);
        assert((n - (n - 2)) % 3 != 0);
        assert((n - (n - 1)) % 3 != 0);
        assert(grouped_prefix(d, (n - 1) as nat) =~= grouped_prefix(d, (n - 2) as nat) + Seq::<char>::empty() + seq![d[n - 2]]);
        assert(grouped_prefix(d, n) =~= grouped_prefix(d, (n - 1) as nat) + Seq::<char>::empty() + seq![d[n - 1]]);
        assert(grouped_prefix(d, n) =~= spec_group_thousands(h) + seq![','] + d.subrange(n - 3, n as int));
    }
}

/// The decimal rendering of `n` with thousands separators, such as
/// `1,234,567`.
pub fn format_thousands(n: u64) -> (s: String)
    ensures
        s@ == spec_group_thousands(spec_decimal(n as nat)),
{
    let digits = decimal_digits_rev(n);
    let ghost whole = spec_decimal(n as nat);
    let len = digits.len();
    let mut s = empty_string();
    let mut i: usize = len;
    while i > 0
        invariant
            i <= len,
            len == digits@.len(),
            digits@.len() == whole.len(),
            forall|t: int|
                0 <= t < digits@.len() ==> digits@[t] < 10 && digit_char(digits@[t] as nat)
                    == whole[whole.len() - 1 - t],
            s@ == grouped_prefix(whole, (len - i) as nat),
        decreases i,
    {
        i = i - 1;
        let done = len - 1 - i;
        let ghost before = s@;
        if done > 0 && (len - done) % 3 == 0 {
            push_char(&mut s, ',');
        }
        let c = (48u8 + digits[i]) as char;
        push_char(&mut s, c);
        proof {
            assert(c == whole[done as int]);
            let sep = if done > 0 && (whole.len() - done) % 3 == 0 {
                seq![',']
            } else {
                Seq::<char>::empty()
            };
            assert(s@ =~= before + sep + seq![c]);
        }
    }
    proof {
        lemma_grouped_prefix_whole(whole);
    }
    s
}

/// The characters of `text`, in order.
pub fn chars_of(text: &str) -> (v: Vec<char>)
    ensures
        v@ == text@,
{
    let mut v: Vec<char> = Vec::new();
    for c in it: text.chars()
        invariant
            v@ == it.seq().take(it.index() as int),
    {
        v.push(c);
    }
    v
}

/// Appends the characters of `chars` to `s`.
pub fn push_chars(s: &mut String, chars: &[char])
    ensures
        final(s)@ == old(s)@ + chars@,
{
    let mut i: usize = 0;
    while i < chars.len()
        invariant
            i <= chars@.len(),
            s@ == old(s)@ + chars@.take(i as int),
        decreases chars@.len() - i,
    {
        push_char(s, chars[i]);
        i = i + 1;
        proof {
            assert(chars@.take(i as int) =~= chars@.take(i - 1).push(chars@[i - 1]));
        }
    }
    proof {
        assert(chars@.take(chars@.len() as int) =~= chars@);
    }
}

/// Appends `t` to `s`.
pub fn push_str(s: &mut String, t: &str)
    ensures
        final(s)@ == old(s)@ + t@,
{
    let chars = chars_of(t);
    push_chars(s, chars.as_slice());
}

/// A string holding `chars`.
pub fn string_from_chars(chars: &[char]) -> (s: String)
    ensures
        s@ == chars@,
{
    let mut s = empty_string();
    push_chars(&mut s, chars);
    s
}

/// A string holding the characters of `t`.
pub fn string_from(t: &str) -> (s: String)
    ensures
        s@ == t@,
{
    let mut s = empty_string();
    push_str(&mut s, t);
    s
}

/// Whether two character sequences are equal.
pub fn chars_eq(a: &[char], b: &[char]) -> (eq: bool)
    ensures
        eq == (a@ == b@),
{
    if a.len() != b.len() {
        return false;
    }
    let mut i: usize = 0;
    while i < a.len()
        invariant
            a@.len() == b@.len(),
            i <= a@.len(),
            forall|j: int| 0 <= j < i ==> a@[j] == b@[j],
        decreases a@.len() - i,
    {
        if a[i] != b[i] {
            return false;
        }
        i = i + 1;
    }
    proof {
        assert(a@ =~= b@);
    }
    true
}

/// Whether `a` spells `t`.
pub fn chars_eq_str(a: &[char], t: &str) -> (eq: bool)
    ensures
        eq == (a@ == t@),
{
    let b = chars_of(t);
    chars_eq(a, b.as_slice())
}

} // verus!
