//! Literals of MySQL: bit strings, hexadecimal strings, numbers and zero dates.

use vstd::prelude::*;
use vstd::string::StringExecFns;

use crate::text::{self, chars_of, contains, is_at, slice_text};

verus! {

/// The value of a digit in bases up to 16; `None` for a character that is none.
pub open spec fn digit_value(c: char) -> Option<nat> {
    if '0' <= c <= '9' {
        Some((c as int - '0' as int) as nat)
    } else if 'a' <= c <= 'f' {
        Some((c as int - 'a' as int + 10) as nat)
    } else if 'A' <= c <= 'F' {
        Some((c as int - 'A' as int + 10) as nat)
    } else {
        None
    }
}

/// Whether a character is a digit of the base.
pub open spec fn is_digit(c: char, base: nat) -> bool {
    match digit_value(c) {
        Some(d) => d < base,
        None => false,
    }
}

/// Whether a text is made of digits of the base, one at least.
pub open spec fn all_digits(s: Seq<char>, base: nat) -> bool {
    s.len() > 0 && forall|i: int| 0 <= i < s.len() ==> is_digit(#[trigger] s[i], base)
}

/// The number that digits spell in a base.
pub open spec fn value_of(s: Seq<char>, base: nat) -> nat
    decreases s.len(),
{
    if s.len() == 0 {
        0
    } else {
        value_of(s.drop_last(), base) * base + match digit_value(s.last()) {
            Some(d) => d,
            None => 0,
        }
    }
}

/// The number that a text spells in a base, with an optional plus before it; `None` where it
/// spells none or one that is no `u64`.
pub open spec fn unsigned(s: Seq<char>, base: nat) -> Option<u64> {
    let digits = if s.len() > 0 && s[0] == '+' {
        s.skip(1)
    } else {
        s
    };
    if all_digits(digits, base) && value_of(digits, base) <= u64::MAX {
        Some(value_of(digits, base) as u64)
    } else {
        None
    }
}

/// The decimal number that a text spells, with an optional sign before it; `None` where it
/// spells none or one that is no `i64`.
pub open spec fn signed(s: Seq<char>) -> Option<i64> {
    if s.len() > 0 && s[0] == '-' {
        let digits = s.skip(1);
        if all_digits(digits, 10) && value_of(digits, 10) <= i64::MAX + 1 {
            Some((-(value_of(digits, 10) as int)) as i64)
        } else {
            None
        }
    } else {
        match unsigned(s, 10) {
            Some(n) => if n <= i64::MAX {
                Some(n as i64)
            } else {
                None
            },
            None => None,
        }
    }
}

proof fn lemma_value_grows(s: Seq<char>, i: int, base: nat)
    requires
        0 <= i <= s.len(),
        base >= 1,
    ensures
        value_of(s.take(i), base) <= value_of(s, base),
    decreases s.len() - i,
{
    if i == s.len() {
        assert(s.take(i) =~= s);
    } else {
        lemma_value_grows(s, i + 1, base);
        let longer = s.take(i + 1);
        assert(longer.drop_last() =~= s.take(i));
        let v = value_of(s.take(i), base);
        assert(v <= v * base) by (nonlinear_arith)
            requires
                base >= 1,
                v >= 0,
        ;
    }
}

fn read_digit(c: char) -> (r: Option<u64>)
    ensures
        match (r, digit_value(c)) {
            (Some(d), Some(n)) => d == n && d < 16,
            (None, None) => true,
            _ => false,
        },
{
    if '0' <= c && c <= '9' {
        Some(c as u64 - '0' as u64)
    } else if 'a' <= c && c <= 'f' {
        Some(c as u64 - 'a' as u64 + 10)
    } else if 'A' <= c && c <= 'F' {
        Some(c as u64 - 'A' as u64 + 10)
    } else {
        None
    }
}

/// The number that `chars[from..]` spell; `None` where they spell none or one that is no `u64`.
#[verifier::loop_isolation(false)]
fn read_digits(chars: &Vec<char>, from: usize, base: u64) -> (r: Option<u64>)
    requires
        from <= chars@.len(),
        2 <= base <= 16,
    ensures
        ({
            let digits = chars@.skip(from as int);
            r == if all_digits(digits, base as nat) && value_of(digits, base as nat) <= u64::MAX {
                Some(value_of(digits, base as nat) as u64)
            } else {
                None
            }
        }),
{
    let ghost digits = chars@.skip(from as int);
    if from == chars.len() {
        return None;
    }
    let mut total: u64 = 0;
    let mut i: usize = from;
    proof {
        assert(digits.take(0) =~= seq![]);
    }
    while i < chars.len()
        invariant
            from <= i <= chars@.len(),
            digits == chars@.skip(from as int),
            forall|j: int| 0 <= j < i - from ==> is_digit(#[trigger] digits[j], base as nat),
            total == value_of(digits.take(i - from), base as nat),
        decreases chars@.len() - i,
    {
        proof {
            let k = i - from;
            assert(digits.take(k + 1).drop_last() =~= digits.take(k));
            assert(digits.take(k + 1).last() == chars@[i as int]);
            assert(digits[k] == chars@[i as int]);
            lemma_value_grows(digits, k + 1, base as nat);
        }
        let d: u64 = match read_digit(chars[i]) {
            Some(d) => d,
            None => {
                proof {
                    assert(!is_digit(digits[i - from], base as nat));
                }
                return None;
            },
        };
        if d >= base {
            proof {
                assert(!is_digit(digits[i - from], base as nat));
            }
            return None;
        }
        proof {
            assert(total * base <= u64::MAX * 16) by (nonlinear_arith)
                requires
                    0 <= total <= u64::MAX,
                    0 <= base <= 16,
            ;
        }
        let next: u128 = total as u128 * base as u128 + d as u128;
        proof {
            assert(next == value_of(digits.take(i - from + 1), base as nat));
        }
        if next > u64::MAX as u128 {
            return None;
        }
        total = next as u64;
        i += 1;
    }
    proof {
        assert(digits.take(digits.len() as int) =~= digits);
    }
    Some(total)
}

/// The number that a text spells in a base, with an optional plus before it.
pub fn parse_unsigned(s: &str, base: u64) -> (r: Option<u64>)
    requires
        2 <= base <= 16,
    ensures
        r == unsigned(s@, base as nat),
{
    let chars = chars_of(s);
    if chars.len() > 0 && chars[0] == '+' {
        read_digits(&chars, 1, base)
    } else {
        proof {
            assert(chars@.skip(0) =~= chars@);
        }
        read_digits(&chars, 0, base)
    }
}

/// The decimal number that a text spells, with an optional sign before it.
pub fn parse_signed(s: &str) -> (r: Option<i64>)
    ensures
        r == signed(s@),
{
    let chars = chars_of(s);
    if chars.len() > 0 && chars[0] == '-' {
        match read_digits(&chars, 1, 10) {
            Some(n) => if n <= i64::MAX as u64 {
                Some(-(n as i64))
            } else if n == i64::MAX as u64 + 1 {
                Some(i64::MIN)
            } else {
                None
            },
            None => None,
        }
    } else {
        match parse_unsigned(s, 10) {
            Some(n) => if n <= i64::MAX as u64 {
                Some(n as i64)
            } else {
                None
            },
            None => None,
        }
    }
}

/// The digit of a value in base 16.
pub open spec fn hex_digit(n: nat) -> char {
    if n < 10 {
        text::digit(n)
    } else {
        ('a' as int + n - 10) as char
    }
}

/// A run of zeros.
pub open spec fn zeros(n: nat) -> Seq<char> {
    Seq::new(n, |i: int| '0')
}

/// What is missing to a length.
pub open spec fn missing(have: nat, want: nat) -> nat {
    if have < want {
        (want - have) as nat
    } else {
        0
    }
}

/// Hexadecimal digits with zeros before them: a whole number of bytes, `min_bytes` at least.
pub open spec fn padded(digits: Seq<char>, min_bytes: nat) -> Seq<char> {
    let whole = zeros(digits.len() % 2) + digits;
    zeros(missing(whole.len(), min_bytes * 2)) + whole
}

/// The text of a `bytea` literal with the given digits.
pub open spec fn bytea(digits: Seq<char>, min_bytes: nat) -> Seq<char> {
    "\\x"@ + padded(digits, min_bytes)
}

/// The two hexadecimal digits of the byte that eight bits spell.
pub open spec fn byte_hex(bits: Seq<char>) -> Seq<char> {
    let v = value_of(bits, 2);
    seq![hex_digit(v / 16), hex_digit(v % 16)]
}

/// The hexadecimal digits of a text of bits, eight by eight.
pub open spec fn bytes_hex(bits: Seq<char>) -> Seq<char>
    decreases bits.len(),
{
    if bits.len() < 8 {
        seq![]
    } else {
        bytes_hex(bits.take(bits.len() - 8)) + byte_hex(bits.skip(bits.len() - 8))
    }
}

/// The bits with zeros before them, to a whole number of bytes.
pub open spec fn whole_bytes(bits: Seq<char>) -> Seq<char> {
    zeros(((8 - bits.len() % 8) % 8) as nat) + bits
}

/// The `bytea` literal of a bit string; `None` where a character is no bit.
pub open spec fn bits_bytea(bits: Seq<char>, min_bytes: nat) -> Option<Seq<char>> {
    if all_digits(bits, 2) {
        Some(bytea(bytes_hex(whole_bytes(bits)), min_bytes))
    } else {
        None
    }
}

/// A `bytea` literal of hexadecimal digits, padded to whole bytes and to `min_bytes`.
pub fn hex_to_bytea_literal(hex_digits: &str, min_bytes: usize) -> (r: String)
    requires
        min_bytes <= usize::MAX / 2,
    ensures
        r@ == bytea(hex_digits@, min_bytes as nat),
{
    let chars = chars_of(hex_digits);
    let size: usize = chars.len();
    let want: usize = min_bytes * 2;
    let mut out: String = "\\x".to_owned();
    let ghost whole = zeros(chars@.len() % 2) + chars@;
    // One zero makes an odd number of digits even; the difference to an even length is even.
    let mut pad: usize = size % 2;
    if want > size {
        pad = want - size;
    }
    let ghost count = pad as nat;
    let ghost head = "\\x"@;
    proof {
        assert(head + zeros(0) =~= head);
        assert(zeros(count) + chars@ =~= padded(chars@, min_bytes as nat));
    }
    while pad > 0
        invariant
            pad <= count,
            out@ == head + zeros((count - pad) as nat),
        decreases pad,
    {
        out.push('0');
        pad -= 1;
        proof {
            assert(out@ =~= head + zeros((count - pad) as nat));
        }
    }
    out.append(hex_digits);
    proof {
        assert(out@ =~= head + (zeros(count) + chars@));
    }
    out
}

fn make_hex_digit(n: u8) -> (r: char)
    requires
        n < 16,
    ensures
        r == hex_digit(n as nat),
{
    if n < 10 {
        ('0' as u8 + n) as char
    } else {
        ('a' as u8 + (n - 10)) as char
    }
}

proof fn lemma_value_bound(s: Seq<char>)
    requires
        s.len() <= 8,
        forall|i: int| 0 <= i < s.len() ==> is_digit(#[trigger] s[i], 2),
    ensures
        s.len() == 0 ==> value_of(s, 2) < 1,
        s.len() == 1 ==> value_of(s, 2) < 2,
        s.len() == 2 ==> value_of(s, 2) < 4,
        s.len() == 3 ==> value_of(s, 2) < 8,
        s.len() == 4 ==> value_of(s, 2) < 16,
        s.len() == 5 ==> value_of(s, 2) < 32,
        s.len() == 6 ==> value_of(s, 2) < 64,
        s.len() == 7 ==> value_of(s, 2) < 128,
        value_of(s, 2) < 256,
    decreases s.len(),
{
    if s.len() > 0 {
        assert(is_digit(s[s.len() - 1], 2));
        assert forall|i: int| 0 <= i < s.drop_last().len() implies is_digit(
            #[trigger] s.drop_last()[i],
            2,
        ) by {
            assert(is_digit(s[i], 2));
        }
        lemma_value_bound(s.drop_last());
    }
}

/// The two hexadecimal digits of the byte that `chars[from..from + 8]` spell.
fn push_byte(chars: &Vec<char>, from: usize, out: &mut Vec<char>)
    requires
        from + 8 <= chars@.len(),
        forall|i: int| from <= i < from + 8 ==> is_digit(#[trigger] chars@[i], 2),
    ensures
        final(out)@ == old(out)@ + byte_hex(chars@.subrange(from as int, from + 8)),
{
    let ghost bits = chars@.subrange(from as int, from + 8);
    let size: usize = chars.len();
    let mut byte: u8 = 0;
    let mut i: usize = 0;
    proof {
        assert(bits.take(0) =~= seq![]);
    }
    while i < 8
        invariant
            i <= 8,
            from + 8 <= chars@.len() == size,
            bits == chars@.subrange(from as int, from + 8),
            forall|i: int| from <= i < from + 8 ==> is_digit(#[trigger] chars@[i], 2),
            byte == value_of(bits.take(i as int), 2),
        decreases 8 - i,
    {
        let c = chars[from + i];
        proof {
            let now = bits.take(i as int);
            let next = bits.take(i + 1);
            assert(next.drop_last() =~= now);
            assert(next.last() == c);
            assert(is_digit(chars@[from + i], 2));
            assert forall|j: int| 0 <= j < next.len() implies is_digit(#[trigger] next[j], 2) by {
                assert(is_digit(chars@[from + j], 2));
            }
            assert forall|j: int| 0 <= j < now.len() implies is_digit(#[trigger] now[j], 2) by {
                assert(is_digit(chars@[from + j], 2));
            }
            lemma_value_bound(now);
            lemma_value_bound(next);
        }
        byte = byte * 2 + if c == '1' {
            1
        } else {
            0
        };
        i += 1;
    }
    proof {
        assert(bits.take(8) =~= bits);
    }
    let ghost held = out@;
    out.push(make_hex_digit(byte / 16));
    out.push(make_hex_digit(byte % 16));
    proof {
        assert(out@ =~= held + byte_hex(bits));
    }
}

/// The bits with zeros before them, to a whole number of bytes.
fn fill_bytes(chars: &Vec<char>) -> (r: Vec<char>)
    ensures
        r@ == whole_bytes(chars@),
{
    let size: usize = chars.len();
    let ghost lead = ((8 - chars@.len() % 8) % 8) as nat;
    let mut padding: usize = (8 - size % 8) % 8;
    let mut all: Vec<char> = Vec::new();
    while padding > 0
        invariant
            padding <= lead,
            all@ == zeros((lead - padding) as nat),
        decreases padding,
    {
        all.push('0');
        padding -= 1;
        proof {
            assert(all@ =~= zeros((lead - padding) as nat));
        }
    }
    let mut k: usize = 0;
    proof {
        assert(all@ =~= zeros(lead) + chars@.take(0));
    }
    while k < size
        invariant
            k <= size == chars@.len(),
            all@ == zeros(lead) + chars@.take(k as int),
        decreases size - k,
    {
        all.push(chars[k]);
        k += 1;
        proof {
            assert(all@ =~= zeros(lead) + chars@.take(k as int));
        }
    }
    proof {
        assert(chars@.take(size as int) =~= chars@);
    }
    all
}

/// The hexadecimal digits of a text of bits, eight by eight.
fn hex_of_bytes(all: &Vec<char>) -> (r: Vec<char>)
    requires
        all@.len() % 8 == 0,
        forall|i: int| 0 <= i < all@.len() ==> is_digit(#[trigger] all@[i], 2),
    ensures
        r@ == bytes_hex(all@),
{
    let total: usize = all.len();
    let mut hex: Vec<char> = Vec::new();
    let mut at: usize = 0;
    proof {
        assert(all@.take(0) =~= seq![]);
    }
    while at < total
        invariant
            at <= total == all@.len(),
            at % 8 == 0,
            total % 8 == 0,
            forall|i: int| 0 <= i < all@.len() ==> is_digit(#[trigger] all@[i], 2),
            hex@ == bytes_hex(all@.take(at as int)),
        decreases total - at,
    {
        proof {
            let next = all@.take(at + 8);
            assert(next.take(next.len() - 8) =~= all@.take(at as int));
            assert(next.skip(next.len() - 8) =~= all@.subrange(at as int, at + 8));
        }
        push_byte(all, at, &mut hex);
        at += 8;
    }
    proof {
        assert(all@.take(total as int) =~= all@);
    }
    hex
}

fn are_bits(chars: &Vec<char>) -> (r: bool)
    ensures
        r == all_digits(chars@, 2),
{
    let size: usize = chars.len();
    let mut i: usize = 0;
    while i < size
        invariant
            i <= size == chars@.len(),
            forall|j: int| 0 <= j < i ==> is_digit(#[trigger] chars@[j], 2),
        decreases size - i,
    {
        if chars[i] != '0' && chars[i] != '1' {
            proof {
                assert(!is_digit(chars@[i as int], 2));
            }
            return false;
        }
        i += 1;
    }
    size > 0
}

proof fn lemma_whole_bytes(bits: Seq<char>)
    requires
        all_digits(bits, 2),
    ensures
        whole_bytes(bits).len() % 8 == 0,
        forall|j: int| 0 <= j < whole_bytes(bits).len() ==> is_digit(#[trigger] whole_bytes(bits)[j], 2),
{
    let lead = ((8 - bits.len() % 8) % 8) as nat;
    let whole = whole_bytes(bits);
    assert forall|j: int| 0 <= j < whole.len() implies is_digit(#[trigger] whole[j], 2) by {
        if j >= lead {
            assert(is_digit(bits[j - lead], 2));
        }
    }
}

/// A bit string as a `bytea` literal, its most significant bit first and `min_bytes` long at
/// least; `None` where a character is no bit.
pub fn bits_to_bytea_hex(bits: &str, min_bytes: usize) -> (r: Option<String>)
    requires
        min_bytes <= usize::MAX / 2,
    ensures
        match (r, bits_bytea(bits@, min_bytes as nat)) {
            (Some(s), Some(t)) => s@ == t,
            (None, None) => true,
            _ => false,
        },
{
    let chars = chars_of(bits);
    if !are_bits(&chars) {
        return None;
    }
    proof {
        lemma_whole_bytes(chars@);
    }
    let all = fill_bytes(&chars);
    let hex = hex_of_bytes(&all);
    let digits = slice_text(&hex, 0, hex.len());
    proof {
        assert(hex@.subrange(0, hex@.len() as int) =~= hex@);
    }
    Some(hex_to_bytea_literal(digits.as_str(), min_bytes))
}

/// Whether a date has a part that is zero.
pub open spec fn zero_date(s: Seq<char>) -> bool {
    let date = s.take(if s.len() < 10 {
        s.len() as int
    } else {
        10
    });
    ||| text::stands_at(date, "0000-"@, 0)
    ||| text::occurs(date, "-00-"@)
    ||| text::stands_at(date, "-00"@, date.len() - "-00"@.len())
}

/// Whether a date has a part that is zero, which no date of PostgreSQL has.
pub fn has_zero_date_segment(s: &str) -> (r: bool)
    ensures
        r == zero_date(s@),
{
    let chars = chars_of(s);
    let size: usize = if chars.len() < 10 {
        chars.len()
    } else {
        10
    };
    let date = slice_text(&chars, 0, size);
    proof {
        assert(chars@.subrange(0, size as int) =~= chars@.take(size as int));
    }
    let parts = chars_of(date.as_str());
    let year = chars_of("0000-");
    let day = chars_of("-00");
    if is_at(&parts, &year, 0) || contains(date.as_str(), "-00-") {
        return true;
    }
    let total: usize = parts.len();
    total >= day.len() && is_at(&parts, &day, total - day.len())
}

proof fn lemma_leading_zeros(n: nat, s: Seq<char>, base: nat)
    ensures
        value_of(zeros(n) + s, base) == value_of(s, base),
    decreases s.len(), n,
{
    if s.len() == 0 {
        assert(zeros(n) + s =~= zeros(n));
        if n > 0 {
            assert(zeros(n).drop_last() =~= zeros((n - 1) as nat));
            assert(zeros((n - 1) as nat) + s =~= zeros((n - 1) as nat));
            lemma_leading_zeros((n - 1) as nat, s, base);
            assert(digit_value('0') == Some(0nat));
            assert(value_of(zeros(n), base) == 0 * base + 0);
        }
    } else {
        assert((zeros(n) + s).drop_last() =~= zeros(n) + s.drop_last());
        lemma_leading_zeros(n, s.drop_last(), base);
    }
}

proof fn lemma_bits_shift(a: Seq<char>, b: Seq<char>, shift: nat)
    requires
        b.len() == 0 ==> shift == 1,
        b.len() == 1 ==> shift == 2,
        b.len() == 2 ==> shift == 4,
        b.len() == 3 ==> shift == 8,
        b.len() == 4 ==> shift == 16,
        b.len() == 5 ==> shift == 32,
        b.len() == 6 ==> shift == 64,
        b.len() == 7 ==> shift == 128,
        b.len() == 8 ==> shift == 256,
        b.len() <= 8,
    ensures
        value_of(a + b, 2) == value_of(a, 2) * shift + value_of(b, 2),
    decreases b.len(),
{
    if b.len() == 0 {
        assert(a + b =~= a);
    } else {
        assert((a + b).drop_last() =~= a + b.drop_last());
        assert((a + b).last() == b.last());
        let half = shift / 2;
        lemma_bits_shift(a, b.drop_last(), half);
        let x = value_of(a, 2);
        assert(x * half * 2 == x * shift) by (nonlinear_arith)
            requires
                half * 2 == shift,
        ;
    }
}

proof fn lemma_bytes_value(bits: Seq<char>)
    requires
        bits.len() % 8 == 0,
        forall|i: int| 0 <= i < bits.len() ==> is_digit(#[trigger] bits[i], 2),
    ensures
        value_of(bytes_hex(bits), 16) == value_of(bits, 2),
        bytes_hex(bits).len() % 2 == 0,
    decreases bits.len(),
{
    if bits.len() >= 8 {
        let front = bits.take(bits.len() - 8);
        let last = bits.skip(bits.len() - 8);
        lemma_bytes_value(front);
        assert(front + last =~= bits);
        lemma_bits_shift(front, last, 256);
        assert forall|i: int| 0 <= i < last.len() implies is_digit(#[trigger] last[i], 2) by {
            assert(is_digit(bits[bits.len() - 8 + i], 2));
        }
        lemma_value_bound(last);
        let v = value_of(last, 2);
        let hex = bytes_hex(bits);
        let high = hex_digit(v / 16);
        let low = hex_digit(v % 16);
        assert(digit_value(high) == Some(v / 16));
        assert(digit_value(low) == Some(v % 16));
        assert(hex.drop_last() =~= bytes_hex(front).push(high));
        assert(hex.drop_last().drop_last() =~= bytes_hex(front));
        assert(hex.last() == low && hex.drop_last().last() == high);
        let x = value_of(bytes_hex(front), 16);
        assert(value_of(hex.drop_last(), 16) == x * 16 + v / 16);
        assert(value_of(hex, 16) == (x * 16 + v / 16) * 16 + v % 16);
    } else {
        assert(bits =~= seq![]);
    }
}

/// The digits of a `bytea` literal fill whole bytes, as many as are asked for, and spell the
/// number that they spelled before.
pub proof fn law_padding_keeps_the_value(digits: Seq<char>, min_bytes: nat)
    ensures
        padded(digits, min_bytes).len() % 2 == 0,
        padded(digits, min_bytes).len() >= min_bytes * 2,
        value_of(padded(digits, min_bytes), 16) == value_of(digits, 16),
{
    let whole = zeros(digits.len() % 2) + digits;
    lemma_leading_zeros(digits.len() % 2, digits, 16);
    lemma_leading_zeros(missing(whole.len(), min_bytes * 2), whole, 16);
}

/// The `bytea` literal of a bit string spells, in hexadecimal digits, the number that the bits
/// spell.
pub proof fn law_bits_keep_their_value(bits: Seq<char>, min_bytes: nat)
    requires
        all_digits(bits, 2),
    ensures
        ({
            let digits = bytes_hex(whole_bytes(bits));
            &&& bits_bytea(bits, min_bytes) == Some("\\x"@ + padded(digits, min_bytes))
            &&& value_of(padded(digits, min_bytes), 16) == value_of(bits, 2)
        }),
{
    let lead = ((8 - bits.len() % 8) % 8) as nat;
    let whole = whole_bytes(bits);
    lemma_leading_zeros(lead, bits, 2);
    lemma_whole_bytes(bits);
    lemma_bytes_value(whole);
    law_padding_keeps_the_value(bytes_hex(whole), min_bytes);
}

} // verus!
