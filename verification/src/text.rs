//! Text helpers shared by the pipeline: the characters of a string, byte
//! offsets into its UTF-8 encoding, and decimal numerals.

use vstd::prelude::*;
use vstd::string::*;
use vstd::utf8::*;

verus! {

/// The characters of `s`, in order.
pub fn chars_of(s: &str) -> (v: Vec<char>)
    ensures
        v@ == s@,
{
    let mut v: Vec<char> = Vec::new();
    for c in it: s.chars()
        invariant
            v@ == it.seq().take(it.index() as int),
            it.seq() == s@,
    {
        v.push(c);
    }
    v
}

/// Number of bytes that `c` takes in UTF-8.
pub open spec fn utf8_width(c: char) -> nat {
    let v = c as u32;
    if v < 0x80 {
        1
    } else if v < 0x800 {
        2
    } else if v < 0x10000 {
        3
    } else {
        4
    }
}

/// Number of bytes that `chars` take in UTF-8.
pub open spec fn utf8_len(chars: Seq<char>) -> nat
    decreases chars.len(),
{
    if chars.len() == 0 {
        0
    } else {
        utf8_width(chars[0]) + utf8_len(chars.drop_first())
    }
}

/// Byte offset of the character with index `i` in the UTF-8 encoding of `chars`.
pub open spec fn byte_offset(chars: Seq<char>, i: int) -> nat {
    utf8_len(chars.take(i))
}

/// `utf8_len` is the length of the encoding that `vstd` defines.
pub proof fn lemma_utf8_len_is_encoded_len(chars: Seq<char>)
    ensures
        utf8_len(chars) == encode_utf8(chars).len(),
    decreases chars.len(),
{
    if chars.len() > 0 {
        char_is_scalar(chars[0]);
        lemma_utf8_len_is_encoded_len(chars.drop_first());
    }
}

/// Appending a character adds its width.
pub proof fn lemma_utf8_len_push(chars: Seq<char>, c: char)
    ensures
        utf8_len(chars.push(c)) == utf8_len(chars) + utf8_width(c),
    decreases chars.len(),
{
    let pushed = chars.push(c);
    if chars.len() == 0 {
        assert(pushed[0] == c);
        assert(pushed.drop_first() =~= Seq::<char>::empty());
        assert(utf8_len(pushed.drop_first()) == 0);
    } else {
        assert(pushed[0] == chars[0]);
        assert(pushed.drop_first() =~= chars.drop_first().push(c));
        lemma_utf8_len_push(chars.drop_first(), c);
    }
}

/// Byte offsets grow by the width of the character stepped over.
pub proof fn lemma_byte_offset_step(chars: Seq<char>, i: int)
    requires
        0 <= i < chars.len(),
    ensures
        byte_offset(chars, i + 1) == byte_offset(chars, i) + utf8_width(chars[i]),
        byte_offset(chars, 0) == 0,
{
    assert(chars.take(i + 1) =~= chars.take(i).push(chars[i]));
    lemma_utf8_len_push(chars.take(i), chars[i]);
    assert(chars.take(0) =~= Seq::<char>::empty());
}

/// Byte offsets never decrease along the text.
pub proof fn lemma_byte_offset_monotonic(chars: Seq<char>, i: int, j: int)
    requires
        0 <= i <= j <= chars.len(),
    ensures
        byte_offset(chars, i) <= byte_offset(chars, j),
    decreases j - i,
{
    if i < j {
        lemma_byte_offset_step(chars, j - 1);
        lemma_byte_offset_monotonic(chars, i, j - 1);
    }
}

/// Every byte offset into `s` fits the machine word, because the encoded text does.
pub fn byte_len(s: &str) -> (n: usize)
    ensures
        n == utf8_len(s@),
        forall|i: int| 0 <= i <= s@.len() ==> #[trigger] byte_offset(s@, i) <= n,
{
    let n = s.as_bytes().len();
    proof {
        lemma_utf8_len_is_encoded_len(s@);
        assert(s@.take(s@.len() as int) =~= s@);
        assert forall|i: int| 0 <= i <= s@.len() implies #[trigger] byte_offset(s@, i) <= n by {
            lemma_byte_offset_monotonic(s@, i, s@.len() as int);
        }
    }
    n
}

/// Number of bytes that `c` takes in UTF-8.
pub fn char_width(c: char) -> (w: usize)
    ensures
        w == utf8_width(c),
{
    let v: u32 = c as u32;
    if v < 0x80 {
        1
    } else if v < 0x800 {
        2
    } else if v < 0x10000 {
        3
    } else {
        4
    }
}

/// The decimal digit for `d`, where `0 <= d <= 9`.
pub open spec fn digit_char(d: int) -> char {
    ('0' as int + d) as char
}

/// The decimal numeral of `n`, without leading zeros.
pub open spec fn decimal(n: nat) -> Seq<char>
    decreases n,
{
    if n < 10 {
        seq![digit_char(n as int)]
    } else {
        decimal(n / 10).push(digit_char((n % 10) as int))
    }
}

/// The decimal numeral of `i`, with a leading `-` when it is negative.
pub open spec fn signed_decimal(i: int) -> Seq<char> {
    if i < 0 {
        seq!['-'] + decimal((-i) as nat)
    } else {
        decimal(i as nat)
    }
}

/// Appends the decimal numeral of `n` to `out`.
pub fn append_decimal(out: &mut String, n: u64)
    ensures
        final(out)@ == old(out)@ + decimal(n as nat),
    decreases n,
{
    if n >= 10 {
        append_decimal(out, n / 10);
    }
    let d: usize = (n % 10) as usize;
    proof {
        reveal_strlit("0123456789");
    }
    let digits = "0123456789";
    let digit = digits.substring_char(d, d + 1);
    assert(digit@ =~= seq![digit_char(d as int)]);
    out.append(digit);
    assert(out@ =~= old(out)@ + decimal(n as nat));
}

/// Appends the decimal numeral of `i` to `out`.
pub fn append_signed_decimal(out: &mut String, i: i64)
    ensures
        final(out)@ == old(out)@ + signed_decimal(i as int),
{
    if i < 0 {
        proof {
            reveal_strlit("-");
        }
        out.append("-");
        let magnitude: u64 = ((-(i + 1)) as u64) + 1;
        append_decimal(out, magnitude);
        assert(out@ =~= old(out)@ + signed_decimal(i as int));
    } else {
        append_decimal(out, i as u64);
    }
}

/// True for the ten decimal digits.
pub open spec fn is_digit(c: char) -> bool {
    '0' <= c <= '9'
}

/// The number that a run of decimal digits denotes.
pub open spec fn digits_value(s: Seq<char>) -> int
    decreases s.len(),
{
    if s.len() == 0 {
        0
    } else {
        10 * digits_value(s.drop_last()) + (s.last() as int - '0' as int)
    }
}

/// True when `s` holds decimal digits only.
pub open spec fn all_digits(s: Seq<char>) -> bool {
    forall|i: int| 0 <= i < s.len() ==> is_digit(#[trigger] s[i])
}

/// The integer that `s` denotes when it is an optional sign (`+` or `-`)
/// followed by one or more decimal digits.
pub open spec fn decimal_integer(s: Seq<char>) -> Option<int> {
    let signed = s.len() > 0 && (s[0] == '-' || s[0] == '+');
    let body = if signed {
        s.subrange(1, s.len() as int)
    } else {
        s
    };
    if body.len() > 0 && all_digits(body) {
        Some(
            if signed && s[0] == '-' {
                -digits_value(body)
            } else {
                digits_value(body)
            },
        )
    } else {
        None
    }
}

/// The 32-bit integer that `s` denotes, if it is a decimal integer in range.
pub open spec fn decimal_i32(s: Seq<char>) -> Option<i32> {
    match decimal_integer(s) {
        Some(v) => if i32::MIN <= v <= i32::MAX {
            Some(v as i32)
        } else {
            None
        },
        None => None,
    }
}

/// Reads a signed decimal integer that fits 32 bits.
pub fn parse_i32(s: &str) -> (r: Option<i32>)
    ensures
        r == decimal_i32(s@),
{
    let chars = chars_of(s);
    let n = chars.len();
    if n == 0 {
        return None;
    }
    let negative = chars[0] == '-';
    let first: usize = if negative || chars[0] == '+' {
        1
    } else {
        0
    };
    if first == n {
        return None;
    }
    let ghost body = s@.subrange(first as int, n as int);
    assert(first == 0 ==> body =~= s@);
    let mut value: i64 = 0;
    let mut i: usize = first;
    let mut too_large = false;
    while i < n
        invariant
            first <= i <= n,
            n == chars.len(),
            chars@ == s@,
            body == s@.subrange(first as int, n as int),
            n > 0,
            first == 0 ==> body == s@,
            (first == 1) == (s@[0] == '-' || s@[0] == '+'),
            all_digits(body.take(i - first)),
            0 <= digits_value(body.take(i - first)),
            !too_large ==> value == digits_value(body.take(i - first)) && value <= 0x8000_0000,
            too_large ==> digits_value(body.take(i - first)) > 0x8000_0000,
        decreases n - i,
    {
        let c = chars[i];
        assert(body[i - first] == c);
        if !(c >= '0' && c <= '9') {
            assert(!is_digit(body[i - first]));
            assert(!all_digits(body));
            return None;
        }
        let d: i64 = (c as u32 - '0' as u32) as i64;
        proof {
            let next = body.take(i - first + 1);
            assert(next.drop_last() =~= body.take(i - first));
            assert(next.last() == c);
        }
        if !too_large {
            value = value * 10 + d;
            if value > 0x8000_0000 {
                too_large = true;
            }
        }
        i += 1;
    }
    assert(body.take(n - first) =~= body);
    if too_large {
        None
    } else if negative {
        Some((-value) as i32)
    } else if value > 0x7fff_ffff {
        None
    } else {
        Some(value as i32)
    }
}

} // verus!
