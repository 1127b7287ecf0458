//! Building text: decimal and hexadecimal numerals, joined lists.
use vstd::prelude::*;
use vstd::string::*;

verus! {

/// The character of a digit value below sixteen, lower-case for letters.
pub open spec fn digit_char(d: nat) -> char {
    if d < 10 {
        ((48 + d) as u8) as char
    } else {
        ((87 + d) as u8) as char
    }
}

/// Decimal numeral of `n`, without leading zeros ("0" for zero).
pub open spec fn decimal(n: nat) -> Seq<char>
    decreases n,
{
    if n < 10 {
        seq![digit_char(n)]
    } else {
        decimal(n / 10).push(digit_char(n % 10))
    }
}

/// Lower-case hexadecimal numeral of `n`, without leading zeros ("0" for zero).
pub open spec fn hex(n: nat) -> Seq<char>
    decreases n,
{
    if n < 16 {
        seq![digit_char(n)]
    } else {
        hex(n / 16).push(digit_char(n % 16))
    }
}

/// Appends one character through `String::push`. Claimed: afterwards the string holds its old
/// characters followed by `c`.
#[verifier::external_body]
pub(crate) fn push_char(s: &mut String, c: char)
    ensures
        final(s)@ == old(s)@.push(c),
{
    s.push(c);
}

/// The digit character for a value below sixteen.
pub fn digit(d: u8) -> (c: char)
    requires
        d < 16,
    ensures
        c == digit_char(d as nat),
{
    if d < 10 {
        (48 + d) as char
    } else {
        (87 + d) as char
    }
}

/// Appends the decimal numeral of `n`.
pub fn push_decimal(s: &mut String, n: u64)
    ensures
        final(s)@ == old(s)@ + decimal(n as nat),
    decreases n,
{
    if n >= 10 {
        push_decimal(s, n / 10);
    }
    let d = (n % 10) as u8;
    push_char(s, digit(d));
    proof {
        assert(old(s)@ + decimal(n as nat) =~= (if n >= 10 { old(s)@ + decimal((n / 10) as nat) } else { old(s)@ }).push(digit_char((n % 10) as nat)));
    }
}


/// Appends the lower-case hexadecimal numeral of `n`.
pub fn push_hex(s: &mut String, n: u64)
    ensures
        final(s)@ == old(s)@ + hex(n as nat),
    decreases n,
{
    if n >= 16 {
        push_hex(s, n / 16);
    }
    let d = (n % 16) as u8;
    push_char(s, digit(d));
    proof {
        assert(old(s)@ + hex(n as nat) =~= (if n >= 16 { old(s)@ + hex((n / 16) as nat) } else { old(s)@ }).push(digit_char((n % 16) as nat)));
    }
}

/// Two lower-case hexadecimal digits of a byte, a leading zero kept.
pub open spec fn hex_byte(b: u8) -> Seq<char> {
    seq![digit_char((b / 16) as nat), digit_char((b % 16) as nat)]
}

/// Four lower-case hexadecimal digits of a 16-bit number, leading zeros kept.
pub open spec fn hex4(n: u16) -> Seq<char> {
    seq![
        digit_char((n / 4096) as nat),
        digit_char(((n / 256) % 16) as nat),
        digit_char(((n / 16) % 16) as nat),
        digit_char((n % 16) as nat),
    ]
}

/// `t` padded on the left with spaces to `width` characters; unchanged when it is that long.
pub open spec fn pad_left(t: Seq<char>, width: nat) -> Seq<char> {
    if t.len() >= width {
        t
    } else {
        Seq::new((width - t.len()) as nat, |i: int| ' ') + t
    }
}

/// Appends the two-digit hexadecimal form of a byte.
pub fn push_hex_byte(s: &mut String, b: u8)
    ensures
        final(s)@ == old(s)@ + hex_byte(b),
{
    push_char(s, digit(b / 16));
    push_char(s, digit(b % 16));
    assert(s@ =~= old(s)@ + hex_byte(b));
}

/// Appends the four-digit hexadecimal form of a 16-bit number.
pub fn push_hex4(s: &mut String, n: u16)
    ensures
        final(s)@ == old(s)@ + hex4(n),
{
    push_char(s, digit((n / 4096) as u8));
    push_char(s, digit(((n / 256) % 16) as u8));
    push_char(s, digit(((n / 16) % 16) as u8));
    push_char(s, digit((n % 16) as u8));
    assert(s@ =~= old(s)@ + hex4(n));
}

/// Appends the decimal numeral of a byte.
pub fn push_byte_decimal(s: &mut String, b: u8)
    ensures
        final(s)@ == old(s)@ + decimal(b as nat),
{
    push_decimal(s, b as u64);
}

/// Appends the decimal numeral of a 16-bit number.
pub fn push_u16_decimal(s: &mut String, n: u16)
    ensures
        final(s)@ == old(s)@ + decimal(n as nat),
{
    push_decimal(s, n as u64);
}

/// Appends `t` padded on the left with spaces to `width` characters.
pub fn push_padded(s: &mut String, t: &str, width: usize)
    ensures
        final(s)@ == old(s)@ + pad_left(t@, width as nat),
{
    let n = t.unicode_len();
    if n < width {
        let pad = width - n;
        let mut i: usize = 0;
        while i < pad
            invariant
                i <= pad,
                s@ == old(s)@ + Seq::new(i as nat, |k: int| ' '),
            decreases pad - i,
        {
            push_char(s, ' ');
            i = i + 1;
            assert(s@ =~= old(s)@ + Seq::new(i as nat, |k: int| ' '));
        }
    }
    push_str(s, t);
    assert(s@ =~= old(s)@ + pad_left(t@, width as nat));
}

/// Appends a string slice.
pub fn push_str(s: &mut String, t: &str)
    ensures
        final(s)@ == old(s)@ + t@,
{
    s.append(t);
}

/// Whether two string slices hold the same characters.
pub fn text_eq(a: &str, b: &str) -> (r: bool)
    ensures
        r == (a@ == b@),
{
    let n = a.unicode_len();
    if n != b.unicode_len() {
        return false;
    }
    let mut i: usize = 0;
    while i < n
        invariant
            n == a@.len(),
            n == b@.len(),
            i <= n,
            forall|j: int| 0 <= j < i ==> a@[j] == b@[j],
        decreases n - i,
    {
        if a.get_char(i) != b.get_char(i) {
            return false;
        }
        i = i + 1;
    }
    assert(a@ =~= b@);
    true
}

} // verus!
