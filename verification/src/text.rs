//! Rendering of numbers and padded columns as text.

use vstd::prelude::*;
use vstd::string::*;

verus! {

/// The character for one digit: `0`-`9`, then `A`-`F`.
pub open spec fn digit_char(d: nat) -> char {
    if d < 10 {
        (0x30 + d) as char
    } else {
        (0x37 + d) as char
    }
}

/// The decimal numeral of `n`, without leading zeros.
pub open spec fn decimal(n: nat) -> Seq<char>
    decreases n,
{
    if n < 10 {
        seq![digit_char(n)]
    } else {
        decimal(n / 10).push(digit_char(n % 10))
    }
}

/// The last `width` upper-case hexadecimal digits of `n`, zeros included.
pub open spec fn hex(n: nat, width: nat) -> Seq<char>
    decreases width,
{
    if width == 0 {
        Seq::empty()
    } else {
        hex(n / 16, (width - 1) as nat).push(digit_char(n % 16))
    }
}

/// `count` times the character `c`; nothing where `count` is not positive.
pub open spec fn repeated(c: char, count: int) -> Seq<char> {
    Seq::new(
        if count > 0 {
            count as nat
        } else {
            0
        },
        |i: int| c,
    )
}

/// The upper-case hexadecimal digits of `n`, behind zeros where they are
/// fewer than `width`.
pub open spec fn hex_at_least(n: nat, width: nat) -> Seq<char>
    decreases n,
{
    if n < 16 {
        repeated('0', width - 1).push(digit_char(n))
    } else if width == 0 {
        hex_at_least(n / 16, 0).push(digit_char(n % 16))
    } else {
        hex_at_least(n / 16, (width - 1) as nat).push(digit_char(n % 16))
    }
}

/// `count` blanks; none where `count` is not positive.
pub open spec fn spaces(count: int) -> Seq<char> {
    repeated(' ', count)
}

/// `s` moved to the right edge of a column of `width` characters; unchanged
/// where it is wider.
pub open spec fn right_aligned(s: Seq<char>, width: nat) -> Seq<char> {
    spaces(width - s.len()) + s
}

/// `s` at the left edge of a column of `width` characters; unchanged where it
/// is wider.
pub open spec fn left_aligned(s: Seq<char>, width: nat) -> Seq<char> {
    s + spaces(width - s.len())
}

/// Appends one character. Trusted: `String::push` of the standard library,
/// which extends the string by exactly the given character.
#[verifier::external_body]
pub(crate) fn push_char(out: &mut String, c: char)
    ensures
        final(out)@ == old(out)@.push(c),
{
    out.push(c)
}

/// The character for the digit `d`.
fn digit(d: u8) -> (c: char)
    requires
        d < 16,
    ensures
        c == digit_char(d as nat),
{
    if d < 10 {
        (0x30 + d) as char
    } else {
        (0x37 + d) as char
    }
}

/// Appends the decimal numeral of `n` to `out`.
pub fn push_decimal(out: &mut String, n: u64)
    ensures
        final(out)@ == old(out)@ + decimal(n as nat),
    decreases n,
{
    if n >= 10 {
        push_decimal(out, n / 10);
    }
    push_char(out, digit((n % 10) as u8));
    proof {
        assert(final(out)@ =~= old(out)@ + decimal(n as nat));
    }
}

/// Appends the last `width` hexadecimal digits of `n` to `out`.
pub fn push_hex(out: &mut String, n: u64, width: usize)
    ensures
        final(out)@ == old(out)@ + hex(n as nat, width as nat),
    decreases width,
{
    if width > 0 {
        push_hex(out, n / 16, width - 1);
        push_char(out, digit((n % 16) as u8));
    }
    proof {
        assert(final(out)@ =~= old(out)@ + hex(n as nat, width as nat));
    }
}

/// Appends `count` times the character `c` to `out`.
pub fn push_repeated(out: &mut String, c: char, count: usize)
    ensures
        final(out)@ == old(out)@ + repeated(c, count as int),
{
    let mut i: usize = 0;
    while i < count
        invariant
            i <= count,
            out@ == old(out)@ + repeated(c, i as int),
        decreases count - i,
    {
        push_char(out, c);
        i += 1;
        proof {
            assert(out@ =~= old(out)@ + repeated(c, i as int));
        }
    }
}

/// Appends the hexadecimal digits of `n` to `out`, behind zeros where they
/// are fewer than `width`.
pub fn push_hex_at_least(out: &mut String, n: u64, width: usize)
    ensures
        final(out)@ == old(out)@ + hex_at_least(n as nat, width as nat),
    decreases n,
{
    if n < 16 {
        if width > 0 {
            push_repeated(out, '0', width - 1);
        }
        push_char(out, digit(n as u8));
    } else if width == 0 {
        push_hex_at_least(out, n / 16, 0);
        push_char(out, digit((n % 16) as u8));
    } else {
        push_hex_at_least(out, n / 16, width - 1);
        push_char(out, digit((n % 16) as u8));
    }
    proof {
        assert(final(out)@ =~= old(out)@ + hex_at_least(n as nat, width as nat));
    }
}

/// Appends `count` blanks to `out`.
pub fn push_spaces(out: &mut String, count: usize)
    ensures
        final(out)@ == old(out)@ + spaces(count as int),
{
    push_repeated(out, ' ', count);
}

/// The decimal numeral of `n`.
pub fn decimal_string(n: u64) -> (s: String)
    ensures
        s@ == decimal(n as nat),
{
    let mut s = String::new();
    push_decimal(&mut s, n);
    proof {
        assert(s@ =~= decimal(n as nat));
    }
    s
}

/// Appends `s`, right-aligned in a column of `width` characters.
pub fn push_right_aligned(out: &mut String, s: &str, width: usize)
    ensures
        final(out)@ == old(out)@ + right_aligned(s@, width as nat),
{
    let len = s.unicode_len();
    if len < width {
        push_spaces(out, width - len);
    }
    out.append(s);
    proof {
        assert(final(out)@ =~= old(out)@ + right_aligned(s@, width as nat));
    }
}

/// Appends `s`, left-aligned in a column of `width` characters.
pub fn push_left_aligned(out: &mut String, s: &str, width: usize)
    ensures
        final(out)@ == old(out)@ + left_aligned(s@, width as nat),
{
    let len = s.unicode_len();
    out.append(s);
    if len < width {
        push_spaces(out, width - len);
    }
    proof {
        assert(final(out)@ =~= old(out)@ + left_aligned(s@, width as nat));
    }
}

} // verus!
