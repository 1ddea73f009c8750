//! Building text: decimal and hexadecimal numbers, and alignment in a field
//! of a given width.
//!
//! Text is modelled as a sequence of characters. The executable functions
//! append to a `String` and are proved to append exactly what the
//! corresponding specification function describes.

use vstd::prelude::*;
use vstd::string::*;

verus! {

/// The character for a digit `d` below 16, upper case beyond 9.
pub open spec fn digit(d: int) -> char
    recommends
        0 <= d < 16,
{
    "0123456789ABCDEF"@[d]
}

/// `n` in decimal, without leading zeros.
pub open spec fn decimal(n: nat) -> Seq<char>
    decreases n,
{
    if n < 10 {
        seq![digit(n as int)]
    } else {
        decimal(n / 10).push(digit((n % 10) as int))
    }
}

/// A byte as two upper-case hexadecimal digits.
pub open spec fn hex_byte(b: u8) -> Seq<char> {
    seq![digit(b as int / 16), digit(b as int % 16)]
}

/// `count` copies of `fill`; nothing if `count` is not positive.
pub open spec fn repeat(fill: char, count: int) -> Seq<char> {
    Seq::new(
        if count > 0 {
            count as nat
        } else {
            0
        },
        |i: int| fill,
    )
}

/// `text` moved to the right end of a field of `width` characters, the room
/// before it taken by `fill`. Text wider than the field is left as it is.
pub open spec fn align_right(text: Seq<char>, width: int, fill: char) -> Seq<char> {
    repeat(fill, width - text.len()) + text
}

/// `text` at the left end of a field of `width` characters, the room after
/// it taken by spaces. Text wider than the field is left as it is.
pub open spec fn align_left(text: Seq<char>, width: int) -> Seq<char> {
    text + repeat(' ', width - text.len())
}

/// The number of digits of `n` in decimal.
pub proof fn lemma_decimal_len(n: nat)
    ensures
        decimal(n).len() >= 1,
        n < 10 <==> decimal(n).len() == 1,
        n >= 10 ==> decimal(n).len() == decimal(n / 10).len() + 1,
        n >= 1 ==> decimal(n).len() <= n,
    decreases n,
{
    if n >= 10 {
        lemma_decimal_len(n / 10);
    }
}

/// The one-character text of digit `d`.
fn digit_text(d: usize) -> (text: &'static str)
    requires
        d < 16,
    ensures
        text@ == seq![digit(d as int)],
{
    let digits = "0123456789ABCDEF";
    proof {
        reveal_strlit("0123456789ABCDEF");
        assert(is_ascii(digits)) by {
            assert forall|i: int| 0 <= i < digits@.len() implies (digits@[i] as nat) < 128 by {}
            vstd::utf8::is_ascii_chars_nat_bound(digits@);
        }
    }
    digits.substring_ascii(d, d + 1)
}

/// Appends `count` copies of the one character of `fill`.
pub(crate) fn append_repeated(out: &mut String, fill: &str, count: usize)
    requires
        fill@.len() == 1,
    ensures
        final(out)@ == old(out)@ + repeat(fill@[0], count as int),
{
    let mut done: usize = 0;
    while done < count
        invariant
            done <= count,
            fill@.len() == 1,
            out@ == old(out)@ + repeat(fill@[0], done as int),
        decreases count - done,
    {
        out.append(fill);
        done += 1;
        assert(out@ == old(out)@ + repeat(fill@[0], done as int)) by {
            assert(fill@ == seq![fill@[0]]);
            assert(repeat(fill@[0], done as int) == repeat(fill@[0], done - 1) + fill@);
        }
    }
    assert(old(out)@ + repeat(fill@[0], 0) == old(out)@);
}

/// Appends `n` in decimal.
pub(crate) fn append_decimal(out: &mut String, n: usize)
    ensures
        final(out)@ == old(out)@ + decimal(n as nat),
    decreases n,
{
    if n >= 10 {
        append_decimal(out, n / 10);
    }
    out.append(digit_text(n % 10));
    assert(out@ == old(out)@ + decimal(n as nat));
}

/// The number of digits of `n` in decimal.
pub(crate) fn decimal_width(n: usize) -> (width: usize)
    ensures
        width == decimal(n as nat).len(),
{
    let mut width: usize = 1;
    let mut rest: usize = n;
    proof {
        lemma_decimal_len(n as nat);
    }
    while rest >= 10
        invariant
            width + decimal(rest as nat).len() == 1 + decimal(n as nat).len(),
            decimal(n as nat).len() <= usize::MAX,
        decreases rest,
    {
        proof {
            lemma_decimal_len(rest as nat);
            lemma_decimal_len((rest / 10) as nat);
        }
        rest = rest / 10;
        width += 1;
    }
    proof {
        lemma_decimal_len(rest as nat);
    }
    width
}

/// Appends `n` in decimal at the right end of a field of `width` characters,
/// filled up with the one character of `fill`.
pub(crate) fn append_decimal_right(out: &mut String, n: usize, width: usize, fill: &str)
    requires
        fill@.len() == 1,
    ensures
        final(out)@ == old(out)@ + align_right(decimal(n as nat), width as int, fill@[0]),
{
    let digits = decimal_width(n);
    if digits < width {
        append_repeated(out, fill, width - digits);
    } else {
        assert(repeat(fill@[0], width - digits) == Seq::<char>::empty());
    }
    append_decimal(out, n);
    assert(out@ == old(out)@ + align_right(decimal(n as nat), width as int, fill@[0]));
}

/// Appends `n` in decimal at the left end of a field of `width` characters,
/// filled up with spaces.
pub(crate) fn append_decimal_left(out: &mut String, n: usize, width: usize)
    ensures
        final(out)@ == old(out)@ + align_left(decimal(n as nat), width as int),
{
    let digits = decimal_width(n);
    append_decimal(out, n);
    proof {
        reveal_strlit(" ");
    }
    if digits < width {
        append_repeated(out, " ", width - digits);
    } else {
        assert(repeat(' ', width - digits) == Seq::<char>::empty());
    }
    assert(out@ == old(out)@ + align_left(decimal(n as nat), width as int));
}

/// Appends `text` at the left end of a field of `width` characters, filled
/// up with spaces.
pub(crate) fn append_left(out: &mut String, text: &str, width: usize)
    ensures
        final(out)@ == old(out)@ + align_left(text@, width as int),
{
    let len = text.unicode_len();
    out.append(text);
    proof {
        reveal_strlit(" ");
    }
    if len < width {
        append_repeated(out, " ", width - len);
    } else {
        assert(repeat(' ', width - len) == Seq::<char>::empty());
    }
    assert(out@ == old(out)@ + align_left(text@, width as int));
}

/// Appends `b` as two upper-case hexadecimal digits.
pub(crate) fn append_hex_byte(out: &mut String, b: u8)
    ensures
        final(out)@ == old(out)@ + hex_byte(b),
{
    out.append(digit_text((b / 16) as usize));
    out.append(digit_text((b % 16) as usize));
    assert(out@ == old(out)@ + hex_byte(b));
}

} // verus!
