//! Text of the labels drawn beside the network: how a character is named,
//! and hexadecimal and decimal numerals.
use vstd::prelude::*;

verus! {

/// Which point of a label its position gives.
#[derive(Debug, Clone, Copy, PartialEq, Eq, Structural)]
pub enum TextAnchor {
    Left,
    Center,
    Right,
}

/// The upper-case hexadecimal digit of `d` (below 16).
pub open spec fn hex_digit_char(d: nat) -> char {
    if d < 10 {
        (d + 48) as char
    } else {
        (d + 55) as char
    }
}

/// The decimal digit of `d` (below 10).
pub open spec fn dec_digit_char(d: nat) -> char {
    (d + 48) as char
}

/// `n` in upper-case hexadecimal, most significant digit first, padded with
/// zeros to at least `width` digits (`format!("{:0width$X}", n)`); empty
/// only for `n == 0` and `width == 0`.
pub open spec fn hex_numeral(n: nat, width: nat) -> Seq<char>
    decreases n + width,
{
    if n == 0 && width == 0 {
        seq![]
    } else {
        let rest_width: nat = if width > 0 {
            (width - 1) as nat
        } else {
            0
        };
        hex_numeral(n / 16, rest_width).push(hex_digit_char(n % 16))
    }
}

/// `n` in decimal, most significant digit first, no leading zeros
/// (`format!("{}", n)`).
pub open spec fn dec_numeral(n: nat) -> Seq<char>
    decreases n,
{
    if n < 10 {
        seq![dec_digit_char(n)]
    } else {
        dec_numeral(n / 10).push(dec_digit_char(n % 10))
    }
}

/// The number that the upper-case hexadecimal digit `c` stands for.
pub open spec fn hex_digit_value(c: char) -> int {
    if (c as u32) <= 0x39 {
        (c as u32) - 48
    } else {
        (c as u32) - 55
    }
}

/// The number that a numeral of upper-case hexadecimal digits stands for.
pub open spec fn hex_value(digits: Seq<char>) -> int
    decreases digits.len(),
{
    if digits.len() == 0 {
        0
    } else {
        hex_value(digits.drop_last()) * 16 + hex_digit_value(digits.last())
    }
}

/// Whether `c` is an upper-case hexadecimal digit.
pub open spec fn is_upper_hex_digit(c: char) -> bool {
    (0x30 <= (c as u32) <= 0x39) || (0x41 <= (c as u32) <= 0x46)
}

/// A hexadecimal numeral reads back as the number it was written for; it is
/// made of upper-case hexadecimal digits, at least `width` of them, with no
/// leading zero beyond the padding, and it is empty only for zero padded to
/// no digits.
pub proof fn lemma_hex_numeral_value(n: nat, width: nat)
    ensures
        hex_value(hex_numeral(n, width)) == n,
        hex_numeral(n, width).len() >= width,
        hex_numeral(n, width).len() == 0 <==> (n == 0 && width == 0),
        hex_numeral(n, width).len() > width ==> hex_numeral(n, width)[0] != '0',
        forall|i: int|
            0 <= i < hex_numeral(n, width).len() ==> is_upper_hex_digit(
                #[trigger] hex_numeral(n, width)[i],
            ),
    decreases n + width,
{
    if !(n == 0 && width == 0) {
        let rest_width: nat = if width > 0 {
            (width - 1) as nat
        } else {
            0
        };
        lemma_hex_numeral_value(n / 16, rest_width);
        let front = hex_numeral(n / 16, rest_width);
        let d = (n % 16) as nat;
        let whole = hex_numeral(n, width);
        assert(whole == front.push(hex_digit_char(d)));
        assert(front.push(hex_digit_char(d)).drop_last() =~= front);
        assert(hex_digit_value(hex_digit_char(d)) == d);
        assert forall|i: int| 0 <= i < whole.len() implies is_upper_hex_digit(#[trigger] whole[i]) by {
            if i < front.len() {
                assert(whole[i] == front[i]);
            }
        }
        if whole.len() > width && front.len() > 0 {
            assert(whole[0] == front[0]);
        }
    }
}

/// The digit value of the decimal digit `c`.
pub open spec fn dec_digit_value(c: char) -> int {
    (c as u32) - 48
}

/// The number that a numeral of decimal digits stands for.
pub open spec fn dec_value(digits: Seq<char>) -> int
    decreases digits.len(),
{
    if digits.len() == 0 {
        0
    } else {
        dec_value(digits.drop_last()) * 10 + dec_digit_value(digits.last())
    }
}

/// A decimal numeral reads back as the number it was written for; it is made
/// of decimal digits, is never empty, and starts with `0` only for zero.
pub proof fn lemma_dec_numeral_value(n: nat)
    ensures
        dec_value(dec_numeral(n)) == n,
        dec_numeral(n).len() >= 1,
        n > 0 ==> dec_numeral(n)[0] != '0',
        forall|i: int|
            0 <= i < dec_numeral(n).len() ==> 0x30 <= (#[trigger] dec_numeral(n)[i] as u32) <= 0x39,
    decreases n,
{
    let whole = dec_numeral(n);
    if n >= 10 {
        lemma_dec_numeral_value(n / 10);
        let front = dec_numeral(n / 10);
        let d = (n % 10) as nat;
        assert(whole == front.push(dec_digit_char(d)));
        assert(front.push(dec_digit_char(d)).drop_last() =~= front);
        assert(dec_digit_value(dec_digit_char(d)) == d);
        assert(whole[0] == front[0]);
        assert forall|i: int| 0 <= i < whole.len() implies 0x30 <= (#[trigger] whole[i] as u32)
            <= 0x39 by {
            if i < front.len() {
                assert(whole[i] == front[i]);
            }
        }
    } else {
        assert(whole == seq![dec_digit_char(n)]);
        assert(whole.drop_last() =~= Seq::<char>::empty());
        assert(dec_value(Seq::<char>::empty()) == 0);
        assert(dec_digit_value(dec_digit_char(n)) == n);
        assert(dec_value(whole) == dec_value(whole.drop_last()) * 10 + dec_digit_value(whole.last()));
    }
}

/// A numeral of two digits for numbers below 256.
proof fn lemma_two_hex_digits(n: nat)
    requires
        n < 256,
    ensures
        hex_numeral(n, 2).len() == 2,
{
    let q = n / 16;
    assert(q / 16 == 0);
    assert(hex_numeral(q / 16, 0).len() == 0);
    assert(hex_numeral(q, 1) == hex_numeral(q / 16, 0).push(hex_digit_char(q % 16)));
    assert(hex_numeral(n, 2) == hex_numeral(q, 1).push(hex_digit_char(n % 16)));
}

/// Two characters have the same code point only if they are the same.
pub(crate) proof fn lemma_code_point_injective(a: char, b: char)
    ensures
        (a as u32 == b as u32) <==> a == b,
{
    assert(a as u32 == a as int);
    assert(b as u32 == b as int);
}

/// The label of a character that has no name of its own is `U+` and
/// hexadecimal digits that read back as its code point: two of them for
/// ASCII, at least four otherwise.
pub proof fn lemma_code_point_label(c: char)
    requires
        !is_ascii_graphic(c),
        c != ' ',
        c != '\n',
        c != '\r',
        c != '\t',
    ensures
        character_label_text(c)[0] == 'U',
        character_label_text(c)[1] == '+',
        (c as u32) < 0x80 ==> character_label_text(c).len() == 4,
        (c as u32) >= 0x80 ==> character_label_text(c).len() >= 6,
        hex_value(character_label_text(c).subrange(2, character_label_text(c).len() as int))
            == c as u32,
{
    let code = c as u32 as nat;
    let label = character_label_text(c);
    if code < 0x80 {
        lemma_two_hex_digits(code);
        lemma_hex_numeral_value(code, 2);
        assert(label.subrange(2, label.len() as int) =~= hex_numeral(code, 2));
    } else {
        lemma_hex_numeral_value(code, 4);
        assert(label.subrange(2, label.len() as int) =~= hex_numeral(code, 4));
    }
}

/// Every label is a nonempty run of printable, non-space ASCII characters,
/// and a printable ASCII character other than space is its own label.
pub proof fn lemma_labels_are_visible(c: char)
    ensures
        character_label_text(c).len() > 0,
        forall|i: int|
            0 <= i < character_label_text(c).len() ==> is_ascii_graphic(
                #[trigger] character_label_text(c)[i],
            ),
        is_ascii_graphic(c) ==> character_label_text(c) == seq![c],
{
    let label = character_label_text(c);
    let code = c as u32 as nat;
    if !(is_ascii_graphic(c) || c == ' ' || c == '\n' || c == '\r' || c == '\t') {
        let width: nat = if code < 0x80 {
            2
        } else {
            4
        };
        lemma_hex_numeral_value(code, width);
        let digits = hex_numeral(code, width);
        assert(label == seq!['U', '+'] + digits);
        assert forall|i: int| 0 <= i < label.len() implies is_ascii_graphic(#[trigger] label[i]) by {
            if i >= 2 {
                assert(label[i] == digits[i - 2]);
                assert(is_upper_hex_digit(digits[i - 2]));
            }
        }
    }
}

/// Distinct characters get distinct labels, so a label names its character.
pub proof fn lemma_character_label_injective(a: char, b: char)
    ensures
        character_label_text(a) == character_label_text(b) ==> a == b,
{
    let la = character_label_text(a);
    let lb = character_label_text(b);
    if la == lb {
        let named_a = is_ascii_graphic(a) || a == ' ' || a == '\n' || a == '\r' || a == '\t';
        let named_b = is_ascii_graphic(b) || b == ' ' || b == '\n' || b == '\r' || b == '\t';
        if !named_a {
            lemma_code_point_label(a);
        }
        if !named_b {
            lemma_code_point_label(b);
        }
        if !named_a && !named_b {
            lemma_code_point_injective(a, b);
        } else if named_a && named_b {
            if is_ascii_graphic(a) && is_ascii_graphic(b) {
                assert(la[0] == a);
                assert(lb[0] == b);
            }
        } else {
            assert(la.len() != lb.len() || la[0] != lb[0]);
        }
    }
}

/// Whether `c` is a printable ASCII character other than space.
pub open spec fn is_ascii_graphic(c: char) -> bool {
    0x21 <= (c as u32) <= 0x7E
}

/// The name under which a character is shown: a word or an escape for
/// space and the usual control characters, the character itself when it is
/// printable ASCII, and its code point as `U+` and at least two (ASCII) or
/// four (other) upper-case hexadecimal digits otherwise.
pub open spec fn character_label_text(c: char) -> Seq<char> {
    if c == ' ' {
        seq!['s', 'p', 'a', 'c', 'e']
    } else if c == '\n' {
        seq!['\\', 'n']
    } else if c == '\r' {
        seq!['\\', 'r']
    } else if c == '\t' {
        seq!['\\', 't']
    } else if is_ascii_graphic(c) {
        seq![c]
    } else if (c as u32) < 0x80 {
        seq!['U', '+'] + hex_numeral(c as u32 as nat, 2)
    } else {
        seq!['U', '+'] + hex_numeral(c as u32 as nat, 4)
    }
}

/// Calls `String::push`, which std documents as appending `c` to the end of
/// the string: the characters afterwards are the old ones followed by `c`.
#[verifier::external_body]
pub(crate) fn push_char(s: &mut String, c: char)
    ensures
        final(s)@ == old(s)@.push(c),
{
    s.push(c);
}

/// The upper-case hexadecimal digit of `d`.
fn hex_digit(d: u32) -> (c: char)
    requires
        d < 16,
    ensures
        c == hex_digit_char(d as nat),
{
    match d {
        0 => '0',
        1 => '1',
        2 => '2',
        3 => '3',
        4 => '4',
        5 => '5',
        6 => '6',
        7 => '7',
        8 => '8',
        9 => '9',
        10 => 'A',
        11 => 'B',
        12 => 'C',
        13 => 'D',
        14 => 'E',
        _ => 'F',
    }
}

/// The decimal digit of `d`.
fn dec_digit(d: usize) -> (c: char)
    requires
        d < 10,
    ensures
        c == dec_digit_char(d as nat),
{
    match d {
        0 => '0',
        1 => '1',
        2 => '2',
        3 => '3',
        4 => '4',
        5 => '5',
        6 => '6',
        7 => '7',
        8 => '8',
        _ => '9',
    }
}

/// Appends every character of `chars` to `s`.
pub(crate) fn push_all(s: &mut String, chars: &Vec<char>)
    ensures
        final(s)@ == old(s)@ + chars@,
{
    let mut i: usize = 0;
    while i < chars.len()
        invariant
            i <= chars@.len(),
            s@ == old(s)@ + chars@.subrange(0, i as int),
        decreases chars@.len() - i,
    {
        push_char(s, chars[i]);
        i = i + 1;
        assert(s@ =~= old(s)@ + chars@.subrange(0, i as int));
    }
    assert(chars@.subrange(0, chars@.len() as int) =~= chars@);
}

/// Appends `n` in upper-case hexadecimal, padded to `width` digits.
pub fn push_hex(s: &mut String, n: u32, width: u32)
    ensures
        final(s)@ == old(s)@ + hex_numeral(n as nat, width as nat),
{
    let mut digits: Vec<char> = Vec::new();
    let mut m: u32 = n;
    let mut w: u32 = width;
    while m > 0 || w > 0
        invariant
            hex_numeral(m as nat, w as nat) + digits@ == hex_numeral(n as nat, width as nat),
        decreases m + w,
    {
        let d = hex_digit(m % 16);
        let ghost before = digits@;
        digits.insert(0, d);
        proof {
            let rest: nat = if w > 0 {
                (w - 1) as nat
            } else {
                0
            };
            assert(hex_numeral(m as nat, w as nat) == hex_numeral((m / 16) as nat, rest).push(d));
            assert(hex_numeral((m / 16) as nat, rest) + digits@ =~= hex_numeral(m as nat, w as nat)
                + before);
        }
        m = m / 16;
        if w > 0 {
            w = w - 1;
        }
    }
    assert(hex_numeral(0, 0) + digits@ =~= digits@);
    push_all(s, &digits);
}

/// Appends `n` in decimal.
pub fn push_decimal(s: &mut String, n: usize)
    ensures
        final(s)@ == old(s)@ + dec_numeral(n as nat),
{
    let mut digits: Vec<char> = Vec::new();
    let mut m: usize = n;
    while m >= 10
        invariant
            dec_numeral(m as nat) + digits@ == dec_numeral(n as nat),
        decreases m,
    {
        let d = dec_digit(m % 10);
        let ghost before = digits@;
        digits.insert(0, d);
        proof {
            assert(dec_numeral(m as nat) == dec_numeral((m / 10) as nat).push(d));
            assert(dec_numeral((m / 10) as nat) + digits@ =~= dec_numeral(m as nat) + before);
        }
        m = m / 10;
    }
    let d = dec_digit(m);
    let ghost before = digits@;
    digits.insert(0, d);
    assert(digits@ =~= dec_numeral(m as nat) + before);
    push_all(s, &digits);
}

/// The name under which a character is shown (see `character_label_text`).
pub fn character_label(character: char) -> (label: String)
    ensures
        label@ == character_label_text(character),
{
    let mut label = String::new();
    if character == ' ' {
        push_char(&mut label, 's');
        push_char(&mut label, 'p');
        push_char(&mut label, 'a');
        push_char(&mut label, 'c');
        push_char(&mut label, 'e');
        assert(label@ =~= seq!['s', 'p', 'a', 'c', 'e']);
    } else if character == '\n' {
        push_char(&mut label, '\\');
        push_char(&mut label, 'n');
        assert(label@ =~= seq!['\\', 'n']);
    } else if character == '\r' {
        push_char(&mut label, '\\');
        push_char(&mut label, 'r');
        assert(label@ =~= seq!['\\', 'r']);
    } else if character == '\t' {
        push_char(&mut label, '\\');
        push_char(&mut label, 't');
        assert(label@ =~= seq!['\\', 't']);
    } else {
        let code = character as u32;
        if 0x21 <= code && code <= 0x7E {
            push_char(&mut label, character);
            assert(label@ =~= seq![character]);
        } else {
            push_char(&mut label, 'U');
            push_char(&mut label, '+');
            assert(label@ =~= seq!['U', '+']);
            if code < 0x80 {
                push_hex(&mut label, code, 2);
            } else {
                push_hex(&mut label, code, 4);
            }
        }
    }
    label
}

} // verus!
