//! Text as the characters it holds.
//!
//! A piece of text is a sequence of characters to every contract in this crate,
//! and the functions here move between that sequence and the strings a caller
//! holds.

use vstd::prelude::*;
use vstd::utf8::*;

verus! {

/// `String::push` puts one character at the end of a string and changes nothing
/// before it.
pub assume_specification[ String::push ](s: &mut String, c: char)
    ensures
        final(s)@ == old(s)@.push(c),
;

/// `std::str::from_utf8` reads bytes as text exactly where they are UTF-8, and
/// the text is the one the bytes encode.
#[verifier::external_body]
pub(crate) fn read_utf8(bytes: &[u8]) -> (text: Option<&str>)
    ensures
        match text {
            Some(read) => valid_utf8(bytes@) && read@ == decode_utf8(bytes@),
            None => !valid_utf8(bytes@),
        },
{
    std::str::from_utf8(bytes).ok()
}

/// The characters of each of some borrowed strings.
pub open spec fn str_texts(strings: Seq<&str>) -> Seq<Seq<char>> {
    strings.map_values(|held: &str| held@)
}

/// The characters of each of some strings.
pub open spec fn texts(strings: Seq<String>) -> Seq<Seq<char>> {
    strings.map_values(|held: String| held@)
}

/// The characters of a piece of text, in order.
pub fn characters(text: &str) -> (chars: Vec<char>)
    ensures
        chars@ == text@,
{
    let mut chars: Vec<char> = Vec::new();
    for c in it: text.chars()
        invariant
            it.seq() == text@,
            chars@ == text@.take(it.index() as int),
    {
        chars.push(c);
    }
    chars
}

/// The text a run of characters spells.
pub fn spelled(chars: &[char]) -> (text: String)
    ensures
        text@ == chars@,
{
    let mut text = String::new();
    let mut i: usize = 0;
    while i < chars.len()
        invariant
            i <= chars@.len(),
            text@ == chars@.take(i as int),
        decreases chars@.len() - i,
    {
        text.push(chars[i]);
        i += 1;
    }
    text
}

/// A copy of each of some strings.
pub fn copies(strings: &[String]) -> (made: Vec<String>)
    ensures
        texts(made@) == texts(strings@),
{
    let mut made: Vec<String> = Vec::new();
    let ghost all = texts(strings@);
    let mut i: usize = 0;
    while i < strings.len()
        invariant
            i <= strings@.len(),
            all == texts(strings@),
            texts(made@) == all.take(i as int),
        decreases strings@.len() - i,
    {
        let ghost before = texts(made@);
        made.push(strings[i].clone());
        i += 1;
        assert(texts(made@) =~= before.push(all[i - 1]));
        assert(all.take(i as int) =~= before.push(all[i - 1]));
    }
    assert(all.take(i as int) =~= all);
    made
}

/// Whether two pieces of text are the same, character for character.
pub fn same(one: &str, other: &str) -> (alike: bool)
    ensures
        alike == (one@ == other@),
{
    let one = characters(one);
    let other = characters(other);
    same_characters(&one, &other)
}

/// Whether two runs of characters are the same.
pub fn same_characters(one: &[char], other: &[char]) -> (alike: bool)
    ensures
        alike == (one@ == other@),
{
    if one.len() != other.len() {
        return false;
    }
    let mut i: usize = 0;
    while i < one.len()
        invariant
            i <= one@.len(),
            one@.len() == other@.len(),
            forall|j: int| 0 <= j < i ==> one@[j] == other@[j],
        decreases one@.len() - i,
    {
        if one[i] != other[i] {
            assert(one@[i as int] != other@[i as int]);
            return false;
        }
        i += 1;
    }
    assert(one@ =~= other@);
    true
}

/// The character a digit from nought to nine is written as.
pub open spec fn digit(n: int) -> char {
    (('0' as u32) + n) as char
}

/// A number written in decimal, without a leading nought.
pub open spec fn decimal_text(n: nat) -> Seq<char>
    decreases n,
{
    if n < 10 {
        seq![digit(n as int)]
    } else {
        decimal_text(n / 10).push(digit((n % 10) as int))
    }
}

/// The character of one decimal digit.
pub fn digit_of(n: u64) -> (c: char)
    requires
        n < 10,
    ensures
        c == digit(n as int),
{
    ((n as u8) + 48) as char
}

/// A number written in decimal.
pub fn decimal(n: u64) -> (text: String)
    ensures
        text@ == decimal_text(n as nat),
    decreases n,
{
    if n < 10 {
        let mut text = String::new();
        text.push(digit_of(n));
        assert(text@ == seq![digit(n as int)]);
        text
    } else {
        let mut text = decimal(n / 10);
        text.push(digit_of(n % 10));
        text
    }
}

/// The lowercase hexadecimal digit of a number below sixteen.
pub open spec fn lower_hex(n: int) -> char {
    if n < 10 {
        (('0' as u32) + n) as char
    } else {
        (('a' as u32) + n - 10) as char
    }
}

/// The lowercase hexadecimal digit of a number below sixteen.
pub fn lower_hex_digit(n: u8) -> (c: char)
    requires
        n < 16,
    ensures
        c == lower_hex(n as int),
{
    if n < 10 {
        (n + 0x30) as char
    } else {
        (n - 10 + 0x61) as char
    }
}

// What writing a number promises.

/// A digit is written as itself, and below sixteen in lowercase hexadecimal.
pub proof fn law_a_digit_is_written_as_itself(n: int)
    requires
        0 <= n < 16,
    ensures
        n < 10 ==> digit(n) == seq!['0', '1', '2', '3', '4', '5', '6', '7', '8', '9'][n],
        lower_hex(n) == seq![
            '0',
            '1',
            '2',
            '3',
            '4',
            '5',
            '6',
            '7',
            '8',
            '9',
            'a',
            'b',
            'c',
            'd',
            'e',
            'f',
        ][n],
{
}

/// A number is written digit by digit, the last of them last, and without a
/// nought in front.
pub proof fn law_a_number_is_written_digit_by_digit(n: nat, last: nat)
    requires
        last < 10,
    ensures
        decimal_text(last) == seq![digit(last as int)],
        n > 0 ==> decimal_text(10 * n + last) == decimal_text(n).push(digit(last as int)),
        n > 0 ==> decimal_text(n)[0] != '0',
        decimal_text(n).len() > 0,
    decreases n,
{
    assert((10 * n + last) / 10 == n && (10 * n + last) % 10 == last);
    if n >= 10 {
        law_a_number_is_written_digit_by_digit(n / 10, last);
    }
}

} // verus!
