//! How a title spells its brackets, its words and its numbers.
//!
//! What each function here answers is asked of one character or of one word, and
//! says nothing of where in a title it stands.

use vstd::prelude::*;
use vstd::slice::slice_subrange;

use crate::recognise::glyph::Glyph;
#[allow(unused_imports)]
use crate::recognise::glyph::chars;
use crate::text::characters;

verus! {

// Characters.

/// A letter in ASCII lowercase, where it is one in ASCII uppercase.
pub open spec fn folded(c: char) -> char {
    if 'A' <= c && c <= 'Z' {
        ((c as u32) + 32) as char
    } else {
        c
    }
}

/// Two words that differ at most in the case of ASCII letters.
pub open spec fn alike_but_for_case(one: Seq<char>, other: Seq<char>) -> bool {
    &&& one.len() == other.len()
    &&& forall|i: int| 0 <= i < one.len() ==> folded(one[i]) == folded(other[i])
}

pub open spec fn is_digit(c: char) -> bool {
    '0' <= c && c <= '9'
}

/// The number a digit stands for.
pub open spec fn digit_value(c: char) -> nat {
    ((c as u32) - ('0' as u32)) as nat
}

/// The bracket that closes what this one opens, as NFKC leaves them.
///
/// The full-width forms of the ASCII brackets are not listed, because NFKC has
/// already turned them into the ASCII ones by the time this is read.
pub open spec fn closing(c: char) -> Option<char> {
    if c == '(' {
        Some(')')
    } else if c == '[' {
        Some(']')
    } else if c == '{' {
        Some('}')
    } else if c == '<' {
        Some('>')
    } else if c == '【' {
        Some('】')
    } else if c == '「' {
        Some('」')
    } else if c == '『' {
        Some('』')
    } else if c == '〈' {
        Some('〉')
    } else if c == '《' {
        Some('》')
    } else if c == '〔' {
        Some('〕')
    } else if c == '〖' {
        Some('〗')
    } else if c == '〘' {
        Some('〙')
    } else if c == '〚' {
        Some('〛')
    } else {
        None
    }
}

pub open spec fn opens(c: char) -> bool {
    closing(c) is Some
}

pub open spec fn closes(c: char) -> bool {
    c == ')' || c == ']' || c == '}' || c == '>' || c == '】' || c == '」' || c == '』' || c
        == '〉' || c == '》' || c == '〕' || c == '〗' || c == '〙' || c == '〛'
}

pub open spec fn is_dash(c: char) -> bool {
    c == '-' || c == '\u{AD}' || ('\u{2010}' <= c && c <= '\u{2015}') || c == '\u{2212}'
}

/// What stands between words: whitespace, the zero-width space the parser
/// counts as a space, and the underscore it reads as one in a name joined by
/// underscores.
pub open spec fn is_word_break(g: Glyph) -> bool {
    g.space || g.c == '_' || g.c == '\u{200B}'
}

/// What ends a token for the parser: a bracket, or one of its separators.
pub open spec fn is_token_break(g: Glyph) -> bool {
    is_word_break(g) || opens(g.c) || closes(g.c) || is_dash(g.c) || g.c == '.' || g.c == ','
        || g.c == '&' || g.c == '~' || g.c == '+' || g.c == '|' || g.c == ':'
}

pub(crate) fn fold(c: char) -> (f: char)
    ensures
        f == folded(c),
{
    if 'A' <= c && c <= 'Z' {
        ((c as u8) + 32) as char
    } else {
        c
    }
}

pub(crate) fn closing_of(c: char) -> (close: Option<char>)
    ensures
        close == closing(c),
{
    if c == '(' {
        Some(')')
    } else if c == '[' {
        Some(']')
    } else if c == '{' {
        Some('}')
    } else if c == '<' {
        Some('>')
    } else if c == '【' {
        Some('】')
    } else if c == '「' {
        Some('」')
    } else if c == '『' {
        Some('』')
    } else if c == '〈' {
        Some('〉')
    } else if c == '《' {
        Some('》')
    } else if c == '〔' {
        Some('〕')
    } else if c == '〖' {
        Some('〗')
    } else if c == '〘' {
        Some('〙')
    } else if c == '〚' {
        Some('〛')
    } else {
        None
    }
}

pub(crate) fn is_opening(c: char) -> (answer: bool)
    ensures
        answer == opens(c),
{
    closing_of(c).is_some()
}

pub(crate) fn is_closing(c: char) -> (answer: bool)
    ensures
        answer == closes(c),
{
    c == ')' || c == ']' || c == '}' || c == '>' || c == '】' || c == '」' || c == '』' || c
        == '〉' || c == '》' || c == '〕' || c == '〗' || c == '〙' || c == '〛'
}

pub(crate) fn dashes(c: char) -> (answer: bool)
    ensures
        answer == is_dash(c),
{
    c == '-' || c == '\u{AD}' || ('\u{2010}' <= c && c <= '\u{2015}') || c == '\u{2212}'
}

pub(crate) fn breaks_words(g: Glyph) -> (answer: bool)
    ensures
        answer == is_word_break(g),
{
    g.space || g.c == '_' || g.c == '\u{200B}'
}

pub(crate) fn breaks_tokens(g: Glyph) -> (answer: bool)
    ensures
        answer == is_token_break(g),
{
    breaks_words(g) || is_opening(g.c) || is_closing(g.c) || dashes(g.c) || g.c == '.' || g.c
        == ',' || g.c == '&' || g.c == '~' || g.c == '+' || g.c == '|' || g.c == ':'
}

// Words.

/// Whether a word is this one, whatever the case of its ASCII letters.
pub(crate) fn is_word(word: &[Glyph], marker: &str) -> (answer: bool)
    ensures
        answer == alike_but_for_case(chars(word@), marker@),
{
    let letters = characters(marker);
    if word.len() != letters.len() {
        return false;
    }
    let mut i: usize = 0;
    while i < word.len()
        invariant
            i <= word@.len(),
            letters@ == marker@,
            word@.len() == marker@.len(),
            forall|j: int| 0 <= j < i ==> folded(chars(word@)[j]) == folded(marker@[j]),
        decreases word@.len() - i,
    {
        if fold(word[i].c) != fold(letters[i]) {
            assert(folded(chars(word@)[i as int]) != folded(marker@[i as int]));
            return false;
        }
        i += 1;
    }
    true
}

/// Whether a word is this one, letter for letter.
pub(crate) fn is_exactly(word: &[Glyph], spelling: &str) -> (answer: bool)
    ensures
        answer == (chars(word@) == spelling@),
{
    let letters = characters(spelling);
    if word.len() != letters.len() {
        return false;
    }
    let mut i: usize = 0;
    while i < word.len()
        invariant
            i <= word@.len(),
            letters@ == spelling@,
            word@.len() == spelling@.len(),
            forall|j: int| 0 <= j < i ==> chars(word@)[j] == spelling@[j],
        decreases word@.len() - i,
    {
        if word[i].c != letters[i] {
            assert(chars(word@)[i as int] != spelling@[i as int]);
            return false;
        }
        i += 1;
    }
    assert(chars(word@) =~= spelling@);
    true
}

/// The rest of a word after a prefix, which is matched whatever the case of its
/// ASCII letters.
pub open spec fn rest_after(word: Seq<char>, prefix: Seq<char>) -> Option<Seq<char>> {
    if prefix.len() <= word.len() && alike_but_for_case(word.take(prefix.len() as int), prefix) {
        Some(word.skip(prefix.len() as int))
    } else {
        None
    }
}

pub(crate) fn after_prefix<'a>(word: &'a [Glyph], prefix: &str) -> (rest: Option<&'a [Glyph]>)
    ensures
        match (rest, rest_after(chars(word@), prefix@)) {
            (Some(read), Some(expected)) => chars(read@) == expected,
            (None, None) => true,
            _ => false,
        },
{
    let length = characters(prefix).len();
    if word.len() < length {
        return None;
    }
    let head = slice_subrange(word, 0, length);
    assert(chars(head@) =~= chars(word@).take(length as int));
    if is_word(head, prefix) {
        let rest = slice_subrange(word, length, word.len());
        assert(chars(rest@) =~= chars(word@).skip(length as int));
        Some(rest)
    } else {
        None
    }
}

/// One or two digits, as a number.
pub open spec fn short_number(word: Seq<char>) -> Option<nat> {
    if word.len() == 1 && is_digit(word[0]) {
        Some(digit_value(word[0]))
    } else if word.len() == 2 && is_digit(word[0]) && is_digit(word[1]) {
        Some(10 * digit_value(word[0]) + digit_value(word[1]))
    } else {
        None
    }
}

/// A number read by exec code is the number a contract speaks of.
pub open spec fn reads(number: Option<u32>, expected: Option<nat>) -> bool {
    match (number, expected) {
        (Some(read), Some(n)) => read == n,
        (None, None) => true,
        _ => false,
    }
}

pub(crate) fn digit_of(c: char) -> (digit: Option<u32>)
    ensures
        match digit {
            Some(n) => is_digit(c) && n == digit_value(c) && n < 10,
            None => !is_digit(c),
        },
{
    if '0' <= c && c <= '9' {
        Some((c as u32) - ('0' as u32))
    } else {
        None
    }
}

pub(crate) fn read_short_number(word: &[Glyph]) -> (number: Option<u32>)
    ensures
        reads(number, short_number(chars(word@))),
{
    if word.len() == 1 {
        assert(chars(word@)[0] == word@[0].c);
        digit_of(word[0].c)
    } else if word.len() == 2 {
        assert(chars(word@)[0] == word@[0].c);
        assert(chars(word@)[1] == word@[1].c);
        match (digit_of(word[0].c), digit_of(word[1].c)) {
            (Some(tens), Some(ones)) => Some(10 * tens + ones),
            _ => None,
        }
    } else {
        None
    }
}

/// An uppercase numeral from `II` to `IX`.
pub open spec fn numeral(word: Seq<char>) -> Option<nat> {
    if word == "II"@ {
        Some(2)
    } else if word == "III"@ {
        Some(3)
    } else if word == "IV"@ {
        Some(4)
    } else if word == "V"@ {
        Some(5)
    } else if word == "VI"@ {
        Some(6)
    } else if word == "VII"@ {
        Some(7)
    } else if word == "VIII"@ {
        Some(8)
    } else if word == "IX"@ {
        Some(9)
    } else {
        None
    }
}

pub(crate) fn read_numeral(word: &[Glyph]) -> (number: Option<u32>)
    ensures
        reads(number, numeral(chars(word@))),
{
    if is_exactly(word, "II") {
        Some(2)
    } else if is_exactly(word, "III") {
        Some(3)
    } else if is_exactly(word, "IV") {
        Some(4)
    } else if is_exactly(word, "V") {
        Some(5)
    } else if is_exactly(word, "VI") {
        Some(6)
    } else if is_exactly(word, "VII") {
        Some(7)
    } else if is_exactly(word, "VIII") {
        Some(8)
    } else if is_exactly(word, "IX") {
        Some(9)
    } else {
        None
    }
}

/// A season after the word `Season`: in digits, or a numeral from `II` to `IX`.
pub open spec fn season_number(word: Seq<char>) -> Option<nat> {
    match short_number(word) {
        Some(n) => Some(n),
        None => numeral(word),
    }
}

/// The number after `Part`, in digits or in a numeral from `I` to `X`.
///
/// A numeral is safe to read here in a way it is not at the end of a title:
/// after the word `Part` an `I` or a `V` cannot be anything else.
pub open spec fn part_number(word: Seq<char>) -> Option<nat> {
    match short_number(word) {
        Some(n) => Some(n),
        None => if alike_but_for_case(word, "I"@) {
            Some(1)
        } else if alike_but_for_case(word, "II"@) {
            Some(2)
        } else if alike_but_for_case(word, "III"@) {
            Some(3)
        } else if alike_but_for_case(word, "IV"@) {
            Some(4)
        } else if alike_but_for_case(word, "V"@) {
            Some(5)
        } else if alike_but_for_case(word, "VI"@) {
            Some(6)
        } else if alike_but_for_case(word, "VII"@) {
            Some(7)
        } else if alike_but_for_case(word, "VIII"@) {
            Some(8)
        } else if alike_but_for_case(word, "IX"@) {
            Some(9)
        } else if alike_but_for_case(word, "X"@) {
            Some(10)
        } else {
            None
        },
    }
}

pub(crate) fn read_season_number(word: &[Glyph]) -> (number: Option<u32>)
    ensures
        reads(number, season_number(chars(word@))),
{
    match read_short_number(word) {
        Some(n) => Some(n),
        None => read_numeral(word),
    }
}

pub(crate) fn read_part_number(word: &[Glyph]) -> (number: Option<u32>)
    ensures
        reads(number, part_number(chars(word@))),
{
    match read_short_number(word) {
        Some(n) => Some(n),
        None => if is_word(word, "I") {
            Some(1)
        } else if is_word(word, "II") {
            Some(2)
        } else if is_word(word, "III") {
            Some(3)
        } else if is_word(word, "IV") {
            Some(4)
        } else if is_word(word, "V") {
            Some(5)
        } else if is_word(word, "VI") {
            Some(6)
        } else if is_word(word, "VII") {
            Some(7)
        } else if is_word(word, "VIII") {
            Some(8)
        } else if is_word(word, "IX") {
            Some(9)
        } else if is_word(word, "X") {
            Some(10)
        } else {
            None
        },
    }
}

/// `2nd` or `Second`, up to the ninth in words.
pub open spec fn ordinal(word: Seq<char>) -> Option<nat> {
    if alike_but_for_case(word, "first"@) {
        Some(1)
    } else if alike_but_for_case(word, "second"@) {
        Some(2)
    } else if alike_but_for_case(word, "third"@) {
        Some(3)
    } else if alike_but_for_case(word, "fourth"@) {
        Some(4)
    } else if alike_but_for_case(word, "fifth"@) {
        Some(5)
    } else if alike_but_for_case(word, "sixth"@) {
        Some(6)
    } else if alike_but_for_case(word, "seventh"@) {
        Some(7)
    } else if alike_but_for_case(word, "eighth"@) {
        Some(8)
    } else if alike_but_for_case(word, "ninth"@) {
        Some(9)
    } else if word.len() >= 2 && is_ordinal_ending(word.skip(word.len() - 2)) {
        short_number(word.take(word.len() - 2))
    } else {
        None
    }
}

pub open spec fn is_ordinal_ending(ending: Seq<char>) -> bool {
    alike_but_for_case(ending, "st"@) || alike_but_for_case(ending, "nd"@)
        || alike_but_for_case(ending, "rd"@) || alike_but_for_case(ending, "th"@)
}

pub(crate) fn read_ordinal(word: &[Glyph]) -> (number: Option<u32>)
    ensures
        reads(number, ordinal(chars(word@))),
{
    if is_word(word, "first") {
        Some(1)
    } else if is_word(word, "second") {
        Some(2)
    } else if is_word(word, "third") {
        Some(3)
    } else if is_word(word, "fourth") {
        Some(4)
    } else if is_word(word, "fifth") {
        Some(5)
    } else if is_word(word, "sixth") {
        Some(6)
    } else if is_word(word, "seventh") {
        Some(7)
    } else if is_word(word, "eighth") {
        Some(8)
    } else if is_word(word, "ninth") {
        Some(9)
    } else if word.len() >= 2 {
        let length = word.len();
        let digits = slice_subrange(word, 0, length - 2);
        let ending = slice_subrange(word, length - 2, length);
        assert(chars(digits@) =~= chars(word@).take(length - 2));
        assert(chars(ending@) =~= chars(word@).skip(length - 2));
        if is_word(ending, "st") || is_word(ending, "nd") || is_word(ending, "rd") || is_word(
            ending,
            "th",
        ) {
            read_short_number(digits)
        } else {
            None
        }
    } else {
        None
    }
}

/// A Japanese count: `第2期`, `2期`, `第2クール`.
pub open spec fn counted(word: Seq<char>, counter: Seq<char>) -> Option<nat> {
    let bare = if word.len() > 0 && word[0] == '第' {
        word.skip(1)
    } else {
        word
    };
    if counter.len() <= bare.len() && bare.skip(bare.len() - counter.len()) == counter {
        short_number(bare.take(bare.len() - counter.len()))
    } else {
        None
    }
}

pub(crate) fn read_counted(word: &[Glyph], counter: &str) -> (number: Option<u32>)
    ensures
        reads(number, counted(chars(word@), counter@)),
{
    let length = characters(counter).len();
    let bare = if word.len() > 0 && word[0].c == '第' {
        let bare = slice_subrange(word, 1, word.len());
        assert(chars(bare@) =~= chars(word@).skip(1));
        bare
    } else {
        word
    };
    if bare.len() < length {
        return None;
    }
    let split = bare.len() - length;
    let tail = slice_subrange(bare, split, bare.len());
    let head = slice_subrange(bare, 0, split);
    assert(chars(tail@) =~= chars(bare@).skip(split as int));
    assert(chars(head@) =~= chars(bare@).take(split as int));
    if is_exactly(tail, counter) {
        read_short_number(head)
    } else {
        None
    }
}

// What numbers are spelled as.

/// A number in roman numerals.
pub open spec fn roman(n: nat) -> Seq<char>
    decreases n,
{
    if n >= 10 {
        seq!['X'] + roman((n - 10) as nat)
    } else if n == 9 {
        seq!['I', 'X']
    } else if n >= 5 {
        seq!['V'] + roman((n - 5) as nat)
    } else if n == 4 {
        seq!['I', 'V']
    } else if n >= 1 {
        seq!['I'] + roman((n - 1) as nat)
    } else {
        Seq::empty()
    }
}

proof fn lemma_romans()
    ensures
        roman(1) == "I"@,
        roman(2) == "II"@,
        roman(3) == "III"@,
        roman(4) == "IV"@,
        roman(5) == "V"@,
        roman(6) == "VI"@,
        roman(7) == "VII"@,
        roman(8) == "VIII"@,
        roman(9) == "IX"@,
        roman(10) == "X"@,
{
    reveal_strlit("I");
    reveal_strlit("II");
    reveal_strlit("III");
    reveal_strlit("IV");
    reveal_strlit("V");
    reveal_strlit("VI");
    reveal_strlit("VII");
    reveal_strlit("VIII");
    reveal_strlit("IX");
    reveal_strlit("X");
    assert(roman(0) =~= Seq::<char>::empty());
    assert(roman(1) =~= "I"@);
    assert(roman(2) =~= "II"@);
    assert(roman(3) =~= "III"@);
    assert(roman(4) =~= "IV"@);
    assert(roman(5) =~= "V"@);
    assert(roman(6) =~= "VI"@);
    assert(roman(7) =~= "VII"@);
    assert(roman(8) =~= "VIII"@);
    assert(roman(9) =~= "IX"@);
    assert(roman(10) =~= "X"@);
}

/// A numeral is read by its value: a word is the numeral of a number from two to
/// nine exactly where it is how that number is written, in uppercase.
pub proof fn law_a_numeral_is_its_number(word: Seq<char>, n: nat)
    ensures
        numeral(word) == Some(n) <==> 2 <= n <= 9 && word == roman(n),
{
    lemma_romans();
    reveal_strlit("I");
    reveal_strlit("II");
    reveal_strlit("III");
    reveal_strlit("IV");
    reveal_strlit("V");
    reveal_strlit("VI");
    reveal_strlit("VII");
    reveal_strlit("VIII");
    reveal_strlit("IX");
    reveal_strlit("X");
    assert("II"@[1] == 'I' && "IV"@[1] == 'V' && "VI"@[0] == 'V' && "IX"@[1] == 'X');
    assert("III"@[0] == 'I' && "VII"@[0] == 'V');
    if 2 <= n <= 9 && word == roman(n) {
        assert(word.len() == 1 || word.len() == 2 || word.len() == 3 || word.len() == 4);
        if word.len() == 2 {
            assert(word[0] == 'I' || word[0] == 'V');
        }
    }
}

/// No two numerals share a number.
pub proof fn law_no_two_numerals_share_a_number(one: Seq<char>, other: Seq<char>)
    requires
        numeral(one) is Some,
        numeral(one) == numeral(other),
    ensures
        one == other,
{
    law_a_numeral_is_its_number(one, numeral(one)->0);
    law_a_numeral_is_its_number(other, numeral(one)->0);
}

/// Two characters that are one but for the case of an ASCII letter.
pub open spec fn same_letter(one: char, other: char) -> bool {
    ||| one == other
    ||| 'A' <= one && one <= 'Z' && other as u32 == one as u32 + 32
    ||| 'A' <= other && other <= 'Z' && one as u32 == other as u32 + 32
}

/// Words are alike but for case exactly where they are as long as each other and
/// differ nowhere but in the case of ASCII letters.
pub proof fn law_alike_but_for_case(one: Seq<char>, other: Seq<char>)
    ensures
        alike_but_for_case(one, other) <==> one.len() == other.len() && forall|i: int|
            0 <= i < one.len() ==> same_letter(#[trigger] one[i], other[i]),
{
    if alike_but_for_case(one, other) {
        assert forall|i: int| 0 <= i < one.len() implies same_letter(#[trigger] one[i], other[i]) by {
            assert(folded(one[i]) == folded(other[i]));
            lemma_folding(one[i], other[i]);
        }
    }
    if one.len() == other.len() && forall|i: int|
        0 <= i < one.len() ==> same_letter(#[trigger] one[i], other[i]) {
        assert forall|i: int| 0 <= i < one.len() implies folded(one[i]) == folded(other[i]) by {
            assert(same_letter(one[i], other[i]));
            lemma_folding(one[i], other[i]);
        }
    }
}

proof fn lemma_folding(one: char, other: char)
    ensures
        folded(one) == folded(other) <==> same_letter(one, other),
{
}

/// A number of one or two digits is read as that number, and nothing else is
/// read as one.
pub proof fn law_a_short_number_is_its_digits(word: Seq<char>, n: nat)
    ensures
        short_number(word) == Some(n) <==> {
            ||| n < 10 && word == seq![(48 + n) as char]
            ||| n < 100 && word == seq![(48 + n / 10) as char, (48 + n % 10) as char]
        },
{
    if short_number(word) == Some(n) {
        if word.len() == 1 {
            assert(word =~= seq![(48 + n) as char]);
        } else {
            let tens = digit_value(word[0]);
            let ones = digit_value(word[1]);
            assert(n / 10 == tens && n % 10 == ones);
            assert(word =~= seq![(48 + n / 10) as char, (48 + n % 10) as char]);
        }
    }
}

/// After `Part` a number is read from one or two digits, and from the numeral of
/// a number from one to ten in either case, and from nothing else.
pub proof fn law_a_part_number_is_its_number(word: Seq<char>, n: nat)
    ensures
        short_number(word) is Some ==> part_number(word) == short_number(word),
        short_number(word) is None ==> (part_number(word) == Some(n) <==> 1 <= n <= 10
            && alike_but_for_case(word, roman(n))),
{
    lemma_romans();
    reveal_strlit("I");
    reveal_strlit("II");
    reveal_strlit("III");
    reveal_strlit("IV");
    reveal_strlit("V");
    reveal_strlit("VI");
    reveal_strlit("VII");
    reveal_strlit("VIII");
    reveal_strlit("IX");
    reveal_strlit("X");
}

/// After `Season` a number is read from one or two digits, and from an uppercase
/// numeral, and from nothing else.
pub proof fn law_a_season_number_is_its_number(word: Seq<char>, n: nat)
    ensures
        short_number(word) is Some ==> season_number(word) == short_number(word),
        short_number(word) is None ==> (season_number(word) == Some(n) <==> 2 <= n <= 9 && word
            == roman(n)),
{
    law_a_numeral_is_its_number(word, n);
}

/// The first nine ordinals in words.
pub open spec fn ordinal_words() -> Seq<Seq<char>> {
    seq![
        "first"@,
        "second"@,
        "third"@,
        "fourth"@,
        "fifth"@,
        "sixth"@,
        "seventh"@,
        "eighth"@,
        "ninth"@,
    ]
}

/// An ordinal in words, from the first to the ninth and in any case, is its
/// number. Any other word is an ordinal exactly where one or two digits are
/// followed by `st`, `nd`, `rd` or `th` in any case, and is the number of its
/// digits.
pub proof fn law_an_ordinal_is_its_number(word: Seq<char>, n: nat)
    ensures
        1 <= n <= 9 && alike_but_for_case(word, ordinal_words()[n - 1]) ==> ordinal(word) == Some(n),
        (forall|k: int|
            0 <= k < 9 ==> !alike_but_for_case(word, #[trigger] ordinal_words()[k])) ==> (ordinal(
            word,
        ) == Some(n) <==> word.len() >= 2 && (alike_but_for_case(word.skip(word.len() - 2), "st"@)
            || alike_but_for_case(word.skip(word.len() - 2), "nd"@) || alike_but_for_case(
            word.skip(word.len() - 2),
            "rd"@,
        ) || alike_but_for_case(word.skip(word.len() - 2), "th"@)) && short_number(
            word.take(word.len() - 2),
        ) == Some(n)),
{
    reveal_strlit("first");
    reveal_strlit("second");
    reveal_strlit("third");
    reveal_strlit("fourth");
    reveal_strlit("fifth");
    reveal_strlit("sixth");
    reveal_strlit("seventh");
    reveal_strlit("eighth");
    reveal_strlit("ninth");
    let all = ordinal_words();
    assert(all[0] == "first"@ && all[1] == "second"@ && all[2] == "third"@);
    assert(all[3] == "fourth"@ && all[4] == "fifth"@ && all[5] == "sixth"@);
    assert(all[6] == "seventh"@ && all[7] == "eighth"@ && all[8] == "ninth"@);
    if 1 <= n <= 9 && alike_but_for_case(word, all[n - 1]) {
        let a = folded(word[0]);
        let c = folded(word[2]);
        assert(a == folded(all[n - 1][0]) && c == folded(all[n - 1][2]));
    }
}

/// A Japanese count is the number before its counter, with or without the sign
/// that it counts something.
pub proof fn law_a_count_is_its_number(number: Seq<char>, counter: Seq<char>)
    requires
        number.len() > 0,
        number[0] != '第',
    ensures
        counted(number + counter, counter) == short_number(number),
        counted(seq!['第'] + number + counter, counter) == short_number(number),
{
    let bare = number + counter;
    assert(bare[0] == number[0]);
    assert(bare.skip(bare.len() - counter.len()) =~= counter);
    assert(bare.take(bare.len() - counter.len()) =~= number);
    let whole = seq!['第'] + number + counter;
    assert(whole[0] == '第');
    assert(whole.skip(1) =~= bare);
}

/// Each bracket that opens is closed by one of its own, and by no other.
pub proof fn law_brackets_come_in_pairs(c: char)
    ensures
        ({
            let open = seq!['(', '[', '{', '<', '【', '「', '『', '〈', '《', '〔', '〖', '〘', '〚'];
            let close = seq![')', ']', '}', '>', '】', '」', '』', '〉', '》', '〕', '〗', '〙', '〛'];
            &&& open.len() == close.len()
            &&& opens(c) <==> open.contains(c)
            &&& closes(c) <==> close.contains(c)
            &&& forall|i: int| 0 <= i < open.len() ==> closing(#[trigger] open[i]) == Some(close[i])
        }),
{
    let open = seq!['(', '[', '{', '<', '【', '「', '『', '〈', '《', '〔', '〖', '〘', '〚'];
    let close = seq![')', ']', '}', '>', '】', '」', '』', '〉', '》', '〕', '〗', '〙', '〛'];
    if opens(c) {
        assert(c == open[0] || c == open[1] || c == open[2] || c == open[3] || c == open[4] || c
            == open[5] || c == open[6] || c == open[7] || c == open[8] || c == open[9] || c
            == open[10] || c == open[11] || c == open[12]);
    }
    if closes(c) {
        assert(c == close[0] || c == close[1] || c == close[2] || c == close[3] || c == close[4]
            || c == close[5] || c == close[6] || c == close[7] || c == close[8] || c == close[9]
            || c == close[10] || c == close[11] || c == close[12]);
    }
}

/// What stands between words, what ends a token, and what is a dash.
pub proof fn law_what_breaks_a_title(g: Glyph)
    ensures
        is_word_break(g) <==> g.space || g.c == '_' || g.c == '\u{200B}',
        is_dash(g.c) <==> g.c == '-' || g.c == '\u{AD}' || g.c == '\u{2212}' || 0x2010 <= g.c as u32
            <= 0x2015,
        is_token_break(g) <==> is_word_break(g) || is_dash(g.c) || opens(g.c) || closes(g.c)
            || seq!['.', ',', '&', '~', '+', '|', ':'].contains(g.c),
{
    let marks = seq!['.', ',', '&', '~', '+', '|', ':'];
    assert(marks[0] == '.' && marks[1] == ',' && marks[2] == '&' && marks[3] == '~');
    assert(marks[4] == '+' && marks[5] == '|' && marks[6] == ':');
}

/// What is read is a number exactly where one is due, and then that one.
pub proof fn law_what_is_read_is_what_is_due(number: Option<u32>, expected: Option<nat>)
    requires
        reads(number, expected),
    ensures
        number is Some <==> expected is Some,
        expected matches Some(due) ==> number->Some_0 == due,
{
}

} // verus!
