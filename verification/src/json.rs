//! The pieces a JSON line is put together from.
//!
//! A piece written here ends where it can be seen to end, so two lines made of
//! such pieces are the same line only where the pieces are the same.

use vstd::prelude::*;

use crate::text::decimal;
#[allow(unused_imports)]
use crate::text::{decimal_text, digit, lower_hex};

verus! {

/// A character as it stands inside a JSON string.
pub open spec fn escaped_character(c: char) -> Seq<char> {
    if c == '"' {
        seq!['\\', '"']
    } else if c == '\\' {
        seq!['\\', '\\']
    } else if c == '\u{8}' {
        seq!['\\', 'b']
    } else if c == '\t' {
        seq!['\\', 't']
    } else if c == '\n' {
        seq!['\\', 'n']
    } else if c == '\u{c}' {
        seq!['\\', 'f']
    } else if c == '\r' {
        seq!['\\', 'r']
    } else if (c as u32) <= 0x1f {
        seq![
            '\\',
            'u',
            '0',
            '0',
            lower_hex((c as int) / 16),
            lower_hex((c as int) % 16),
        ]
    } else {
        seq![c]
    }
}

/// Characters as they stand inside a JSON string.
pub open spec fn escaped_text(text: Seq<char>) -> Seq<char>
    decreases text.len(),
{
    if text.len() == 0 {
        Seq::empty()
    } else {
        escaped_character(text[0]) + escaped_text(text.drop_first())
    }
}

/// A piece of text as a JSON string.
pub open spec fn quoted(text: Seq<char>) -> Seq<char> {
    seq!['"'] + escaped_text(text) + seq!['"']
}

/// `serde_json::to_string` writes text as a JSON string: in double quotes, with
/// a backslash before a double quote and a backslash, with the five short
/// escapes of control characters, and with every other character below a space
/// as `\u` and four digits. It fails only for a value whose own serialisation
/// fails or for a map whose keys are not strings, and text is neither. What
/// would have been said of a failure is handed on as text.
#[verifier::external_body]
pub(crate) fn quote(text: &str) -> (written: Result<String, String>)
    ensures
        written is Ok,
        written->Ok_0@ == quoted(text@),
{
    match serde_json::to_string(text) {
        Ok(string) => Ok(string),
        Err(error) => Err(error.to_string()),
    }
}

/// A span of time as JSON: its whole seconds, and the nanoseconds of one more.
pub open spec fn span_json(nanos: nat) -> Seq<char> {
    "{\"secs\":"@ + decimal_text(nanos / 1_000_000_000) + ",\"nanos\":"@ + decimal_text(
        nanos % 1_000_000_000,
    ) + "}"@
}

/// Write a span of time as JSON.
pub(crate) fn write_span(out: &mut String, span: crate::time::Duration)
    ensures
        final(out)@ == old(out)@ + span_json(span@),
{
    out.append("{\"secs\":");
    out.append(decimal(span.as_secs()).as_str());
    out.append(",\"nanos\":");
    out.append(decimal(span.subsec_nanos() as u64).as_str());
    out.append("}");
    assert(out@ =~= old(out)@ + span_json(span@));
}

// Where a piece ends.

/// Two escapes that begin two texts alike are one escape.
proof fn lemma_an_escape_ends_where_it_ends(one: char, other: char, a: Seq<char>, b: Seq<char>)
    requires
        escaped_character(one) + a == escaped_character(other) + b,
    ensures
        one == other,
        a == b,
{
    let x = escaped_character(one);
    let y = escaped_character(other);
    let whole = x + a;
    let also = y + b;
    assert(whole[0] == x[0] && also[0] == y[0]);
    if x.len() >= 2 && y.len() >= 2 {
        assert(whole[1] == x[1] && also[1] == y[1]);
    }
    if x.len() == 6 && y.len() == 6 {
        assert(whole[4] == x[4] && also[4] == y[4]);
        assert(whole[5] == x[5] && also[5] == y[5]);
    }
    assert(one == other);
    assert(a =~= whole.skip(x.len() as int));
    assert(b =~= also.skip(y.len() as int));
}

/// An escape does not begin with the quote that ends a string.
proof fn lemma_an_escape_is_no_ending(c: char, a: Seq<char>, b: Seq<char>)
    ensures
        escaped_character(c) + a != seq!['"'] + b,
{
    let x = escaped_character(c) + a;
    let y = seq!['"'] + b;
    assert(x[0] == escaped_character(c)[0]);
    assert(y[0] == '"');
}

proof fn lemma_inside_ends_at_the_quote(
    one: Seq<char>,
    other: Seq<char>,
    a: Seq<char>,
    b: Seq<char>,
)
    requires
        escaped_text(one) + (seq!['"'] + a) == escaped_text(other) + (seq!['"'] + b),
    ensures
        one == other,
        a == b,
    decreases one.len(),
{
    let ending = seq!['"'] + a;
    let also = seq!['"'] + b;
    if one.len() == 0 && other.len() == 0 {
        assert(escaped_text(one) + ending =~= ending);
        assert(escaped_text(other) + also =~= also);
        assert(a =~= ending.skip(1));
        assert(b =~= also.skip(1));
        assert(one =~= other);
    } else if one.len() == 0 {
        assert(escaped_text(one) + ending =~= ending);
        assert(escaped_text(other) + also =~= escaped_character(other[0]) + (escaped_text(
            other.drop_first(),
        ) + also));
        lemma_an_escape_is_no_ending(other[0], escaped_text(other.drop_first()) + also, a);
    } else if other.len() == 0 {
        assert(escaped_text(other) + also =~= also);
        assert(escaped_text(one) + ending =~= escaped_character(one[0]) + (escaped_text(
            one.drop_first(),
        ) + ending));
        lemma_an_escape_is_no_ending(one[0], escaped_text(one.drop_first()) + ending, b);
    } else {
        let x = escaped_text(one.drop_first()) + ending;
        let y = escaped_text(other.drop_first()) + also;
        assert(escaped_text(one) + ending =~= escaped_character(one[0]) + x);
        assert(escaped_text(other) + also =~= escaped_character(other[0]) + y);
        lemma_an_escape_ends_where_it_ends(one[0], other[0], x, y);
        lemma_inside_ends_at_the_quote(one.drop_first(), other.drop_first(), a, b);
        assert(one =~= seq![one[0]] + one.drop_first());
        assert(other =~= seq![other[0]] + other.drop_first());
    }
}

/// A JSON string ends at its own closing quote: what begins two texts alike is
/// one string, and what follows it is alike too.
pub proof fn law_a_string_ends_where_it_ends(
    one: Seq<char>,
    other: Seq<char>,
    a: Seq<char>,
    b: Seq<char>,
)
    requires
        quoted(one) + a == quoted(other) + b,
    ensures
        one == other,
        a == b,
{
    let x = escaped_text(one) + (seq!['"'] + a);
    let y = escaped_text(other) + (seq!['"'] + b);
    assert(quoted(one) + a =~= seq!['"'] + x);
    assert(quoted(other) + b =~= seq!['"'] + y);
    assert(x =~= (seq!['"'] + x).skip(1));
    assert(y =~= (seq!['"'] + y).skip(1));
    lemma_inside_ends_at_the_quote(one, other, a, b);
}

/// A JSON string holds no line ending, whatever the text it was made of.
pub proof fn law_a_string_holds_no_line_ending(text: Seq<char>)
    ensures
        !quoted(text).contains('\n'),
        !quoted(text).contains('\r'),
{
    lemma_inside_holds_no_line_ending(text);
    let whole = quoted(text);
    let inside = escaped_text(text);
    assert forall|i: int| 0 <= i < whole.len() implies whole[i] != '\n' && whole[i] != '\r' by {
        if 0 < i && i < whole.len() - 1 {
            assert(whole[i] == inside[i - 1]);
        }
    }
}

proof fn lemma_an_escape_holds_no_line_ending(c: char, i: int)
    requires
        0 <= i < escaped_character(c).len(),
    ensures
        escaped_character(c)[i] != '\n',
        escaped_character(c)[i] != '\r',
{
    let high = (c as int) / 16;
    let low = (c as int) % 16;
    if (c as u32) <= 0x1f {
        assert(0 <= high < 16 && 0 <= low < 16);
        assert(lower_hex(high) as u32 >= 0x30);
        assert(lower_hex(low) as u32 >= 0x30);
    }
}

proof fn lemma_inside_holds_no_line_ending(text: Seq<char>)
    ensures
        forall|i: int|
            0 <= i < escaped_text(text).len() ==> #[trigger] escaped_text(text)[i] != '\n'
                && escaped_text(text)[i] != '\r',
    decreases text.len(),
{
    if text.len() > 0 {
        let head = escaped_character(text[0]);
        let tail = escaped_text(text.drop_first());
        lemma_inside_holds_no_line_ending(text.drop_first());
        assert forall|i: int| 0 <= i < escaped_text(text).len() implies #[trigger] escaped_text(
            text,
        )[i] != '\n' && escaped_text(text)[i] != '\r' by {
            if i < head.len() {
                assert(escaped_text(text)[i] == head[i]);
                lemma_an_escape_holds_no_line_ending(text[0], i);
            } else {
                assert(escaped_text(text)[i] == tail[i - head.len()]);
            }
        }
    }
}

/// A number's digits are digits, and there is at least one.
proof fn lemma_digits_are_digits(n: nat)
    ensures
        decimal_text(n).len() > 0,
        forall|i: int|
            0 <= i < decimal_text(n).len() ==> '0' <= #[trigger] decimal_text(n)[i]
                && decimal_text(n)[i] <= '9',
    decreases n,
{
    if n >= 10 {
        lemma_digits_are_digits(n / 10);
    }
}

/// Numbers written alike are one number.
proof fn lemma_digits_tell_the_number(one: nat, other: nat)
    requires
        decimal_text(one) == decimal_text(other),
    ensures
        one == other,
    decreases one,
{
    let x = decimal_text(one);
    let y = decimal_text(other);
    lemma_digits_are_digits(one / 10);
    lemma_digits_are_digits(other / 10);
    if one < 10 && other < 10 {
        assert(x[0] == y[0]);
    } else if one >= 10 && other >= 10 {
        assert(x.drop_last() =~= decimal_text(one / 10));
        assert(y.drop_last() =~= decimal_text(other / 10));
        lemma_digits_tell_the_number(one / 10, other / 10);
        assert(x.last() == y.last());
    } else {
        assert(x.len() == y.len());
    }
}

/// A number ends at the first character that is no digit.
pub proof fn law_a_number_ends_where_it_ends(one: nat, other: nat, a: Seq<char>, b: Seq<char>)
    requires
        decimal_text(one) + a == decimal_text(other) + b,
        a.len() > 0,
        b.len() > 0,
        !('0' <= a[0] && a[0] <= '9'),
        !('0' <= b[0] && b[0] <= '9'),
    ensures
        one == other,
        a == b,
{
    let x = decimal_text(one);
    let y = decimal_text(other);
    lemma_digits_are_digits(one);
    lemma_digits_are_digits(other);
    let whole = x + a;
    let also = y + b;
    if x.len() < y.len() {
        assert(whole[x.len() as int] == a[0]);
        assert(also[x.len() as int] == y[x.len() as int]);
    } else if y.len() < x.len() {
        assert(also[y.len() as int] == b[0]);
        assert(whole[y.len() as int] == x[y.len() as int]);
    }
    assert(x =~= whole.take(x.len() as int));
    assert(y =~= also.take(y.len() as int));
    lemma_digits_tell_the_number(one, other);
    assert(a =~= whole.skip(x.len() as int));
    assert(b =~= also.skip(y.len() as int));
}

/// What follows the same beginning is the same where the whole is.
pub proof fn lemma_the_rest_is_the_same(head: Seq<char>, a: Seq<char>, b: Seq<char>)
    requires
        head + a == head + b,
    ensures
        a == b,
{
    assert(a =~= (head + a).skip(head.len() as int));
    assert(b =~= (head + b).skip(head.len() as int));
}

/// A span is told in whole seconds and the nanoseconds of one more.
pub proof fn law_a_span_is_seconds_and_nanoseconds(seconds: nat, nanos: nat)
    requires
        nanos < 1_000_000_000,
    ensures
        span_json(seconds * 1_000_000_000 + nanos) == "{\"secs\":"@ + decimal_text(seconds)
            + ",\"nanos\":"@ + decimal_text(nanos) + "}"@,
{
}

} // verus!
