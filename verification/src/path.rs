//! Filesystem paths as the platform actually reports them.
//!
//! A path on Linux is an arbitrary byte string. A filename extracted from a
//! Japanese archive with the wrong encoding, or copied from a Windows share, is
//! routinely not valid UTF-8, and it has to be carried through untouched rather
//! than refused or mangled.

use vstd::prelude::*;
use vstd::utf8::*;

use crate::text::{decimal, lower_hex_digit, read_utf8};
#[allow(unused_imports)]
use crate::text::{decimal_text, lower_hex};

verus! {

/// The most bytes a path may hold.
///
/// Far beyond any platform's paths. Reading a name in an inferred encoding
/// allocates up to three bytes for each of its own, and the bound keeps that
/// sum inside a `usize`.
pub const LONGEST: usize = usize::MAX / 4;

/// A filesystem path exactly as the platform reported it.
///
/// A path on Linux is an arbitrary byte string, so this type holds bytes. It is
/// never opened: callers parse the filename and display it.
///
/// The written form keeps runs of valid UTF-8 verbatim, so an ordinary name
/// stays readable in a trace, and escapes every other byte, plus the escape
/// character itself, as `%XX`. The mapping is reversible for any input.
#[derive(Debug, PartialEq, Eq, Hash, PartialOrd, Ord)]
pub struct RawPath {
    bytes: Vec<u8>,
}

impl View for RawPath {
    type V = Seq<u8>;

    closed spec fn view(&self) -> Seq<u8> {
        self.bytes@
    }
}

/// Why a written path could not be read back.
#[derive(Debug, Clone, Copy, PartialEq, Eq, Structural)]
pub enum EscapeError {
    /// A `%` with fewer than two bytes after it.
    Truncated {
        /// Where the `%` stands, in bytes.
        at: usize,
    },
    /// A byte after a `%` that is not a hexadecimal digit.
    NotADigit {
        /// The byte that stood there.
        byte: u8,
    },
}

/// A byte shown as the character of that number, between single quotes. One
/// that cannot be seen is shown as an escape.
pub open spec fn byte_shown(byte: u8) -> Seq<char> {
    let inside = if byte == 0 {
        seq!['\\', '0']
    } else if byte == 0x09 {
        seq!['\\', 't']
    } else if byte == 0x0a {
        seq!['\\', 'n']
    } else if byte == 0x0d {
        seq!['\\', 'r']
    } else if byte == 0x27 || byte == 0x5c {
        seq!['\\', byte as char]
    } else if byte < 0x10 {
        seq!['\\', 'u', '{', lower_hex(byte as int), '}']
    } else if byte < 0x20 || (0x7f <= byte && byte <= 0xa0) || byte == 0xad {
        seq!['\\', 'u', '{', lower_hex(byte as int / 16), lower_hex(byte as int % 16), '}']
    } else {
        seq![byte as char]
    };
    seq!['\''] + inside + seq!['\'']
}

/// What is said of a written path that could not be read back.
pub open spec fn escape_error_text(error: EscapeError) -> Seq<char> {
    match error {
        EscapeError::Truncated { at } => "truncated escape at byte "@ + decimal_text(at as nat),
        EscapeError::NotADigit { byte } => byte_shown(byte) + " is not a hexadecimal digit"@,
    }
}

fn show_byte(byte: u8) -> (text: String)
    ensures
        text@ == byte_shown(byte),
{
    let mut text = String::new();
    text.push('\'');
    if byte == 0 {
        text.push('\\');
        text.push('0');
    } else if byte == 0x09 {
        text.push('\\');
        text.push('t');
    } else if byte == 0x0a {
        text.push('\\');
        text.push('n');
    } else if byte == 0x0d {
        text.push('\\');
        text.push('r');
    } else if byte == 0x27 || byte == 0x5c {
        text.push('\\');
        text.push(byte as char);
    } else if byte < 0x20 || (0x7f <= byte && byte <= 0xa0) || byte == 0xad {
        text.push('\\');
        text.push('u');
        text.push('{');
        if byte >= 0x10 {
            text.push(lower_hex_digit(byte / 16));
        }
        text.push(lower_hex_digit(byte % 16));
        text.push('}');
    } else {
        text.push(byte as char);
    }
    text.push('\'');
    assert(text@ =~= byte_shown(byte));
    text
}

impl EscapeError {
    /// The fault, told to the user.
    pub fn message(&self) -> (message: String)
        ensures
            message@ == escape_error_text(*self),
    {
        match self {
            EscapeError::Truncated { at } => {
                let mut message = String::from_str("truncated escape at byte ");
                message.append(decimal(*at as u64).as_str());
                message
            },
            EscapeError::NotADigit { byte } => {
                let mut message = show_byte(*byte);
                message.append(" is not a hexadecimal digit");
                message
            },
        }
    }
}

/// Where the last name of a path begins: after the last `/`, or at the start.
pub open spec fn name_start(path: Seq<u8>) -> nat
    decreases path.len(),
{
    if path.len() == 0 || path.last() == 0x2f {
        path.len()
    } else {
        name_start(path.drop_last())
    }
}

proof fn lemma_name_start_is_within(path: Seq<u8>)
    ensures
        name_start(path) <= path.len(),
    decreases path.len(),
{
    if path.len() > 0 && path.last() != 0x2f {
        lemma_name_start_is_within(path.drop_last());
    }
}

/// The last name of a path holds no separator, and what stands before it is
/// nothing or ends in one.
pub proof fn law_file_name_follows_the_last_separator(path: Seq<u8>)
    ensures
        name_start(path) <= path.len(),
        forall|i: int| name_start(path) <= i < path.len() ==> path[i] != 0x2f,
        name_start(path) == 0 || path[name_start(path) - 1] == 0x2f,
    decreases path.len(),
{
    lemma_name_start_is_within(path);
    if path.len() > 0 && path.last() != 0x2f {
        let rest = path.drop_last();
        law_file_name_follows_the_last_separator(rest);
        assert forall|i: int| name_start(path) <= i < path.len() implies path[i] != 0x2f by {
            if i < rest.len() {
                assert(rest[i] == path[i]);
            }
        }
    }
}

impl RawPath {
    #[verifier::type_invariant]
    spec fn fits(self) -> bool {
        self.bytes@.len() <= LONGEST
    }

    /// Take a path as the platform reported it.
    pub fn from_bytes(bytes: Vec<u8>) -> (path: Self)
        requires
            bytes@.len() <= LONGEST,
        ensures
            path@ == bytes@,
    {
        Self { bytes }
    }

    /// The path as the platform reported it.
    pub fn as_bytes(&self) -> (bytes: &[u8])
        ensures
            bytes@ == self@,
            bytes@.len() <= LONGEST,
    {
        proof {
            use_type_invariant(self);
        }
        self.bytes.as_slice()
    }

    /// Everything after the last `/`, or the whole path if there is none.
    ///
    /// Only `/` separates. A backslash does not, because 0x5C is the trailing
    /// byte of several Shift-JIS characters and splitting on it would cut a
    /// Japanese filename in half. A platform whose separator is the backslash
    /// normalises before constructing this type: which byte separates is
    /// platform knowledge, and an adapter is where platform knowledge lives.
    pub fn file_name(&self) -> (name: &[u8])
        ensures
            name@ == self@.skip(name_start(self@) as int),
            name@.len() <= LONGEST,
    {
        proof {
            use_type_invariant(self);
            lemma_name_start_is_within(self@);
        }
        let mut start: usize = self.bytes.len();
        assert(self@.take(start as int) =~= self@);
        while start > 0 && self.bytes[start - 1] != 0x2f
            invariant
                start <= self@.len(),
                self.bytes@ == self@,
                name_start(self@) == name_start(self@.take(start as int)),
            decreases start,
        {
            assert(self@.take(start as int).drop_last() =~= self@.take(start - 1));
            start -= 1;
        }
        assert(start > 0 ==> self@.take(start as int).last() == self@[start - 1]);
        vstd::slice::slice_subrange(self.bytes.as_slice(), start, self.bytes.len())
    }

    /// The written form of the path.
    pub fn escaped(&self) -> (text: String)
        ensures
            text@ == escape_text(self@),
            unescaped(encode_utf8(text@), 0) == Ok::<Seq<u8>, EscapeError>(self@),
    {
        escape(self.as_bytes())
    }

    /// The path a written form stands for.
    ///
    /// # Errors
    ///
    /// [`EscapeError`], where a `%` is not followed by two hexadecimal digits.
    pub fn from_escaped(escaped: &str) -> (path: Result<Self, EscapeError>)
        requires
            encode_utf8(escaped@).len() <= LONGEST,
        ensures
            match (path, unescaped(encode_utf8(escaped@), 0)) {
                (Ok(read), Ok(bytes)) => read@ == bytes,
                (Err(why), Err(expected)) => why == expected,
                _ => false,
            },
    {
        match unescape(escaped) {
            Ok(bytes) => {
                proof {
                    lemma_unescaping_never_grows(encode_utf8(escaped@), 0);
                }
                Ok(Self { bytes })
            },
            Err(why) => Err(why),
        }
    }
}

impl Clone for RawPath {
    fn clone(&self) -> (copy: Self)
        ensures
            copy@ == self@,
    {
        proof {
            use_type_invariant(self);
        }
        Self { bytes: vstd::slice::slice_to_vec(self.bytes.as_slice()) }
    }
}

/// The hexadecimal digit of a number below sixteen, in uppercase.
pub open spec fn hex_digit(n: int) -> char {
    if n < 10 {
        (('0' as u32) + n) as char
    } else {
        (('A' as u32) + n - 10) as char
    }
}

/// The number a hexadecimal digit stands for, in either case.
pub open spec fn hex_value_of(byte: u8) -> Option<u8> {
    if 0x30 <= byte <= 0x39 {
        Some((byte - 0x30) as u8)
    } else if 0x41 <= byte <= 0x46 {
        Some((byte - 0x41 + 10) as u8)
    } else if 0x61 <= byte <= 0x66 {
        Some((byte - 0x61 + 10) as u8)
    } else {
        None
    }
}

/// One byte as `%XX`.
pub open spec fn escaped_byte(byte: u8) -> Seq<char> {
    seq!['%', hex_digit(byte as int / 16), hex_digit(byte as int % 16)]
}

/// Bytes written so that the result is text and the mapping is reversible.
///
/// Every character the bytes encode stands as itself; every other byte, and
/// every literal `%`, becomes `%XX`. The escape has to escape itself, or a
/// filename containing a per-cent sign would be read back as something else.
pub open spec fn escape_text(bytes: Seq<u8>) -> Seq<char>
    decreases bytes.len(),
{
    if bytes.len() == 0 {
        Seq::empty()
    } else if valid_first_scalar(bytes) {
        let first = decode_first_scalar(bytes) as char;
        let written = if first == '%' {
            escaped_byte(0x25)
        } else {
            seq![first]
        };
        written + escape_text(pop_first_scalar(bytes))
    } else {
        escaped_byte(bytes[0]) + escape_text(bytes.drop_first())
    }
}

/// What written bytes stand for, where `at` of them have been read already.
pub open spec fn unescaped(source: Seq<u8>, at: int) -> Result<Seq<u8>, EscapeError>
    decreases source.len() - at,
{
    if at >= source.len() {
        Ok(Seq::empty())
    } else if source[at] != 0x25 {
        before(seq![source[at]], unescaped(source, at + 1))
    } else if source.len() - at < 3 {
        Err(EscapeError::Truncated { at: at as usize })
    } else {
        match (hex_value_of(source[at + 1]), hex_value_of(source[at + 2])) {
            (Some(high), Some(low)) => before(
                seq![(high * 16 + low) as u8],
                unescaped(source, at + 3),
            ),
            (None, _) => Err(EscapeError::NotADigit { byte: source[at + 1] }),
            (Some(_), None) => Err(EscapeError::NotADigit { byte: source[at + 2] }),
        }
    }
}

/// The same reading with these bytes in front of it, where it succeeded.
pub open spec fn before(
    head: Seq<u8>,
    read: Result<Seq<u8>, EscapeError>,
) -> Result<Seq<u8>, EscapeError> {
    match read {
        Ok(tail) => Ok(head + tail),
        Err(why) => Err(why),
    }
}

/// The character at the front of bytes that begin with one, and the bytes it
/// takes.
fn first_character(bytes: &[u8], from: usize) -> (first: Option<(char, usize)>)
    requires
        from < bytes@.len(),
    ensures
        match first {
            Some((c, taken)) => {
                let rest = bytes@.skip(from as int);
                &&& valid_first_scalar(rest)
                &&& c == decode_first_scalar(rest) as char
                &&& taken == length_of_first_scalar(rest)
                &&& from + taken <= bytes@.len()
            },
            None => !valid_first_scalar(bytes@.skip(from as int)),
        },
{
    let ghost rest = bytes@.skip(from as int);
    let mut taken: usize = 1;
    while taken <= 4 && taken <= bytes.len() - from
        invariant
            1 <= taken <= 5,
            from < bytes@.len(),
            rest == bytes@.skip(from as int),
            forall|n: int|
                1 <= n < taken && n <= rest.len() ==> !valid_utf8(#[trigger] rest.take(n)),
        decreases 5 - taken,
    {
        let front = vstd::slice::slice_subrange(bytes, from, from + taken);
        assert(front@ =~= rest.take(taken as int));
        if let Some(read) = read_utf8(front) {
            proof {
                let whole = rest.take(taken as int);
                let length = length_of_first_scalar(whole);
                assert(valid_first_scalar(whole));
                lemma_first_scalar_of_front(whole, rest);
                lemma_front_is_one_character(whole);
                assert(whole.take(length) =~= rest.take(length));
                assert(length == taken);
                assert(whole.take(length) =~= whole);
            }
            return Some((read.get_char(0), taken));
        }
        taken += 1;
    }
    proof {
        if valid_first_scalar(rest) {
            lemma_front_is_one_character(rest);
            assert(!valid_utf8(rest.take(length_of_first_scalar(rest))));
        }
    }
    None
}

/// Bytes that begin with one character, cut after it, are that character.
proof fn lemma_front_is_one_character(bytes: Seq<u8>)
    requires
        valid_first_scalar(bytes),
    ensures
        1 <= length_of_first_scalar(bytes) <= 4,
        length_of_first_scalar(bytes) <= bytes.len(),
        valid_utf8(bytes.take(length_of_first_scalar(bytes))),
        decode_utf8(bytes.take(length_of_first_scalar(bytes))) == seq![
            decode_first_scalar(bytes) as char,
        ],
        valid_first_scalar(bytes.take(length_of_first_scalar(bytes))),
        decode_first_scalar(bytes.take(length_of_first_scalar(bytes))) == decode_first_scalar(
            bytes,
        ),
        length_of_first_scalar(bytes.take(length_of_first_scalar(bytes)))
            == length_of_first_scalar(bytes),
{
    let front = bytes.take(length_of_first_scalar(bytes));
    assert(valid_first_scalar(front));
    assert(pop_first_scalar(front) =~= Seq::<u8>::empty());
    reveal_with_fuel(valid_utf8, 2);
    reveal_with_fuel(decode_utf8, 2);
    assert(decode_utf8(front) =~= seq![decode_first_scalar(bytes) as char]);
}

/// The first character of a front is the first character of the whole.
proof fn lemma_first_scalar_of_front(front: Seq<u8>, whole: Seq<u8>)
    requires
        valid_first_scalar(front),
        front.len() <= whole.len(),
        front == whole.take(front.len() as int),
    ensures
        valid_first_scalar(whole),
        decode_first_scalar(front) == decode_first_scalar(whole),
        length_of_first_scalar(front) == length_of_first_scalar(whole),
{
    assert(forall|i: int| 0 <= i < front.len() ==> front[i] == whole[i]);
}

/// The hexadecimal digit of a number below sixteen.
fn hex_digit_of(n: u8) -> (c: char)
    requires
        n < 16,
    ensures
        c == hex_digit(n as int),
{
    if n < 10 {
        crate::text::digit_of(n as u64)
    } else if n == 10 {
        'A'
    } else if n == 11 {
        'B'
    } else if n == 12 {
        'C'
    } else if n == 13 {
        'D'
    } else if n == 14 {
        'E'
    } else {
        'F'
    }
}

/// Write one byte as `%XX`.
fn push_escaped(out: &mut String, byte: u8)
    ensures
        final(out)@ == old(out)@ + escaped_byte(byte),
{
    out.push('%');
    out.push(hex_digit_of(byte / 16));
    out.push(hex_digit_of(byte % 16));
    assert(out@ =~= old(out)@ + escaped_byte(byte));
}

/// Write bytes so that the result is text and the mapping is reversible: it is
/// read back as the bytes, and is the very text they spell where they are text
/// without a `%`.
pub fn escape(bytes: &[u8]) -> (text: String)
    ensures
        text@ == escape_text(bytes@),
        unescaped(encode_utf8(text@), 0) == Ok::<Seq<u8>, EscapeError>(bytes@),
        valid_utf8(bytes@) && (forall|i: int| 0 <= i < bytes@.len() ==> bytes@[i] != 0x25)
            ==> text@ == decode_utf8(bytes@),
{
    proof {
        law_a_path_round_trips(bytes@);
        if valid_utf8(bytes@) && (forall|i: int| 0 <= i < bytes@.len() ==> bytes@[i] != 0x25) {
            law_plain_text_is_written_as_itself(bytes@);
        }
    }
    let mut out = String::new();
    let mut at: usize = 0;
    assert(bytes@.skip(0) =~= bytes@);
    while at < bytes.len()
        invariant
            at <= bytes@.len(),
            out@ + escape_text(bytes@.skip(at as int)) == escape_text(bytes@),
        decreases bytes@.len() - at,
    {
        let ghost rest = bytes@.skip(at as int);
        let ghost written = out@;
        match first_character(bytes, at) {
            Some((first, taken)) => {
                proof {
                    lemma_front_is_one_character(rest);
                    assert(pop_first_scalar(rest) =~= bytes@.skip(at + taken));
                }
                if first == '%' {
                    push_escaped(&mut out, 0x25);
                } else {
                    out.push(first);
                    assert(out@ =~= written + seq![first]);
                }
                at += taken;
            },
            None => {
                assert(rest.drop_first() =~= bytes@.skip(at + 1));
                push_escaped(&mut out, bytes[at]);
                at += 1;
            },
        }
        assert(out@ + escape_text(bytes@.skip(at as int)) =~= written + escape_text(rest));
    }
    assert(bytes@.skip(at as int) =~= Seq::<u8>::empty());
    assert(out@ =~= out@ + escape_text(bytes@.skip(at as int)));
    out
}

/// The number a hexadecimal digit stands for.
fn hex_value(byte: u8) -> (value: Result<u8, EscapeError>)
    ensures
        match (value, hex_value_of(byte)) {
            (Ok(read), Some(expected)) => read == expected && read < 16,
            (Err(why), None) => why == (EscapeError::NotADigit { byte }),
            _ => false,
        },
{
    if 0x30 <= byte && byte <= 0x39 {
        Ok(byte - 0x30)
    } else if 0x41 <= byte && byte <= 0x46 {
        Ok(byte - 0x41 + 10)
    } else if 0x61 <= byte && byte <= 0x66 {
        Ok(byte - 0x61 + 10)
    } else {
        Err(EscapeError::NotADigit { byte })
    }
}

/// Recover the bytes a written path stands for.
///
/// # Errors
///
/// [`EscapeError`], where a `%` is not followed by two hexadecimal digits.
pub fn unescape(escaped: &str) -> (bytes: Result<Vec<u8>, EscapeError>)
    ensures
        match (bytes, unescaped(encode_utf8(escaped@), 0)) {
            (Ok(read), Ok(expected)) => read@ == expected,
            (Err(why), Err(expected)) => why == expected,
            _ => false,
        },
{
    let source = escaped.as_bytes();
    let mut out: Vec<u8> = Vec::new();
    let mut index: usize = 0;
    proof {
        lemma_nothing_before(unescaped(source@, 0));
    }
    while index < source.len()
        invariant
            index <= source@.len(),
            source@ == encode_utf8(escaped@),
            before(out@, unescaped(source@, index as int)) == unescaped(source@, 0),
        decreases source@.len() - index,
    {
        let ghost read = out@;
        if source[index] != 0x25 {
            out.push(source[index]);
            proof {
                lemma_before_twice(
                    read,
                    seq![source@[index as int]],
                    unescaped(source@, index + 1),
                );
                assert(out@ =~= read + seq![source@[index as int]]);
            }
            index += 1;
        } else {
            if source.len() - index < 3 {
                return Err(EscapeError::Truncated { at: index });
            }
            let high = match hex_value(source[index + 1]) {
                Ok(value) => value,
                Err(why) => return Err(why),
            };
            let low = match hex_value(source[index + 2]) {
                Ok(value) => value,
                Err(why) => return Err(why),
            };
            out.push(high * 16 + low);
            proof {
                lemma_before_twice(
                    read,
                    seq![(high * 16 + low) as u8],
                    unescaped(source@, index + 3),
                );
                assert(out@ =~= read + seq![(high * 16 + low) as u8]);
            }
            index += 3;
        }
    }
    assert(out@ + Seq::<u8>::empty() =~= out@);
    Ok(out)
}

proof fn lemma_nothing_before(read: Result<Seq<u8>, EscapeError>)
    ensures
        before(Seq::empty(), read) == read,
{
    if let Ok(tail) = read {
        assert(Seq::<u8>::empty() + tail =~= tail);
    }
}

proof fn lemma_before_twice(
    first: Seq<u8>,
    second: Seq<u8>,
    read: Result<Seq<u8>, EscapeError>,
)
    ensures
        before(first, before(second, read)) == before(first + second, read),
{
    if let Ok(tail) = read {
        assert(first + (second + tail) =~= (first + second) + tail);
    }
}

proof fn lemma_unescaping_never_grows(source: Seq<u8>, at: int)
    requires
        0 <= at <= source.len(),
    ensures
        unescaped(source, at) matches Ok(read) ==> read.len() <= source.len() - at,
    decreases source.len() - at,
{
    if at < source.len() {
        if source[at] != 0x25 {
            lemma_unescaping_never_grows(source, at + 1);
        } else if source.len() - at >= 3 {
            lemma_unescaping_never_grows(source, at + 3);
        }
    }
}

/// Text put together encodes as its pieces encode, one after the other.
proof fn lemma_encoding_joins(one: Seq<char>, other: Seq<char>)
    ensures
        encode_utf8(one + other) == encode_utf8(one) + encode_utf8(other),
    decreases one.len(),
{
    if one.len() == 0 {
        assert(one + other =~= other);
        assert(encode_utf8(one) + encode_utf8(other) =~= encode_utf8(other));
    } else {
        assert((one + other).drop_first() =~= one.drop_first() + other);
        lemma_encoding_joins(one.drop_first(), other);
        assert(encode_utf8(one + other) =~= encode_utf8(one) + encode_utf8(other));
    }
}

/// What follows a stretch of bytes is read as it would be read alone.
proof fn lemma_reading_goes_on(head: Seq<u8>, tail: Seq<u8>, at: int)
    requires
        0 <= at <= tail.len(),
    ensures
        unescaped(tail, at) matches Ok(read) ==> unescaped(head + tail, head.len() + at) == Ok::<
            Seq<u8>,
            EscapeError,
        >(read),
    decreases tail.len() - at,
{
    let whole = head + tail;
    if at < tail.len() {
        assert(whole[head.len() + at] == tail[at]);
        if tail[at] != 0x25 {
            lemma_reading_goes_on(head, tail, at + 1);
        } else if tail.len() - at >= 3 {
            assert(whole[head.len() + at + 1] == tail[at + 1]);
            assert(whole[head.len() + at + 2] == tail[at + 2]);
            lemma_reading_goes_on(head, tail, at + 3);
        }
    }
}

/// Bytes holding no `%` are read back as they stand.
proof fn lemma_plain_bytes_are_kept(plain: Seq<u8>, tail: Seq<u8>, done: int)
    requires
        0 <= done <= plain.len(),
        forall|i: int| 0 <= i < plain.len() ==> plain[i] != 0x25,
        unescaped(tail, 0) is Ok,
    ensures
        unescaped(plain + tail, done) == Ok::<Seq<u8>, EscapeError>(
            plain.skip(done) + unescaped(tail, 0)->Ok_0,
        ),
    decreases plain.len() - done,
{
    let whole = plain + tail;
    let read = unescaped(tail, 0)->Ok_0;
    if done == plain.len() {
        lemma_reading_goes_on(plain, tail, 0);
        assert(plain.skip(done) + read =~= read);
    } else {
        lemma_plain_bytes_are_kept(plain, tail, done + 1);
        assert(whole[done] == plain[done]);
        assert(plain.skip(done) + read =~= seq![plain[done]] + (plain.skip(
            done + 1,
        ) + read));
    }
}

/// One escaped byte is read back as that byte.
proof fn lemma_an_escaped_byte_is_read_back(byte: u8, tail: Seq<u8>)
    requires
        unescaped(tail, 0) is Ok,
    ensures
        unescaped(encode_utf8(escaped_byte(byte)) + tail, 0) == Ok::<Seq<u8>, EscapeError>(
            seq![byte] + unescaped(tail, 0)->Ok_0,
        ),
{
    let written = escaped_byte(byte);
    assert(is_ascii_chars(written));
    is_ascii_chars_encode_utf8(written);
    let head = encode_utf8(written);
    let whole = head + tail;
    assert(head.len() == 3);
    assert(head[0] == 0x25 && head[1] == written[1] as u8 && head[2] == written[2] as u8);
    assert(whole[0] == head[0] && whole[1] == head[1] && whole[2] == head[2]);
    assert(hex_value_of(head[1]) == Some((byte as int / 16) as u8));
    assert(hex_value_of(head[2]) == Some((byte as int % 16) as u8));
    lemma_reading_goes_on(head, tail, 0);
}

/// The bytes of one character that is not `%` hold no `%`, and are what the
/// character encodes as.
proof fn lemma_a_character_is_written_as_its_bytes(bytes: Seq<u8>)
    requires
        valid_first_scalar(bytes),
    ensures
        encode_utf8(seq![decode_first_scalar(bytes) as char]) == take_first_scalar(bytes),
        decode_first_scalar(bytes) as char == '%' ==> take_first_scalar(bytes) == seq![0x25u8],
        decode_first_scalar(bytes) as char != '%' ==> forall|i: int|
            0 <= i < take_first_scalar(bytes).len() ==> take_first_scalar(bytes)[i] != 0x25,
{
    let front = take_first_scalar(bytes);
    lemma_front_is_one_character(bytes);
    assert(front =~= bytes.take(length_of_first_scalar(bytes)));
    decode_utf8_encode_utf8(front);
    let byte = bytes[0];
    assert(byte <= 0x7f ==> (byte & 0x7f) == byte) by (bit_vector);
    if is_leading_byte_width_1(byte) {
        assert(decode_first_scalar(bytes) == byte as u32);
        assert(front =~= seq![byte]);
        assert((byte as u32) as char == '%' ==> byte == 0x25) by {
            char_u32_cast((byte as u32) as char, byte as u32);
        }
    } else {
        assert(decode_first_scalar(bytes) >= 0x80);
        assert(is_ascii_chars(seq!['%']));
        is_ascii_chars_encode_utf8(seq!['%']);
    }
}

/// A path written down is read back byte for byte, whatever bytes it holds.
pub proof fn law_a_path_round_trips(bytes: Seq<u8>)
    ensures
        unescaped(encode_utf8(escape_text(bytes)), 0) == Ok::<Seq<u8>, EscapeError>(bytes),
    decreases bytes.len(),
{
    if bytes.len() == 0 {
        assert(bytes =~= Seq::<u8>::empty());
    } else if valid_first_scalar(bytes) {
        let first = decode_first_scalar(bytes) as char;
        let rest = pop_first_scalar(bytes);
        lemma_front_is_one_character(bytes);
        law_a_path_round_trips(rest);
        lemma_a_character_is_written_as_its_bytes(bytes);
        let tail = encode_utf8(escape_text(rest));
        if first == '%' {
            lemma_encoding_joins(escaped_byte(0x25), escape_text(rest));
            lemma_an_escaped_byte_is_read_back(0x25, tail);
            assert(bytes =~= seq![0x25u8] + rest);
        } else {
            lemma_encoding_joins(seq![first], escape_text(rest));
            let front = take_first_scalar(bytes);
            lemma_plain_bytes_are_kept(front, tail, 0);
            assert(front.skip(0) =~= front);
            assert(bytes =~= front + rest);
        }
    } else {
        let rest = bytes.drop_first();
        law_a_path_round_trips(rest);
        lemma_encoding_joins(escaped_byte(bytes[0]), escape_text(rest));
        lemma_an_escaped_byte_is_read_back(bytes[0], encode_utf8(escape_text(rest)));
        assert(bytes =~= seq![bytes[0]] + rest);
    }
}

/// An ordinary name stays readable: bytes that are text without a `%` are
/// written as that very text.
pub proof fn law_plain_text_is_written_as_itself(bytes: Seq<u8>)
    requires
        valid_utf8(bytes),
        forall|i: int| 0 <= i < bytes.len() ==> bytes[i] != 0x25,
    ensures
        escape_text(bytes) == decode_utf8(bytes),
    decreases bytes.len(),
{
    if bytes.len() > 0 {
        let rest = pop_first_scalar(bytes);
        lemma_front_is_one_character(bytes);
        lemma_a_character_is_written_as_its_bytes(bytes);
        if decode_first_scalar(bytes) as char == '%' {
            assert(take_first_scalar(bytes)[0] == bytes[0]);
        }
        law_plain_text_is_written_as_itself(rest);
    }
}

/// A hexadecimal digit is read as its number in either case, and nothing else is
/// one.
pub proof fn law_a_digit_is_its_number(byte: u8, n: int)
    ensures
        0 <= n < 16 ==> hex_value_of(
            seq![
                0x30u8,
                0x31,
                0x32,
                0x33,
                0x34,
                0x35,
                0x36,
                0x37,
                0x38,
                0x39,
                0x41,
                0x42,
                0x43,
                0x44,
                0x45,
                0x46,
            ][n],
        ) == Some(n as u8),
        10 <= n < 16 ==> hex_value_of(
            seq![0x61u8, 0x62, 0x63, 0x64, 0x65, 0x66][n - 10],
        ) == Some(n as u8),
        hex_value_of(byte) is Some <==> (0x30 <= byte && byte <= 0x39) || (0x41 <= byte && byte
            <= 0x46) || (0x61 <= byte && byte <= 0x66),
{
}

/// How a written path is read: a byte that is no `%` is itself, and a `%` with
/// two digits behind it is the byte they spell. One with fewer than two bytes
/// behind it was cut short where it stands, and of two bytes that are not both
/// digits the first that is none is named.
pub proof fn law_how_a_written_path_is_read(source: Seq<u8>, at: int)
    requires
        0 <= at < source.len() <= usize::MAX,
    ensures
        source[at] != 0x25 ==> unescaped(source, at) == match unescaped(source, at + 1) {
            Ok(rest) => Ok::<Seq<u8>, EscapeError>(seq![source[at]] + rest),
            Err(fault) => Err(fault),
        },
        source[at] == 0x25 && at + 2 >= source.len() ==> unescaped(source, at) == Err::<
            Seq<u8>,
            EscapeError,
        >(EscapeError::Truncated { at: at as usize }),
        source[at] == 0x25 && at + 2 < source.len() && hex_value_of(source[at + 1]) is None
            ==> unescaped(source, at) == Err::<Seq<u8>, EscapeError>(
            EscapeError::NotADigit { byte: source[at + 1] },
        ),
        source[at] == 0x25 && at + 2 < source.len() && hex_value_of(source[at + 1]) is Some
            && hex_value_of(source[at + 2]) is None ==> unescaped(source, at) == Err::<
            Seq<u8>,
            EscapeError,
        >(EscapeError::NotADigit { byte: source[at + 2] }),
{
}

/// Which bytes are shown as they stand: those that are printed in the first
/// page of Unicode, but for a quote and a backslash, which have a backslash
/// before them. Every other is shown as an escape.
pub proof fn law_which_bytes_are_shown_as_they_stand(byte: u8)
    ensures
        byte_shown(byte) == seq!['\'', byte as char, '\''] <==> (0x20 <= byte && byte <= 0x7e
            && byte != 0x27 && byte != 0x5c) || (0xa1 <= byte && byte != 0xad),
        byte == 0x27 || byte == 0x5c ==> byte_shown(byte) == seq![
            '\'',
            '\\',
            byte as char,
            '\'',
        ],
        byte == 0 ==> byte_shown(byte) == seq!['\'', '\\', '0', '\''],
        byte == 9 ==> byte_shown(byte) == seq!['\'', '\\', 't', '\''],
        byte == 10 ==> byte_shown(byte) == seq!['\'', '\\', 'n', '\''],
        byte == 13 ==> byte_shown(byte) == seq!['\'', '\\', 'r', '\''],
{
    let shown = byte_shown(byte);
    let plain = seq!['\'', byte as char, '\''];
    if (0x20 <= byte && byte <= 0x7e && byte != 0x27 && byte != 0x5c) || (0xa1 <= byte && byte
        != 0xad) {
        assert(shown =~= plain);
    } else {
        assert(shown.len() > 3);
        assert(shown != plain);
    }
}

/// A byte that is shown by its number is shown in hexadecimal, in lowercase and
/// without a leading nought.
pub proof fn law_a_hidden_byte_is_shown_by_its_number(byte: u8)
    requires
        byte < 0x20 || (0x7f <= byte && byte <= 0xa0) || byte == 0xad,
        byte != 0 && byte != 9 && byte != 10 && byte != 13,
    ensures
        ({
            let digits = seq![
                '0',
                '1',
                '2',
                '3',
                '4',
                '5',
                '6',
                '7',
                '8',
                '9',
                'a',
                'b',
                'c',
                'd',
                'e',
                'f',
            ];
            &&& byte < 16 ==> byte_shown(byte) == seq!['\'', '\\', 'u', '{'] + seq![
                digits[byte as int],
            ] + seq!['}', '\'']
            &&& byte >= 16 ==> byte_shown(byte) == seq!['\'', '\\', 'u', '{'] + seq![
                digits[byte as int / 16],
                digits[byte as int % 16],
            ] + seq!['}', '\'']
        }),
{
    let digits = seq![
        '0',
        '1',
        '2',
        '3',
        '4',
        '5',
        '6',
        '7',
        '8',
        '9',
        'a',
        'b',
        'c',
        'd',
        'e',
        'f',
    ];
    assert forall|n: int| 0 <= n < 16 implies #[trigger] digits[n] == lower_hex(n) by {
    }
    if byte < 16 {
        assert(byte_shown(byte) =~= seq!['\'', '\\', 'u', '{'] + seq![digits[byte as int]] + seq![
            '}',
            '\'',
        ]);
    } else {
        assert(byte_shown(byte) =~= seq!['\'', '\\', 'u', '{'] + seq![
            digits[byte as int / 16],
            digits[byte as int % 16],
        ] + seq!['}', '\'']);
    }
}

/// A byte that begins no character is written as `%` and its two digits, and so
/// is a `%` itself.
pub proof fn law_what_is_written_as_an_escape(byte: u8, rest: Seq<u8>)
    requires
        byte == 0x25 || !valid_first_scalar(seq![byte] + rest),
    ensures
        escape_text(seq![byte] + rest) == seq![
            '%',
            hex_digit(byte as int / 16),
            hex_digit(byte as int % 16),
        ] + escape_text(rest),
{
    let bytes = seq![byte] + rest;
    assert(bytes.drop_first() =~= rest);
    if valid_first_scalar(bytes) {
        assert(bytes[0] == 0x25);
        let byte: u8 = bytes[0];
        assert(byte == 0x25 ==> byte & 0x7f == 0x25 && byte & 0x80 == 0) by (bit_vector);
        assert(decode_first_scalar(bytes) == 0x25);
        assert(pop_first_scalar(bytes) =~= rest);
    } else {
        assert(bytes[0] == byte);
    }
}

/// A fault is told with where it stands, or with the byte that is at fault.
pub proof fn law_a_fault_is_told_with_its_place(error: EscapeError)
    ensures
        match error {
            EscapeError::Truncated { at } => escape_error_text(error)
                == "truncated escape at byte "@ + decimal_text(at as nat),
            EscapeError::NotADigit { byte } => escape_error_text(error) == byte_shown(byte)
                + " is not a hexadecimal digit"@,
        },
{
}

} // verus!
