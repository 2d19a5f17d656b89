//! What a filename spells, before anything is matched against it.
//!
//! The parser reports every element it recognises, and everything this crate
//! does not read is dropped here rather than further down.
//!
//! Six kinds are kept. An episode's own title is not one of them: of
//! `Show Title - 03 - The Episode Name` the parser reports an episode title of
//! `The`, so it earns no field. A part is kept because AniList lists the second
//! part of some seasons as an entry of its own.
//!
//! **The parser also loses a part in more than one place, and one of them is
//! read back here.** A bare `Part` counts to it only inside brackets, and a
//! title ends at the season marker, so in `Show Title Season 3 Part 2 - 03`
//! the part belongs to no element at all. [`parse`] reads it back from that
//! one place and no other.

use anitomy_ng::ElementKind as Kind;
use vstd::prelude::*;

use crate::encoding::{decode, Confidence};
#[allow(unused_imports)]
use crate::encoding::{decoded_confidence, decoded_text};
use crate::path::RawPath;
use crate::recognise::normalise::part_in;
#[allow(unused_imports)]
use crate::recognise::normalise::{natural, part_in_text};
#[allow(unused_imports)]
use crate::recognise::spelling::{digit_value, is_digit, reads};
use crate::recognise::spelling::digit_of;
use crate::text::{characters, same, spelled};
#[allow(unused_imports)]
use crate::text::{decimal_text, digit};

verus! {

/// What a filename says about which episode it holds.
///
/// Four cases and not an [`Option`], because a name spelling several episodes
/// and a name spelling none are different facts that lead different places. A
/// batch is a thing this program cannot record progress for; a film is a thing
/// it can. Collapsing them would leave an explanation with nothing to say.
#[derive(Debug, Clone, Copy, PartialEq, Eq, Structural)]
pub enum Episode {
    /// Exactly one, which is the only case anything downstream can record.
    Only(u32),
    /// Several, and therefore none of them.
    ///
    /// `01-12` comes back from the parser as two episodes rather than a range.
    /// Neither number is the answer: a file holding twelve episodes is not the
    /// first and is not the twelfth, and writing either down is the failure this
    /// project is built to prevent.
    Several,
    /// One episode, spelled as something other than a whole number.
    ///
    /// `5.5` is a real episode of some series and there is nowhere to put it, so
    /// it is neither rounded into a neighbour it is not nor called absent.
    ///
    /// **Apart from [`Absent`](Episode::Absent) for the reason
    /// [`Several`](Episode::Several) is apart from it.** A film spells no episode
    /// and is a work this program can record as watched; a half episode is not.
    /// A consumer reading the two alike would mark a whole series watched
    /// because somebody played a recap.
    NotWhole,
    /// None spelled at all: a film, or a name that does not say.
    Absent,
}

/// What a filename spells.
///
/// The parser's answer, narrowed to what the stages below read, and nothing is
/// matched or judged yet. Every field is what the **name** said, never what a
/// corpus holds.
#[derive(Debug, PartialEq, Eq)]
pub struct Parsed {
    /// The title as the name spelled it, where the parser found one.
    pub title: Option<String>,
    /// The episode, or the reason there is not exactly one.
    pub episode: Episode,
    /// The season, where the name spelled one in a form the parser knows.
    ///
    /// `Season 2` and `2nd Season` both arrive here as two. A roman numeral
    /// does not: `Show Title II` comes back with the numeral still in the title
    /// and no season at all, which is why the normaliser has to carry a rule of
    /// its own rather than trust this field.
    pub season: Option<u32>,
    /// The part of a season, where the parser reported one or it was read back
    /// from after the season marker.
    ///
    /// What the name said and nothing decided about it: `Part 1` is one here,
    /// and whether a first part is the same list entry as no part at all is the
    /// key's rule. A part the name spells inside the title, with no season in
    /// front of it, stays in [`title`](Parsed::title) where the parser left it.
    pub part: Option<u32>,
    /// The year, which is what tells a remake from its original.
    pub year: Option<u32>,
    /// The release group, which the parser reports apart from the title.
    ///
    /// Taken off here and nowhere later. Brackets in a list entry are part of
    /// its name - `[Oshi no Ko]` is the whole romaji title of one series on
    /// AniList - so a rule stripping a bracketed tag from text would reduce
    /// that title to nothing.
    pub release_group: Option<String>,
    /// The whole name with the release's own words struck out of it.
    ///
    /// A title ends at the first thing the parser recognises, so a name that
    /// extends a series' name reports the series and nothing of the subtitle
    /// after it. This is what still holds the subtitle.
    pub text: String,
    /// Whether the text this was parsed from was read or inferred.
    ///
    /// A filename is bytes and every encoding is read, so a name that is not
    /// valid UTF-8 still arrives here - but by inference, and an inferred title
    /// is a weaker input than one that could not have been anything else. The
    /// fact travels with the parse so that an explanation can give it.
    pub confidence: Confidence,
}

/// What a filename spells, as contracts speak of it.
#[verifier::ext_equal]
pub struct ParsedView {
    pub title: Option<Seq<char>>,
    pub episode: Episode,
    pub season: Option<u32>,
    pub part: Option<u32>,
    pub year: Option<u32>,
    pub release_group: Option<Seq<char>>,
    pub text: Seq<char>,
    pub confidence: Confidence,
}

/// The characters of a string that may be missing.
pub open spec fn text_or_none(text: Option<String>) -> Option<Seq<char>> {
    match text {
        Some(held) => Some(held@),
        None => None,
    }
}

impl View for Parsed {
    type V = ParsedView;

    open spec fn view(&self) -> ParsedView {
        ParsedView {
            title: text_or_none(self.title),
            episode: self.episode,
            season: self.season,
            part: self.part,
            year: self.year,
            release_group: text_or_none(self.release_group),
            text: self.text@,
            confidence: self.confidence,
        }
    }
}

impl Clone for Parsed {
    fn clone(&self) -> (copy: Self)
        ensures
            copy@ == self@,
    {
        Parsed {
            title: copied(&self.title),
            episode: self.episode,
            season: self.season,
            part: self.part,
            year: self.year,
            release_group: copied(&self.release_group),
            text: self.text.clone(),
            confidence: self.confidence,
        }
    }
}

fn copied(text: &Option<String>) -> (copy: Option<String>)
    ensures
        text_or_none(copy) == text_or_none(*text),
{
    match text {
        Some(held) => Some(held.clone()),
        None => None,
    }
}

// The parser's elements.

/// One thing the parser recognised in a name.
#[derive(Debug, PartialEq, Eq)]
pub struct Element {
    /// What it is, by the parser's own word for it.
    pub kind: String,
    /// What it says.
    pub value: String,
    /// Where in the name it stands, counted in characters.
    pub position: usize,
}

/// An element as contracts speak of it: its kind, its value and its position.
pub type ElementView = (Seq<char>, Seq<char>, int);

impl View for Element {
    type V = (Seq<char>, Seq<char>, int);

    open spec fn view(&self) -> (Seq<char>, Seq<char>, int) {
        (self.kind@, self.value@, self.position as int)
    }
}

/// Each of some elements, as contracts speak of it.
pub open spec fn element_views(elements: Seq<Element>) -> Seq<ElementView> {
    elements.map_values(|element: Element| element@)
}

/// The elements `anitomy_ng::parse` reports of a name under its default options.
pub uninterp spec fn reported_elements(name: Seq<char>) -> Seq<(Seq<char>, Seq<char>, int)>;

/// `anitomy_ng::parse` reports what it recognises in a name, which depends on
/// the name and the options alone, and the options are its own defaults. Each
/// kind goes by the name `ElementKind::as_str` gives it. What it recognises is
/// left to it.
///
/// The kinds are listed rather than caught by a wildcard: a kind added upstream
/// then stops the build and has to be answered for.
#[verifier::external_body]
fn elements_of(name: &str) -> (elements: Vec<Element>)
    ensures
        element_views(elements@) == reported_elements(name@),
{
    anitomy_ng::parse(name, anitomy_ng::Options::default())
        .into_iter()
        .map(|element| Element {
            kind: match element.kind {
                Kind::AudioTerm | Kind::Device | Kind::Episode | Kind::EpisodeTitle | Kind::Other
                | Kind::FileChecksum | Kind::FileExtension | Kind::Language | Kind::Part
                | Kind::ReleaseGroup | Kind::ReleaseInformation | Kind::ReleaseVersion
                | Kind::Season | Kind::Source | Kind::Subtitles | Kind::Title | Kind::Type
                | Kind::VideoResolution | Kind::VideoTerm | Kind::Volume
                | Kind::Year => element.kind.as_str().to_owned(),
            },
            value: element.value,
            position: element.position,
        })
        .collect()
}

/// Whether an element is one of the release's own words rather than a part of
/// the name it carries.
///
/// A season, a part, a year and a type are not among them: what reads the name
/// reads them itself.
pub open spec fn is_of_the_release(kind: Seq<char>) -> bool {
    ||| kind == "audio_term"@
    ||| kind == "device"@
    ||| kind == "episode"@
    ||| kind == "file_checksum"@
    ||| kind == "file_extension"@
    ||| kind == "language"@
    ||| kind == "other"@
    ||| kind == "release_group"@
    ||| kind == "release_information"@
    ||| kind == "release_version"@
    ||| kind == "source"@
    ||| kind == "subtitles"@
    ||| kind == "video_resolution"@
    ||| kind == "video_term"@
    ||| kind == "volume"@
}

fn of_the_release(kind: &str) -> (answer: bool)
    ensures
        answer == is_of_the_release(kind@),
{
    same(kind, "audio_term") || same(kind, "device") || same(kind, "episode") || same(
        kind,
        "file_checksum",
    ) || same(kind, "file_extension") || same(kind, "language") || same(kind, "other") || same(
        kind,
        "release_group",
    ) || same(kind, "release_information") || same(kind, "release_version") || same(
        kind,
        "source",
    ) || same(kind, "subtitles") || same(kind, "video_resolution") || same(kind, "video_term")
        || same(kind, "volume")
}

// Numbers.

/// The number some digits stand for.
pub open spec fn decimal_value(digits: Seq<char>) -> nat
    decreases digits.len(),
{
    if digits.len() == 0 {
        0
    } else {
        10 * decimal_value(digits.drop_last()) + digit_value(digits.last())
    }
}

/// The digits of a number that may be written with a plus sign in front.
pub open spec fn unsigned(text: Seq<char>) -> Seq<char> {
    if text.len() > 0 && text[0] == '+' {
        text.skip(1)
    } else {
        text
    }
}

/// The whole number a value spells, where it spells one that fits.
pub open spec fn whole_number(text: Seq<char>) -> Option<u32> {
    let digits = unsigned(text);
    if digits.len() > 0 && (forall|i: int| 0 <= i < digits.len() ==> is_digit(#[trigger] digits[i]))
        && decimal_value(digits) <= u32::MAX {
        Some(decimal_value(digits) as u32)
    } else {
        None
    }
}

/// The whole number a value spells, where it spells one that fits.
pub fn read_whole_number(text: &str) -> (number: Option<u32>)
    ensures
        number == whole_number(text@),
{
    let letters = characters(text);
    let start: usize = if letters.len() > 0 && letters[0] == '+' { 1 } else { 0 };
    let ghost digits = unsigned(text@);
    assert(digits =~= text@.skip(start as int));
    if letters.len() == start {
        return None;
    }
    let mut value: u64 = 0;
    let mut i: usize = start;
    while i < letters.len()
        invariant
            start <= i <= letters@.len(),
            letters@ == text@,
            digits == unsigned(text@),
            digits == text@.skip(start as int),
            forall|j: int| 0 <= j < i - start ==> is_digit(#[trigger] digits[j]),
            value == if decimal_value(digits.take(i - start)) <= u32::MAX {
                decimal_value(digits.take(i - start)) as int
            } else {
                u32::MAX + 1
            },
        decreases letters@.len() - i,
    {
        assert(digits[i - start] == letters@[i as int]);
        assert(digits.take(i + 1 - start).drop_last() =~= digits.take(i - start));
        match digit_of(letters[i]) {
            Some(digit) => {
                if value <= u32::MAX as u64 {
                    value = 10 * value + digit as u64;
                    if value > u32::MAX as u64 {
                        value = u32::MAX as u64 + 1;
                    }
                }
            },
            None => {
                assert(!is_digit(digits[i - start]));
                return None;
            },
        }
        i += 1;
    }
    assert(digits.take(i - start) =~= digits);
    if value <= u32::MAX as u64 {
        Some(value as u32)
    } else {
        None
    }
}

// What the elements say.

/// What the elements of one kind say, in order.
pub open spec fn values_of(elements: Seq<ElementView>, kind: Seq<char>) -> Seq<Seq<char>>
    decreases elements.len(),
{
    if elements.len() == 0 {
        Seq::empty()
    } else if elements.last().0 == kind {
        values_of(elements.drop_last(), kind).push(elements.last().1)
    } else {
        values_of(elements.drop_last(), kind)
    }
}

/// The first of some values, where there is one.
pub open spec fn first_value(values: Seq<Seq<char>>) -> Option<Seq<char>> {
    if values.len() == 0 {
        None
    } else {
        Some(values[0])
    }
}

/// The first whole number among some values.
pub open spec fn first_number(values: Seq<Seq<char>>) -> Option<u32>
    decreases values.len(),
{
    if values.len() == 0 {
        None
    } else {
        match first_number(values.drop_last()) {
            Some(number) => Some(number),
            None => whole_number(values.last()),
        }
    }
}

/// The episode some values spell between them.
pub open spec fn episode_of(values: Seq<Seq<char>>) -> Episode {
    if values.len() == 0 {
        Episode::Absent
    } else if values.len() > 1 {
        Episode::Several
    } else {
        match whole_number(values[0]) {
            Some(number) => Episode::Only(number),
            None => Episode::NotWhole,
        }
    }
}

/// What a name says, where its elements, the part read back from it and the
/// trust its text deserves are given.
pub open spec fn said_by(
    text: Seq<char>,
    elements: Seq<ElementView>,
    lost_part: Option<u32>,
    confidence: Confidence,
) -> ParsedView {
    ParsedView {
        title: first_value(values_of(elements, "title"@)),
        episode: episode_of(values_of(elements, "episode"@)),
        season: first_number(values_of(elements, "season"@)),
        part: match first_number(values_of(elements, "part"@)) {
            Some(number) => Some(number),
            None => lost_part,
        },
        year: first_number(values_of(elements, "year"@)),
        release_group: first_value(values_of(elements, "release_group"@)),
        text: struck_out(text, elements),
        confidence,
    }
}

/// A value of one kind, where this element is the first to give one.
fn take_first(found: Option<String>, element: &Element, kind: &str) -> (now: Option<String>)
    ensures
        text_or_none(now) == if found is None && element@.0 == kind@ {
            Some(element@.1)
        } else {
            text_or_none(found)
        },
{
    if found.is_none() && same(element.kind.as_str(), kind) {
        Some(element.value.clone())
    } else {
        found
    }
}

/// A number of one kind, where this element is the first to spell one.
fn take_first_number(found: Option<u32>, element: &Element, kind: &str) -> (now: Option<u32>)
    ensures
        now == if found is None && element@.0 == kind@ {
            whole_number(element@.1)
        } else {
            found
        },
{
    if found.is_none() && same(element.kind.as_str(), kind) {
        read_whole_number(element.value.as_str())
    } else {
        found
    }
}

/// What a name says, where its elements, the part read back from it and the
/// trust its text deserves are given.
///
/// The first of a kind wins. The parser sorts what it reports by position, so
/// the first is the leftmost, and a name carrying two of anything but an episode
/// is a name this crate has no better rule for.
pub fn assemble(
    text: &str,
    elements: &[Element],
    lost_part: Option<u32>,
    confidence: Confidence,
) -> (parsed: Parsed)
    ensures
        parsed@ == said_by(text@, element_views(elements@), lost_part, confidence),
{
    let mut title: Option<String> = None;
    let mut release_group: Option<String> = None;
    let mut season: Option<u32> = None;
    let mut part: Option<u32> = None;
    let mut year: Option<u32> = None;
    let mut episodes: usize = 0;
    let mut episode = Episode::Absent;
    let ghost all = element_views(elements@);
    let mut i: usize = 0;
    assert(all.take(0) =~= Seq::empty());
    while i < elements.len()
        invariant
            i <= elements@.len(),
            all == element_views(elements@),
            text_or_none(title) == first_value(values_of(all.take(i as int), "title"@)),
            text_or_none(release_group) == first_value(
                values_of(all.take(i as int), "release_group"@),
            ),
            season == first_number(values_of(all.take(i as int), "season"@)),
            part == first_number(values_of(all.take(i as int), "part"@)),
            year == first_number(values_of(all.take(i as int), "year"@)),
            episodes == values_of(all.take(i as int), "episode"@).len(),
            episodes <= i,
            episode == episode_of(values_of(all.take(i as int), "episode"@)),
        decreases elements@.len() - i,
    {
        let element = &elements[i];
        proof {
            let earlier = all.take(i as int);
            let now = all.take(i + 1);
            assert(now.drop_last() =~= earlier);
            assert(now.last() == element@);
            lemma_one_more_value(earlier, element@, "title"@);
            lemma_one_more_value(earlier, element@, "release_group"@);
            lemma_one_more_value(earlier, element@, "season"@);
            lemma_one_more_value(earlier, element@, "part"@);
            lemma_one_more_value(earlier, element@, "year"@);
            lemma_one_more_value(earlier, element@, "episode"@);
            assert(now =~= earlier.push(element@));
        }
        title = take_first(title, element, "title");
        release_group = take_first(release_group, element, "release_group");
        season = take_first_number(season, element, "season");
        part = take_first_number(part, element, "part");
        year = take_first_number(year, element, "year");
        if same(element.kind.as_str(), "episode") {
            episode = if episodes > 0 {
                Episode::Several
            } else {
                match read_whole_number(element.value.as_str()) {
                    Some(number) => Episode::Only(number),
                    None => Episode::NotWhole,
                }
            };
            episodes += 1;
        }
        i += 1;
    }
    assert(all.take(i as int) =~= all);
    let part = match part {
        Some(number) => Some(number),
        None => lost_part,
    };
    let text = strike(text, elements);
    Parsed { title, episode, season, part, year, release_group, text, confidence }
}

proof fn lemma_one_more_value(earlier: Seq<ElementView>, element: ElementView, kind: Seq<char>)
    ensures
        ({
            let before = values_of(earlier, kind);
            let now = values_of(earlier.push(element), kind);
            &&& now == if element.0 == kind {
                before.push(element.1)
            } else {
                before
            }
            &&& first_value(now) == if first_value(before) is None && element.0 == kind {
                Some(element.1)
            } else {
                first_value(before)
            }
            &&& first_number(now) == if first_number(before) is None && element.0 == kind {
                whole_number(element.1)
            } else {
                first_number(before)
            }
        }),
{
    let before = values_of(earlier, kind);
    assert(earlier.push(element).drop_last() =~= earlier);
    assert(before.push(element.1).drop_last() =~= before);
}

// Striking the release's own words out.

/// A letter or a digit of ASCII.
pub open spec fn is_plain(c: char) -> bool {
    is_digit(c) || ('A' <= c && c <= 'Z') || ('a' <= c && c <= 'z')
}

fn plain(c: char) -> (answer: bool)
    ensures
        answer == is_plain(c),
{
    ('0' <= c && c <= '9') || ('A' <= c && c <= 'Z') || ('a' <= c && c <= 'z')
}

/// Where the plain letters and digits that end at a place begin.
pub open spec fn run_start(text: Seq<char>, n: int) -> int
    decreases n,
{
    if n > 0 && is_plain(text[n - 1]) {
        run_start(text, n - 1)
    } else {
        n
    }
}

/// Where the plain letters and digits that begin at a place have ended.
pub open spec fn run_end(text: Seq<char>, n: int) -> int
    decreases text.len() - n,
{
    if n < text.len() && is_plain(text[n]) {
        run_end(text, n + 1)
    } else {
        n
    }
}

/// A place in a text, or its end where the place lies beyond it.
pub open spec fn within(text: Seq<char>, place: int) -> int {
    if place <= text.len() {
        place
    } else {
        text.len() as int
    }
}

/// What an element takes up of a text: what it says, and the plain letters and
/// digits joined to it. The season and the episode of `S03E05` are two elements
/// and one word.
pub open spec fn taken_up(text: Seq<char>, element: ElementView) -> (int, int) {
    (
        run_start(text, within(text, element.2)),
        run_end(text, within(text, element.2 + element.1.len())),
    )
}

/// Whether a character belongs to one of the release's own words.
pub open spec fn is_struck(text: Seq<char>, elements: Seq<ElementView>, i: int) -> bool {
    exists|k: int|
        0 <= k < elements.len() && is_of_the_release((#[trigger] elements[k]).0) && taken_up(
            text,
            elements[k],
        ).0 <= i < taken_up(text, elements[k]).1
}

/// The text with a space for every character of the release's own words.
pub open spec fn struck_out(text: Seq<char>, elements: Seq<ElementView>) -> Seq<char> {
    Seq::new(
        text.len(),
        |i: int|
            if is_struck(text, elements, i) {
                ' '
            } else {
                text[i]
            },
    )
}

/// Where an element and what is joined to it lie in a text.
fn place_of(letters: &[char], element: &Element) -> (place: (usize, usize))
    ensures
        (place.0 as int, place.1 as int) == taken_up(letters@, element@),
        place.0 <= letters@.len(),
        place.1 <= letters@.len(),
{
    let count = characters(element.value.as_str()).len();
    let mut start: usize = if element.position <= letters.len() {
        element.position
    } else {
        letters.len()
    };
    let mut end: usize = if count <= letters.len() - start && element.position
        <= letters.len() {
        start + count
    } else {
        letters.len()
    };
    while start > 0 && plain(letters[start - 1])
        invariant
            start <= letters@.len(),
            run_start(letters@, within(letters@, element@.2)) == run_start(letters@, start as int),
        decreases start,
    {
        start -= 1;
    }
    while end < letters.len() && plain(letters[end])
        invariant
            end <= letters@.len(),
            run_end(letters@, within(letters@, element@.2 + element@.1.len())) == run_end(
                letters@,
                end as int,
            ),
        decreases letters@.len() - end,
    {
        end += 1;
    }
    (start, end)
}

/// The text with a space for every character of the release's own words.
pub fn strike(text: &str, elements: &[Element]) -> (struck: String)
    ensures
        struck@ == struck_out(text@, element_views(elements@)),
{
    let letters = characters(text);
    let mut kept = characters(text);
    let ghost all = element_views(elements@);
    let mut k: usize = 0;
    while k < elements.len()
        invariant
            k <= elements@.len(),
            letters@ == text@,
            all == element_views(elements@),
            kept@.len() == text@.len(),
            forall|i: int|
                0 <= i < text@.len() ==> #[trigger] kept@[i] == if is_struck(
                    text@,
                    all.take(k as int),
                    i,
                ) {
                    ' '
                } else {
                    text@[i]
                },
        decreases elements@.len() - k,
    {
        let ghost before = kept@;
        let ghost now = all.take(k + 1);
        assert(now[k as int] == elements@[k as int]@);
        assert(forall|j: int| 0 <= j < k ==> now[j] == #[trigger] all.take(k as int)[j]);
        if of_the_release(elements[k].kind.as_str()) {
            let (start, end) = place_of(letters.as_slice(), &elements[k]);
            let mut i: usize = start;
            while i < end
                invariant
                    start <= i,
                    i == start || i <= end,
                    end <= kept@.len(),
                    kept@.len() == before.len(),
                    forall|j: int|
                        0 <= j < kept@.len() ==> #[trigger] kept@[j] == if start <= j < i {
                            ' '
                        } else {
                            before[j]
                        },
                decreases end - i,
            {
                kept.set(i, ' ');
                i += 1;
            }
            assert forall|j: int| 0 <= j < text@.len() implies #[trigger] kept@[j] == if is_struck(
                text@,
                now,
                j,
            ) {
                ' '
            } else {
                text@[j]
            } by {
                lemma_struck_by_one_more(text@, all.take(k as int), now, k as int, j);
            }
        } else {
            assert forall|j: int| 0 <= j < text@.len() implies #[trigger] kept@[j] == if is_struck(
                text@,
                now,
                j,
            ) {
                ' '
            } else {
                text@[j]
            } by {
                lemma_struck_by_one_more(text@, all.take(k as int), now, k as int, j);
            }
        }
        k += 1;
    }
    assert(all.take(k as int) =~= all);
    assert(kept@ =~= struck_out(text@, all));
    spelled(kept.as_slice())
}

proof fn lemma_struck_by_one_more(
    text: Seq<char>,
    earlier: Seq<ElementView>,
    now: Seq<ElementView>,
    k: int,
    i: int,
)
    requires
        0 <= k,
        earlier.len() == k,
        now.len() == k + 1,
        forall|j: int| 0 <= j < k ==> now[j] == #[trigger] earlier[j],
    ensures
        is_struck(text, now, i) == (is_struck(text, earlier, i) || (is_of_the_release(now[k].0)
            && taken_up(text, now[k]).0 <= i < taken_up(text, now[k]).1)),
{
    if is_struck(text, earlier, i) {
        let j = choose|j: int|
            0 <= j < earlier.len() && is_of_the_release((#[trigger] earlier[j]).0) && taken_up(
                text,
                earlier[j],
            ).0 <= i < taken_up(text, earlier[j]).1;
        assert(now[j] == earlier[j]);
    }
    if is_struck(text, now, i) {
        let j = choose|j: int|
            0 <= j < now.len() && is_of_the_release((#[trigger] now[j]).0) && taken_up(
                text,
                now[j],
            ).0 <= i < taken_up(text, now[j]).1;
        if j < k {
            assert(now[j] == earlier[j]);
        }
    }
}

// The part the parser loses.

/// The first element of a kind from one on.
pub open spec fn first_of_kind(elements: Seq<ElementView>, from: int, kind: Seq<char>) -> int
    decreases elements.len() - from,
{
    if from < elements.len() && elements[from].0 != kind {
        first_of_kind(elements, from + 1, kind)
    } else {
        from
    }
}

/// The text between the season and the element after it, where a name has a
/// season.
pub open spec fn after_season(text: Seq<char>, elements: Seq<ElementView>) -> Option<Seq<char>> {
    let at = first_of_kind(elements, 0, "season"@);
    if at >= elements.len() {
        None
    } else {
        let start = within(text, elements[at].2);
        let end = if at + 1 < elements.len() {
            within(text, elements[at + 1].2)
        } else {
            text.len() as int
        };
        Some(
            if start <= end {
                text.subrange(start, end)
            } else {
                Seq::empty()
            },
        )
    }
}

/// The text between the season and the element after it.
///
/// The parser loses a part there because the title ends at the season marker
/// and a bare `Part` counts to it only inside brackets. `Part II` does not count
/// even inside them, because the parser reads only digits after a `Part`. After
/// the episode, a `Part` is part of the episode's own title, and the parser is
/// right about that. A `Part` after a year or a resolution is lost the same
/// way, as in `Show Title (2019) Part 2 - 03`. Nothing here reads that one back.
///
/// The parser counts positions in characters, so the text is cut by characters
/// rather than by bytes.
pub fn text_after_season(text: &str, elements: &[Element]) -> (between: Option<String>)
    ensures
        text_or_none(between) == after_season(text@, element_views(elements@)),
{
    let letters = characters(text);
    let ghost all = element_views(elements@);
    let mut at: usize = 0;
    while at < elements.len()
        invariant
            at <= elements@.len(),
            letters@ == text@,
            all == element_views(elements@),
            first_of_kind(all, 0, "season"@) == first_of_kind(all, at as int, "season"@),
        decreases elements@.len() - at,
    {
        assert(all[at as int] == elements@[at as int]@);
        if same(elements[at].kind.as_str(), "season") {
            let start: usize = if elements[at].position <= letters.len() {
                elements[at].position
            } else {
                letters.len()
            };
            let end: usize = if elements.len() - at > 1 {
                assert(all[at + 1] == elements@[at + 1]@);
                if elements[at + 1].position <= letters.len() {
                    elements[at + 1].position
                } else {
                    letters.len()
                }
            } else {
                letters.len()
            };
            let between = if start <= end {
                spelled(vstd::slice::slice_subrange(letters.as_slice(), start, end))
            } else {
                String::new()
            };
            return Some(between);
        }
        at += 1;
    }
    None
}

/// The part a name spells between its season and the element after it.
pub open spec fn lost_part(text: Seq<char>, elements: Seq<ElementView>) -> Option<nat> {
    match after_season(text, elements) {
        Some(between) => part_in_text(between),
        None => None,
    }
}

/// What a filename spells.
pub open spec fn parsed_name(name: Seq<u8>) -> ParsedView {
    let text = decoded_text(name);
    let elements = reported_elements(text);
    let lost = match lost_part(text, elements) {
        Some(number) => Some(number as u32),
        None => None,
    };
    said_by(text, elements, lost, decoded_confidence(name))
}

/// Read a filename for what it says about the media.
///
/// Begins with a decode, because the parser takes text and this program stores
/// filenames as bytes. Nothing here fails: a name that says nothing produces a
/// `Parsed` saying nothing, which is an answer the stages below can act on.
pub fn parse(name: &RawPath) -> (parsed: Parsed)
    ensures
        parsed@ == parsed_name(name@),
{
    let decoded = decode(name.as_bytes());
    let elements = elements_of(decoded.text.as_str());
    let lost = match text_after_season(decoded.text.as_str(), elements.as_slice()) {
        Some(between) => part_in(between.as_str()),
        None => None,
    };
    assemble(decoded.text.as_str(), elements.as_slice(), lost, decoded.confidence)
}

// What a parse promises.

/// An episode is a number only where the name spells exactly one and it is a
/// whole one. Several are never one of them, a half is never a neighbour, and
/// none is never nought.
pub proof fn law_one_whole_number_is_an_episode(
    text: Seq<char>,
    elements: Seq<ElementView>,
    lost_part: Option<u32>,
    confidence: Confidence,
)
    ensures
        ({
            let spelled = values_of(elements, "episode"@);
            match said_by(text, elements, lost_part, confidence).episode {
                Episode::Only(number) => spelled.len() == 1 && whole_number(spelled[0]) == Some(
                    number,
                ),
                Episode::Several => spelled.len() > 1,
                Episode::NotWhole => spelled.len() == 1 && whole_number(spelled[0]) is None,
                Episode::Absent => spelled.len() == 0,
            }
        }),
{
}

/// What is struck out of a name is struck out where it stands: the rest of the
/// name stays where it was, and the release's own words leave spaces.
pub proof fn law_the_rest_of_a_name_stays_where_it_was(
    text: Seq<char>,
    elements: Seq<ElementView>,
    i: int,
)
    requires
        0 <= i < text.len(),
    ensures
        struck_out(text, elements).len() == text.len(),
        struck_out(text, elements)[i] == text[i] || struck_out(text, elements)[i] == ' ',
        !is_struck(text, elements, i) ==> struck_out(text, elements)[i] == text[i],
{
}

/// A whole number is read digit by digit: one digit is its own number, a digit
/// more makes ten times the number and the digit, and anything that is no digit
/// makes it no number. What does not fit is no number, however it goes on.
pub proof fn law_a_number_is_read_digit_by_digit(text: Seq<char>, c: char)
    ensures
        '0' <= c && c <= '9' ==> whole_number(seq![c]) == Some(((c as u32) - 48) as u32),
        !('0' <= c && c <= '9') ==> whole_number(seq![c]) is None,
        text.len() > 0 && '0' <= c && c <= '9' ==> match whole_number(text) {
            Some(number) => if 10 * number + ((c as u32) - 48) <= u32::MAX {
                whole_number(text.push(c)) == Some((10 * number + ((c as u32) - 48)) as u32)
            } else {
                whole_number(text.push(c)) is None
            },
            None => if text == seq!['+'] {
                whole_number(text.push(c)) == Some(((c as u32) - 48) as u32)
            } else {
                whole_number(text.push(c)) is None
            },
        },
        text.len() > 0 && !('0' <= c && c <= '9') ==> whole_number(text.push(c)) is None,
        whole_number(Seq::empty()) is None,
{
    let one = seq![c];
    assert(decimal_value(Seq::<char>::empty()) == 0);
    assert(one.drop_last() =~= Seq::<char>::empty());
    assert(decimal_value(one) == digit_value(c));
    if c == '+' {
        assert(unsigned(one) =~= Seq::<char>::empty());
    } else {
        assert(unsigned(one)[0] == c);
    }
    if text.len() > 0 {
        let longer = text.push(c);
        let digits = unsigned(text);
        let more = unsigned(longer);
        assert(more =~= digits.push(c));
        assert(more.drop_last() =~= digits);
        assert(more[more.len() - 1] == c);
        assert(decimal_value(more) == 10 * decimal_value(digits) + digit_value(c));
        assert forall|i: int| 0 <= i < digits.len() implies more[i] == digits[i] by {}
        if text == seq!['+'] {
            assert(digits =~= Seq::<char>::empty());
        } else if digits.len() == 0 {
            assert(text =~= seq!['+']);
        }
        if whole_number(text) is None && digits.len() > 0 {
            if !(forall|i: int| 0 <= i < digits.len() ==> is_digit(#[trigger] digits[i])) {
                let i = choose|i: int| 0 <= i < digits.len() && !is_digit(#[trigger] digits[i]);
                assert(!is_digit(more[i]));
            }
        }
        if whole_number(text) is Some && is_digit(c) {
            assert forall|i: int| 0 <= i < more.len() implies is_digit(#[trigger] more[i]) by {
                if i < digits.len() {
                    assert(is_digit(digits[i]));
                }
            }
        }
    }
}

proof fn lemma_a_written_number_has_its_value(number: nat, noughts: nat)
    ensures
        ({
            let digits = Seq::new(noughts, |i: int| '0') + decimal_text(number);
            &&& decimal_value(digits) == number
            &&& digits.len() > 0
            &&& forall|i: int| 0 <= i < digits.len() ==> is_digit(#[trigger] digits[i])
        }),
    decreases number, noughts,
{
    let front = Seq::new(noughts, |i: int| '0');
    let digits = front + decimal_text(number);
    if number >= 10 {
        lemma_a_written_number_has_its_value(number / 10, noughts);
        let shorter = front + decimal_text(number / 10);
        assert(digits.drop_last() =~= shorter);
        assert(digits.last() == digit((number % 10) as int));
        assert forall|i: int| 0 <= i < digits.len() implies is_digit(#[trigger] digits[i]) by {
            if i < shorter.len() {
                assert(digits[i] == shorter[i]);
            } else {
                assert(digits[i] == digits.last());
            }
        }
    } else {
        assert(digits.last() == digit(number as int));
        assert(digits.drop_last() =~= front);
        lemma_noughts_are_nought(noughts);
        assert forall|i: int| 0 <= i < digits.len() implies is_digit(#[trigger] digits[i]) by {
            if i < front.len() {
                assert(digits[i] == front[i]);
            } else {
                assert(digits[i] == digits.last());
            }
        }
    }
}

proof fn lemma_noughts_are_nought(noughts: nat)
    ensures
        decimal_value(Seq::new(noughts, |i: int| '0')) == 0,
    decreases noughts,
{
    if noughts > 0 {
        lemma_noughts_are_nought((noughts - 1) as nat);
        assert(Seq::new(noughts, |i: int| '0').drop_last() =~= Seq::new(
            (noughts - 1) as nat,
            |i: int| '0',
        ));
    }
}

/// Every number that fits is read back from its digits, with noughts in front of
/// them or a plus sign or neither, and one that does not fit is not read.
pub proof fn law_a_written_number_is_read_back(number: nat, noughts: nat)
    ensures
        ({
            let digits = Seq::new(noughts, |i: int| '0') + decimal_text(number);
            &&& number <= u32::MAX ==> whole_number(digits) == Some(number as u32)
            &&& number <= u32::MAX ==> whole_number(seq!['+'] + digits) == Some(number as u32)
            &&& number > u32::MAX ==> whole_number(digits) is None
        }),
        number <= u32::MAX ==> whole_number(decimal_text(number)) == Some(number as u32),
{
    let digits = Seq::new(noughts, |i: int| '0') + decimal_text(number);
    lemma_a_written_number_has_its_value(number, noughts);
    lemma_a_written_number_has_its_value(number, 0);
    assert(Seq::new(0, |i: int| '0') + decimal_text(number) =~= decimal_text(number));
    assert(is_digit(digits[0]));
    assert(is_digit(decimal_text(number)[0]));
    assert(unsigned(seq!['+'] + digits) =~= digits);
}

/// An episode of any number that fits is that number, wherever the name spells
/// it alone, and half an episode or one with a letter in it is none.
pub proof fn law_an_episode_is_the_number_it_is_written_as(
    text: Seq<char>,
    elements: Seq<ElementView>,
    lost_part: Option<u32>,
    confidence: Confidence,
    at: int,
    number: nat,
    noughts: nat,
)
    requires
        0 <= at < elements.len(),
        elements[at].0 == "episode"@,
        forall|j: int| 0 <= j < elements.len() && j != at ==> (#[trigger] elements[j]).0
            != "episode"@,
    ensures
        number <= u32::MAX && elements[at].1 == Seq::new(noughts, |i: int| '0') + decimal_text(
            number,
        ) ==> said_by(text, elements, lost_part, confidence).episode == Episode::Only(
            number as u32,
        ),
        (exists|i: int|
            1 <= i < elements[at].1.len() && !('0' <= #[trigger] elements[at].1[i]
                && elements[at].1[i] <= '9')) ==> said_by(
            text,
            elements,
            lost_part,
            confidence,
        ).episode == Episode::NotWhole,
        elements[at].1.len() == 0 ==> said_by(text, elements, lost_part, confidence).episode
            == Episode::NotWhole,
{
    lemma_one_of_a_kind(elements, "episode"@, at);
    law_a_written_number_is_read_back(number, noughts);
    let value = elements[at].1;
    if exists|i: int| 1 <= i < value.len() && !('0' <= #[trigger] value[i] && value[i] <= '9') {
        let i = choose|i: int|
            1 <= i < value.len() && !('0' <= #[trigger] value[i] && value[i] <= '9');
        let digits = unsigned(value);
        if value[0] == '+' {
            assert(digits[i - 1] == value[i]);
            assert(!is_digit(digits[i - 1]));
        } else {
            assert(!is_digit(digits[i]));
        }
    }
}

/// What the elements of one kind say, where there is none and where one comes
/// first.
proof fn lemma_first_of_its_kind(elements: Seq<ElementView>, kind: Seq<char>, at: int)
    requires
        0 <= at < elements.len(),
        elements[at].0 == kind,
        forall|j: int| 0 <= j < at ==> (#[trigger] elements[j]).0 != kind,
    ensures
        values_of(elements, kind).len() > 0,
        values_of(elements, kind)[0] == elements[at].1,
    decreases elements.len(),
{
    let shorter = elements.drop_last();
    if at < shorter.len() {
        assert forall|j: int| 0 <= j < at implies (#[trigger] shorter[j]).0 != kind by {
            assert(shorter[j] == elements[j]);
        }
        assert(shorter[at] == elements[at]);
        lemma_first_of_its_kind(shorter, kind, at);
    } else {
        lemma_none_of_a_kind(shorter, kind);
    }
}

proof fn lemma_none_of_a_kind(elements: Seq<ElementView>, kind: Seq<char>)
    requires
        forall|j: int| 0 <= j < elements.len() ==> (#[trigger] elements[j]).0 != kind,
    ensures
        values_of(elements, kind).len() == 0,
    decreases elements.len(),
{
    if elements.len() > 0 {
        let shorter = elements.drop_last();
        assert forall|j: int| 0 <= j < shorter.len() implies (#[trigger] shorter[j]).0 != kind by {
            assert(shorter[j] == elements[j]);
        }
        assert(elements[elements.len() - 1].0 != kind);
        lemma_none_of_a_kind(shorter, kind);
    }
}

proof fn lemma_one_of_a_kind(elements: Seq<ElementView>, kind: Seq<char>, at: int)
    requires
        0 <= at < elements.len(),
        elements[at].0 == kind,
        forall|j: int| 0 <= j < elements.len() && j != at ==> (#[trigger] elements[j]).0 != kind,
    ensures
        values_of(elements, kind) == seq![elements[at].1],
    decreases elements.len(),
{
    let shorter = elements.drop_last();
    if at < shorter.len() {
        assert forall|j: int| 0 <= j < shorter.len() && j != at implies (#[trigger] shorter[j]).0
            != kind by {
            assert(shorter[j] == elements[j]);
        }
        assert(elements[elements.len() - 1].0 != kind);
        lemma_one_of_a_kind(shorter, kind, at);
    } else {
        assert forall|j: int| 0 <= j < shorter.len() implies (#[trigger] shorter[j]).0 != kind by {
            assert(shorter[j] == elements[j]);
        }
        lemma_none_of_a_kind(shorter, kind);
        assert(values_of(elements, kind) =~= seq![elements[at].1]);
    }
}

proof fn lemma_two_of_a_kind(elements: Seq<ElementView>, kind: Seq<char>, one: int, other: int)
    requires
        0 <= one < other < elements.len(),
        elements[one].0 == kind,
        elements[other].0 == kind,
    ensures
        values_of(elements, kind).len() > 1,
    decreases elements.len(),
{
    let shorter = elements.drop_last();
    if other < shorter.len() {
        assert(shorter[one] == elements[one] && shorter[other] == elements[other]);
        lemma_two_of_a_kind(shorter, kind, one, other);
    } else {
        assert(shorter[one] == elements[one]);
        lemma_some_of_a_kind(shorter, kind, one);
    }
}

proof fn lemma_some_of_a_kind(elements: Seq<ElementView>, kind: Seq<char>, at: int)
    requires
        0 <= at < elements.len(),
        elements[at].0 == kind,
    ensures
        values_of(elements, kind).len() > 0,
    decreases elements.len(),
{
    let shorter = elements.drop_last();
    if at < shorter.len() {
        assert(shorter[at] == elements[at]);
        lemma_some_of_a_kind(shorter, kind, at);
    }
}

proof fn lemma_the_first_number_of_its_kind(
    elements: Seq<ElementView>,
    kind: Seq<char>,
    at: int,
)
    requires
        0 <= at < elements.len(),
        elements[at].0 == kind,
        whole_number(elements[at].1) is Some,
        forall|j: int|
            0 <= j < at && (#[trigger] elements[j]).0 == kind ==> whole_number(elements[j].1) is None,
    ensures
        first_number(values_of(elements, kind)) == whole_number(elements[at].1),
    decreases elements.len(),
{
    let shorter = elements.drop_last();
    let last = elements.last();
    lemma_one_more_value(shorter, last, kind);
    assert(shorter.push(last) =~= elements);
    if at < shorter.len() {
        assert forall|j: int| 0 <= j < at && (#[trigger] shorter[j]).0 == kind implies whole_number(
            shorter[j].1,
        ) is None by {
            assert(shorter[j] == elements[j]);
        }
        assert(shorter[at] == elements[at]);
        lemma_the_first_number_of_its_kind(shorter, kind, at);
    } else {
        assert forall|j: int|
            0 <= j < shorter.len() && (#[trigger] shorter[j]).0 == kind implies whole_number(
            shorter[j].1,
        ) is None by {
            assert(shorter[j] == elements[j]);
        }
        lemma_no_number_of_a_kind(shorter, kind);
    }
}

proof fn lemma_no_number_of_a_kind(elements: Seq<ElementView>, kind: Seq<char>)
    requires
        forall|j: int|
            0 <= j < elements.len() && (#[trigger] elements[j]).0 == kind ==> whole_number(
                elements[j].1,
            ) is None,
    ensures
        first_number(values_of(elements, kind)) is None,
    decreases elements.len(),
{
    if elements.len() > 0 {
        let shorter = elements.drop_last();
        let last = elements.last();
        lemma_one_more_value(shorter, last, kind);
        assert(shorter.push(last) =~= elements);
        assert(elements[elements.len() - 1] == last);
        assert forall|j: int|
            0 <= j < shorter.len() && (#[trigger] shorter[j]).0 == kind implies whole_number(
            shorter[j].1,
        ) is None by {
            assert(shorter[j] == elements[j]);
        }
        lemma_no_number_of_a_kind(shorter, kind);
    }
}

/// The first title and the first release group of a name are its title and its
/// release group, and a name that has none says none.
pub proof fn law_the_first_of_a_kind_wins(
    text: Seq<char>,
    elements: Seq<ElementView>,
    lost_part: Option<u32>,
    confidence: Confidence,
    at: int,
)
    requires
        0 <= at < elements.len(),
        forall|j: int| 0 <= j < at ==> (#[trigger] elements[j]).0 != elements[at].0,
    ensures
        elements[at].0 == "title"@ ==> said_by(text, elements, lost_part, confidence).title
            == Some(elements[at].1),
        elements[at].0 == "release_group"@ ==> said_by(
            text,
            elements,
            lost_part,
            confidence,
        ).release_group == Some(elements[at].1),
{
    lemma_first_of_its_kind(elements, elements[at].0, at);
}

/// A name that reports nothing of a kind says nothing of it. Its part is then
/// the one that was read back, where one was.
pub proof fn law_what_is_not_reported_is_not_said(
    text: Seq<char>,
    elements: Seq<ElementView>,
    lost_part: Option<u32>,
    confidence: Confidence,
)
    ensures
        ({
            let said = said_by(text, elements, lost_part, confidence);
            &&& (forall|j: int| 0 <= j < elements.len() ==> (#[trigger] elements[j]).0 != "title"@)
                ==> said.title is None
            &&& (forall|j: int|
                0 <= j < elements.len() ==> (#[trigger] elements[j]).0 != "release_group"@)
                ==> said.release_group is None
            &&& (forall|j: int| 0 <= j < elements.len() ==> (#[trigger] elements[j]).0 != "season"@)
                ==> said.season is None
            &&& (forall|j: int| 0 <= j < elements.len() ==> (#[trigger] elements[j]).0 != "part"@)
                ==> said.part == lost_part
            &&& (forall|j: int| 0 <= j < elements.len() ==> (#[trigger] elements[j]).0 != "year"@)
                ==> said.year is None
            &&& (forall|j: int|
                0 <= j < elements.len() ==> (#[trigger] elements[j]).0 != "episode"@)
                ==> said.episode == Episode::Absent
            &&& said.confidence == confidence
        }),
{
    if forall|j: int| 0 <= j < elements.len() ==> (#[trigger] elements[j]).0 != "title"@ {
        lemma_none_of_a_kind(elements, "title"@);
    }
    if forall|j: int| 0 <= j < elements.len() ==> (#[trigger] elements[j]).0 != "release_group"@ {
        lemma_none_of_a_kind(elements, "release_group"@);
    }
    if forall|j: int| 0 <= j < elements.len() ==> (#[trigger] elements[j]).0 != "season"@ {
        lemma_no_number_of_a_kind(elements, "season"@);
    }
    if forall|j: int| 0 <= j < elements.len() ==> (#[trigger] elements[j]).0 != "part"@ {
        lemma_no_number_of_a_kind(elements, "part"@);
    }
    if forall|j: int| 0 <= j < elements.len() ==> (#[trigger] elements[j]).0 != "year"@ {
        lemma_no_number_of_a_kind(elements, "year"@);
    }
    if forall|j: int| 0 <= j < elements.len() ==> (#[trigger] elements[j]).0 != "episode"@ {
        lemma_none_of_a_kind(elements, "episode"@);
    }
}

/// The season, the part and the year of a name are the first of their kind that
/// are whole numbers, and a part that was reported outranks one read back.
pub proof fn law_the_first_number_of_a_kind_wins(
    text: Seq<char>,
    elements: Seq<ElementView>,
    lost_part: Option<u32>,
    confidence: Confidence,
    at: int,
)
    requires
        0 <= at < elements.len(),
        whole_number(elements[at].1) is Some,
        forall|j: int|
            0 <= j < at && (#[trigger] elements[j]).0 == elements[at].0 ==> whole_number(
                elements[j].1,
            ) is None,
    ensures
        elements[at].0 == "season"@ ==> said_by(text, elements, lost_part, confidence).season
            == whole_number(elements[at].1),
        elements[at].0 == "part"@ ==> said_by(text, elements, lost_part, confidence).part
            == whole_number(elements[at].1),
        elements[at].0 == "year"@ ==> said_by(text, elements, lost_part, confidence).year
            == whole_number(elements[at].1),
{
    lemma_the_first_number_of_its_kind(elements, elements[at].0, at);
}

/// Two episodes are several, wherever in the name they stand and whatever they
/// say.
pub proof fn law_two_episodes_are_several(
    text: Seq<char>,
    elements: Seq<ElementView>,
    lost_part: Option<u32>,
    confidence: Confidence,
    one: int,
    other: int,
)
    requires
        0 <= one < other < elements.len(),
        elements[one].0 == "episode"@,
        elements[other].0 == "episode"@,
    ensures
        said_by(text, elements, lost_part, confidence).episode == Episode::Several,
{
    lemma_two_of_a_kind(elements, "episode"@, one, other);
}

/// The words of the release that are struck out of a name, by the parser's own
/// words for them. A title, an episode's title, a season, a part, a year and a
/// type are not among them.
pub proof fn law_which_words_are_the_release_s_own(kind: Seq<char>)
    ensures
        is_of_the_release(kind) <==> seq![
            "audio_term"@,
            "device"@,
            "episode"@,
            "file_checksum"@,
            "file_extension"@,
            "language"@,
            "other"@,
            "release_group"@,
            "release_information"@,
            "release_version"@,
            "source"@,
            "subtitles"@,
            "video_resolution"@,
            "video_term"@,
            "volume"@,
        ].contains(kind),
{
    let kinds = seq![
        "audio_term"@,
        "device"@,
        "episode"@,
        "file_checksum"@,
        "file_extension"@,
        "language"@,
        "other"@,
        "release_group"@,
        "release_information"@,
        "release_version"@,
        "source"@,
        "subtitles"@,
        "video_resolution"@,
        "video_term"@,
        "volume"@,
    ];
    assert(kinds[0] == "audio_term"@ && kinds[1] == "device"@ && kinds[2] == "episode"@);
    assert(kinds[3] == "file_checksum"@ && kinds[4] == "file_extension"@);
    assert(kinds[5] == "language"@ && kinds[6] == "other"@ && kinds[7] == "release_group"@);
    assert(kinds[8] == "release_information"@ && kinds[9] == "release_version"@);
    assert(kinds[10] == "source"@ && kinds[11] == "subtitles"@);
    assert(kinds[12] == "video_resolution"@ && kinds[13] == "video_term"@);
    assert(kinds[14] == "volume"@);
}

/// A letter or a digit of ASCII.
pub open spec fn joins(c: char) -> bool {
    ('0' <= c && c <= '9') || ('A' <= c && c <= 'Z') || ('a' <= c && c <= 'z')
}

proof fn lemma_runs_reach_as_far_as_they_join(text: Seq<char>, n: int, i: int)
    requires
        0 <= n <= text.len(),
        0 <= i < text.len(),
    ensures
        run_start(text, n) <= n <= run_end(text, n),
        i < n ==> (run_start(text, n) <= i <==> forall|j: int| i <= j < n ==> joins(
            #[trigger] text[j],
        )),
        n <= i ==> (i < run_end(text, n) <==> forall|j: int| n <= j <= i ==> joins(
            #[trigger] text[j],
        )),
{
    lemma_run_start(text, n, i);
    lemma_run_end(text, n, i);
}

proof fn lemma_run_start(text: Seq<char>, n: int, i: int)
    requires
        0 <= n <= text.len(),
        0 <= i < text.len(),
    ensures
        run_start(text, n) <= n,
        i < n ==> (run_start(text, n) <= i <==> forall|j: int| i <= j < n ==> joins(
            #[trigger] text[j],
        )),
    decreases n,
{
    if n > 0 && is_plain(text[n - 1]) {
        lemma_run_start(text, n - 1, i);
    } else if i < n {
        assert(!joins(text[n - 1]));
    }
}

proof fn lemma_run_end(text: Seq<char>, n: int, i: int)
    requires
        0 <= n <= text.len(),
        0 <= i < text.len(),
    ensures
        n <= run_end(text, n),
        n <= i ==> (i < run_end(text, n) <==> forall|j: int| n <= j <= i ==> joins(
            #[trigger] text[j],
        )),
    decreases text.len() - n,
{
    if n < text.len() && is_plain(text[n]) {
        lemma_run_end(text, n + 1, i);
    } else if n <= i {
        assert(!joins(text[n]));
    }
}

/// What is struck out of a name: what an element of the release says, and the
/// ASCII letters and digits joined to it on either side without a break, and
/// nothing else.
pub proof fn law_what_is_struck_out(text: Seq<char>, elements: Seq<ElementView>, i: int)
    requires
        0 <= i < text.len(),
        forall|k: int|
            0 <= k < elements.len() ==> 0 <= (#[trigger] elements[k]).2 && elements[k].2
                + elements[k].1.len() <= text.len(),
    ensures
        (exists|k: int|
            0 <= k < elements.len() && is_of_the_release((#[trigger] elements[k]).0)
                && reaches_to(text, elements[k].2, elements[k].2 + elements[k].1.len(), i))
            ==> struck_out(text, elements)[i] == ' ',
        !(exists|k: int|
            0 <= k < elements.len() && is_of_the_release((#[trigger] elements[k]).0)
                && reaches_to(text, elements[k].2, elements[k].2 + elements[k].1.len(), i))
            ==> struck_out(text, elements)[i] == text[i],
{
    assert forall|k: int| 0 <= k < elements.len() implies (taken_up(text, #[trigger] elements[k]).0
        <= i < taken_up(text, elements[k]).1 <==> reaches_to(
        text,
        elements[k].2,
        elements[k].2 + elements[k].1.len(),
        i,
    )) by {
        let from = elements[k].2;
        let to = elements[k].2 + elements[k].1.len();
        lemma_runs_reach_as_far_as_they_join(text, from, i);
        lemma_runs_reach_as_far_as_they_join(text, to, i);
    }
    if exists|k: int|
        0 <= k < elements.len() && is_of_the_release((#[trigger] elements[k]).0) && reaches_to(
            text,
            elements[k].2,
            elements[k].2 + elements[k].1.len(),
            i,
        ) {
        let k = choose|k: int|
            0 <= k < elements.len() && is_of_the_release((#[trigger] elements[k]).0) && reaches_to(
                text,
                elements[k].2,
                elements[k].2 + elements[k].1.len(),
                i,
            );
        assert(taken_up(text, elements[k]).0 <= i < taken_up(text, elements[k]).1);
        assert(is_struck(text, elements, i));
    }
    if is_struck(text, elements, i) {
        let k = choose|k: int|
            0 <= k < elements.len() && is_of_the_release((#[trigger] elements[k]).0) && taken_up(
                text,
                elements[k],
            ).0 <= i < taken_up(text, elements[k]).1;
        assert(reaches_to(text, elements[k].2, elements[k].2 + elements[k].1.len(), i));
    }
}

/// Whether a stretch of a text reaches a place: the place is in it, or nothing
/// but ASCII letters and digits lies from the one to the other.
pub open spec fn reaches_to(text: Seq<char>, from: int, to: int, i: int) -> bool {
    ||| from <= i < to
    ||| i < from && forall|j: int| i <= j < from ==> joins(#[trigger] text[j])
    ||| to <= i && forall|j: int| to <= j <= i ==> joins(#[trigger] text[j])
}

/// A part is looked for between the first season and the element after it, or
/// the end of the name where nothing follows, and nowhere in a name without a
/// season.
pub proof fn law_where_a_lost_part_is_looked_for(
    text: Seq<char>,
    elements: Seq<ElementView>,
    at: int,
)
    requires
        0 <= at <= elements.len(),
        forall|j: int| 0 <= j < at ==> (#[trigger] elements[j]).0 != "season"@,
        at < elements.len() ==> elements[at].0 == "season"@,
    ensures
        at == elements.len() ==> after_season(text, elements) is None,
        at + 1 == elements.len() && 0 <= elements[at].2 <= text.len() ==> after_season(
            text,
            elements,
        ) == Some(text.skip(elements[at].2)),
        at + 1 < elements.len() && 0 <= elements[at].2 <= elements[at + 1].2 <= text.len()
            ==> after_season(text, elements) == Some(
            text.subrange(elements[at].2, elements[at + 1].2),
        ),
{
    lemma_first_season(elements, 0, at);
    if at + 1 == elements.len() && 0 <= elements[at].2 <= text.len() {
        assert(text.subrange(elements[at].2, text.len() as int) =~= text.skip(elements[at].2));
    }
}

proof fn lemma_first_season(elements: Seq<ElementView>, from: int, at: int)
    requires
        0 <= from <= at <= elements.len(),
        forall|j: int| 0 <= j < at ==> (#[trigger] elements[j]).0 != "season"@,
        at < elements.len() ==> elements[at].0 == "season"@,
    ensures
        first_of_kind(elements, from, "season"@) == at,
    decreases at - from,
{
    if from < at {
        lemma_first_season(elements, from + 1, at);
    }
}

} // verus!
