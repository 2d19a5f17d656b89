//! What is done with a source once the platform has reported it.
//!
//! Policy is decided here, as pure logic, and applied by the daemon between the
//! adapter and the event bus. An adapter never consults it: an adapter
//! translates and emits, and a denied source is still listed so that
//! `benshi sources` can show it.

use vstd::prelude::*;

use crate::recognise::glyph::lowercase;
#[allow(unused_imports)]
use crate::recognise::glyph::{is_ascii, lowercase_form};
use crate::text::same;
#[allow(unused_imports)]
use crate::text::str_texts;
use crate::AppName;

verus! {

/// Players that show video, allowed by default. Everything else is denied.
///
/// An allowlist rather than a denylist, and that direction is the decision.
/// What is *not* a video player has no end to it - every browser, every music
/// player, every podcast and audiobook app, anything that plays a notification
/// sound through MPRIS - and a denylist has to name all of them to work. Video
/// players are a small set that changes slowly.
///
/// The cost lands the right way round too. A video player missing from here is
/// denied, `benshi sources` shows it denied beside its name, and one command
/// fixes it. A music player missing from a denylist would be admitted instead,
/// and a track called `Artist - 03.flac` would be filed as episode three of
/// `Artist` with nothing anywhere to say so.
///
/// These are the names players publish rather than the commands they are started
/// by: `mpc-qt` registers `MpcQt`, where `mpv` and `vlc` register the names they
/// are called by. A lookup lowercases, so case is the one thing an entry need
/// not get right - the hyphen `MpcQt` drops is not.
pub open spec fn players() -> Seq<Seq<char>> {
    seq![
        "mpv"@,
        "vlc"@,
        "MpcQt"@,
        "celluloid"@,
        "haruna"@,
        "smplayer"@,
        "totem"@,
        "dragonplayer"@,
        "parole"@,
        "qmplay2"@,
        "kodi"@,
        "jellyfinmediaplayer"@,
        "plexmediaplayer"@,
        "iina"@,
        "xplayer"@,
    ]
}

/// The players that show video and are allowed by default, as each of them
/// publishes its own name.
pub fn video_players() -> (names: Vec<&'static str>)
    ensures
        str_texts(names@) == players(),
{
    let names: Vec<&'static str> = vec![
        "mpv",
        "vlc",
        "MpcQt",
        "celluloid",
        "haruna",
        "smplayer",
        "totem",
        "dragonplayer",
        "parole",
        "qmplay2",
        "kodi",
        "jellyfinmediaplayer",
        "plexmediaplayer",
        "iina",
        "xplayer",
    ];
    assert(str_texts(names@) =~= players());
    names
}

/// What is done with readings from an application.
#[derive(Debug, Clone, Copy, PartialEq, Eq, Structural)]
pub enum Policy {
    /// Accept the source when what it has open parses as anime.
    ///
    /// What the default table gives the video players it names, and none of it
    /// is about the player itself: recognition reads the filename, not which
    /// program opened it. A player the table does not name is denied until
    /// `benshi policy <app> auto` says otherwise.
    Auto,
    /// Accept the source whatever it has open.
    ///
    /// The two are not a boolean and must not be collapsed: `Auto` additionally
    /// requires the filename to parse as anime, and `Allow` does not.
    Allow,
    /// Ignore the source's readings.
    ///
    /// The source is still discovered and still listed by `benshi sources`,
    /// with its policy shown. Suppression applies to readings, never to
    /// discovery - a source nobody can see is a source nobody can diagnose.
    Deny,
}

impl Policy {
    /// Whether readings from an application under this policy reach the bus.
    ///
    /// Written as an exhaustive match rather than a test against `Deny`, so
    /// that a fourth policy has to state its own answer here instead of
    /// inheriting one.
    pub fn admits(self) -> (answer: bool)
        ensures
            answer == admitted(self),
    {
        match self {
            Policy::Auto | Policy::Allow => true,
            Policy::Deny => false,
        }
    }
}

/// Whether readings under a policy reach the bus: under every one but `Deny`.
pub open spec fn admitted(policy: Policy) -> bool {
    policy != Policy::Deny
}

/// One application, by the name it is filed under, and its policy.
#[derive(Debug)]
struct Entry {
    key: String,
    policy: Policy,
}

spec fn entry_views(entries: Seq<Entry>) -> Seq<(Seq<char>, Policy)> {
    entries.map_values(|entry: Entry| (entry.key@, entry.policy))
}

/// The policy in force for each application.
///
/// Keys are compared whole and without regard to case. A whole-name comparison
/// cannot half-match, which is the entire point.
#[derive(Debug)]
pub struct PolicyTable {
    entries: Vec<Entry>,
    /// What an application this table has never heard of gets.
    unknown: Policy,
}

/// The policies in force, as contracts speak of them.
#[verifier::ext_equal]
pub struct TableView {
    /// Each application, by its name in lowercase, and its policy.
    pub entries: Seq<(Seq<char>, Policy)>,
    /// What every other application gets.
    pub unknown: Policy,
}

impl View for PolicyTable {
    type V = TableView;

    closed spec fn view(&self) -> TableView {
        TableView { entries: entry_views(self.entries@), unknown: self.unknown }
    }
}

/// Where a name is filed, or the number of entries where it is not.
pub open spec fn place_of(entries: Seq<(Seq<char>, Policy)>, key: Seq<char>) -> int
    decreases entries.len(),
{
    if entries.len() == 0 || entries[0].0 == key {
        0
    } else {
        1 + place_of(entries.drop_first(), key)
    }
}

/// The policy a name is filed with, or the answer for one that is not filed.
pub open spec fn policy_under(table: TableView, key: Seq<char>) -> Policy {
    let at = place_of(table.entries, key);
    if at < table.entries.len() {
        table.entries[at].1
    } else {
        table.unknown
    }
}

/// The policy an application has.
pub open spec fn policy_of(table: TableView, app: Seq<char>) -> Policy {
    policy_under(table, lowercase_form(app))
}

/// The table with a name filed, in the place of what was filed under it.
pub open spec fn with_key(table: TableView, key: Seq<char>, policy: Policy) -> TableView {
    let at = place_of(table.entries, key);
    TableView {
        entries: if at < table.entries.len() {
            table.entries.update(at, (key, policy))
        } else {
            table.entries.push((key, policy))
        },
        unknown: table.unknown,
    }
}

/// The table with a policy set for an application.
pub open spec fn with_policy(table: TableView, app: Seq<char>, policy: Policy) -> TableView {
    with_key(table, lowercase_form(app), policy)
}

/// The table in which the first of some applications have one policy.
pub open spec fn with_all(table: TableView, apps: Seq<Seq<char>>, policy: Policy) -> TableView
    decreases apps.len(),
{
    if apps.len() == 0 {
        table
    } else {
        with_policy(with_all(table, apps.drop_last(), policy), apps.last(), policy)
    }
}

/// The table that denies everything.
pub open spec fn denying_everything() -> TableView {
    TableView { entries: Seq::empty(), unknown: Policy::Deny }
}

/// The table in which video players are `Auto` and everything else is denied.
pub open spec fn default_table() -> TableView {
    with_all(denying_everything(), players(), Policy::Auto)
}

proof fn lemma_place_is_the_first(entries: Seq<(Seq<char>, Policy)>, key: Seq<char>)
    ensures
        0 <= place_of(entries, key) <= entries.len(),
        place_of(entries, key) < entries.len() ==> entries[place_of(entries, key)].0 == key,
        forall|i: int| 0 <= i < place_of(entries, key) ==> (#[trigger] entries[i]).0 != key,
    decreases entries.len(),
{
    if entries.len() > 0 && entries[0].0 != key {
        let rest = entries.drop_first();
        lemma_place_is_the_first(rest, key);
        assert forall|i: int| 0 <= i < place_of(entries, key) implies (#[trigger] entries[i]).0
            != key by {
            if i > 0 {
                assert(rest[i - 1] == entries[i]);
            }
        }
    }
}

proof fn lemma_the_first_is_the_place(
    entries: Seq<(Seq<char>, Policy)>,
    key: Seq<char>,
    at: int,
)
    requires
        0 <= at <= entries.len(),
        at < entries.len() ==> entries[at].0 == key,
        forall|i: int| 0 <= i < at ==> (#[trigger] entries[i]).0 != key,
    ensures
        place_of(entries, key) == at,
{
    lemma_place_is_the_first(entries, key);
}

impl PolicyTable {
    /// A table in which a default set of video players is [`Policy::Auto`] and
    /// every other application is [`Policy::Deny`].
    ///
    /// Lowercased on the way in, because a lookup lowercases too. An entry
    /// written with a capital would otherwise be filed under a key nothing
    /// ever asks for, and would sit in the list looking like one that worked.
    pub fn allowing_video_players() -> (table: Self)
        ensures
            table@ == default_table(),
    {
        let names = video_players();
        let mut table = Self { entries: Vec::new(), unknown: Policy::Deny };
        assert(table@ =~= denying_everything());
        let mut i: usize = 0;
        assert(players().take(0) =~= Seq::empty());
        while i < names.len()
            invariant
                i <= names@.len(),
                str_texts(names@) == players(),
                table@ == with_all(
                    denying_everything(),
                    players().take(i as int),
                    Policy::Auto,
                ),
            decreases names@.len() - i,
        {
            assert(players().take(i + 1).drop_last() =~= players().take(i as int));
            assert(players()[i as int] == names@[i as int]@);
            table.file(lowercase(names[i]), Policy::Auto);
            i += 1;
        }
        assert(players().take(i as int) =~= players());
        table
    }

    /// The policy in force for an application, or this table's answer for one
    /// it has never heard of.
    pub fn policy_for(&self, app: &AppName) -> (policy: Policy)
        ensures
            policy == policy_of(self@, app@),
    {
        self.filed_under(lowercase(app.0.as_str()).as_str())
    }

    /// The policy filed under a name in lowercase, or this table's answer for
    /// one it has never heard of.
    pub fn filed_under(&self, key: &str) -> (policy: Policy)
        ensures
            policy == policy_under(self@, key@),
    {
        let at = self.find(key);
        if at < self.entries.len() {
            assert(self@.entries[at as int].1 == self.entries@[at as int].policy);
            self.entries[at].policy
        } else {
            self.unknown
        }
    }

    /// Set the policy for an application, replacing any default.
    pub fn set(&mut self, app: &AppName, policy: Policy)
        ensures
            final(self)@ == with_policy(old(self)@, app@, policy),
    {
        self.file(lowercase(app.0.as_str()), policy);
    }

    /// File a policy under a name in lowercase.
    pub fn file(&mut self, key: String, policy: Policy)
        ensures
            final(self)@ == with_key(old(self)@, key@, policy),
    {
        let at = self.find(key.as_str());
        let ghost before = self@;
        let ghost name = key@;
        if at < self.entries.len() {
            self.entries.set(at, Entry { key, policy });
            assert(self@.entries =~= before.entries.update(at as int, (name, policy)));
        } else {
            self.entries.push(Entry { key, policy });
            assert(self@.entries =~= before.entries.push((name, policy)));
        }
        assert(self@ =~= with_key(before, name, policy));
    }

    fn find(&self, key: &str) -> (at: usize)
        ensures
            at == place_of(self@.entries, key@),
            at <= self.entries@.len(),
            self.entries@.len() == self@.entries.len(),
    {
        let ghost all = self@.entries;
        let mut at: usize = 0;
        while at < self.entries.len()
            invariant
                at <= self.entries@.len(),
                all == self@.entries,
                all == entry_views(self.entries@),
                forall|i: int| 0 <= i < at ==> (#[trigger] all[i]).0 != key@,
            decreases self.entries@.len() - at,
        {
            assert(all[at as int].0 == self.entries@[at as int].key@);
            if same(self.entries[at].key.as_str(), key) {
                proof {
                    lemma_the_first_is_the_place(all, key@, at as int);
                }
                return at;
            }
            at += 1;
        }
        proof {
            lemma_the_first_is_the_place(all, key@, at as int);
        }
        at
    }
}

// What policies promise.

/// A policy that is set is the one in force, and no other application is
/// touched by it. Names are told apart without regard to case.
pub proof fn law_setting_a_policy(table: TableView, app: Seq<char>, policy: Policy, other: Seq<char>)
    ensures
        policy_of(with_policy(table, app, policy), app) == policy,
        lowercase_form(other) == lowercase_form(app) ==> policy_of(
            with_policy(table, app, policy),
            other,
        ) == policy,
        lowercase_form(other) != lowercase_form(app) ==> policy_of(
            with_policy(table, app, policy),
            other,
        ) == policy_of(table, other),
{
    let key = lowercase_form(app);
    let name = lowercase_form(other);
    let now = with_policy(table, app, policy);
    lemma_place_is_the_first(table.entries, key);
    lemma_the_first_is_the_place(now.entries, key, place_of(table.entries, key));
    if name != key {
        lemma_place_is_the_first(table.entries, name);
        let at = place_of(table.entries, name);
        if at < table.entries.len() {
            lemma_the_first_is_the_place(now.entries, name, at);
        } else {
            assert forall|i: int| 0 <= i < now.entries.len() implies (#[trigger] now.entries[i]).0
                != name by {
                if i < table.entries.len() {
                    assert(table.entries[i].0 != name);
                }
            }
            lemma_the_first_is_the_place(now.entries, name, now.entries.len() as int);
        }
    }
}

proof fn lemma_all_have_the_policy(
    table: TableView,
    apps: Seq<Seq<char>>,
    policy: Policy,
    app: Seq<char>,
)
    ensures
        policy_of(with_all(table, apps, policy), app) == if exists|i: int|
            0 <= i < apps.len() && lowercase_form(#[trigger] apps[i]) == lowercase_form(app) {
            policy
        } else {
            policy_of(table, app)
        },
    decreases apps.len(),
{
    if apps.len() > 0 {
        let shorter = apps.drop_last();
        lemma_all_have_the_policy(table, shorter, policy, app);
        law_setting_a_policy(with_all(table, shorter, policy), apps.last(), policy, app);
        if exists|i: int|
            0 <= i < apps.len() && lowercase_form(#[trigger] apps[i]) == lowercase_form(app) {
            let i = choose|i: int|
                0 <= i < apps.len() && lowercase_form(#[trigger] apps[i]) == lowercase_form(app);
            if i < shorter.len() {
                assert(shorter[i] == apps[i]);
            }
        }
        if exists|i: int|
            0 <= i < shorter.len() && lowercase_form(#[trigger] shorter[i]) == lowercase_form(
                app,
            ) {
            let i = choose|i: int|
                0 <= i < shorter.len() && lowercase_form(#[trigger] shorter[i]) == lowercase_form(
                    app,
                );
            assert(apps[i] == shorter[i]);
        }
        assert(apps[apps.len() - 1] == apps.last());
    }
}

/// The names of the video players in lowercase.
pub open spec fn lowercase_players() -> Seq<Seq<char>> {
    seq![
        "mpv"@,
        "vlc"@,
        "mpcqt"@,
        "celluloid"@,
        "haruna"@,
        "smplayer"@,
        "totem"@,
        "dragonplayer"@,
        "parole"@,
        "qmplay2"@,
        "kodi"@,
        "jellyfinmediaplayer"@,
        "plexmediaplayer"@,
        "iina"@,
        "xplayer"@,
    ]
}

proof fn lemma_players_in_lowercase()
    ensures
        players().len() == lowercase_players().len(),
        forall|i: int|
            0 <= i < players().len() ==> lowercase_form(#[trigger] players()[i])
                == lowercase_players()[i],
{
    reveal_strlit("mpv");
    reveal_strlit("vlc");
    reveal_strlit("MpcQt");
    reveal_strlit("mpcqt");
    reveal_strlit("celluloid");
    reveal_strlit("haruna");
    reveal_strlit("smplayer");
    reveal_strlit("totem");
    reveal_strlit("dragonplayer");
    reveal_strlit("parole");
    reveal_strlit("qmplay2");
    reveal_strlit("kodi");
    reveal_strlit("jellyfinmediaplayer");
    reveal_strlit("plexmediaplayer");
    reveal_strlit("iina");
    reveal_strlit("xplayer");
    assert forall|i: int| 0 <= i < players().len() implies lowercase_form(#[trigger] players()[i])
        == lowercase_players()[i] by {
        assert(is_ascii(players()[i]));
        assert(lowercase_form(players()[i]) =~= lowercase_players()[i]);
    }
}

/// By default an application is tried exactly where it is one of the video
/// players, however it capitalises its own name, and denied everywhere else.
/// Nothing is allowed outright.
pub proof fn law_only_video_players_are_allowed_by_default(app: Seq<char>)
    ensures
        policy_of(default_table(), app) == if lowercase_players().contains(lowercase_form(app)) {
            Policy::Auto
        } else {
            Policy::Deny
        },
{
    let name = lowercase_form(app);
    lemma_all_have_the_policy(denying_everything(), players(), Policy::Auto, app);
    lemma_players_in_lowercase();
    if lowercase_players().contains(name) {
        let i = choose|i: int| 0 <= i < lowercase_players().len() && lowercase_players()[i] == name;
        assert(lowercase_form(players()[i]) == name);
    }
}

/// Readings are refused under `Deny` and under no other policy.
pub proof fn law_only_a_deny_refuses(policy: Policy)
    ensures
        admitted(policy) <==> policy == Policy::Auto || policy == Policy::Allow,
{
}

/// An application has the policy it was first filed with, and what every other
/// one gets where it was never filed. A lookup sees no case.
pub proof fn law_a_policy_is_the_one_filed(table: TableView, app: Seq<char>, at: int)
    requires
        0 <= at <= table.entries.len(),
        forall|i: int|
            0 <= i < at ==> (#[trigger] table.entries[i]).0 != lowercase_form(app),
    ensures
        at == table.entries.len() ==> policy_of(table, app) == table.unknown,
        at < table.entries.len() && table.entries[at].0 == lowercase_form(app) ==> policy_of(
            table,
            app,
        ) == table.entries[at].1,
{
    let key = lowercase_form(app);
    lemma_place_is_the_first(table.entries, key);
    let place = place_of(table.entries, key);
    if place < at {
        assert(table.entries[place].0 != key);
    } else if at < place && at < table.entries.len() {
        assert(table.entries[at].0 != key);
    }
}

/// Setting a policy files an application once: what it had is replaced where it
/// stood, and a new one is filed behind the others, under its name in lowercase.
pub proof fn law_an_application_is_filed_once(
    table: TableView,
    app: Seq<char>,
    policy: Policy,
    at: int,
)
    requires
        0 <= at <= table.entries.len(),
        at < table.entries.len() ==> table.entries[at].0 == lowercase_form(app),
        forall|i: int|
            0 <= i < at ==> (#[trigger] table.entries[i]).0 != lowercase_form(app),
    ensures
        with_policy(table, app, policy).unknown == table.unknown,
        with_policy(table, app, policy).entries == if at < table.entries.len() {
            table.entries.update(at, (lowercase_form(app), policy))
        } else {
            table.entries.push((lowercase_form(app), policy))
        },
{
    let key = lowercase_form(app);
    lemma_the_first_is_the_place(table.entries, key, at);
}

} // verus!
