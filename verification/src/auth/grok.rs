//! OAuth credentials of Grok Build.
//!
//! The Grok command line program keeps its tokens in a file: one entry for each
//! pair of issuer and client, with an access token, a refresh token and an expiry.
//! The bearer token comes from the environment, where it is set, and else from that
//! file. An access token that has expired is refreshed, and the new tokens are put
//! into the entry.

use vstd::prelude::*;

use crate::external_cli;
use crate::json;
use crate::json::{Json, JsonView};
use crate::text;

verus! {

/// The environment variable that gives the bearer token directly.
pub const GROK_API_KEY_ENV: &'static str = "GROK_CODE_XAI_API_KEY";

/// The file from which the transport reads the bearer token.
pub const GROK_ENV_FILE: &'static str = "grok-build.env";

/// The issuer of an entry that names none.
pub const DEFAULT_OIDC_ISSUER: &'static str = "https://auth.x.ai";

/// The path of the token endpoint, below the issuer.
pub const TOKEN_PATH: &'static str = "/oauth2/token";

/// How many seconds before its expiry an access token is refreshed.
pub const EXPIRY_SKEW_SECONDS: i64 = 120;

/// The error where no credentials are found at all.
pub const NO_CREDENTIALS: &'static str =
    "No Grok Build credentials found. Log in with the Grok CLI (`grok`) so ~/.grok/auth.json exists, or set GROK_CODE_XAI_API_KEY.";

/// The first second that a calendar time can name: January 1 of the year -262143.
pub const FIRST_SECOND: i64 = -8_334_601_228_800;

/// The last second that a calendar time can name: the end of the year 262142.
pub const LAST_SECOND: i64 = 8_210_266_876_799;

/// The first second of the year 0.
pub const YEAR_0: i64 = -62_167_219_200;

/// The last second of the year 9999.
pub const END_OF_YEAR_9999: i64 = 253_402_300_799;

/// A point in time: seconds since the Unix epoch, and nanoseconds within the second.
#[derive(Debug, Clone, Copy, PartialEq, Eq, Structural)]
pub struct Moment {
    pub seconds: i64,
    pub nanos: u32,
}

/// A moment that the clock can show.
pub open spec fn is_now(now: Moment) -> bool {
    0 <= now.seconds <= LAST_SECOND && now.nanos < 1_000_000_000
}

/// The seconds since the Unix epoch that `chrono::DateTime::parse_from_rfc3339`
/// reads from a text, where it accepts it.
pub uninterp spec fn rfc3339_seconds(text: Seq<char>) -> Option<i64>;

/// The text that `chrono::DateTime::to_rfc3339` writes for a moment, where
/// `chrono::DateTime::from_timestamp` knows it.
pub uninterp spec fn rfc3339_text(seconds: i64, nanos: u32) -> Option<Seq<char>>;

/// Calls `chrono::DateTime::parse_from_rfc3339` and takes the timestamp of its
/// result. Both are functions of the text alone, named [`rfc3339_seconds`]; which
/// texts are accepted is not stated.
#[verifier::external_body]
fn parse_rfc3339(raw: &str) -> (r: Option<i64>)
    ensures
        r == rfc3339_seconds(raw@),
{
    chrono::DateTime::parse_from_rfc3339(raw).ok().map(|time| time.timestamp())
}

/// Calls `chrono::DateTime::to_rfc3339` on the time in UTC that
/// `chrono::DateTime::from_timestamp` makes of the arguments. The text is a function
/// of them alone, named [`rfc3339_text`]. There is one for every second from
/// [`FIRST_SECOND`] to [`LAST_SECOND`] and no other. For the years 0 to 9999 it has
/// no white space, and parsing it gives the same second again.
#[verifier::external_body]
fn format_rfc3339(seconds: i64, nanos: u32) -> (r: Option<String>)
    requires
        nanos < 1_000_000_000,
    ensures
        text::opt_text(r) == rfc3339_text(seconds, nanos),
        r is Some <==> FIRST_SECOND <= seconds <= LAST_SECOND,
        YEAR_0 <= seconds <= END_OF_YEAR_9999 ==> {
            &&& rfc3339_seconds(r->0@) == Some(seconds)
            &&& forall|i: int| 0 <= i < r->0@.len() ==> !text::white_space(#[trigger] r->0@[i])
        },
{
    chrono::DateTime::<chrono::Utc>::from_timestamp(seconds, nanos).map(|time| time.to_rfc3339())
}

/// Calls `chrono::Utc::now`. The moment is not before the Unix epoch and not behind
/// the last one that a calendar time can name; nothing else is known of it.
#[verifier::external_body]
fn clock() -> (r: Moment)
    ensures
        is_now(r),
{
    let now = chrono::Utc::now();
    Moment { seconds: now.timestamp(), nanos: now.timestamp_subsec_nanos() }
}

/// A request that failed.
#[derive(Debug, PartialEq)]
pub struct GrokError {
    pub message: String,
}

fn error(message: &str) -> (r: GrokError)
    ensures
        r.message@ == message@,
{
    GrokError { message: message.to_owned() }
}

/// An entry of the credentials file.
#[derive(Debug)]
pub struct GrokAuthEntry {
    /// The access token.
    pub key: String,
    pub refresh_token: Option<String>,
    /// When the access token expires, as an RFC 3339 time.
    pub expires_at: Option<String>,
    pub oidc_issuer: Option<String>,
    pub oidc_client_id: Option<String>,
    /// The other fields of the entry, which stay as they are.
    pub extra: Vec<(String, Json)>,
}

/// What a [`GrokAuthEntry`] means.
pub struct EntryView {
    pub key: Seq<char>,
    pub refresh_token: Option<Seq<char>>,
    pub expires_at: Option<Seq<char>>,
    pub oidc_issuer: Option<Seq<char>>,
    pub oidc_client_id: Option<Seq<char>>,
    pub extra: Seq<(Seq<char>, JsonView)>,
}

impl View for GrokAuthEntry {
    type V = EntryView;

    open spec fn view(&self) -> EntryView {
        EntryView {
            key: self.key@,
            refresh_token: text::opt_text(self.refresh_token),
            expires_at: text::opt_text(self.expires_at),
            oidc_issuer: text::opt_text(self.oidc_issuer),
            oidc_client_id: text::opt_text(self.oidc_client_id),
            extra: json::fields_view(self.extra@),
        }
    }
}

/// A text without surrounding white space, unless nothing is left of it.
pub open spec fn non_blank(s: Option<Seq<char>>) -> Option<Seq<char>> {
    match s {
        Some(t) => if text::trim(t).len() > 0 {
            Some(text::trim(t))
        } else {
            None
        },
        None => None,
    }
}

/// The issuer of an entry.
pub open spec fn issuer_of(entry: EntryView) -> Seq<char> {
    match non_blank(entry.oidc_issuer) {
        Some(issuer) => issuer,
        None => DEFAULT_OIDC_ISSUER@,
    }
}

/// An access token has expired at the second `now`, or is about to. One without an
/// expiry has not; one whose expiry cannot be read has.
pub open spec fn expired(entry: EntryView, now: int) -> bool {
    match entry.expires_at {
        None => false,
        Some(raw) => match rfc3339_seconds(text::trim(raw)) {
            Some(expires) => expires <= now + EXPIRY_SKEW_SECONDS,
            None => true,
        },
    }
}

/// An entry has an access token.
pub open spec fn usable(entry: EntryView) -> bool {
    text::trim(entry.key).len() > 0
}

/// A text without surrounding white space, unless nothing is left of it.
fn trimmed_or_none(s: &Option<String>) -> (r: Option<String>)
    ensures
        text::opt_text(r) == non_blank(text::opt_text(*s)),
{
    match s {
        Some(t) => {
            let trimmed = text::trimmed(t.as_str());
            if trimmed.as_str().is_empty() {
                None
            } else {
                Some(trimmed)
            }
        },
        None => None,
    }
}

fn copy_text(s: &Option<String>) -> (r: Option<String>)
    ensures
        text::opt_text(r) == text::opt_text(*s),
{
    match s {
        Some(t) => Some(t.clone()),
        None => None,
    }
}

fn copy_fields(fields: &Vec<(String, Json)>) -> (r: Vec<(String, Json)>)
    ensures
        json::fields_view(r@) == json::fields_view(fields@),
{
    let mut out: Vec<(String, Json)> = Vec::new();
    let mut i: usize = 0;
    while i < fields.len()
        invariant
            i <= fields.len(),
            out.len() == i,
            forall|j: int|
                0 <= j < i ==> (#[trigger] out[j]).0@ == fields[j].0@ && out[j].1@ == fields[j].1@,
        decreases fields.len() - i,
    {
        out.push((fields[i].0.clone(), fields[i].1.duplicate()));
        i += 1;
    }
    assert(json::fields_view(out@) =~= json::fields_view(fields@));
    out
}

impl GrokAuthEntry {
    /// The issuer of the entry.
    pub fn issuer(&self) -> (r: String)
        ensures
            r@ == issuer_of(self@),
    {
        match trimmed_or_none(&self.oidc_issuer) {
            Some(issuer) => issuer,
            None => DEFAULT_OIDC_ISSUER.to_owned(),
        }
    }

    /// Whether the access token has expired at the second `now`, or is about to.
    pub fn is_expired_at(&self, now: i64) -> (r: bool)
        requires
            now <= LAST_SECOND,
        ensures
            r == expired(self@, now as int),
    {
        match &self.expires_at {
            None => false,
            Some(raw) => {
                let raw = text::trimmed(raw.as_str());
                is_due(parse_rfc3339(raw.as_str()), now)
            },
        }
    }

    /// Whether the access token has expired, or is about to, by the clock.
    pub fn is_expired(&self) -> (r: bool)
        ensures
            exists|now: Moment| #[trigger] is_now(now) && r == expired(self@, now.seconds as int),
            self@.expires_at is None ==> !r,
            (self@.expires_at matches Some(raw) && rfc3339_seconds(text::trim(raw)) is None) ==> r,
    {
        let now = clock();
        self.is_expired_at(now.seconds)
    }

    /// A copy of the entry.
    pub fn duplicate(&self) -> (r: GrokAuthEntry)
        ensures
            r@ == self@,
    {
        GrokAuthEntry {
            key: self.key.clone(),
            refresh_token: copy_text(&self.refresh_token),
            expires_at: copy_text(&self.expires_at),
            oidc_issuer: copy_text(&self.oidc_issuer),
            oidc_client_id: copy_text(&self.oidc_client_id),
            extra: copy_fields(&self.extra),
        }
    }
}

impl Clone for GrokAuthEntry {
    /// A copy of the entry.
    fn clone(&self) -> (r: GrokAuthEntry)
        ensures
            r@ == self@,
    {
        self.duplicate()
    }
}

/// Whether a token is to be refreshed at the second `now`: it expires at the second
/// `expires`, none where its expiry cannot be read.
pub fn is_due(expires: Option<i64>, now: i64) -> (r: bool)
    requires
        now <= LAST_SECOND,
    ensures
        r == match expires {
            Some(t) => t <= now + EXPIRY_SKEW_SECONDS,
            None => true,
        },
{
    match expires {
        Some(t) => t <= now + EXPIRY_SKEW_SECONDS,
        None => true,
    }
}

/// The entries of the credentials file, in the order of their names, no name twice.
#[derive(Debug)]
pub struct GrokAuthFile {
    entries: Vec<(String, GrokAuthEntry)>,
}

spec fn entries_view(entries: Seq<(String, GrokAuthEntry)>) -> Seq<(Seq<char>, EntryView)> {
    Seq::new(entries.len(), |i: int| (entries[i].0@, entries[i].1@))
}

impl View for GrokAuthFile {
    type V = Seq<(Seq<char>, EntryView)>;

    closed spec fn view(&self) -> Seq<(Seq<char>, EntryView)> {
        entries_view(self.entries@)
    }
}

/// The names are in order, and none stands twice.
pub open spec fn in_order(entries: Seq<(Seq<char>, EntryView)>) -> bool {
    forall|i: int, j: int|
        0 <= i < j < entries.len() ==> {
            &&& text::lex_le((#[trigger] entries[i]).0, (#[trigger] entries[j]).0)
            &&& entries[i].0 != entries[j].0
        }
}

/// The entry under `id`.
pub open spec fn entry_under(entries: Seq<(Seq<char>, EntryView)>, id: Seq<char>) -> Option<
    EntryView,
>
    decreases entries.len(),
{
    if entries.len() == 0 {
        None
    } else if entries.last().0 == id {
        Some(entries.last().1)
    } else {
        entry_under(entries.drop_last(), id)
    }
}

/// The entry at position `i` is the one to use: the first one that has an access
/// token that has not expired, or, where there is none, the first one that has an
/// access token.
pub open spec fn is_choice(entries: Seq<(Seq<char>, EntryView)>, now: int, i: int) -> bool {
    &&& 0 <= i < entries.len()
    &&& usable(entries[i].1)
    &&& if expired(entries[i].1, now) {
        &&& forall|j: int|
            0 <= j < entries.len() && usable((#[trigger] entries[j]).1) ==> expired(
                entries[j].1,
                now,
            )
        &&& forall|j: int| 0 <= j < i ==> !usable((#[trigger] entries[j]).1)
    } else {
        forall|j: int|
            0 <= j < i && usable((#[trigger] entries[j]).1) ==> expired(entries[j].1, now)
    }
}

/// No entry has an access token.
pub open spec fn none_usable(entries: Seq<(Seq<char>, EntryView)>) -> bool {
    forall|j: int| 0 <= j < entries.len() ==> !usable((#[trigger] entries[j]).1)
}

/// A selection from the entries at the second `now`.
pub open spec fn selects(
    entries: Seq<(Seq<char>, EntryView)>,
    now: int,
    selected: Option<(Seq<char>, EntryView)>,
) -> bool {
    match selected {
        Some(pair) => exists|i: int| #[trigger] is_choice(entries, now, i) && entries[i] == pair,
        None => none_usable(entries),
    }
}

/// What a selected entry means.
pub open spec fn selected_view(selected: Option<(String, GrokAuthEntry)>) -> Option<
    (Seq<char>, EntryView),
> {
    match selected {
        Some((id, entry)) => Some((id@, entry@)),
        None => None,
    }
}

impl GrokAuthFile {
    /// No entries.
    pub fn new() -> (r: GrokAuthFile)
        ensures
            r@.len() == 0,
            in_order(r@),
    {
        GrokAuthFile { entries: Vec::new() }
    }

    /// The number of entries.
    pub fn len(&self) -> (r: usize)
        ensures
            r == self@.len(),
    {
        self.entries.len()
    }

    /// The name of the entry at position `i`.
    pub fn id_at(&self, i: usize) -> (r: &str)
        requires
            i < self@.len(),
        ensures
            r@ == self@[i as int].0,
    {
        self.entries[i].0.as_str()
    }

    /// The entry at position `i`.
    pub fn entry_at(&self, i: usize) -> (r: &GrokAuthEntry)
        requires
            i < self@.len(),
        ensures
            r@ == self@[i as int].1,
    {
        &self.entries[i].1
    }

    /// Puts an entry under `id`, in the place of the one that stood there.
    pub fn insert(&mut self, id: String, entry: GrokAuthEntry)
        requires
            in_order(old(self)@),
        ensures
            in_order(final(self)@),
            entry_under(final(self)@, id@) == Some(entry@),
            forall|other: Seq<char>|
                other != id@ ==> #[trigger] entry_under(final(self)@, other) == entry_under(
                    old(self)@,
                    other,
                ),
    {
        let ghost before = self@;
        let ghost name = id@;
        let ghost view = entry@;
        let mut i: usize = 0;
        while i < self.entries.len() && !text::in_order(id.as_str(), self.entries[i].0.as_str())
            invariant
                i <= self.entries.len(),
                self@ == before,
                forall|j: int| 0 <= j < i ==> !text::lex_le(id@, (#[trigger] before[j]).0),
            decreases self.entries.len() - i,
        {
            i += 1;
        }
        if i < self.entries.len() && text::same(self.entries[i].0.as_str(), id.as_str()) {
            self.entries.set(i, (id, entry));
            proof {
                assert(self@ =~= before.update(i as int, (name, view)));
                assert(in_order(self@)) by {
                    assert forall|a: int, b: int| 0 <= a < b < self@.len() implies {
                        &&& text::lex_le((#[trigger] self@[a]).0, (#[trigger] self@[b]).0)
                        &&& self@[a].0 != self@[b].0
                    } by {
                        assert(before[a].0 == self@[a].0 && before[b].0 == self@[b].0);
                    }
                }
                lemma_under(self@, i as int);
                assert forall|other: Seq<char>| other != name implies #[trigger] entry_under(
                    self@,
                    other,
                ) == entry_under(before, other) by {
                    lemma_replaced(before, i as int, view, other);
                }
            }
        } else {
            self.entries.insert(i, (id, entry));
            proof {
                let after = before.insert(i as int, (name, view));
                assert(self@ =~= after);
                assert(in_order(self@)) by {
                    assert forall|a: int, b: int| 0 <= a < b < after.len() implies {
                        &&& text::lex_le((#[trigger] after[a]).0, (#[trigger] after[b]).0)
                        &&& after[a].0 != after[b].0
                    } by {
                        lemma_slot(before, i as int, name, a, b);
                    }
                }
                lemma_under(self@, i as int);
                assert forall|other: Seq<char>| other != name implies #[trigger] entry_under(
                    self@,
                    other,
                ) == entry_under(before, other) by {
                    lemma_put_between(before, i as int, name, view, other);
                }
            }
        }
    }

    /// The entry to use at the second `now`, with its name.
    pub fn select_entry_at(&self, now: i64) -> (r: Option<(String, GrokAuthEntry)>)
        requires
            now <= LAST_SECOND,
        ensures
            selects(self@, now as int, selected_view(r)),
    {
        let mut first: Option<usize> = None;
        let mut i: usize = 0;
        while i < self.entries.len()
            invariant
                now <= LAST_SECOND,
                i <= self.entries.len(),
                match first {
                    Some(k) => {
                        &&& k < i
                        &&& usable(self@[k as int].1)
                        &&& forall|j: int| 0 <= j < k ==> !usable((#[trigger] self@[j]).1)
                    },
                    None => forall|j: int| 0 <= j < i ==> !usable((#[trigger] self@[j]).1),
                },
                forall|j: int|
                    0 <= j < i && usable((#[trigger] self@[j]).1) ==> expired(
                        self@[j].1,
                        now as int,
                    ),
            decreases self.entries.len() - i,
        {
            let entry = &self.entries[i].1;
            let key = text::trimmed(entry.key.as_str());
            if !key.as_str().is_empty() {
                assert(usable(self@[i as int].1));
                if !entry.is_expired_at(now) {
                    assert(is_choice(self@, now as int, i as int));
                    return Some((self.entries[i].0.clone(), entry.duplicate()));
                }
                if first.is_none() {
                    first = Some(i);
                }
            } else {
                assert(!usable(self@[i as int].1));
            }
            i += 1;
        }
        match first {
            Some(k) => {
                assert(is_choice(self@, now as int, k as int));
                Some((self.entries[k].0.clone(), self.entries[k].1.duplicate()))
            },
            None => None,
        }
    }

    /// The entry to use by the clock, with its name.
    pub fn select_entry(&self) -> (r: Option<(String, GrokAuthEntry)>)
        ensures
            exists|now: Moment| #[trigger]
                is_now(now) && selects(self@, now.seconds as int, selected_view(r)),
            r is None <==> none_usable(self@),
    {
        let now = clock();
        let r = self.select_entry_at(now.seconds);
        proof {
            if r is Some {
                let i = choose|i: int| #[trigger]
                    is_choice(self@, now.seconds as int, i) && self@[i] == selected_view(r)->0;
                assert(usable(self@[i].1));
            }
        }
        r
    }
}

/// The entry at a position is found under its name.
proof fn lemma_under(entries: Seq<(Seq<char>, EntryView)>, i: int)
    requires
        in_order(entries),
        0 <= i < entries.len(),
    ensures
        entry_under(entries, entries[i].0) == Some(entries[i].1),
    decreases entries.len(),
{
    let last = entries.len() - 1;
    if i < last {
        assert(entries[i].0 != entries[last].0);
        let front = entries.drop_last();
        assert forall|a: int, b: int| 0 <= a < b < front.len() implies {
            &&& text::lex_le((#[trigger] front[a]).0, (#[trigger] front[b]).0)
            &&& front[a].0 != front[b].0
        } by {
            assert(entries[a].0 != entries[b].0);
        }
        lemma_under(front, i);
    }
}

/// Replacing an entry leaves what stands under another name.
proof fn lemma_replaced(
    entries: Seq<(Seq<char>, EntryView)>,
    i: int,
    entry: EntryView,
    other: Seq<char>,
)
    requires
        0 <= i < entries.len(),
        other != entries[i].0,
    ensures
        entry_under(entries.update(i, (entries[i].0, entry)), other) == entry_under(
            entries,
            other,
        ),
    decreases entries.len(),
{
    let after = entries.update(i, (entries[i].0, entry));
    if i < entries.len() - 1 {
        lemma_replaced(entries.drop_last(), i, entry, other);
        assert(after.drop_last() =~= entries.drop_last().update(i, (entries[i].0, entry)));
    } else {
        assert(after.drop_last() =~= entries.drop_last());
    }
}

/// Putting an entry in leaves what stands under another name.
proof fn lemma_put_between(
    entries: Seq<(Seq<char>, EntryView)>,
    i: int,
    id: Seq<char>,
    entry: EntryView,
    other: Seq<char>,
)
    requires
        0 <= i <= entries.len(),
        other != id,
    ensures
        entry_under(entries.insert(i, (id, entry)), other) == entry_under(entries, other),
    decreases entries.len(),
{
    let after = entries.insert(i, (id, entry));
    if i < entries.len() {
        lemma_put_between(entries.drop_last(), i, id, entry, other);
        assert(after.drop_last() =~= entries.drop_last().insert(i, (id, entry)));
        assert(after.last() == entries.last());
    } else {
        assert(after.drop_last() =~= entries);
    }
}

/// A name fits in at the first position from which on names come behind it.
proof fn lemma_slot(
    entries: Seq<(Seq<char>, EntryView)>,
    i: int,
    id: Seq<char>,
    a: int,
    b: int,
)
    requires
        in_order(entries),
        0 <= i <= entries.len(),
        forall|j: int| 0 <= j < i ==> !text::lex_le(id, (#[trigger] entries[j]).0),
        i < entries.len() ==> text::lex_le(id, entries[i].0) && entries[i].0 != id,
        0 <= a < b <= entries.len(),
    ensures
        ({
            let x = if a < i {
                entries[a].0
            } else if a == i {
                id
            } else {
                entries[a - 1].0
            };
            let y = if b < i {
                entries[b].0
            } else if b == i {
                id
            } else {
                entries[b - 1].0
            };
            text::lex_le(x, y) && x != y
        }),
{
    if b < i {
        assert(text::lex_le(entries[a].0, entries[b].0));
    } else if b == i {
        text::lemma_lex_total(entries[a].0, id);
        assert(!text::lex_le(id, entries[a].0));
        text::lemma_lex_reflexive(id);
    } else if a < i {
        assert(text::lex_le(entries[a].0, entries[b - 1].0));
    } else if a == i {
        if b - 1 > i {
            assert(text::lex_le(entries[i].0, entries[b - 1].0));
            text::lemma_lex_transitive(id, entries[i].0, entries[b - 1].0);
            if id == entries[b - 1].0 {
                text::lemma_lex_antisymmetric(id, entries[i].0);
            }
        }
    } else {
        assert(text::lex_le(entries[a - 1].0, entries[b - 1].0));
    }
}

/// A request to the token endpoint.
#[derive(Debug)]
pub struct RefreshRequest {
    pub url: String,
    /// The fields of the form that is posted.
    pub form: Vec<(String, String)>,
}

/// What the fields of a form mean.
pub open spec fn form_view(form: Seq<(String, String)>) -> Seq<(Seq<char>, Seq<char>)> {
    Seq::new(form.len(), |i: int| (form[i].0@, form[i].1@))
}

/// The form that asks for a new access token.
pub open spec fn refresh_form(client_id: Seq<char>, refresh_token: Seq<char>) -> Seq<
    (Seq<char>, Seq<char>),
> {
    seq![
        ("grant_type"@, "refresh_token"@),
        ("client_id"@, client_id),
        ("refresh_token"@, refresh_token),
    ]
}

/// The token endpoint of an entry.
pub open spec fn token_url(entry: EntryView) -> Seq<char> {
    text::trim_end_char(issuer_of(entry), '/') + TOKEN_PATH@
}

/// The outcome of asking how an entry is refreshed.
pub open spec fn refreshes(entry: EntryView, r: Result<RefreshRequest, GrokError>) -> bool {
    match (non_blank(entry.refresh_token), non_blank(entry.oidc_client_id)) {
        (None, _) => r matches Err(e) && e.message@
            == "Grok auth entry has no refresh_token; re-run `grok` to log in"@,
        (_, None) => r matches Err(e) && e.message@
            == "Grok auth entry has no oidc_client_id; re-run `grok` to log in"@,
        (Some(refresh_token), Some(client_id)) => r matches Ok(request) && request.url@
            == token_url(entry) && form_view(request.form@) == refresh_form(
            client_id,
            refresh_token,
        ),
    }
}

/// The request by which an entry is refreshed.
pub fn refresh_request(entry: &GrokAuthEntry) -> (r: Result<RefreshRequest, GrokError>)
    ensures
        refreshes(entry@, r),
{
    let refresh_token = match trimmed_or_none(&entry.refresh_token) {
        Some(token) => token,
        None => return Err(error("Grok auth entry has no refresh_token; re-run `grok` to log in")),
    };
    let client_id = match trimmed_or_none(&entry.oidc_client_id) {
        Some(id) => id,
        None => return Err(
            error("Grok auth entry has no oidc_client_id; re-run `grok` to log in"),
        ),
    };
    let issuer = entry.issuer();
    let mut url = text::trimmed_end_char(issuer.as_str(), '/');
    url.append(TOKEN_PATH);
    let ghost wanted = refresh_form(client_id@, refresh_token@);
    let mut form: Vec<(String, String)> = Vec::new();
    form.push(("grant_type".to_owned(), "refresh_token".to_owned()));
    form.push(("client_id".to_owned(), client_id));
    form.push(("refresh_token".to_owned(), refresh_token));
    assert(form_view(form@) =~= wanted);
    Ok(RefreshRequest { url, form })
}

/// The tokens that the endpoint issued.
#[derive(Debug)]
pub struct GrokTokenResponse {
    pub access_token: String,
    pub refresh_token: Option<String>,
    /// How many seconds the access token is valid.
    pub expires_in: Option<i64>,
}

/// How a refresh ended.
#[derive(Debug)]
pub enum RefreshEnd {
    /// The endpoint was not reached.
    NotSent,
    /// The endpoint refused, with this body.
    Rejected { body: String },
    /// The answer could not be read.
    Unreadable,
    Issued(GrokTokenResponse),
}

/// The tokens that a refresh gave.
pub fn refreshed(end: RefreshEnd) -> (r: Result<GrokTokenResponse, GrokError>)
    ensures
        match (end, r) {
            (RefreshEnd::Issued(token), Ok(given)) => given == token,
            (RefreshEnd::NotSent, Err(e)) => e.message@ == "Failed to refresh Grok OAuth token"@,
            (RefreshEnd::Rejected { body }, Err(e)) => e.message@
                == "Grok token refresh failed: "@ + text::trim(body@),
            (RefreshEnd::Unreadable, Err(e)) => e.message@
                == "Failed to parse Grok token refresh response"@,
            _ => false,
        },
{
    match end {
        RefreshEnd::Issued(token) => Ok(token),
        RefreshEnd::NotSent => Err(error("Failed to refresh Grok OAuth token")),
        RefreshEnd::Rejected { body } => {
            let body = text::trimmed(body.as_str());
            let mut message = "Grok token refresh failed: ".to_owned();
            message.append(body.as_str());
            Err(GrokError { message })
        },
        RefreshEnd::Unreadable => Err(error("Failed to parse Grok token refresh response")),
    }
}

/// The expiry of a token that was issued at `now` can be named.
pub open spec fn nameable(token: GrokTokenResponse, now: Moment) -> bool {
    token.expires_in matches Some(n) ==> FIRST_SECOND <= now.seconds + n <= LAST_SECOND
}

/// An entry with the tokens that were issued at `now`.
pub open spec fn with_token(entry: EntryView, token: GrokTokenResponse, now: Moment) -> EntryView {
    EntryView {
        key: token.access_token@,
        refresh_token: match non_blank(text::opt_text(token.refresh_token)) {
            Some(refresh_token) => Some(refresh_token),
            None => entry.refresh_token,
        },
        expires_at: match token.expires_in {
            Some(n) => rfc3339_text((now.seconds + n) as i64, now.nanos),
            None => entry.expires_at,
        },
        ..entry
    }
}

/// Whether the expiry of a token that was issued at `now` can be named.
pub fn can_be_named(token: &GrokTokenResponse, now: Moment) -> (r: bool)
    requires
        is_now(now),
    ensures
        r == nameable(*token, now),
{
    match token.expires_in {
        Some(n) => match now.seconds.checked_add(n) {
            Some(seconds) => FIRST_SECOND <= seconds && seconds <= LAST_SECOND,
            None => false,
        },
        None => true,
    }
}

impl GrokAuthEntry {
    /// The entry with the tokens that were issued at `now`. Where they stay valid
    /// longer than it takes for a refresh to be due, they have not expired then.
    pub fn refreshed_with(self, token: &GrokTokenResponse, now: Moment) -> (r: GrokAuthEntry)
        requires
            is_now(now),
            nameable(*token, now),
        ensures
            r@ == with_token(self@, *token, now),
            outlasts_skew(*token, now) ==> !expired(r@, now.seconds as int),
    {
        let refresh_token = match trimmed_or_none(&token.refresh_token) {
            Some(refresh_token) => Some(refresh_token),
            None => self.refresh_token,
        };
        let expires_at = match token.expires_in {
            Some(n) => {
                let seconds: i64 = now.seconds + n;
                let written = format_rfc3339(seconds, now.nanos);
                proof {
                    if YEAR_0 <= seconds <= END_OF_YEAR_9999 {
                        text::lemma_trim_clean(written->0@);
                    }
                }
                written
            },
            None => self.expires_at,
        };
        GrokAuthEntry {
            key: token.access_token.clone(),
            refresh_token,
            expires_at,
            oidc_issuer: self.oidc_issuer,
            oidc_client_id: self.oidc_client_id,
            extra: self.extra,
        }
    }
}

/// Tokens stay valid, from `now` on, longer than it takes for a refresh to be due;
/// and not beyond the year 9999.
pub open spec fn outlasts_skew(token: GrokTokenResponse, now: Moment) -> bool {
    token.expires_in matches Some(n) && n > EXPIRY_SKEW_SECONDS && now.seconds + n
        <= END_OF_YEAR_9999
}

/// The tokens that were issued at `now` were put into the entry under `id`, and
/// nothing else has changed.
pub open spec fn persisted(
    before: Seq<(Seq<char>, EntryView)>,
    after: Seq<(Seq<char>, EntryView)>,
    id: Seq<char>,
    token: GrokTokenResponse,
    now: Moment,
) -> bool {
    &&& entry_under(before, id) is Some
    &&& entry_under(after, id) == Some(with_token(entry_under(before, id)->0, token, now))
    &&& forall|other: Seq<char>|
        other != id ==> #[trigger] entry_under(after, other) == entry_under(before, other)
    &&& after.len() == before.len()
}

/// What came of putting in tokens that were issued at `now`: `Some(false)` where no
/// entry stands under `id`, none where there is one but the expiry cannot be named,
/// and else `Some(true)`, with the tokens in the entry. Nothing changes otherwise.
pub open spec fn persists(
    before: Seq<(Seq<char>, EntryView)>,
    after: Seq<(Seq<char>, EntryView)>,
    id: Seq<char>,
    token: GrokTokenResponse,
    now: Moment,
    r: Option<bool>,
) -> bool {
    &&& r == Some(false) <==> entry_under(before, id) is None
    &&& r is None <==> entry_under(before, id) is Some && !nameable(token, now)
    &&& r == Some(true) ==> {
        &&& persisted(before, after, id, token, now)
        &&& outlasts_skew(token, now) ==> !expired(entry_under(after, id)->0, now.seconds as int)
    }
    &&& r != Some(true) ==> after == before
}

impl GrokAuthFile {
    /// Puts the tokens that were issued at `now` into the entry under `id`, and
    /// tells whether there is one. All other fields and entries stay. Where the
    /// tokens stay valid long enough, the entry has not expired then.
    pub fn persist_refreshed_at(&mut self, id: &str, token: &GrokTokenResponse, now: Moment) -> (r:
        bool)
        requires
            in_order(old(self)@),
            is_now(now),
            nameable(*token, now),
        ensures
            in_order(final(self)@),
            r == (entry_under(old(self)@, id@) is Some),
            r ==> persisted(old(self)@, final(self)@, id@, *token, now),
            r && outlasts_skew(*token, now) ==> !expired(
                entry_under(final(self)@, id@)->0,
                now.seconds as int,
            ),
            !r ==> final(self)@ == old(self)@,
    {
        let ghost before = self@;
        match self.position(id) {
            None => false,
            Some(i) => {
                let entry = self.entries[i].1.duplicate().refreshed_with(token, now);
                let ghost view = entry@;
                self.entries.set(i, (id.to_owned(), entry));
                proof {
                    assert(self@ =~= before.update(i as int, (id@, view)));
                    assert(in_order(self@)) by {
                        assert forall|a: int, b: int| 0 <= a < b < self@.len() implies {
                            &&& text::lex_le((#[trigger] self@[a]).0, (#[trigger] self@[b]).0)
                            &&& self@[a].0 != self@[b].0
                        } by {
                            assert(before[a].0 == self@[a].0 && before[b].0 == self@[b].0);
                        }
                    }
                    lemma_under(self@, i as int);
                    assert forall|other: Seq<char>| other != id@ implies #[trigger] entry_under(
                        self@,
                        other,
                    ) == entry_under(before, other) by {
                        lemma_replaced(before, i as int, view, other);
                    }
                }
                true
            },
        }
    }

    /// The position of the entry under `id`.
    fn position(&self, id: &str) -> (r: Option<usize>)
        requires
            in_order(self@),
        ensures
            match r {
                Some(i) => i < self.entries.len() && self@[i as int].0 == id@ && entry_under(
                    self@,
                    id@,
                ) == Some(self@[i as int].1),
                None => entry_under(self@, id@) is None,
            },
    {
        let mut i: usize = 0;
        while i < self.entries.len()
            invariant
                in_order(self@),
                i <= self.entries.len(),
                forall|j: int| 0 <= j < i ==> (#[trigger] self@[j]).0 != id@,
            decreases self.entries.len() - i,
        {
            if text::same(self.entries[i].0.as_str(), id) {
                proof {
                    lemma_under(self@, i as int);
                }
                return Some(i);
            }
            i += 1;
        }
        proof {
            lemma_absent(self@, id@);
        }
        None
    }

    /// Puts the tokens that were issued at `now` into the entry under `id`, and tells
    /// whether there is one. Gives none, and changes nothing, where there is one but
    /// the expiry cannot be named.
    pub fn try_persist_at(&mut self, id: &str, token: &GrokTokenResponse, now: Moment) -> (r:
        Option<bool>)
        requires
            in_order(old(self)@),
            is_now(now),
        ensures
            in_order(final(self)@),
            persists(old(self)@, final(self)@, id@, *token, now, r),
    {
        if self.position(id).is_none() {
            return Some(false);
        }
        if !can_be_named(token, now) {
            return None;
        }
        Some(self.persist_refreshed_at(id, token, now))
    }

    /// Puts the tokens that were just issued, by the clock, into the entry under
    /// `id`, and tells whether there is one. Gives none, and changes nothing, where
    /// there is one but the expiry cannot be named.
    pub fn persist_refreshed(&mut self, id: &str, token: &GrokTokenResponse) -> (r: Option<bool>)
        requires
            in_order(old(self)@),
        ensures
            in_order(final(self)@),
            exists|now: Moment| #[trigger]
                is_now(now) && persists(old(self)@, final(self)@, id@, *token, now, r),
            r == Some(false) <==> entry_under(old(self)@, id@) is None,
            (token.expires_in matches Some(n) ==> FIRST_SECOND <= n <= 0) ==> r is Some,
    {
        let now = clock();
        self.try_persist_at(id, token, now)
    }
}

/// Nothing stands under a name that no entry has.
proof fn lemma_absent(entries: Seq<(Seq<char>, EntryView)>, id: Seq<char>)
    requires
        forall|j: int| 0 <= j < entries.len() ==> (#[trigger] entries[j]).0 != id,
    ensures
        entry_under(entries, id) is None,
    decreases entries.len(),
{
    if entries.len() > 0 {
        assert(entries.last() == entries[entries.len() - 1]);
        lemma_absent(entries.drop_last(), id);
    }
}

/// The bearer token that an environment variable gives.
pub fn env_token(value: Option<&str>) -> (r: Option<String>)
    ensures
        text::opt_text(r) == non_blank(text::opt_str(value)),
{
    match value {
        Some(v) => {
            let trimmed = text::trimmed(v);
            if trimmed.as_str().is_empty() {
                None
            } else {
                Some(trimmed)
            }
        },
        None => None,
    }
}

/// How a bearer token is come by.
#[derive(Debug)]
pub enum TokenStep {
    /// This is it; none where no credentials are there.
    Ready(Option<String>),
    /// The access token under `id` has expired; it has to be refreshed.
    Refresh { id: String, request: RefreshRequest },
}

/// How a bearer token is come by at the second `now`: from the environment, or else
/// from the credentials file, where there is one.
pub open spec fn resolves(
    env_value: Option<Seq<char>>,
    entries: Option<Seq<(Seq<char>, EntryView)>>,
    now: int,
    r: Result<TokenStep, GrokError>,
) -> bool {
    match (non_blank(env_value), entries) {
        (Some(token), _) => r matches Ok(TokenStep::Ready(Some(t))) && t@ == token,
        (None, None) => r matches Ok(TokenStep::Ready(None)),
        (None, Some(all)) => {
            ||| none_usable(all) && (r matches Ok(TokenStep::Ready(None)))
            ||| exists|i: int| #[trigger]
                is_choice(all, now, i) && if !expired(all[i].1, now) {
                    r matches Ok(TokenStep::Ready(Some(t))) && t@ == all[i].1.key
                } else {
                    match r {
                        Ok(TokenStep::Refresh { id, request }) => id@ == all[i].0 && refreshes(
                            all[i].1,
                            Ok(request),
                        ),
                        Ok(TokenStep::Ready(_)) => false,
                        Err(e) => refreshes(all[i].1, Err(e)),
                    }
                }
        },
    }
}

/// What the credentials file holds, where there is one.
pub open spec fn file_view(file: Option<&GrokAuthFile>) -> Option<Seq<(Seq<char>, EntryView)>> {
    match file {
        Some(f) => Some(f@),
        None => None,
    }
}

/// How a bearer token is come by at the second `now`. `env_value` is the value of
/// [`GROK_API_KEY_ENV`].
pub fn resolve_access_token_at(env_value: Option<&str>, file: Option<&GrokAuthFile>, now: i64) -> (r:
    Result<TokenStep, GrokError>)
    requires
        now <= LAST_SECOND,
    ensures
        resolves(text::opt_str(env_value), file_view(file), now as int, r),
{
    if let Some(token) = env_token(env_value) {
        return Ok(TokenStep::Ready(Some(token)));
    }
    let file = match file {
        Some(file) => file,
        None => return Ok(TokenStep::Ready(None)),
    };
    let selected = file.select_entry_at(now);
    let ghost chosen = selected_view(selected);
    match selected {
        Some((id, entry)) => {
            let ghost i = choose|i: int| #[trigger]
                is_choice(file@, now as int, i) && file@[i] == chosen->0;
            assert(is_choice(file@, now as int, i));
            if !entry.is_expired_at(now) {
                return Ok(TokenStep::Ready(Some(entry.key)));
            }
            match refresh_request(&entry) {
                Ok(request) => Ok(TokenStep::Refresh { id, request }),
                Err(e) => Err(e),
            }
        },
        None => Ok(TokenStep::Ready(None)),
    }
}

/// How a bearer token is come by, by the clock.
pub fn resolve_access_token(env_value: Option<&str>, file: Option<&GrokAuthFile>) -> (r: Result<
    TokenStep,
    GrokError,
>)
    ensures
        exists|now: Moment| #[trigger]
            is_now(now) && resolves(
                text::opt_str(env_value),
                file_view(file),
                now.seconds as int,
                r,
            ),
{
    let now = clock();
    resolve_access_token_at(env_value, file, now.seconds)
}

/// The bearer token, which has to be there.
pub fn required_token(token: Option<String>) -> (r: Result<String, GrokError>)
    ensures
        match (token, r) {
            (Some(t), Ok(given)) => given == t,
            (None, Err(e)) => e.message@ == NO_CREDENTIALS@,
            _ => false,
        },
{
    match token {
        Some(t) => Ok(t),
        None => Err(error(NO_CREDENTIALS)),
    }
}

/// The path of the credentials file: the one that is given explicitly, or else the
/// one below the home directory.
pub open spec fn auth_path(explicit: Option<Seq<char>>, home: Option<Seq<char>>) -> Option<
    Seq<char>,
> {
    if explicit is Some && explicit->0.len() > 0 {
        explicit
    } else {
        match home {
            Some(h) => Some(
                external_cli::path_below(
                    external_cli::path_below(h, ".grok"@),
                    "auth.json"@,
                ),
            ),
            None => None,
        }
    }
}

/// The path of the credentials file.
pub fn grok_auth_path(explicit: Option<&str>, home: Option<&str>) -> (r: Option<String>)
    ensures
        text::opt_text(r) == auth_path(text::opt_str(explicit), text::opt_str(home)),
{
    if let Some(path) = explicit {
        if !path.is_empty() {
            return Some(path.to_owned());
        }
    }
    match home {
        Some(h) => {
            let dir = external_cli::join_path(h, ".grok");
            Some(external_cli::join_path(dir.as_str(), "auth.json"))
        },
        None => None,
    }
}

/// Whether credentials are there, in the environment or as a file.
pub fn has_credentials(env_value: Option<&str>, file_exists: bool) -> (r: bool)
    ensures
        r == (non_blank(text::opt_str(env_value)) is Some || file_exists),
{
    env_token(env_value).is_some() || file_exists
}

/// A token in the environment is taken, whatever the credentials file holds and
/// whatever the time.
pub proof fn law_environment_comes_first(
    env_value: Seq<char>,
    entries: Option<Seq<(Seq<char>, EntryView)>>,
    now: int,
    r: Result<TokenStep, GrokError>,
)
    requires
        text::trim(env_value).len() > 0,
        resolves(Some(env_value), entries, now, r),
    ensures
        r matches Ok(TokenStep::Ready(Some(token))) && token@ == text::trim(env_value),
{
}

/// An entry with an access token that has not expired is never passed over for one
/// that has.
pub proof fn law_fresh_entry_is_preferred(
    entries: Seq<(Seq<char>, EntryView)>,
    now: int,
    selected: Option<(Seq<char>, EntryView)>,
    fresh: int,
)
    requires
        selects(entries, now, selected),
        0 <= fresh < entries.len(),
        usable(entries[fresh].1),
        !expired(entries[fresh].1, now),
    ensures
        selected matches Some(pair) && usable(pair.1) && !expired(pair.1, now),
{
}

/// There is one choice at most: which entry is selected does not depend on how the
/// entries are walked.
pub proof fn law_choice_is_unique(
    entries: Seq<(Seq<char>, EntryView)>,
    now: int,
    i: int,
    j: int,
)
    requires
        is_choice(entries, now, i),
        is_choice(entries, now, j),
    ensures
        i == j,
{
    if i < j {
        assert(usable(entries[i].1));
    } else if j < i {
        assert(usable(entries[j].1));
    }
}

/// Tokens that are put into an entry change what was issued and nothing else. The
/// access token is the issued one. The refresh token is the issued one, without
/// surrounding white space, where it is not blank; in every other case, also where
/// none was issued, it stays the one that was there. Issuer, client and all further
/// fields stay, and so does the expiry where none was issued.
pub proof fn law_what_is_not_issued_stays(entry: EntryView, token: GrokTokenResponse, now: Moment)
    ensures
        ({
            let after = with_token(entry, token, now);
            &&& after.key == token.access_token@
            &&& token.refresh_token is None ==> after.refresh_token == entry.refresh_token
            &&& token.refresh_token is Some && text::trim(token.refresh_token->0@).len() == 0
                ==> after.refresh_token == entry.refresh_token
            &&& token.refresh_token is Some && text::trim(token.refresh_token->0@).len() > 0
                ==> after.refresh_token == Some(text::trim(token.refresh_token->0@))
            &&& token.expires_in is None ==> after.expires_at == entry.expires_at
            &&& token.expires_in is Some ==> after.expires_at == rfc3339_text(
                (now.seconds + token.expires_in->0) as i64,
                now.nanos,
            )
            &&& after.oidc_issuer == entry.oidc_issuer
            &&& after.oidc_client_id == entry.oidc_client_id
            &&& after.extra == entry.extra
        }),
{
}

/// An entry that could be refreshed can be refreshed again, whatever was issued: it
/// keeps a refresh token and a client, and it is refreshed at the same endpoint.
pub proof fn law_a_refreshed_entry_can_be_refreshed(
    entry: EntryView,
    token: GrokTokenResponse,
    now: Moment,
)
    requires
        entry.refresh_token is Some,
        text::trim(entry.refresh_token->0).len() > 0,
    ensures
        ({
            let after = with_token(entry, token, now);
            &&& after.refresh_token is Some
            &&& text::trim(after.refresh_token->0).len() > 0
            &&& after.oidc_client_id == entry.oidc_client_id
            &&& token_url(after) == token_url(entry)
        }),
{
    if let Some(issued) = token.refresh_token {
        text::lemma_trim_twice(issued@);
    }
}

/// Each entry stands under its name, and nothing stands under a name that no entry
/// has.
pub proof fn law_entries_stand_under_their_names(
    entries: Seq<(Seq<char>, EntryView)>,
    id: Seq<char>,
    i: int,
)
    requires
        in_order(entries),
    ensures
        0 <= i < entries.len() && entries[i].0 == id ==> entry_under(entries, id) == Some(
            entries[i].1,
        ),
        (forall|j: int| 0 <= j < entries.len() ==> (#[trigger] entries[j]).0 != id) ==> entry_under(
            entries,
            id,
        ) is None,
{
    if 0 <= i < entries.len() && entries[i].0 == id {
        lemma_under(entries, i);
    }
    if forall|j: int| 0 <= j < entries.len() ==> (#[trigger] entries[j]).0 != id {
        lemma_absent(entries, id);
    }
}

/// Putting tokens into the entry of one name leaves the entries of all others as they
/// are. That entry has the issued access token, keeps its refresh token unless a
/// usable one was issued, and keeps its issuer, client and further fields. Where
/// tokens cannot be put in, nothing changes; they can always be put in where no
/// expiry was issued.
pub proof fn law_other_entries_stay(
    before: Seq<(Seq<char>, EntryView)>,
    after: Seq<(Seq<char>, EntryView)>,
    id: Seq<char>,
    token: GrokTokenResponse,
    now: Moment,
    r: Option<bool>,
    i: int,
)
    requires
        in_order(before),
        persists(before, after, id, token, now, r),
        0 <= i < before.len(),
    ensures
        before[i].0 != id ==> entry_under(after, before[i].0) == Some(before[i].1),
        before[i].0 == id ==> r != Some(false),
        before[i].0 == id && token.expires_in is None ==> r == Some(true),
        before[i].0 == id && r == Some(true) ==> {
            let put = entry_under(after, id);
            &&& put is Some
            &&& put->0.key == token.access_token@
            &&& token.refresh_token is None ==> put->0.refresh_token == before[i].1.refresh_token
            &&& token.refresh_token is Some && text::trim(token.refresh_token->0@).len() == 0
                ==> put->0.refresh_token == before[i].1.refresh_token
            &&& token.refresh_token is Some && text::trim(token.refresh_token->0@).len() > 0
                ==> put->0.refresh_token == Some(text::trim(token.refresh_token->0@))
            &&& token.expires_in is None ==> put->0.expires_at == before[i].1.expires_at
            &&& put->0.oidc_issuer == before[i].1.oidc_issuer
            &&& put->0.oidc_client_id == before[i].1.oidc_client_id
            &&& put->0.extra == before[i].1.extra
        },
        r != Some(true) ==> after == before,
        after.len() == before.len(),
{
    lemma_under(before, i);
}

/// A token counts as expired from two minutes before its expiry on. One without an
/// expiry never does, one whose expiry cannot be read always does, and one that has
/// expired stays expired.
pub proof fn law_tokens_expire_two_minutes_early(entry: EntryView, now: int, later: int)
    requires
        now <= later,
    ensures
        entry.expires_at is None ==> !expired(entry, now),
        entry.expires_at is Some && rfc3339_seconds(text::trim(entry.expires_at->0)) is None
            ==> expired(entry, now),
        entry.expires_at is Some && rfc3339_seconds(text::trim(entry.expires_at->0)) is Some ==> (
        expired(entry, now) <==> rfc3339_seconds(text::trim(entry.expires_at->0))->0 - now <= 120),
        expired(entry, now) ==> expired(entry, later),
{
}

/// Without a token in the environment, the first entry in the file that has an access
/// token and has not expired gives the bearer token.
pub proof fn law_the_first_fresh_token_is_given(
    env_value: Option<Seq<char>>,
    entries: Seq<(Seq<char>, EntryView)>,
    now: int,
    r: Result<TokenStep, GrokError>,
    i: int,
)
    requires
        env_value is None || text::trim(env_value->0).len() == 0,
        resolves(env_value, Some(entries), now, r),
        0 <= i < entries.len(),
        text::trim(entries[i].1.key).len() > 0,
        !expired(entries[i].1, now),
        forall|j: int|
            0 <= j < i ==> text::trim((#[trigger] entries[j]).1.key).len() == 0 || expired(
                entries[j].1,
                now,
            ),
    ensures
        r matches Ok(TokenStep::Ready(Some(token))) && token@ == entries[i].1.key,
{
    assert(is_choice(entries, now, i)) by {
        assert forall|j: int| 0 <= j < i && usable((#[trigger] entries[j]).1) implies expired(
            entries[j].1,
            now,
        ) by {}
    }
    assert(usable(entries[i].1));
    let k = choose|k: int| #[trigger]
        is_choice(entries, now, k) && if !expired(entries[k].1, now) {
            r matches Ok(TokenStep::Ready(Some(t))) && t@ == entries[k].1.key
        } else {
            match r {
                Ok(TokenStep::Refresh { id, request }) => id@ == entries[k].0 && refreshes(
                    entries[k].1,
                    Ok(request),
                ),
                Ok(TokenStep::Ready(_)) => false,
                Err(e) => refreshes(entries[k].1, Err(e)),
            }
        };
    law_choice_is_unique(entries, now, i, k);
}

/// Where every access token in the file has expired, none of them is given: the first
/// one is refreshed, and where it cannot be, that is an error. Where the file has no
/// access token, or there is no file, there is no bearer token.
pub proof fn law_an_expired_token_is_never_given(
    env_value: Option<Seq<char>>,
    entries: Seq<(Seq<char>, EntryView)>,
    now: int,
    r: Result<TokenStep, GrokError>,
    i: int,
)
    requires
        env_value is None || text::trim(env_value->0).len() == 0,
        resolves(env_value, Some(entries), now, r),
        forall|j: int|
            0 <= j < entries.len() ==> text::trim((#[trigger] entries[j]).1.key).len() == 0
                || expired(entries[j].1, now),
    ensures
        !(r matches Ok(TokenStep::Ready(Some(_)))),
        0 <= i < entries.len() && text::trim(entries[i].1.key).len() > 0 && (forall|j: int|
            0 <= j < i ==> text::trim((#[trigger] entries[j]).1.key).len() == 0) ==> match r {
            Ok(TokenStep::Refresh { id, request }) => id@ == entries[i].0,
            Ok(TokenStep::Ready(_)) => false,
            Err(_) => entries[i].1.refresh_token is None || entries[i].1.oidc_client_id is None
                || text::trim(entries[i].1.refresh_token->0).len() == 0 || text::trim(
                entries[i].1.oidc_client_id->0,
            ).len() == 0,
        },
        (forall|j: int|
            0 <= j < entries.len() ==> text::trim((#[trigger] entries[j]).1.key).len() == 0) ==> (r
            matches Ok(TokenStep::Ready(None))),
{
    if none_usable(entries) {
        if 0 <= i < entries.len() {
            assert(!usable(entries[i].1));
        }
        assert forall|k: int| !is_choice(entries, now, k) by {
            if is_choice(entries, now, k) {
                assert(usable(entries[k].1));
            }
        }
    } else {
        let k = choose|k: int| #[trigger]
            is_choice(entries, now, k) && if !expired(entries[k].1, now) {
                r matches Ok(TokenStep::Ready(Some(t))) && t@ == entries[k].1.key
            } else {
                match r {
                    Ok(TokenStep::Refresh { id, request }) => id@ == entries[k].0 && refreshes(
                        entries[k].1,
                        Ok(request),
                    ),
                    Ok(TokenStep::Ready(_)) => false,
                    Err(e) => refreshes(entries[k].1, Err(e)),
                }
            };
        assert(is_choice(entries, now, k));
        assert(usable(entries[k].1));
        assert(expired(entries[k].1, now));
        if 0 <= i < entries.len() && text::trim(entries[i].1.key).len() > 0 && forall|j: int|
            0 <= j < i ==> text::trim((#[trigger] entries[j]).1.key).len() == 0 {
            if i < k {
                assert(!usable(entries[i].1));
            } else if k < i {
                assert(text::trim(entries[k].1.key).len() == 0);
            }
        }
        assert(!(forall|j: int|
            0 <= j < entries.len() ==> text::trim((#[trigger] entries[j]).1.key).len() == 0)) by {
            if forall|j: int|
                0 <= j < entries.len() ==> text::trim((#[trigger] entries[j]).1.key).len() == 0 {
                assert(text::trim(entries[k].1.key).len() == 0);
            }
        }
    }
}

/// An entry with a refresh token and a client is refreshed by posting both, without
/// surrounding white space, to its token endpoint. Without a refresh token or a
/// client it is not refreshed.
pub proof fn law_how_an_entry_is_refreshed(entry: EntryView, r: Result<RefreshRequest, GrokError>)
    requires
        refreshes(entry, r),
    ensures
        entry.refresh_token is None || text::trim(entry.refresh_token->0).len() == 0 ==> r is Err,
        entry.oidc_client_id is None || text::trim(entry.oidc_client_id->0).len() == 0 ==> r is Err,
        entry.refresh_token is Some && text::trim(entry.refresh_token->0).len() > 0
            && entry.oidc_client_id is Some && text::trim(entry.oidc_client_id->0).len() > 0 ==> {
            let form = form_view(r->Ok_0.form@);
            &&& r is Ok
            &&& r->Ok_0.url@ == token_url(entry)
            &&& form.len() == 3
            &&& form[0] == ("grant_type"@, "refresh_token"@)
            &&& form[1] == ("client_id"@, text::trim(entry.oidc_client_id->0))
            &&& form[2] == ("refresh_token"@, text::trim(entry.refresh_token->0))
        },
{
    if r is Ok {
        assert(form_view(r->Ok_0.form@).len() == 3);
    }
}

/// The token endpoint is `/oauth2/token` below the issuer that the entry names,
/// without surrounding white space and without slashes at its end, or below
/// `https://auth.x.ai` where it names none.
pub proof fn law_where_an_entry_is_refreshed(entry: EntryView, n: int)
    ensures
        entry.oidc_issuer is None || text::trim(entry.oidc_issuer->0).len() == 0 ==> token_url(entry)
            == "https://auth.x.ai/oauth2/token"@,
        entry.oidc_issuer is Some && text::trim(entry.oidc_issuer->0).len() > 0 && 0 <= n
            <= text::trim(entry.oidc_issuer->0).len() && (n > 0 ==> text::trim(
            entry.oidc_issuer->0,
        )[n - 1] != '/') && (forall|i: int|
            n <= i < text::trim(entry.oidc_issuer->0).len() ==> #[trigger] text::trim(
                entry.oidc_issuer->0,
            )[i] == '/') ==> token_url(entry) == text::trim(entry.oidc_issuer->0).take(n)
            + "/oauth2/token"@,
{
    let issuer = issuer_of(entry);
    lemma_slashes(issuer);
    reveal_strlit("https://auth.x.ai");
    reveal_strlit("https://auth.x.ai/oauth2/token");
    reveal_strlit("/oauth2/token");
    let k = choose|k: int|
        {
            &&& 0 <= k <= issuer.len()
            &&& k > 0 ==> issuer[k - 1] != '/'
            &&& forall|i: int| k <= i < issuer.len() ==> #[trigger] issuer[i] == '/'
            &&& text::trim_end_char(issuer, '/') == #[trigger] issuer.take(k)
        };
    if entry.oidc_issuer is None || text::trim(entry.oidc_issuer->0).len() == 0 {
        assert(issuer[issuer.len() - 1] != '/');
        assert(k == issuer.len());
        assert(token_url(entry) =~= "https://auth.x.ai/oauth2/token"@);
    } else if 0 <= n <= issuer.len() && (n > 0 ==> issuer[n - 1] != '/') && (forall|i: int|
        n <= i < issuer.len() ==> #[trigger] issuer[i] == '/') {
        if k < n {
            assert(issuer[n - 1] == '/');
        } else if n < k {
            assert(issuer[k - 1] == '/');
        }
    }
}

proof fn lemma_slashes(s: Seq<char>)
    ensures
        exists|n: int|
            {
                &&& 0 <= n <= s.len()
                &&& n > 0 ==> s[n - 1] != '/'
                &&& forall|i: int| n <= i < s.len() ==> #[trigger] s[i] == '/'
                &&& text::trim_end_char(s, '/') == #[trigger] s.take(n)
            },
    decreases s.len(),
{
    if s.len() > 0 && s.last() == '/' {
        let front = s.drop_last();
        lemma_slashes(front);
        let n = choose|n: int|
            {
                &&& 0 <= n <= front.len()
                &&& n > 0 ==> front[n - 1] != '/'
                &&& forall|i: int| n <= i < front.len() ==> #[trigger] front[i] == '/'
                &&& text::trim_end_char(front, '/') == #[trigger] front.take(n)
            };
        assert(s.take(n) =~= front.take(n));
        assert forall|i: int| n <= i < s.len() implies #[trigger] s[i] == '/' by {
            if i < front.len() {
                assert(front[i] == s[i]);
            }
        }
    } else {
        assert(s.take(s.len() as int) =~= s);
    }
}

/// The credentials file is the one that is given explicitly, where that is not empty,
/// and else `.grok/auth.json` in the home directory.
pub proof fn law_where_the_credentials_are(explicit: Option<Seq<char>>, home: Option<Seq<char>>)
    ensures
        explicit is Some && explicit->0.len() > 0 ==> auth_path(explicit, home) == explicit,
        (explicit is None || explicit->0.len() == 0) && home is None ==> auth_path(
            explicit,
            home,
        ) is None,
        (explicit is None || explicit->0.len() == 0) && home is Some && home->0.len() > 0
            && home->0.last() != '/' ==> auth_path(explicit, home) == Some(
            home->0 + "/.grok/auth.json"@,
        ),
{
    reveal_strlit(".grok");
    reveal_strlit("auth.json");
    reveal_strlit("/.grok/auth.json");
    if (explicit is None || explicit->0.len() == 0) && home is Some && home->0.len() > 0
        && home->0.last() != '/' {
        assert(auth_path(explicit, home)->0 =~= home->0 + "/.grok/auth.json"@);
    }
}

/// A blank text counts as none, and any other one without surrounding white space.
pub proof fn law_blank_counts_as_none(s: Seq<char>)
    ensures
        non_blank(None) is None,
        text::trim(s).len() == 0 ==> non_blank(Some(s)) is None,
        text::trim(s).len() > 0 ==> non_blank(Some(s)) == Some(text::trim(s)),
{
}

} // verus!
