use vstd::prelude::*;

use crate::anime::{AnimeId, EpisodeId};
use crate::text::{chars_of, decimal, decimal_string, parse_unsigned, std_parse_u32, string_of};

verus! {

/// The AniList client used where none is given.
pub const DEFAULT_CLIENT_ID: u32 = 4047;

/// Identifies an AniList API client (OAuth application ID).
#[derive(Clone, Copy, Debug, PartialEq, Eq, PartialOrd, Ord, Hash)]
pub struct AnilistId(pub u32);

impl AnilistId {
    /// The identifier in decimal.
    pub fn to_string(&self) -> (r: String)
        ensures
            r@ == decimal(self.0 as nat),
    {
        decimal_string(self.0 as u64)
    }

    /// Parses a decimal identifier, as `u32` parses.
    pub fn from_str(s: &str) -> (r: Result<AnilistId, core::num::ParseIntError>)
        ensures
            match parse_unsigned(s@, u32::MAX as int) {
                Some(v) => r == Ok::<AnilistId, core::num::ParseIntError>(AnilistId(v as u32)),
                None => r is Err,
            },
    {
        match std_parse_u32(s) {
            Ok(v) => Ok(AnilistId(v)),
            Err(e) => Err(e),
        }
    }

    /// The given client, or the default one.
    pub fn or_default(id: Option<AnilistId>) -> (r: AnilistId)
        ensures
            r == match id { Some(i) => i, None => AnilistId(DEFAULT_CLIENT_ID) },
    {
        match id {
            Some(i) => i,
            None => AnilistId(DEFAULT_CLIENT_ID),
        }
    }
}

impl From<u32> for AnilistId {
    fn from(id: u32) -> (r: AnilistId) {
        AnilistId(id)
    }
}

impl vstd::std_specs::convert::FromSpecImpl<u32> for AnilistId {
    open spec fn obeys_from_spec() -> bool {
        true
    }

    open spec fn from_spec(id: u32) -> AnilistId {
        AnilistId(id)
    }
}

/// Identifies an AniList user.
#[derive(Clone, Copy, Debug, PartialEq, Eq)]
pub struct UserId(pub i64);

impl From<i64> for UserId {
    fn from(id: i64) -> (r: UserId) {
        UserId(id)
    }
}

impl vstd::std_specs::convert::FromSpecImpl<i64> for UserId {
    open spec fn obeys_from_spec() -> bool {
        true
    }

    open spec fn from_spec(id: i64) -> UserId {
        UserId(id)
    }
}

impl From<UserId> for i64 {
    fn from(id: UserId) -> (r: i64) {
        id.0
    }
}

impl vstd::std_specs::convert::FromSpecImpl<UserId> for i64 {
    open spec fn obeys_from_spec() -> bool {
        true
    }

    open spec fn from_spec(id: UserId) -> i64 {
        id.0
    }
}

/// An anime of the user's watching list.
#[derive(Debug)]
pub struct WatchingAnime {
    watched: i64,
    id: i64,
    title: String,
}

impl WatchingAnime {
    pub fn new(watched: i64, id: i64, title: &str) -> (r: Self)
        ensures
            r.spec_watched() == watched,
            r.spec_id() == id,
            r.spec_title() == title@,
    {
        WatchingAnime { watched, id, title: string_of(chars_of(title).as_slice()) }
    }

    pub closed spec fn spec_watched(&self) -> i64 {
        self.watched
    }

    pub closed spec fn spec_id(&self) -> i64 {
        self.id
    }

    pub closed spec fn spec_title(&self) -> Seq<char> {
        self.title@
    }

    pub fn title(&self) -> (r: &str)
        ensures
            r@ == self.spec_title(),
    {
        self.title.as_str()
    }

    /// The episodes left to watch; never below zero.
    pub fn watched(&self) -> (r: u32)
        ensures
            r == if self.spec_watched() < 0 { 0 } else { self.spec_watched() as u32 },
    {
        if self.watched < 0 { 0 } else { self.watched as u32 }
    }

    pub fn id(&self) -> (r: AnimeId)
        ensures
            r == AnimeId(self.spec_id() as u32),
    {
        AnimeId(self.id as u32)
    }
}

/// How far the user is in an anime: its number of episodes and the last one watched.
#[derive(Clone, Copy, Debug, PartialEq, Eq)]
pub struct Progress {
    pub episodes: i64,
    pub progress: i64,
}

/// The status that AniList records for an anime in the user's list.
#[derive(Clone, Copy, Debug, PartialEq, Eq)]
pub enum MediaListStatus {
    Current,
    Completed,
}

impl Progress {
    pub fn latest(&self) -> (r: EpisodeId)
        ensures
            r == EpisodeId(self.progress as u32),
    {
        EpisodeId(self.progress as u32)
    }

    /// Whether episode `n` was already watched.
    pub fn has_seen(&self, n: EpisodeId) -> (r: bool)
        ensures
            r == (self.progress >= n.0),
    {
        self.progress >= n.0 as i64
    }

    /// Whether episode `n` is the last one, or beyond it.
    pub fn is_last(&self, n: EpisodeId) -> (r: bool)
        ensures
            r == (self.episodes <= n.0),
    {
        self.episodes <= n.0 as i64
    }
}

/// What to record after episode `number` was watched: nothing where it was already seen,
/// `Completed` where it is the last one, else `Current`.
pub fn update_status(progress: Option<Progress>, number: EpisodeId) -> (r: Option<MediaListStatus>)
    ensures
        r == match progress {
            Some(p) => if p.progress >= number.0 {
                None
            } else if p.episodes <= number.0 {
                Some(MediaListStatus::Completed)
            } else {
                Some(MediaListStatus::Current)
            },
            None => Some(MediaListStatus::Current),
        },
{
    match progress {
        Some(p) => {
            if p.has_seen(number) {
                None
            } else if p.is_last(number) {
                Some(MediaListStatus::Completed)
            } else {
                Some(MediaListStatus::Current)
            }
        },
        None => Some(MediaListStatus::Current),
    }
}

/// The URL where the user authorizes the client.
pub open spec fn oauth_url_of(client_id: u32) -> Seq<char> {
    "https://anilist.co/api/v2/oauth/authorize?response_type=token&client_id="@ + decimal(client_id as nat)
}

/// The URL where the user authorizes the client.
pub fn oauth_url(client_id: AnilistId) -> (r: String)
    ensures
        r@ == oauth_url_of(client_id.0),
{
    let mut s = String::from_str("https://anilist.co/api/v2/oauth/authorize?response_type=token&client_id=");
    let id = client_id.to_string();
    s.append(id.as_str());
    s
}


/// An anime as the watching-list query returns it.
#[derive(Debug, Clone, PartialEq, Eq)]
pub struct Media {
    pub id: i64,
    pub episodes: Option<i64>,
    pub next_airing_episode: Option<i64>,
    pub title: Option<String>,
}

/// An entry of the watching list as the query returns it.
#[derive(Debug, Clone, PartialEq, Eq)]
pub struct ListEntry {
    pub progress: Option<i64>,
    pub media: Option<Media>,
}

/// What a `WatchingAnime` holds: episodes left, id and title.
pub type WatchingView = (i64, i64, Seq<char>);

impl WatchingAnime {
    pub open spec fn view_tuple(&self) -> WatchingView {
        (self.spec_watched(), self.spec_id(), self.spec_title())
    }
}

/// The episodes left to watch in an entry, where it says: those aired before the next airing
/// one, or else all of them, less those watched.
pub open spec fn entry_left(progress: i64, media: Media) -> Option<int> {
    match media.next_airing_episode {
        Some(ep) => Some(ep - (progress + 1)),
        None => match media.episodes {
            Some(n) => Some(n - progress),
            None => None,
        },
    }
}

/// The anime that an entry of the watching list stands for; `None` where the entry lacks its
/// progress, its media, its episode counts or its title.
pub open spec fn entry_watching(e: ListEntry) -> Option<WatchingView> {
    match e.progress {
        None => None,
        Some(progress) => match e.media {
            None => None,
            Some(media) => match entry_left(progress, media) {
                None => None,
                Some(left) => match media.title {
                    None => None,
                    Some(t) => Some((left as i64, media.id, t@)),
                },
            },
        },
    }
}

/// Whether the episodes left of an entry fit in an `i64`.
pub open spec fn entry_fits(e: ListEntry) -> bool {
    match (e.progress, e.media) {
        (Some(progress), Some(media)) => match media.next_airing_episode {
            Some(ep) => progress + 1 <= i64::MAX && i64::MIN <= ep - (progress + 1) <= i64::MAX,
            None => match media.episodes {
                Some(n) => i64::MIN <= n - progress <= i64::MAX,
                None => true,
            },
        },
        _ => true,
    }
}

/// The anime of the entries that stand for one, in order.
pub open spec fn entries_watching(es: Seq<ListEntry>) -> Seq<WatchingView>
    decreases es.len(),
{
    if es.len() == 0 {
        Seq::empty()
    } else {
        let rest = entries_watching(es.drop_last());
        match entry_watching(es.last()) {
            Some(w) => rest.push(w),
            None => rest,
        }
    }
}

/// Lexicographic order of character sequences, which is the order of `String`s.
pub open spec fn lex_le(a: Seq<char>, b: Seq<char>) -> bool
    decreases a.len(),
{
    if a.len() == 0 {
        true
    } else if b.len() == 0 {
        false
    } else if a[0] != b[0] {
        a[0] < b[0]
    } else {
        lex_le(a.skip(1), b.skip(1))
    }
}

/// Any two texts are ordered one way or the other.
pub proof fn lemma_lex_total(a: Seq<char>, b: Seq<char>)
    ensures
        lex_le(a, b) || lex_le(b, a),
    decreases a.len(),
{
    if a.len() > 0 && b.len() > 0 && a[0] == b[0] {
        lemma_lex_total(a.skip(1), b.skip(1));
    }
}

/// The order of texts is transitive.
pub proof fn lemma_lex_trans(a: Seq<char>, b: Seq<char>, c: Seq<char>)
    requires
        lex_le(a, b),
        lex_le(b, c),
    ensures
        lex_le(a, c),
    decreases a.len(),
{
    if a.len() > 0 && b.len() > 0 && c.len() > 0 && a[0] == b[0] && b[0] == c[0] {
        lemma_lex_trans(a.skip(1), b.skip(1), c.skip(1));
    }
}

/// Each title is no greater than the next ones.
pub open spec fn sorted_by_title(s: Seq<WatchingView>) -> bool {
    forall|i: int, j: int| 0 <= i < j < s.len() ==> lex_le(#[trigger] s[i].2, #[trigger] s[j].2)
}

proof fn lemma_insert_by_title_multiset(sorted: Seq<WatchingView>, x: WatchingView)
    ensures
        insert_by_title(sorted, x).to_multiset() == sorted.to_multiset().insert(x),
    decreases sorted.len(),
{
    broadcast use vstd::seq_lib::group_to_multiset_ensures;
    if sorted.len() == 0 {
        assert(seq![x] == Seq::<WatchingView>::empty().push(x));
    } else if lex_le(sorted.last().2, x.2) {
    } else {
        lemma_insert_by_title_multiset(sorted.drop_last(), x);
        assert(sorted.drop_last().push(sorted.last()) == sorted);
        assert(insert_by_title(sorted.drop_last(), x).push(sorted.last()).to_multiset()
            =~= sorted.to_multiset().insert(x));
    }
}

proof fn lemma_insert_by_title_sorted(sorted: Seq<WatchingView>, x: WatchingView)
    requires
        sorted_by_title(sorted),
    ensures
        sorted_by_title(insert_by_title(sorted, x)),
    decreases sorted.len(),
{
    broadcast use vstd::seq_lib::group_to_multiset_ensures;
    if sorted.len() == 0 {
    } else if lex_le(sorted.last().2, x.2) {
        let r = sorted.push(x);
        assert forall|i: int, j: int| 0 <= i < j < r.len() implies lex_le(#[trigger] r[i].2, #[trigger] r[j].2) by {
            if j == sorted.len() {
                if i < sorted.len() - 1 {
                    lemma_lex_trans(sorted[i].2, sorted.last().2, x.2);
                }
            } else {
                assert(r[i] == sorted[i] && r[j] == sorted[j]);
            }
        }
    } else {
        let d = sorted.drop_last();
        let l = sorted.last();
        assert(sorted_by_title(d)) by {
            assert forall|i: int, j: int| 0 <= i < j < d.len() implies lex_le(#[trigger] d[i].2, #[trigger] d[j].2) by {
                assert(d[i] == sorted[i] && d[j] == sorted[j]);
            }
        }
        lemma_insert_by_title_sorted(d, x);
        lemma_insert_by_title_multiset(d, x);
        lemma_lex_total(l.2, x.2);
        let m = insert_by_title(d, x);
        let r = m.push(l);
        assert forall|k: int| 0 <= k < m.len() implies lex_le(#[trigger] m[k].2, l.2) by {
            assert(m.to_multiset().contains(m[k]));
            assert(d.to_multiset().insert(x).contains(m[k]));
            if m[k] != x {
                assert(d.to_multiset().contains(m[k]));
                assert(d.contains(m[k]));
                let t = choose|t: int| 0 <= t < d.len() && d[t] == m[k];
                assert(sorted[t] == d[t]);
                assert(sorted[sorted.len() - 1] == l);
            }
        }
        assert forall|i: int, j: int| 0 <= i < j < r.len() implies lex_le(#[trigger] r[i].2, #[trigger] r[j].2) by {
            if j == m.len() {
                assert(r[i] == m[i]);
            } else {
                assert(r[i] == m[i] && r[j] == m[j]);
            }
        }
    }
}

/// The watching list comes out sorted by title, and holds the same anime as went in.
pub proof fn law_sort_by_title(s: Seq<WatchingView>)
    ensures
        sorted_by_title(sort_by_title(s)),
        sort_by_title(s).to_multiset() == s.to_multiset(),
    decreases s.len(),
{
    broadcast use vstd::seq_lib::group_to_multiset_ensures;
    if s.len() > 0 {
        law_sort_by_title(s.drop_last());
        lemma_insert_by_title_sorted(sort_by_title(s.drop_last()), s.last());
        lemma_insert_by_title_multiset(sort_by_title(s.drop_last()), s.last());
        assert(s.drop_last().push(s.last()) == s);
    }
}

/// `x` inserted into `sorted` after every element whose title is not greater.
pub open spec fn insert_by_title(sorted: Seq<WatchingView>, x: WatchingView) -> Seq<WatchingView>
    decreases sorted.len(),
{
    if sorted.len() == 0 {
        seq![x]
    } else if lex_le(sorted.last().2, x.2) {
        sorted.push(x)
    } else {
        insert_by_title(sorted.drop_last(), x).push(sorted.last())
    }
}

/// The list sorted by title, keeping the order of equal titles, as a stable sort does.
pub open spec fn sort_by_title(s: Seq<WatchingView>) -> Seq<WatchingView>
    decreases s.len(),
{
    if s.len() == 0 {
        Seq::empty()
    } else {
        insert_by_title(sort_by_title(s.drop_last()), s.last())
    }
}

/// Whether `a` comes before `b` or equals it, comparing by characters.
pub fn lex_le_exec(a: &[char], b: &[char]) -> (r: bool)
    ensures
        r == lex_le(a@, b@),
{
    let mut i: usize = 0;
    assert(a@.skip(0) == a@);
    assert(b@.skip(0) == b@);
    while i < a.len() && i < b.len() && a[i] == b[i]
        invariant
            i <= a.len(),
            i <= b.len(),
            lex_le(a@, b@) == lex_le(a@.skip(i as int), b@.skip(i as int)),
        decreases a.len() - i,
    {
        assert(a@.skip(i as int).skip(1) == a@.skip(i + 1));
        assert(b@.skip(i as int).skip(1) == b@.skip(i + 1));
        i += 1;
    }
    if i == a.len() {
        true
    } else if i == b.len() {
        false
    } else {
        assert(a@.skip(i as int)[0] == a@[i as int]);
        assert(b@.skip(i as int)[0] == b@[i as int]);
        a[i] < b[i]
    }
}

/// The views of a list of watching anime.
pub open spec fn watching_views(v: Seq<WatchingAnime>) -> Seq<WatchingView> {
    v.map_values(|w: WatchingAnime| w.view_tuple())
}

proof fn lemma_insert_split(sorted: Seq<WatchingView>, x: WatchingView, j: int)
    requires
        0 <= j <= sorted.len(),
        forall|k: int| j <= k < sorted.len() ==> !lex_le(#[trigger] sorted[k].2, x.2),
        j > 0 ==> lex_le(sorted[j - 1].2, x.2),
    ensures
        insert_by_title(sorted, x) == sorted.take(j).push(x) + sorted.skip(j),
    decreases sorted.len(),
{
    if sorted.len() == 0 {
        assert(sorted.take(j).push(x) + sorted.skip(j) =~= seq![x]);
    } else if j == sorted.len() {
        assert(sorted.take(j) == sorted);
        assert(sorted.take(j).push(x) + sorted.skip(j) =~= sorted.push(x));
    } else {
        let d = sorted.drop_last();
        assert(!lex_le(sorted.last().2, x.2)) by {
            assert(sorted[sorted.len() - 1] == sorted.last());
        }
        assert forall|k: int| j <= k < d.len() implies !lex_le(#[trigger] d[k].2, x.2) by {
            assert(d[k] == sorted[k]);
        }
        if j > 0 {
            assert(d[j - 1] == sorted[j - 1]);
        }
        lemma_insert_split(d, x, j);
        assert(d.take(j) == sorted.take(j));
        assert(d.take(j).push(x) + d.skip(j) + seq![sorted.last()] =~= sorted.take(j).push(x) + sorted.skip(j));
        assert((d.take(j).push(x) + d.skip(j)).push(sorted.last()) =~= d.take(j).push(x) + d.skip(j) + seq![sorted.last()]);
    }
}

/// Inserts an anime into a list sorted by title, after those with a title not greater.
fn insert_watching(v: Vec<WatchingAnime>, x: WatchingAnime) -> (r: Vec<WatchingAnime>)
    ensures
        watching_views(r@) == insert_by_title(watching_views(v@), x.view_tuple()),
{
    let ghost sv = watching_views(v@);
    let xt = chars_of(x.title.as_str());
    let mut v = v;
    let mut j: usize = v.len();
    assert(sv.len() == v@.len());
    while j > 0 && !lex_le_exec(chars_of(v[j - 1].title.as_str()).as_slice(), xt.as_slice())
        invariant
            j <= v.len(),
            sv == watching_views(v@),
            sv.len() == v@.len(),
            xt@ == x.title@,
            forall|k: int| j <= k < sv.len() ==> !lex_le(#[trigger] sv[k].2, x.view_tuple().2),
        decreases j,
    {
        assert(sv[j - 1] == v@[j - 1].view_tuple());
        j -= 1;
    }
    proof {
        if j > 0 {
            assert(sv[j - 1] == v@[j - 1].view_tuple());
        }
        lemma_insert_split(sv, x.view_tuple(), j as int);
    }
    let ghost xv = x.view_tuple();
    v.insert(j, x);
    assert(watching_views(v@) =~= sv.take(j as int).push(xv) + sv.skip(j as int));
    v
}

proof fn lemma_entries_watching_contains(es: Seq<ListEntry>, i: int)
    requires
        0 <= i < es.len(),
        entry_watching(es[i]) is Some,
    ensures
        entries_watching(es).contains(entry_watching(es[i])->0),
    decreases es.len(),
{
    let rest = entries_watching(es.drop_last());
    if i < es.len() - 1 {
        assert(es.drop_last()[i] == es[i]);
        lemma_entries_watching_contains(es.drop_last(), i);
        let k = choose|k: int| 0 <= k < rest.len() && rest[k] == entry_watching(es[i])->0;
        if entry_watching(es.last()) is Some {
            assert(entries_watching(es)[k] == rest[k]);
        }
    } else {
        assert(entries_watching(es).last() == entry_watching(es[i])->0);
    }
}

/// Every entry with its progress, its anime, a title and a count of episodes is in the
/// watching list with its episodes left to see: those aired before the next airing one, or
/// else all of them, less those watched.
pub proof fn law_watching_list_episodes_left(es: Seq<ListEntry>, i: int, progress: i64, media: Media, title: String)
    requires
        0 <= i < es.len(),
        es[i].progress == Some(progress),
        es[i].media == Some(media),
        media.title == Some(title),
        media.next_airing_episode is Some || media.episodes is Some,
    ensures
        sort_by_title(entries_watching(es)).contains((
            (match media.next_airing_episode {
                Some(ep) => ep - progress - 1,
                None => media.episodes->0 - progress,
            }) as i64,
            media.id,
            title@,
        )),
{
    broadcast use vstd::seq_lib::group_to_multiset_ensures;
    lemma_entries_watching_contains(es, i);
    let w = entry_watching(es[i])->0;
    law_sort_by_title(entries_watching(es));
    assert(entries_watching(es).to_multiset().count(w) > 0);
    assert(sort_by_title(entries_watching(es)).to_multiset().count(w) > 0);
}

/// The watching list made from the entries of the query, sorted by title.
pub fn watching_list(entries: Vec<ListEntry>) -> (r: Vec<WatchingAnime>)
    requires
        forall|i: int| 0 <= i < entries@.len() ==> entry_fits(#[trigger] entries@[i]),
    ensures
        watching_views(r@) == sort_by_title(entries_watching(entries@)),
{
    let mut out: Vec<WatchingAnime> = Vec::new();
    let mut i: usize = 0;
    while i < entries.len()
        invariant
            i <= entries.len(),
            forall|k: int| 0 <= k < entries@.len() ==> entry_fits(#[trigger] entries@[k]),
            watching_views(out@) == sort_by_title(entries_watching(entries@.take(i as int))),
        decreases entries.len() - i,
    {
        let e = &entries[i];
        assert(entries@.take(i + 1).drop_last() == entries@.take(i as int));
        assert(entries@.take(i + 1).last() == *e);
        assert(entry_fits(entries@[i as int]));
        let item: Option<WatchingAnime> = match (e.progress, &e.media) {
            (Some(progress), Some(media)) => {
                let left: Option<i64> = match media.next_airing_episode {
                    Some(ep) => Some(ep - (progress + 1)),
                    None => match media.episodes {
                        Some(n) => Some(n - progress),
                        None => None,
                    },
                };
                match (left, &media.title) {
                    (Some(l), Some(t)) => Some(WatchingAnime { watched: l, id: media.id, title: t.clone() }),
                    _ => None,
                }
            },
            _ => None,
        };
        let ghost prev = entries_watching(entries@.take(i as int));
        match item {
            Some(w) => {
                assert(entry_watching(*e) == Some(w.view_tuple()));
                let ghost wv = w.view_tuple();
                out = insert_watching(out, w);
                assert(entries_watching(entries@.take(i + 1)) == prev.push(wv));
                assert(prev.push(wv).drop_last() == prev);
            },
            None => {
                assert(entry_watching(*e) is None);
                assert(entries_watching(entries@.take(i + 1)) == prev);
            },
        }
        i += 1;
    }
    assert(entries@.take(entries.len() as int) == entries@);
    out
}

} // verus!
