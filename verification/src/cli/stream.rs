use vstd::prelude::*;

use std::collections::VecDeque;

use vstd::hash_map::StringHashMap;

use crate::anilist::AnilistId;
use crate::anime::{episode_number, get_episode_number, Anime, AnimeId, EpisodeId};
use crate::cli::download::{find_first, first_index_of, lemma_first_index, lemma_no_index};
use crate::cli::search::Site;
use crate::text::{
    chars_of, contains, is_digit, is_unicode_whitespace, keep_before_trailing, lemma_parse_unsigned_bound,
    occurs, parse_decimal, parse_unsigned, slice_copy, string_of, trim_end_by, CharClass,
};
use crate::url::{last_path_segment, url_last_segment};

verus! {

/// Stream anime in a media player.
#[derive(Debug)]
pub struct Args {
    /// Source urls or scraper's queries.
    pub entries: Vec<String>,
    /// Overrides the AniList client id.
    pub anilist_id: Option<AnilistId>,
    /// Disables the automatic proxy.
    pub no_proxy: bool,
    /// Searches the anime in a remote archive.
    pub site: Option<Site>,
    /// Takes the anime from the AniList watching list.
    pub watching: bool,
}

/// Where the run of ASCII digits that ends at `k` starts.
pub open spec fn digit_run_start(s: Seq<char>, k: int) -> int
    decreases k,
{
    if k > 0 && is_digit(s[k - 1]) {
        digit_run_start(s, k - 1)
    } else {
        k
    }
}

/// The percentage in a line of player output: the number written just before its first `%`.
pub open spec fn percentage_in(s: Seq<char>) -> Option<int> {
    match first_index_of(s, '%') {
        None => None,
        Some(k) => {
            let j = digit_run_start(s, k);
            if j == k {
                None
            } else {
                parse_unsigned(s.subrange(j, k), u32::MAX as int)
            }
        },
    }
}

/// Extracts the percentage from a line of player output.
pub fn get_percentage(line: &str) -> (r: Option<u32>)
    ensures
        match percentage_in(line@) {
            Some(v) => r == Some(v as u32),
            None => r is None,
        },
{
    let cs = chars_of(line);
    let sym = match find_first(cs.as_slice(), '%') {
        Some(k) => k,
        None => {
            proof {
                lemma_no_index(cs@, '%');
            }
            return None;
        },
    };
    proof {
        lemma_first_index(cs@, '%', sym as int);
    }
    let mut start = sym;
    while start > 0 && '0' <= cs[start - 1] && cs[start - 1] <= '9'
        invariant
            start <= sym < cs.len(),
            digit_run_start(cs@, sym as int) == digit_run_start(cs@, start as int),
        decreases start,
    {
        start -= 1;
    }
    if start == sym {
        return None;
    }
    let digits = slice_copy(cs.as_slice(), start, sym);
    proof {
        lemma_parse_unsigned_bound(digits@, u32::MAX as int);
    }
    match parse_decimal(digits.as_slice(), 0xffff_ffffu64) {
        Some(v) => Some(v as u32),
        None => None,
    }
}

/// What comes before the first `_` of `s`, or all of `s` where it has none.
pub open spec fn before_underscore(s: Seq<char>) -> Seq<char> {
    match first_index_of(s, '_') {
        Some(i) => s.take(i),
        None => s,
    }
}

/// The anime name that the last path segment of an episode URL holds: the text before its
/// first `_`, as `split_terminator("_").next()` gives it, and nothing for an empty segment.
pub open spec fn segment_name(seg: Seq<char>) -> Option<Seq<char>> {
    if seg.len() == 0 {
        None
    } else {
        Some(before_underscore(seg))
    }
}

/// The anime name in an episode URL.
pub open spec fn url_name(url: Seq<char>) -> Option<Seq<char>> {
    match url_last_segment(url) {
        Some(Some(seg)) => segment_name(seg),
        _ => None,
    }
}

/// The view of an optional string.
pub open spec fn opt_view(r: Option<String>) -> Option<Seq<char>> {
    match r {
        Some(x) => Some(x@),
        None => None,
    }
}

/// The anime name in the last path segment of an episode URL.
pub fn name_from_segment(seg: &str) -> (r: Option<String>)
    ensures
        opt_view(r) == segment_name(seg@),
{
    let cs = chars_of(seg);
    if cs.len() == 0 {
        return None;
    }
    match find_first(cs.as_slice(), '_') {
        Some(i) => {
            proof {
                lemma_first_index(cs@, '_', i as int);
            }
            let head = slice_copy(cs.as_slice(), 0, i);
            Some(string_of(head.as_slice()))
        },
        None => {
            proof {
                lemma_no_index(cs@, '_');
            }
            Some(string_of(cs.as_slice()))
        },
    }
}

/// Gets the anime name by parsing an episode URL.
pub fn get_name_from_url(url: &str) -> (r: Option<String>)
    ensures
        opt_view(r) == url_name(url@),
{
    match last_path_segment(url) {
        Some(Some(seg)) => name_from_segment(seg.as_str()),
        _ => None,
    }
}

/// The least percentage past which an episode counts as watched.
pub const MIN_PERCENTAGE: u32 = 80;

/// How far an episode has been played, and whether AniList has been told.
#[derive(Clone, Copy, Debug, Default, PartialEq, Eq)]
pub struct EpisodeProgress {
    pub anime_id: AnimeId,
    pub episode: EpisodeId,
    pub percentage: u32,
    pub updated: bool,
}

/// The record of an episode that has just been opened.
pub open spec fn fresh_progress(anime_id: AnimeId, episode: EpisodeId) -> EpisodeProgress {
    EpisodeProgress { anime_id, episode, percentage: 0, updated: false }
}

/// `p` at `percentage`.
pub open spec fn with_percentage(p: EpisodeProgress, percentage: u32) -> EpisodeProgress {
    EpisodeProgress { anime_id: p.anime_id, episode: p.episode, percentage, updated: p.updated }
}

/// `p` marked as told or not.
pub open spec fn with_updated(p: EpisodeProgress, updated: bool) -> EpisodeProgress {
    EpisodeProgress { anime_id: p.anime_id, episode: p.episode, percentage: p.percentage, updated }
}

/// The queue after the player reports `percentage`, where it is no less than what the episode
/// in front had: an episode that was already reported and is reported at zero again has given
/// way to the next one and leaves the queue; else it takes the new percentage. A lower
/// percentage changes nothing.
pub open spec fn after_update(q: Seq<EpisodeProgress>, percentage: u32) -> Seq<EpisodeProgress> {
    if q.len() == 0 || q[0].percentage > percentage {
        q
    } else if q[0].updated && percentage == 0 {
        q.skip(1)
    } else {
        q.update(0, with_percentage(q[0], percentage))
    }
}

/// The update owed to AniList: the front episode, where it has not been reported and has been
/// played past `MIN_PERCENTAGE`.
pub open spec fn pending_of(q: Seq<EpisodeProgress>) -> Option<(AnimeId, EpisodeId)> {
    if q.len() > 0 && !q[0].updated && q[0].percentage > MIN_PERCENTAGE {
        Some((q[0].anime_id, q[0].episode))
    } else {
        None
    }
}

/// The queue after the owed update was sent, `accepted` telling whether AniList took it.
pub open spec fn after_send(q: Seq<EpisodeProgress>, accepted: bool) -> Seq<EpisodeProgress> {
    if pending_of(q) is Some {
        q.update(0, with_updated(q[0], accepted))
    } else {
        q
    }
}

/// The episodes opened in the player, oldest first, with how far each has been played.
#[derive(Debug)]
pub struct Progress {
    pub queue: VecDeque<EpisodeProgress>,
}

impl Progress {
    pub fn new() -> (r: Self)
        ensures
            r.queue@ == Seq::<EpisodeProgress>::empty(),
    {
        Progress { queue: VecDeque::new() }
    }

    /// Starts following an episode that the player has opened.
    pub fn track(&mut self, anime_id: AnimeId, episode: EpisodeId)
        ensures
            final(self).queue@ == old(self).queue@.push(fresh_progress(anime_id, episode)),
    {
        let progress = EpisodeProgress { anime_id, episode, percentage: 0, updated: false };
        self.queue.push_back(progress);
    }

    /// Takes in a percentage reported by the player.
    pub fn update(&mut self, percentage: u32)
        ensures
            final(self).queue@ == after_update(old(self).queue@, percentage),
    {
        if self.queue.len() == 0 {
            return;
        }
        let front = self.queue[0];
        let ghost q = self.queue@;
        if front.percentage > percentage {
            return;
        }
        if front.updated && percentage == 0 {
            let _ = self.queue.pop_front();
            assert(self.queue@ =~= q.skip(1));
        } else {
            let _ = self.queue.pop_front();
            let next = EpisodeProgress {
                anime_id: front.anime_id,
                episode: front.episode,
                percentage,
                updated: front.updated,
            };
            self.queue.push_front(next);
            assert(self.queue@ =~= q.update(0, with_percentage(q[0], percentage)));
        }
    }

    /// The update owed to AniList, if any.
    pub fn pending(&self) -> (r: Option<(AnimeId, EpisodeId)>)
        ensures
            r == pending_of(self.queue@),
    {
        if self.queue.len() == 0 {
            return None;
        }
        let front = self.queue[0];
        if !front.updated && front.percentage > MIN_PERCENTAGE {
            Some((front.anime_id, front.episode))
        } else {
            None
        }
    }

    /// Records the outcome of sending the owed update.
    pub fn mark_sent(&mut self, accepted: bool)
        ensures
            final(self).queue@ == after_send(old(self).queue@, accepted),
    {
        if self.pending().is_none() {
            return;
        }
        let front = self.queue[0];
        let ghost q = self.queue@;
        let _ = self.queue.pop_front();
        let next = EpisodeProgress {
            anime_id: front.anime_id,
            episode: front.episode,
            percentage: front.percentage,
            updated: accepted,
        };
        self.queue.push_front(next);
        assert(self.queue@ =~= q.update(0, with_updated(q[0], accepted)));
    }
}

impl Default for Progress {
    fn default() -> (r: Self)
        ensures
            r.queue@ == Seq::<EpisodeProgress>::empty(),
    {
        Progress::new()
    }
}

/// Once an owed update has been accepted, nothing is owed until another episode comes to the
/// front.
pub proof fn law_accepted_update_is_not_sent_again(q: Seq<EpisodeProgress>)
    ensures
        pending_of(after_send(q, true)) is None,
{
}

/// A refused update stays owed, so that it is sent again with the next report.
pub proof fn law_refused_update_stays_owed(q: Seq<EpisodeProgress>)
    ensures
        pending_of(after_send(q, false)) == pending_of(q),
        after_send(q, false) == q,
{
    if pending_of(q) is Some {
        assert(q.update(0, with_updated(q[0], false)) =~= q);
    }
}

/// A report never lowers the percentage of the episode in front: either that episode stays in
/// front with at least its old percentage, or it leaves the queue.
pub proof fn law_front_percentage_never_drops(q: Seq<EpisodeProgress>, percentage: u32)
    requires
        q.len() > 0,
    ensures
        after_update(q, percentage).len() == q.len() ==> {
            &&& after_update(q, percentage)[0].anime_id == q[0].anime_id
            &&& after_update(q, percentage)[0].episode == q[0].episode
            &&& after_update(q, percentage)[0].percentage >= q[0].percentage
        },
        after_update(q, percentage).len() != q.len() ==> after_update(q, percentage) == q.skip(1),
{
}

/// Where the last word of `t` starts: the last of its characters after which, up to the end,
/// none is white space.
pub open spec fn word_start(t: Seq<char>) -> int
    decreases t.len(),
{
    if t.len() > 0 && !is_unicode_whitespace(t.last()) {
        word_start(t.drop_last())
    } else {
        t.len() as int
    }
}

/// The last of the white-space separated words of `s`, as `split_whitespace().last()` gives it.
pub open spec fn last_word(s: Seq<char>) -> Option<Seq<char>> {
    let t = trim_end_by(s, CharClass::Whitespace);
    if t.len() == 0 {
        None
    } else {
        Some(t.subrange(word_start(t), t.len() as int))
    }
}

/// The last white-space separated word of `s`.
pub fn last_word_of(s: &[char]) -> (r: Option<Vec<char>>)
    ensures
        match last_word(s@) {
            Some(w) => r matches Some(x) && x@ == w,
            None => r is None,
        },
{
    let hi = keep_before_trailing(s, CharClass::Whitespace);
    if hi == 0 {
        return None;
    }
    let ghost t = s@.take(hi as int);
    let mut lo = hi;
    while lo > 0 && !CharClass::Whitespace.test(s[lo - 1])
        invariant
            lo <= hi <= s.len(),
            t == s@.take(hi as int),
            word_start(t) == word_start(s@.take(lo as int)),
        decreases lo,
    {
        assert(s@.take(lo as int).drop_last() == s@.take(lo - 1));
        lo -= 1;
    }
    assert(t.subrange(lo as int, hi as int) == s@.subrange(lo as int, hi as int));
    Some(slice_copy(s, lo, hi))
}

/// What a line of player output tells.
#[derive(Debug, PartialEq, Eq)]
pub enum PlayerLine {
    /// The player opened the file at this URL.
    Opened(String),
    /// The player reached this percentage of the file.
    Position(u32),
    /// Nothing of interest.
    Other,
}

/// Reads a line of player output: a line with `Opening done` names the URL it opened as its
/// last word; a line with a `%` that does not say `(Paused)` reports a percentage.
pub fn classify_line(line: &str) -> (r: PlayerLine)
    ensures
        occurs(line@, "Opening done"@) ==> match last_word(line@) {
            Some(w) => r matches PlayerLine::Opened(u) && u@ == w,
            None => r is Other,
        },
        !occurs(line@, "Opening done"@) && occurs(line@, "%"@) && !occurs(line@, "(Paused)"@)
            ==> match percentage_in(line@) {
            Some(v) => r == PlayerLine::Position(v as u32),
            None => r is Other,
        },
        !occurs(line@, "Opening done"@) && !(occurs(line@, "%"@) && !occurs(line@, "(Paused)"@))
            ==> r is Other,
{
    let cs = chars_of(line);
    let opening = chars_of("Opening done");
    if contains(cs.as_slice(), opening.as_slice()) {
        return match last_word_of(cs.as_slice()) {
            Some(w) => PlayerLine::Opened(string_of(w.as_slice())),
            None => PlayerLine::Other,
        };
    }
    let percent = chars_of("%");
    let paused = chars_of("(Paused)");
    if contains(cs.as_slice(), percent.as_slice()) && !contains(cs.as_slice(), paused.as_slice()) {
        return match get_percentage(line) {
            Some(v) => PlayerLine::Position(v),
            None => PlayerLine::Other,
        };
    }
    PlayerLine::Other
}

/// The AniList ids of the anime being played, by the name that their episode URLs carry.
pub struct NameIndex {
    ids: StringHashMap<Option<AnimeId>>,
}

impl View for NameIndex {
    type V = Map<Seq<char>, Option<AnimeId>>;

    closed spec fn view(&self) -> Map<Seq<char>, Option<AnimeId>> {
        self.ids@
    }
}

impl NameIndex {
    pub fn new() -> (r: Self)
        ensures
            r@ == Map::<Seq<char>, Option<AnimeId>>::empty(),
    {
        NameIndex { ids: StringHashMap::new() }
    }

    /// Records the id of the anime called `name`, replacing what was recorded for it.
    pub fn insert(&mut self, name: &str, id: Option<AnimeId>)
        ensures
            final(self)@ == old(self)@.insert(name@, id),
    {
        self.ids.insert(name.to_string(), id);
    }

    /// What is recorded for the anime called `name`.
    pub fn get(&self, name: &str) -> (r: Option<Option<AnimeId>>)
        ensures
            r == (if self@.dom().contains(name@) { Some(self@[name@]) } else { None::<Option<AnimeId>> }),
    {
        match self.ids.get(name) {
            Some(id) => Some(*id),
            None => None,
        }
    }
}

/// What reading a line changes: the names of the anime, and the progress of their episodes.
pub struct Playback {
    pub names: NameIndex,
    pub progress: Progress,
}

/// The queue after the player opened the episode at `url`: the episode is followed where its
/// number, its anime name and that anime's id are all known.
pub open spec fn after_open(
    q: Seq<EpisodeProgress>,
    names: Map<Seq<char>, Option<AnimeId>>,
    url: Seq<char>,
) -> Seq<EpisodeProgress> {
    match episode_number(url) {
        None => q,
        Some((n, _)) => match url_name(url) {
            None => q,
            Some(name) => after_named_open(q, names, name, EpisodeId(n as u32)),
        },
    }
}

/// The queue after the player opened episode `episode` of the anime called `name`.
pub open spec fn after_named_open(
    q: Seq<EpisodeProgress>,
    names: Map<Seq<char>, Option<AnimeId>>,
    name: Seq<char>,
    episode: EpisodeId,
) -> Seq<EpisodeProgress> {
    if names.dom().contains(name) {
        match names[name] {
            Some(id) => q.push(fresh_progress(id, episode)),
            None => q,
        }
    } else {
        q
    }
}

impl Playback {
    pub fn new(names: NameIndex) -> (r: Self)
        ensures
            r.names@ == names@,
            r.progress.queue@ == Seq::<EpisodeProgress>::empty(),
    {
        Playback { names, progress: Progress::new() }
    }

    /// Follows episode `episode` of the anime called `name`, where its id is known.
    pub fn open_named(&mut self, name: &str, episode: EpisodeId)
        ensures
            final(self).names@ == old(self).names@,
            final(self).progress.queue@ == after_named_open(old(self).progress.queue@, old(self).names@, name@, episode),
    {
        match self.names.get(name) {
            Some(Some(id)) => self.progress.track(id, episode),
            _ => {},
        }
    }

    /// Follows the episode that the player opened at `url`.
    pub fn open(&mut self, url: &str)
        ensures
            final(self).names@ == old(self).names@,
            final(self).progress.queue@ == after_open(old(self).progress.queue@, old(self).names@, url@),
    {
        let num = match get_episode_number(url) {
            Some((num, _)) => num,
            None => return,
        };
        let name = match get_name_from_url(url) {
            Some(name) => name,
            None => return,
        };
        self.open_named(name.as_str(), num);
    }

    /// Takes in what a line of player output tells, and gives the update then owed to AniList.
    pub fn handle(&mut self, line: PlayerLine) -> (r: Option<(AnimeId, EpisodeId)>)
        ensures
            final(self).names@ == old(self).names@,
            match line {
                PlayerLine::Opened(url) => {
                    &&& final(self).progress.queue@ == after_open(old(self).progress.queue@, old(self).names@, url@)
                    &&& r is None
                },
                PlayerLine::Position(p) => {
                    &&& final(self).progress.queue@ == after_update(old(self).progress.queue@, p)
                    &&& r == pending_of(final(self).progress.queue@)
                },
                PlayerLine::Other => {
                    &&& final(self).progress.queue@ == old(self).progress.queue@
                    &&& r is None
                },
            },
    {
        match line {
            PlayerLine::Opened(url) => {
                self.open(url.as_str());
                None
            },
            PlayerLine::Position(p) => {
                self.progress.update(p);
                self.progress.pending()
            },
            PlayerLine::Other => None,
        }
    }
}

/// The names of the anime to play, each with its id, and the positions of the anime whose
/// episodes are to be chosen: an anime whose URL carries no name is passed over.
pub open spec fn names_of(animes: Seq<Anime>) -> Map<Seq<char>, Option<AnimeId>>
    decreases animes.len(),
{
    if animes.len() == 0 {
        Map::empty()
    } else {
        let m = names_of(animes.drop_last());
        match url_name(animes.last()@.url) {
            Some(n) => m.insert(n, animes.last()@.id),
            None => m,
        }
    }
}

/// The positions of the anime whose URL carries a name.
pub open spec fn named_positions(animes: Seq<Anime>) -> Seq<usize>
    decreases animes.len(),
{
    if animes.len() == 0 {
        Seq::empty()
    } else {
        let p = named_positions(animes.drop_last());
        match url_name(animes.last()@.url) {
            Some(_) => p.push((animes.len() - 1) as usize),
            None => p,
        }
    }
}

/// Indexes the anime to play by the name that their URLs carry, and gives the positions of
/// those that carry one.
pub fn index_by_name(animes: &[Anime]) -> (r: (NameIndex, Vec<usize>))
    ensures
        r.0@ == names_of(animes@),
        r.1@ == named_positions(animes@),
{
    let mut names = NameIndex::new();
    let mut positions: Vec<usize> = Vec::new();
    let mut i: usize = 0;
    while i < animes.len()
        invariant
            i <= animes.len(),
            names@ == names_of(animes@.take(i as int)),
            positions@ == named_positions(animes@.take(i as int)),
        decreases animes.len() - i,
    {
        assert(animes@.take(i + 1).drop_last() == animes@.take(i as int));
        match get_name_from_url(animes[i].url()) {
            Some(name) => {
                names.insert(name.as_str(), animes[i].id());
                positions.push(i);
            },
            None => {},
        }
        i += 1;
    }
    assert(animes@.take(animes.len() as int) == animes@);
    (names, positions)
}

/// The media players that can stream.
#[derive(Debug, Clone, Copy, PartialEq, Eq)]
pub enum Player {
    Mpv,
    Vlc,
}

/// The option that hands the referrer to the player.
pub open spec fn referrer_option(player: Player, referrer: Seq<char>) -> Seq<char> {
    match player {
        Player::Mpv => "--referrer="@ + referrer,
        Player::Vlc => "--http-referrer="@ + referrer,
    }
}

/// The option that hands the referrer to the player.
pub fn referrer_flag(player: Player, referrer: &str) -> (r: String)
    ensures
        r@ == referrer_option(player, referrer@),
{
    let mut out = match player {
        Player::Mpv => chars_of("--referrer="),
        Player::Vlc => chars_of("--http-referrer="),
    };
    let ghost base = out@;
    let rs = chars_of(referrer);
    let mut i: usize = 0;
    while i < rs.len()
        invariant
            i <= rs.len(),
            out@ == base + rs@.take(i as int),
        decreases rs.len() - i,
    {
        out.push(rs[i]);
        i += 1;
        assert(out@ =~= base + rs@.take(i as int));
    }
    assert(rs@.take(i as int) =~= rs@);
    string_of(out.as_slice())
}

/// The player to use: mpv where it is installed, else vlc, else none.
pub fn pick_player(has_mpv: bool, has_vlc: bool) -> (r: Option<Player>)
    ensures
        r == if has_mpv { Some(Player::Mpv) } else if has_vlc { Some(Player::Vlc) } else { None },
{
    if has_mpv {
        Some(Player::Mpv)
    } else if has_vlc {
        Some(Player::Vlc)
    } else {
        None
    }
}

} // verus!
