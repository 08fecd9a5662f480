use vstd::prelude::*;

use crate::anilist::WatchingAnime;
use crate::anime::{range_fits, range_urls, slice_urls, strings, Anime, AnimeView, EpisodeId};
use crate::error::{RequestError, TuiError};
use crate::order::{sorted_set_of, sorted_unique_of};
use crate::text::{decimal, decimal_string, string_of};
use crate::ui::input::{
    all_between, as_u64s, episode_values, get_selection, selection_fits, selection_overflows,
    selection_pieces, selection_values, Command,
};

verus! {

/// What a selection prompt comes to: the user leaves, or picks something.
#[derive(Debug, Clone, PartialEq, Eq)]
pub enum Outcome<T> {
    Exit,
    Chosen(T),
}

/// The mark of an episode: a check where it was watched, a cross otherwise.
pub open spec fn icon_of(last: Option<EpisodeId>, index: int) -> Seq<char> {
    if last matches Some(l) && l.0 > index {
        seq!['\u{2714}']
    } else {
        seq!['\u{2717}']
    }
}

/// Returns the icon for an episode based on whether it has been watched.
pub fn icon(last: Option<EpisodeId>, index: u32) -> (r: String)
    ensures
        r@ == icon_of(last, index as int),
{
    let mut v: Vec<char> = Vec::new();
    match last {
        Some(l) if l.0 > index => v.push('\u{2714}'),
        _ => v.push('\u{2717}'),
    }
    assert(v@ =~= icon_of(last, index as int));
    string_of(v.as_slice())
}

/// The rows of the episode table: each episode number of the range with its mark, or a
/// single first episode where the anime has no range.
pub open spec fn episode_rows_of(a: AnimeView) -> Seq<(Seq<char>, Seq<char>)> {
    match a.range {
        Some((s, e)) => Seq::new((e + 1) as nat, |k: int| (decimal((s + k) as nat), icon_of(a.last_watched, k))),
        None => seq![(seq!['1'], icon_of(a.last_watched, 0))],
    }
}

/// The row, counted from one, of the first episode not watched yet.
pub open spec fn next_to_watch_of(a: AnimeView) -> Option<usize> {
    match a.range {
        Some((_, e)) => match a.last_watched {
            None => Some(1usize),
            Some(l) => if l.0 <= e { Some((l.0 + 1) as usize) } else { None },
        },
        None => None,
    }
}

/// The views of table rows.
pub open spec fn row_views(v: Seq<(String, String)>) -> Seq<(Seq<char>, Seq<char>)> {
    v.map_values(|r: (String, String)| (r.0@, r.1@))
}

/// The rows of the episode table of an anime, with the row of the next episode to watch.
pub fn episode_rows(anime: &Anime) -> (r: (Vec<(String, String)>, Option<usize>))
    requires
        anime@.range matches Some((s, e)) ==> e < u32::MAX && s + e <= u32::MAX,
    ensures
        row_views(r.0@) == episode_rows_of(anime@),
        r.1 == next_to_watch_of(anime@),
{
    let last_watched = anime.last_watched();
    let mut next_to_watch: Option<usize> = None;
    let mut rows: Vec<(String, String)> = Vec::new();
    match anime.range() {
        Some(range) => {
            let start = range.start.0;
            let end = range.end.0;
            let mut i: u32 = 0;
            while i <= end
                invariant
                    anime@.range == Some((start, end)),
                    end < u32::MAX,
                    start + end <= u32::MAX,
                    i <= end + 1,
                    last_watched == anime@.last_watched,
                    rows@.len() == i,
                    forall|k: int| 0 <= k < i ==> #[trigger] row_views(rows@)[k] == episode_rows_of(anime@)[k],
                    next_to_watch == (match last_watched {
                        None => if i > 0 { Some(1usize) } else { None },
                        Some(l) => if l.0 < i { Some((l.0 + 1) as usize) } else { None },
                    }),
                decreases end + 1 - i,
            {
                let watched = match last_watched {
                    Some(l) => l.0 > i,
                    None => false,
                };
                if next_to_watch.is_none() && !watched {
                    next_to_watch = Some(rows.len() + 1);
                }
                let ghost before = rows@;
                rows.push((decimal_string((start + i) as u64), icon(last_watched, i)));
                assert forall|k: int| 0 <= k < i + 1 implies #[trigger] row_views(rows@)[k] == episode_rows_of(anime@)[k] by {
                    if k < i {
                        assert(row_views(rows@)[k] == row_views(before)[k]);
                    }
                }
                i += 1;
            }
            assert(row_views(rows@) =~= episode_rows_of(anime@));
        },
        None => {
            let mut one: Vec<char> = Vec::new();
            one.push('1');
            rows.push((string_of(one.as_slice()), icon(last_watched, 0)));
            assert(row_views(rows@) =~= episode_rows_of(anime@));
        },
    }
    (rows, next_to_watch)
}


/// The first episode of an anime: the number in its URL, or `0`.
pub open spec fn first_episode_of(a: AnimeView) -> int {
    match crate::anime::episode_number(a.url) {
        Some((v, _)) => v,
        None => 0,
    }
}

/// The last episode of an anime: the end of its range, or `0`.
pub open spec fn last_episode_of(a: AnimeView) -> int {
    match a.range {
        Some((_, e)) => e as int,
        None => 0,
    }
}

/// Episode ids of the given numbers.
pub open spec fn ids_of(s: Seq<u64>) -> Seq<EpisodeId> {
    s.map_values(|x: u64| EpisodeId(x as u32))
}

/// The episode from which "unwatched" starts: the next one to watch, or the first one.
pub open spec fn unwatched_start(a: AnimeView, next_to_watch: Option<usize>) -> usize {
    match next_to_watch {
        Some(n) => n,
        None => first_episode_of(a) as usize,
    }
}

/// Whether a command can be carried out on an anime without overflow.
pub open spec fn episodes_command_fits(a: AnimeView, cmd: Command, next_to_watch: Option<usize>) -> bool {
    match cmd {
        Command::Default(input) => {
            let start = first_episode_of(a);
            let len = last_episode_of(a);
            len > 0 ==> start + len <= usize::MAX && !selection_overflows(selection_pieces(input@), (start + len - 1) as usize)
        },
        Command::Unwatched => a.range matches Some((_, e)) ==> range_fits(a.url, (unwatched_start(a, next_to_watch) as u32) as int, e as int),
        Command::Quit => true,
    }
}

/// Whether a command can be carried out on an anime without overflow: what `choose_episodes`
/// asks of its input.
pub fn command_fits(anime: &Anime, cmd: &Command, next_to_watch: Option<usize>) -> (r: bool)
    ensures
        r == episodes_command_fits(anime@, *cmd, next_to_watch),
{
    match cmd {
        Command::Default(input) => selection_fits(input.as_str(), anime.next_episode().0 as usize, anime.last_episode().0 as usize),
        Command::Unwatched => match anime.range() {
            Some(r) => {
                let start = match next_to_watch {
                    Some(n) => n,
                    None => anime.next_episode().0 as usize,
                };
                anime.fits_range(crate::range::Range::new(EpisodeId(start as u32), r.end))
            },
            None => true,
        },
        Command::Quit => true,
    }
}

/// The episode URLs that a command picks: a selection between the first and the last episode,
/// or the episodes from the next one to watch, or nothing where the user quits.
pub fn choose_episodes(anime: &Anime, cmd: &Command, next_to_watch: Option<usize>) -> (r: Result<Outcome<Vec<String>>, TuiError>)
    requires
        episodes_command_fits(anime@, *cmd, next_to_watch),
    ensures
        *cmd == Command::Quit ==> r == Ok::<Outcome<Vec<String>>, TuiError>(Outcome::Exit),
        *cmd == Command::Unwatched ==> (r matches Ok(Outcome::Chosen(urls)) && strings(urls@) == match anime@.range {
            Some((_, e)) => range_urls(anime@.url, (unwatched_start(anime@, next_to_watch) as u32) as int, e as int),
            None => seq![anime@.url],
        }),
        cmd matches Command::Default(input) ==> {
            let start = first_episode_of(anime@);
            let len = last_episode_of(anime@);
            if len == 0 {
                r == Err::<Outcome<Vec<String>>, TuiError>(TuiError::InvalidInput)
            } else {
                match selection_values(selection_pieces(input@), (start + len - 1) as usize) {
                    None => r == Err::<Outcome<Vec<String>>, TuiError>(TuiError::InvalidInput),
                    Some(vals) => if all_between(vals, start, start + len - 1) {
                        r matches Ok(Outcome::Chosen(urls))
                            && strings(urls@) == slice_urls(anime@.url, ids_of(sorted_set_of(as_u64s(vals))))
                    } else {
                        r == Err::<Outcome<Vec<String>>, TuiError>(TuiError::InvalidInput)
                    },
                }
            }
        },
{
    match cmd {
        Command::Default(input) => {
            let index_start = anime.next_episode().0 as usize;
            let content_len = anime.last_episode().0 as usize;
            let selection = match get_selection(input.as_str(), index_start, content_len) {
                Ok(s) => s,
                Err(e) => return Err(e),
            };
            proof {
                if content_len > 0 {
                    let vals = selection_values(selection_pieces(input@), (index_start + content_len - 1) as usize)->0;
                    assert(selection@ =~= ids_of(sorted_set_of(as_u64s(vals)))) by {
                        assert(episode_values(selection@).len() == selection@.len());
                        assert forall|k: int| 0 <= k < selection@.len() implies selection@[k] == ids_of(sorted_set_of(as_u64s(vals)))[k] by {
                            assert(episode_values(selection@)[k] == selection@[k].0 as u64);
                        }
                    }
                }
            }
            Ok(Outcome::Chosen(anime.select_from_slice(selection.as_slice())))
        },
        Command::Unwatched => {
            let index = match next_to_watch {
                Some(n) => n,
                None => anime.next_episode().0 as usize,
            };
            Ok(Outcome::Chosen(anime.select_from_index(EpisodeId(index as u32))))
        },
        Command::Quit => Ok(Outcome::Exit),
    }
}


/// Positions counted from zero of the items that a selection counted from one names.
pub open spec fn positions_of(s: Seq<u64>) -> Seq<usize> {
    s.map_values(|x: u64| (x - 1) as usize)
}

/// Turns the numbers of a selection counted from one into positions counted from zero.
fn to_positions(sel: &Vec<EpisodeId>, len: usize) -> (r: Vec<usize>)
    requires
        forall|k: int| 0 <= k < sel@.len() ==> 1 <= #[trigger] sel@[k].0 <= len,
    ensures
        r@ == positions_of(episode_values(sel@)),
        forall|k: int| 0 <= k < r@.len() ==> #[trigger] r@[k] < len,
{
    let mut out: Vec<usize> = Vec::new();
    let mut i: usize = 0;
    while i < sel.len()
        invariant
            i <= sel.len(),
            forall|k: int| 0 <= k < sel@.len() ==> 1 <= #[trigger] sel@[k].0 <= len,
            out@ == positions_of(episode_values(sel@)).take(i as int),
            forall|k: int| 0 <= k < out@.len() ==> #[trigger] out@[k] < len,
        decreases sel.len() - i,
    {
        let x = sel[i].0 as usize;
        out.push(x - 1);
        i += 1;
        assert(out@ =~= positions_of(episode_values(sel@)).take(i as int)) by {
            assert(episode_values(sel@).len() == sel@.len());
        }
    }
    assert(positions_of(episode_values(sel@)).take(i as int) =~= positions_of(episode_values(sel@))) by {
        assert(episode_values(sel@).len() == sel@.len());
    }
    out
}

/// The episodes left of an anime of the watching list, as `WatchingAnime::watched` gives them.
pub open spec fn left_of(w: WatchingAnime) -> u32 {
    if w.spec_watched() < 0 { 0 } else { w.spec_watched() as u32 }
}

/// The rows of the table of the watching list: position from one, title, and the episodes
/// left, or a dot where none is left.
pub open spec fn watching_rows_of(series: Seq<WatchingAnime>) -> Seq<(Seq<char>, Seq<char>, Seq<char>)> {
    Seq::new(series.len(), |k: int| (
        decimal((k + 1) as nat),
        series[k].spec_title(),
        if left_of(series[k]) == 0 { seq!['\u{2022}'] } else { decimal(left_of(series[k]) as nat) },
    ))
}

/// The views of three-column table rows.
pub open spec fn row3_views(v: Seq<(String, String, String)>) -> Seq<(Seq<char>, Seq<char>, Seq<char>)> {
    v.map_values(|r: (String, String, String)| (r.0@, r.1@, r.2@))
}

/// The rows of the table of the watching list.
pub fn watching_rows(series: &Vec<WatchingAnime>) -> (r: Vec<(String, String, String)>)
    requires
        series@.len() < usize::MAX,
    ensures
        row3_views(r@) == watching_rows_of(series@),
{
    let mut rows: Vec<(String, String, String)> = Vec::new();
    let mut i: usize = 0;
    while i < series.len()
        invariant
            i <= series.len(),
            series@.len() < usize::MAX,
            row3_views(rows@) == watching_rows_of(series@).take(i as int),
        decreases series.len() - i,
    {
        let w = &series[i];
        let left = w.watched();
        let mark = if left == 0 {
            let mut v: Vec<char> = Vec::new();
            v.push('\u{2022}');
            assert(v@ =~= seq!['\u{2022}']);
            string_of(v.as_slice())
        } else {
            decimal_string(left as u64)
        };
        let title = string_of(crate::text::chars_of(w.title()).as_slice());
        let ghost before = rows@;
        rows.push((decimal_string((i + 1) as u64), title, mark));
        i += 1;
        assert(row3_views(rows@) =~= watching_rows_of(series@).take(i as int)) by {
            assert(row3_views(before).len() == before.len());
        }
    }
    assert(watching_rows_of(series@).take(i as int) =~= watching_rows_of(series@));
    rows
}

/// The positions of the anime with episodes left to watch.
pub open spec fn unwatched_positions(series: Seq<WatchingAnime>, n: int) -> Seq<usize>
    decreases n,
{
    if n <= 0 {
        Seq::empty()
    } else {
        let p = unwatched_positions(series, n - 1);
        if series[n - 1].spec_watched() > 0 && (series[n - 1].spec_watched() as u32) > 0 {
            p.push((n - 1) as usize)
        } else {
            p
        }
    }
}

/// Whether the selection command can be read without overflow on a list of `len` items.
pub open spec fn list_command_fits(len: usize, cmd: Command) -> bool {
    cmd matches Command::Default(input) ==> (len > 0 ==> 1 + len <= usize::MAX
        && !selection_overflows(selection_pieces(input@), len))
}

/// The episodes left to see of an anime of the watching list, as `watched` gives them: none
/// where the count is negative.
pub open spec fn left_to_see(w: WatchingAnime) -> int {
    if w.spec_watched() < 0 { 0 } else { (w.spec_watched() as u32) as int }
}

proof fn lemma_unwatched_prefix(series: Seq<WatchingAnime>, n: int)
    requires
        0 <= n <= series.len(),
        series.len() <= usize::MAX,
    ensures
        forall|k: int| 0 <= k < unwatched_positions(series, n).len() ==>
            #[trigger] unwatched_positions(series, n)[k] < n && left_to_see(series[unwatched_positions(series, n)[k] as int]) > 0,
        forall|j: int| 0 <= j < n && left_to_see(series[j]) > 0 ==> #[trigger] unwatched_positions(series, n).contains(j as usize),
        forall|a: int, b: int| 0 <= a < b < unwatched_positions(series, n).len() ==>
            #[trigger] unwatched_positions(series, n)[a] < #[trigger] unwatched_positions(series, n)[b],
    decreases n,
{
    if n > 0 {
        lemma_unwatched_prefix(series, n - 1);
        let p = unwatched_positions(series, n - 1);
        let q = unwatched_positions(series, n);
        assert forall|k: int| 0 <= k < q.len() implies #[trigger] q[k] < n && left_to_see(series[q[k] as int]) > 0 by {
            if k < p.len() {
                assert(q[k] == p[k]);
            }
        }
        assert forall|j: int| 0 <= j < n && left_to_see(series[j]) > 0 implies #[trigger] q.contains(j as usize) by {
            if j < n - 1 {
                assert(p.contains(j as usize));
                let k = choose|k: int| 0 <= k < p.len() && p[k] == j as usize;
                assert(q[k] == p[k]);
            } else {
                assert(q[q.len() - 1] == j as usize);
            }
        }
        assert forall|a: int, b: int| 0 <= a < b < q.len() implies #[trigger] q[a] < #[trigger] q[b] by {
            if b < p.len() {
                assert(q[a] == p[a] && q[b] == p[b]);
            } else {
                assert(q[a] == p[a]);
            }
        }
    }
}

/// With `u`, the anime picked from the watching list are exactly those with episodes left to
/// see, each once and in the order of the list.
pub proof fn law_unwatched_picks_those_left(series: Seq<WatchingAnime>)
    requires
        series.len() <= usize::MAX,
    ensures
        forall|k: int| 0 <= k < unwatched_positions(series, series.len() as int).len() ==>
            #[trigger] unwatched_positions(series, series.len() as int)[k] < series.len()
            && left_to_see(series[unwatched_positions(series, series.len() as int)[k] as int]) > 0,
        forall|j: int| 0 <= j < series.len() && left_to_see(series[j]) > 0
            ==> #[trigger] unwatched_positions(series, series.len() as int).contains(j as usize),
        forall|a: int, b: int| 0 <= a < b < unwatched_positions(series, series.len() as int).len() ==>
            #[trigger] unwatched_positions(series, series.len() as int)[a] < #[trigger] unwatched_positions(series, series.len() as int)[b],
{
    lemma_unwatched_prefix(series, series.len() as int);
}

/// The row of the next episode to watch is the first row whose mark is a cross: every row
/// before it has a check; with no such row there is none.
pub proof fn law_next_to_watch_is_first_unseen(a: AnimeView)
    requires
        a.range matches Some((_, e)) && e < u32::MAX,
    ensures
        match next_to_watch_of(a) {
            Some(n) => 1 <= n <= episode_rows_of(a).len()
                && episode_rows_of(a)[n - 1].1 == seq!['\u{2717}']
                && forall|k: int| 0 <= k < n - 1 ==> #[trigger] episode_rows_of(a)[k].1 == seq!['\u{2714}'],
            None => forall|k: int| 0 <= k < episode_rows_of(a).len() ==> #[trigger] episode_rows_of(a)[k].1 == seq!['\u{2714}'],
        },
        a.last_watched matches Some(l) ==> (l.0 <= (a.range->0).1 ==> next_to_watch_of(a) == Some((l.0 + 1) as usize)),
{
    let rows = episode_rows_of(a);
    let e = (a.range->0).1;
    assert(rows.len() == e + 1);
    assert forall|k: int| 0 <= k < rows.len() implies #[trigger] rows[k].1 == icon_of(a.last_watched, k) by {}
    match a.last_watched {
        None => {
            assert(rows[0].1 == icon_of(a.last_watched, 0));
        },
        Some(l) => {
            if l.0 <= e {
                let n = (l.0 + 1) as usize;
                assert(n - 1 == l.0);
                assert(rows[n - 1].1 == icon_of(a.last_watched, n - 1));
                assert forall|k: int| 0 <= k < n - 1 implies #[trigger] rows[k].1 == seq!['\u{2714}'] by {
                    assert(rows[k].1 == icon_of(a.last_watched, k));
                }
            } else {
                assert forall|k: int| 0 <= k < rows.len() implies #[trigger] rows[k].1 == seq!['\u{2714}'] by {
                    assert(rows[k].1 == icon_of(a.last_watched, k));
                }
            }
        },
    }
}

/// Whether a selection command can be read on a list of `len` items without overflow: what
/// `select_from_watching` and `select_series` ask of their input.
pub fn list_fits(len: usize, cmd: &Command) -> (r: bool)
    ensures
        r == list_command_fits(len, *cmd),
{
    match cmd {
        Command::Default(input) => selection_fits(input.as_str(), 1, len),
        _ => true,
    }
}

/// The positions that a selection names in a list of `len` items, counted from zero; `None`
/// where the selection is not valid.
pub open spec fn list_selection(input: Seq<char>, len: usize) -> Option<Seq<usize>> {
    if len == 0 {
        None
    } else {
        match selection_values(selection_pieces(input), len) {
            None => None,
            Some(vals) => if all_between(vals, 1, len as int) {
                Some(positions_of(sorted_set_of(as_u64s(vals))))
            } else {
                None
            },
        }
    }
}

fn selected_positions(input: &str, len: usize) -> (r: Result<Vec<usize>, TuiError>)
    requires
        len > 0 ==> 1 + len <= usize::MAX && !selection_overflows(selection_pieces(input@), len),
    ensures
        match list_selection(input@, len) {
            Some(p) => r matches Ok(v) && v@ == p && forall|k: int| 0 <= k < v@.len() ==> #[trigger] v@[k] < len,
            None => r == Err::<Vec<usize>, TuiError>(TuiError::InvalidInput),
        },
{
    let sel = match get_selection(input, 1, len) {
        Ok(s) => s,
        Err(e) => return Err(e),
    };
    proof {
        let vals = selection_values(selection_pieces(input@), len)->0;
        assert forall|k: int| 0 <= k < sel@.len() implies 1 <= #[trigger] sel@[k].0 <= len by {
            assert(episode_values(sel@).len() == sel@.len());
            assert(sorted_unique_of(episode_values(sel@), as_u64s(vals)));
            assert(episode_values(sel@)[k] == sel@[k].0 as u64);
            assert(episode_values(sel@).to_set().contains(sel@[k].0 as u64));
            assert(as_u64s(vals).to_set().contains(sel@[k].0 as u64));
            let j = choose|j: int| 0 <= j < as_u64s(vals).len() && as_u64s(vals)[j] == sel@[k].0 as u64;
            assert(as_u64s(vals)[j] == vals[j] as u64);
            assert(1 <= vals[j] <= len);
        }
    }
    Ok(to_positions(&sel, len))
}

/// The anime of the watching list that a command picks, by position: a selection, or those
/// with episodes left; it is an error to pick none.
pub fn select_from_watching(series: &Vec<WatchingAnime>, cmd: &Command) -> (r: Result<Outcome<Vec<usize>>, TuiError>)
    requires
        list_command_fits(series@.len() as usize, *cmd),
    ensures
        *cmd == Command::Quit ==> r == Ok::<Outcome<Vec<usize>>, TuiError>(Outcome::Exit),
        *cmd == Command::Unwatched ==> if unwatched_positions(series@, series@.len() as int).len() > 0 {
            r matches Ok(Outcome::Chosen(v)) && v@ == unwatched_positions(series@, series@.len() as int)
        } else {
            r == Err::<Outcome<Vec<usize>>, TuiError>(TuiError::InvalidInput)
        },
        cmd matches Command::Default(input) ==> match list_selection(input@, series@.len() as usize) {
            Some(p) => if p.len() > 0 {
                r matches Ok(Outcome::Chosen(v)) && v@ == p
            } else {
                r == Err::<Outcome<Vec<usize>>, TuiError>(TuiError::InvalidInput)
            },
            None => r == Err::<Outcome<Vec<usize>>, TuiError>(TuiError::InvalidInput),
        },
{
    let chosen = match cmd {
        Command::Default(input) => match selected_positions(input.as_str(), series.len()) {
            Ok(v) => v,
            Err(e) => return Err(e),
        },
        Command::Unwatched => {
            let mut v: Vec<usize> = Vec::new();
            let mut i: usize = 0;
            while i < series.len()
                invariant
                    i <= series.len(),
                    v@ == unwatched_positions(series@, i as int),
                decreases series.len() - i,
            {
                if series[i].watched() > 0 {
                    v.push(i);
                }
                i += 1;
            }
            v
        },
        Command::Quit => return Ok(Outcome::Exit),
    };
    if chosen.len() == 0 {
        return Err(TuiError::InvalidInput);
    }
    Ok(Outcome::Chosen(chosen))
}

/// The rows of the table of series: position from one and name.
pub open spec fn series_rows_of(series: Seq<Anime>) -> Seq<(Seq<char>, Seq<char>)> {
    Seq::new(series.len(), |k: int| (decimal((k + 1) as nat), series[k]@.name))
}

/// The rows of the table of series.
pub fn series_rows(series: &Vec<Anime>) -> (r: Vec<(String, String)>)
    requires
        series@.len() < usize::MAX,
    ensures
        row_views(r@) == series_rows_of(series@),
{
    let mut rows: Vec<(String, String)> = Vec::new();
    let mut i: usize = 0;
    while i < series.len()
        invariant
            i <= series.len(),
            series@.len() < usize::MAX,
            row_views(rows@) == series_rows_of(series@).take(i as int),
        decreases series.len() - i,
    {
        let name = string_of(crate::text::chars_of(series[i].name()).as_slice());
        let ghost before = rows@;
        rows.push((decimal_string((i + 1) as u64), name));
        i += 1;
        assert(row_views(rows@) =~= series_rows_of(series@).take(i as int)) by {
            assert(row_views(before).len() == before.len());
        }
    }
    assert(series_rows_of(series@).take(i as int) =~= series_rows_of(series@));
    rows
}

/// Every position of a list of `len` items, in order.
pub open spec fn all_positions(len: nat) -> Seq<usize> {
    Seq::new(len, |k: int| k as usize)
}

/// The series that a command picks, by position: an empty answer keeps them all, a selection
/// keeps those it names, and anything else leaves.
pub fn select_series(series: &Vec<Anime>, cmd: &Command) -> (r: Result<Outcome<Vec<usize>>, TuiError>)
    requires
        list_command_fits(series@.len() as usize, *cmd),
    ensures
        !(cmd is Default) ==> r == Ok::<Outcome<Vec<usize>>, TuiError>(Outcome::Exit),
        cmd matches Command::Default(input) ==> if input@.len() == 0 {
            r matches Ok(Outcome::Chosen(v)) && v@ == all_positions(series@.len())
        } else {
            match list_selection(input@, series@.len() as usize) {
                Some(p) => r matches Ok(Outcome::Chosen(v)) && v@ == p,
                None => r == Err::<Outcome<Vec<usize>>, TuiError>(TuiError::InvalidInput),
            }
        },
{
    match cmd {
        Command::Default(input) => {
            if input.as_str().is_empty() {
                let mut all: Vec<usize> = Vec::new();
                let mut i: usize = 0;
                while i < series.len()
                    invariant
                        i <= series.len(),
                        all@ == all_positions(i as nat),
                    decreases series.len() - i,
                {
                    all.push(i);
                    i += 1;
                    assert(all@ =~= all_positions(i as nat));
                }
                Ok(Outcome::Chosen(all))
            } else {
                match selected_positions(input.as_str(), series.len()) {
                    Ok(v) => Ok(Outcome::Chosen(v)),
                    Err(e) => Err(e),
                }
            }
        },
        _ => Ok(Outcome::Exit),
    }
}

/// The token that the user pasted, or leave where the answer is a command.
pub fn token_from(cmd: Command) -> (r: Outcome<String>)
    ensures
        match cmd {
            Command::Default(line) => r matches Outcome::Chosen(t) && t@ == line@,
            _ => r is Exit,
        },
{
    match cmd {
        Command::Default(line) => Outcome::Chosen(line),
        _ => Outcome::Exit,
    }
}

/// The session id that the user typed: an empty answer is an error, `q` leaves.
pub fn session_id_from(cmd: Command) -> (r: Result<Outcome<String>, RequestError>)
    ensures
        match cmd {
            Command::Default(line) => if line@.len() > 0 {
                r matches Ok(Outcome::Chosen(t)) && t@ == line@
            } else {
                r == Err::<Outcome<String>, RequestError>(RequestError::SessionId)
            },
            Command::Quit => r == Ok::<Outcome<String>, RequestError>(Outcome::Exit),
            Command::Unwatched => r == Err::<Outcome<String>, RequestError>(RequestError::SessionId),
        },
{
    match cmd {
        Command::Default(line) => if line.as_str().is_empty() {
            Err(RequestError::SessionId)
        } else {
            Ok(Outcome::Chosen(line))
        },
        Command::Quit => Ok(Outcome::Exit),
        Command::Unwatched => Err(RequestError::SessionId),
    }
}

} // verus!
