use vstd::prelude::*;

use crate::anilist::AnilistId;
use crate::anime::{episode_number, get_episode_number, EpisodeId};
use crate::cli::search::Site;
use crate::error::UrlError;
use crate::range::Range;
use crate::text::{chars_of, slice_copy, string_of, zero_padded, zero_padded_chars};
use crate::url::{last_path_segment, url_last_segment};
use crate::utils::{join_path, push_path};

verus! {

/// The options of the download command.
#[derive(Debug, Default)]
pub struct Args {
    /// Source urls or scraper's queries.
    pub entries: Vec<String>,
    /// Maximum number of simultaneous downloads allowed.
    pub max_concurrent: usize,
    /// Root path where files are stored.
    pub destination: String,
    /// Interactive mode.
    pub interactive: bool,
    /// Episodes to download.
    pub range: Option<Range<EpisodeId>>,
    /// AniList client id.
    pub anilist_id: Option<AnilistId>,
    /// Whether to go through a proxy.
    pub proxy: bool,
    /// Remote archive to search.
    pub site: Option<Site>,
    /// Retrieve anime from the AniList watching list.
    pub watching: bool,
}

pub open spec fn is_ascii_upper(c: char) -> bool {
    'A' <= c && c <= 'Z'
}

pub open spec fn is_ascii_lower(c: char) -> bool {
    'a' <= c && c <= 'z'
}

pub open spec fn to_ascii_lower(c: char) -> char {
    if is_ascii_upper(c) { ((c as int) + 32) as char } else { c }
}

/// snake_case of a camelCase or PascalCase string: each ASCII capital that follows a
/// lowercase ASCII letter or a digit gets an underscore before it, and every ASCII capital
/// is lowered.
pub open spec fn snake_of(s: Seq<char>) -> Seq<char>
    decreases s.len(),
{
    if s.len() == 0 {
        Seq::empty()
    } else {
        let c = s.last();
        let gap = s.len() >= 2 && is_ascii_upper(c) && (is_ascii_lower(s[s.len() - 2]) || crate::text::is_digit(s[s.len() - 2]));
        snake_of(s.drop_last()) + (if gap { seq!['_'] } else { Seq::empty() }) + seq![to_ascii_lower(c)]
    }
}

/// No ASCII capital is left.
pub open spec fn no_ascii_upper(s: Seq<char>) -> bool {
    forall|i: int| 0 <= i < s.len() ==> !is_ascii_upper(#[trigger] s[i])
}

proof fn lemma_snake_lower(s: Seq<char>)
    ensures
        no_ascii_upper(snake_of(s)),
    decreases s.len(),
{
    if s.len() > 0 {
        lemma_snake_lower(s.drop_last());
        let c = s.last();
        assert(!is_ascii_upper(to_ascii_lower(c))) by {
            if is_ascii_upper(c) {
                assert((((c as int) + 32) as char) as int == (c as int) + 32);
            }
        }
    }
}

proof fn lemma_snake_of_lower(s: Seq<char>)
    requires
        no_ascii_upper(s),
    ensures
        snake_of(s) == s,
    decreases s.len(),
{
    if s.len() > 0 {
        assert(no_ascii_upper(s.drop_last()));
        lemma_snake_of_lower(s.drop_last());
        assert(!is_ascii_upper(s.last()));
        assert(s.drop_last() + seq![s.last()] =~= s);
    }
}

/// A name in snake case has no capitals left, so turning it into snake case again changes
/// nothing.
pub proof fn law_snake_case_idempotent(s: Seq<char>)
    ensures
        no_ascii_upper(snake_of(s)),
        snake_of(snake_of(s)) == snake_of(s),
{
    lemma_snake_lower(s);
    lemma_snake_of_lower(snake_of(s));
}

/// The characters of `s` other than underscores, in order.
pub open spec fn drop_underscores(s: Seq<char>) -> Seq<char>
    decreases s.len(),
{
    if s.len() == 0 {
        Seq::empty()
    } else if s.last() == '_' {
        drop_underscores(s.drop_last())
    } else {
        drop_underscores(s.drop_last()).push(s.last())
    }
}

/// Every ASCII capital of `s` lowered.
pub open spec fn lower_ascii(s: Seq<char>) -> Seq<char> {
    s.map_values(|c: char| to_ascii_lower(c))
}

proof fn lemma_drop_underscores_concat(a: Seq<char>, b: Seq<char>)
    ensures
        drop_underscores(a + b) == drop_underscores(a) + drop_underscores(b),
    decreases b.len(),
{
    if b.len() == 0 {
        assert(a + b =~= a);
        assert(drop_underscores(a) + drop_underscores(b) =~= drop_underscores(a));
    } else {
        lemma_drop_underscores_concat(a, b.drop_last());
        assert((a + b).drop_last() =~= a + b.drop_last());
        assert((a + b).last() == b.last());
        if b.last() != '_' {
            assert(drop_underscores(a) + drop_underscores(b.drop_last()).push(b.last())
                =~= (drop_underscores(a) + drop_underscores(b.drop_last())).push(b.last()));
        }
    }
}

/// Snake case only adds underscores and lowers capitals: without its underscores, the name in
/// snake case is the name without its underscores, lowered.
pub proof fn law_snake_case_adds_only_underscores(s: Seq<char>)
    ensures
        drop_underscores(snake_of(s)) == lower_ascii(drop_underscores(s)),
    decreases s.len(),
{
    if s.len() > 0 {
        law_snake_case_adds_only_underscores(s.drop_last());
        let c = s.last();
        let gap = s.len() >= 2 && is_ascii_upper(c) && (is_ascii_lower(s[s.len() - 2]) || crate::text::is_digit(s[s.len() - 2]));
        let g: Seq<char> = if gap { seq!['_'] } else { Seq::empty() };
        let front = snake_of(s.drop_last());
        lemma_drop_underscores_concat(front + g, seq![to_ascii_lower(c)]);
        lemma_drop_underscores_concat(front, g);
        assert(drop_underscores(Seq::<char>::empty()) == Seq::<char>::empty());
        assert(drop_underscores(g) =~= Seq::<char>::empty()) by {
            if gap {
                assert(g == seq!['_']);
                assert(seq!['_'].drop_last() =~= Seq::<char>::empty());
                assert(seq!['_'].last() == '_');
            }
        }
        assert(seq![to_ascii_lower(c)].drop_last() =~= Seq::<char>::empty());
        assert(seq![to_ascii_lower(c)].last() == to_ascii_lower(c));
        assert(to_ascii_lower(c) == '_' <==> c == '_') by {
            if is_ascii_upper(c) {
                assert((((c as int) + 32) as char) as int == (c as int) + 32);
            }
        }
        let rest = drop_underscores(s.drop_last());
        if c == '_' {
            assert(drop_underscores(front) + drop_underscores(g) =~= drop_underscores(front));
            assert(drop_underscores(seq![to_ascii_lower(c)]) =~= Seq::<char>::empty());
            assert(drop_underscores(front) + Seq::<char>::empty() =~= drop_underscores(front));
        } else {
            assert(drop_underscores(seq![to_ascii_lower(c)]) =~= seq![to_ascii_lower(c)]);
            assert(lower_ascii(rest.push(c)) =~= lower_ascii(rest).push(to_ascii_lower(c)));
            assert(drop_underscores(front) + drop_underscores(g) =~= drop_underscores(front));
            assert(drop_underscores(front) + seq![to_ascii_lower(c)] =~= drop_underscores(front).push(to_ascii_lower(c)));
        }
    }
}

/// Convert a camelCase/PascalCase string into snake_case.
pub fn camel_to_snake(s: &str) -> (r: String)
    ensures
        r@ == snake_of(s@),
{
    let cs = chars_of(s);
    let mut out: Vec<char> = Vec::new();
    let mut i: usize = 0;
    while i < cs.len()
        invariant
            i <= cs.len(),
            cs@ == s@,
            out@ == snake_of(cs@.take(i as int)),
        decreases cs.len() - i,
    {
        let c = cs[i];
        assert(cs@.take(i + 1).drop_last() == cs@.take(i as int));
        if i > 0 {
            let p = cs[i - 1];
            assert(cs@.take(i + 1)[i - 1] == p);
            if 'A' <= c && c <= 'Z' && (('a' <= p && p <= 'z') || ('0' <= p && p <= '9')) {
                out.push('_');
            }
        }
        let lower = if 'A' <= c && c <= 'Z' { ((c as u32) + 32) as u8 as char } else { c };
        assert(lower == to_ascii_lower(c)) by {
            if 'A' <= c && c <= 'Z' {
                assert(((c as u32) + 32) as u8 as char == ((c as int) + 32) as char);
            }
        }
        out.push(lower);
        i += 1;
        assert(out@ =~= snake_of(cs@.take(i as int)));
    }
    assert(cs@.take(cs.len() as int) == cs@);
    string_of(out.as_slice())
}

/// The progress message of a download: the zero-padded episode number and the name where the
/// URL holds an episode number, the name alone otherwise.
pub open spec fn progress_message(url: Seq<char>, name: Seq<char>) -> Seq<char> {
    match episode_number(url) {
        Some((v, pad)) => "Ep. "@ + zero_padded(v as nat, pad as nat) + " "@ + name,
        None => name,
    }
}

/// Build the progress message, prefixing the episode number when available.
pub fn get_progress_message(url: &str, name: &str) -> (r: String)
    ensures
        r@ == progress_message(url@, name@),
{
    match get_episode_number(url) {
        Some((value, padding)) => {
            let mut s = String::from_str("Ep. ");
            let digits = zero_padded_chars(value.0 as u64, padding);
            let d = string_of(digits.as_slice());
            s.append(d.as_str());
            s.append(" ");
            s.append(name);
            s
        },
        None => string_of(chars_of(name).as_slice()),
    }
}

/// The last path segment of a URL, or why there is none.
pub open spec fn file_name_of(url: Seq<char>) -> Result<Seq<char>, UrlError> {
    match url_last_segment(url) {
        None => Err(UrlError::Unparsable),
        Some(None) => Err(UrlError::NoSegment),
        Some(Some(f)) => Ok(f),
    }
}

/// Extract the filename from a media URL.
pub fn get_filename(url: &str) -> (r: Result<String, UrlError>)
    ensures
        match file_name_of(url@) {
            Ok(f) => r matches Ok(x) && x@ == f,
            Err(e) => r == Err::<String, UrlError>(e),
        },
{
    match last_path_segment(url) {
        None => Err(UrlError::Unparsable),
        Some(None) => Err(UrlError::NoSegment),
        Some(Some(f)) => Ok(f),
    }
}

/// Index of the first `c` in `s`.
pub open spec fn first_index_of(s: Seq<char>, c: char) -> Option<int> {
    if exists|i: int| 0 <= i < s.len() && s[i] == c {
        Some(choose|i: int| 0 <= i < s.len() && s[i] == c && forall|j: int| 0 <= j < i ==> s[j] != c)
    } else {
        None
    }
}

/// Position of the first `c` in `s`, as `str::split_once` finds it.
pub fn find_first(s: &[char], c: char) -> (r: Option<usize>)
    ensures
        match r {
            Some(i) => i < s.len() && s@[i as int] == c && forall|j: int| 0 <= j < i ==> s@[j] != c,
            None => forall|j: int| 0 <= j < s.len() ==> s@[j] != c,
        },
{
    let mut i: usize = 0;
    while i < s.len()
        invariant
            i <= s.len(),
            forall|j: int| 0 <= j < i ==> s@[j] != c,
        decreases s.len() - i,
    {
        if s[i] == c {
            return Some(i);
        }
        i += 1;
    }
    None
}

/// Position of the last `c` in `s`, as `str::rsplit_once` finds it.
pub fn find_last(s: &[char], c: char) -> (r: Option<usize>)
    ensures
        match r {
            Some(i) => i < s.len() && s@[i as int] == c && forall|j: int| i < j < s.len() ==> s@[j] != c,
            None => forall|j: int| 0 <= j < s.len() ==> s@[j] != c,
        },
{
    let mut i: usize = s.len();
    while i > 0
        invariant
            i <= s.len(),
            forall|j: int| i <= j < s.len() ==> s@[j] != c,
        decreases i,
    {
        if s[i - 1] == c {
            return Some(i - 1);
        }
        i -= 1;
    }
    None
}

/// Index of the last `c` in `s`.
pub open spec fn last_index_of(s: Seq<char>, c: char) -> Option<int> {
    if exists|i: int| 0 <= i < s.len() && s[i] == c {
        Some(choose|i: int| 0 <= i < s.len() && s[i] == c && forall|j: int| i < j < s.len() ==> s[j] != c)
    } else {
        None
    }
}

/// The first `c` of `s` is the one at `k` where none comes before it.
pub proof fn lemma_first_index(s: Seq<char>, c: char, k: int)
    requires
        0 <= k < s.len(),
        s[k] == c,
        forall|j: int| 0 <= j < k ==> s[j] != c,
    ensures
        first_index_of(s, c) == Some(k),
{
    assert(exists|i: int| 0 <= i < s.len() && s[i] == c);
    let w = choose|i: int| 0 <= i < s.len() && s[i] == c && forall|j: int| 0 <= j < i ==> s[j] != c;
    assert(0 <= w < s.len() && s[w] == c && forall|j: int| 0 <= j < w ==> s[j] != c);
    if w < k {
        assert(s[w] != c);
    }
    if k < w {
        assert(s[k] != c);
    }
}

/// The last `c` of `s` is the one at `k` where none comes after it.
pub proof fn lemma_last_index(s: Seq<char>, c: char, k: int)
    requires
        0 <= k < s.len(),
        s[k] == c,
        forall|j: int| k < j < s.len() ==> s[j] != c,
    ensures
        last_index_of(s, c) == Some(k),
{
    assert(exists|i: int| 0 <= i < s.len() && s[i] == c);
    let w = choose|i: int| 0 <= i < s.len() && s[i] == c && forall|j: int| i < j < s.len() ==> s[j] != c;
    assert(0 <= w < s.len() && s[w] == c && forall|j: int| w < j < s.len() ==> s[j] != c);
    if w < k {
        assert(s[k] != c);
    }
    if k < w {
        assert(s[w] != c);
    }
}

/// A string without `c` has no first or last `c`.
pub proof fn lemma_no_index(s: Seq<char>, c: char)
    requires
        forall|j: int| 0 <= j < s.len() ==> s[j] != c,
    ensures
        first_index_of(s, c) is None,
        last_index_of(s, c) is None,
{
}

/// The directory name of a file name: what comes before its first `_`, or else the file name
/// without its last extension.
pub open spec fn dir_name_of(f: Seq<char>) -> Seq<char> {
    match first_index_of(f, '_') {
        Some(i) => f.take(i),
        None => match last_index_of(f, '.') {
            Some(i) => f.take(i),
            None => f,
        },
    }
}

/// Extract the directory name from a media URL (before the first underscore).
/// If no underscore is present, the filename stem (without extension) is returned.
pub fn get_dir_name(url: &str) -> (r: Result<String, UrlError>)
    ensures
        match file_name_of(url@) {
            Ok(f) => r matches Ok(x) && x@ == dir_name_of(f),
            Err(e) => r == Err::<String, UrlError>(e),
        },
{
    let f = match get_filename(url) {
        Ok(f) => f,
        Err(e) => return Err(e),
    };
    let cs = chars_of(f.as_str());
    match find_first(cs.as_slice(), '_') {
        Some(i) => {
            proof {
                lemma_first_index(cs@, '_', i as int);
            }
            Ok(string_of(slice_copy(cs.as_slice(), 0, i).as_slice()))
        },
        None => {
            proof {
                lemma_no_index(cs@, '_');
            }
            match find_last(cs.as_slice(), '.') {
                Some(i) => {
                    proof {
                        lemma_last_index(cs@, '.', i as int);
                    }
                    Ok(string_of(slice_copy(cs.as_slice(), 0, i).as_slice()))
                },
                None => {
                    proof {
                        lemma_no_index(cs@, '.');
                    }
                    Ok(f)
                },
            }
        },
    }
}

/// How many downloads run at once: as many as asked, and at least one.
pub fn concurrency(max_concurrent: usize) -> (r: usize)
    ensures
        r == if max_concurrent == 0 { 1 } else { max_concurrent },
{
    if max_concurrent == 0 { 1 } else { max_concurrent }
}

/// Where an episode is written: the directory of the anime under the destination, named after
/// the anime in snake case, then the file name of the episode; and the temporary file beside
/// it, with `.tmp` added.
pub open spec fn download_target(destination: Seq<char>, anime_url: Seq<char>, episode_url: Seq<char>) -> Result<(Seq<char>, Seq<char>), UrlError> {
    match (file_name_of(anime_url), file_name_of(episode_url)) {
        (Err(e), _) => Err(e),
        (_, Err(e)) => Err(e),
        (Ok(f), Ok(g)) => {
            let dest = join_path(join_path(destination, snake_of(dir_name_of(f))), g);
            Ok((dest, dest + ".tmp"@))
        },
    }
}

/// Where an episode is written, and the temporary file it is first written to.
pub fn target_paths(destination: &str, anime_url: &str, episode_url: &str) -> (r: Result<(String, String), UrlError>)
    ensures
        match download_target(destination@, anime_url@, episode_url@) {
            Ok((d, t)) => r matches Ok(p) && p.0@ == d && p.1@ == t,
            Err(e) => r == Err::<(String, String), UrlError>(e),
        },
{
    let dir = match get_dir_name(anime_url) {
        Ok(d) => d,
        Err(e) => return Err(e),
    };
    let file = match get_filename(episode_url) {
        Ok(f) => f,
        Err(e) => return Err(e),
    };
    let root = push_path(destination, camel_to_snake(dir.as_str()).as_str());
    let dest = push_path(root.as_str(), file.as_str());
    let mut tmp = chars_of(dest.as_str());
    let ghost base = tmp@;
    let ext = chars_of(".tmp");
    let mut i: usize = 0;
    while i < ext.len()
        invariant
            i <= ext.len(),
            tmp@ == base + ext@.take(i as int),
        decreases ext.len() - i,
    {
        tmp.push(ext[i]);
        i += 1;
        assert(tmp@ =~= base + ext@.take(i as int));
    }
    assert(ext@.take(i as int) =~= ext@);
    Ok((dest, string_of(tmp.as_slice())))
}

} // verus!
