use vstd::prelude::*;

use crate::text::{chars_of, string_of};

verus! {

/// Errors of the terminal interface.
#[derive(Debug, Clone, Copy, PartialEq, Eq)]
pub enum TuiError {
    InvalidInput,
}

/// Errors of range parsing.
#[derive(Debug, Clone, Copy, PartialEq, Eq)]
pub enum RangeError {
    Invalid,
}

/// Errors of remote requests.
#[derive(Debug, Clone, Copy, PartialEq, Eq)]
pub enum RequestError {
    WatchingList,
    Search,
    SessionId,
}

/// Errors of page scraping.
#[derive(Debug, Clone, Copy, PartialEq, Eq)]
pub enum ScraperError {
    Name,
    Url,
}

/// Errors of a search in a remote archive.
#[derive(Debug, Clone, Copy, PartialEq, Eq)]
pub enum SearchError {
    /// The archive answered without its result list.
    Blocked,
    /// The result list is empty.
    NoAnime,
}

impl SearchError {
    /// The message shown for the error.
    pub fn to_string(&self) -> (r: String)
        ensures
            r@ == match *self {
                SearchError::Blocked => "Request blocked, retry"@,
                SearchError::NoAnime => "No anime found"@,
            },
    {
        match self {
            SearchError::Blocked => "Request blocked, retry".to_owned(),
            SearchError::NoAnime => "No anime found".to_owned(),
        }
    }
}

/// Errors of taking names out of URLs.
#[derive(Debug, Clone, Copy, PartialEq, Eq)]
pub enum UrlError {
    /// The text is not a URL.
    Unparsable,
    /// The URL has no last path segment.
    NoSegment,
}

impl UrlError {
    /// The message shown for the error.
    pub fn to_string(&self) -> (r: String)
        ensures
            r@ == match *self {
                UrlError::Unparsable => "not a valid url"@,
                UrlError::NoSegment => "url without path segments"@,
            },
    {
        match self {
            UrlError::Unparsable => "not a valid url".to_owned(),
            UrlError::NoSegment => "url without path segments".to_owned(),
        }
    }
}

impl TuiError {
    /// The message shown for the error.
    pub fn to_string(&self) -> (r: String)
        ensures
            r@ == "invalid input"@,
    {
        "invalid input".to_owned()
    }
}

impl RangeError {
    /// The message shown for the error.
    pub fn to_string(&self) -> (r: String)
        ensures
            r@ == "invalid range string"@,
    {
        "invalid range string".to_owned()
    }
}

/// The message of a request error.
pub open spec fn request_message(e: RequestError) -> Seq<char> {
    match e {
        RequestError::WatchingList => "unable to get data from watching list"@,
        RequestError::Search => "blocked search request"@,
        RequestError::SessionId => "session ID is required to access this archive"@,
    }
}

impl RequestError {
    /// The message shown for the error.
    pub fn to_string(&self) -> (r: String)
        ensures
            r@ == request_message(*self),
    {
        match self {
            RequestError::WatchingList => "unable to get data from watching list".to_owned(),
            RequestError::Search => "blocked search request".to_owned(),
            RequestError::SessionId => "session ID is required to access this archive".to_owned(),
        }
    }
}

impl ScraperError {
    /// The message shown for the error.
    pub fn to_string(&self) -> (r: String)
        ensures
            r@ == match *self {
                ScraperError::Name => "no name found"@,
                ScraperError::Url => "no url found"@,
            },
    {
        match self {
            ScraperError::Name => "no name found".to_owned(),
            ScraperError::Url => "no url found".to_owned(),
        }
    }
}

/// Errors of the system around the program: the media player and the file system.
#[derive(Debug, Clone, PartialEq, Eq)]
pub enum SystemError {
    /// No media player to stream with.
    MediaPlayer,
    /// The file exists already.
    Overwrite(String),
    /// An input or output error, with its message.
    Io(String),
    FsOpen,
    FsRemove,
    FsWrite,
    FsLoad,
}

/// The message of a system error.
pub open spec fn system_message(e: SystemError) -> Seq<char> {
    match e {
        SystemError::MediaPlayer => "`mpv` or `vlc` required for streaming"@,
        SystemError::Overwrite(p) => p@ + " already exists"@,
        SystemError::Io(m) => m@,
        SystemError::FsOpen => "Unable to open file"@,
        SystemError::FsRemove => "Unable to remove file"@,
        SystemError::FsWrite => "Unable to write file"@,
        SystemError::FsLoad => "Unable to load configuration"@,
    }
}

impl SystemError {
    /// The message shown for the error.
    pub fn to_string(&self) -> (r: String)
        ensures
            r@ == system_message(*self),
    {
        match self {
            SystemError::MediaPlayer => "`mpv` or `vlc` required for streaming".to_owned(),
            SystemError::Overwrite(p) => {
                let mut out = string_of(chars_of(p.as_str()).as_slice());
                let tail = chars_of(" already exists");
                let mut i: usize = 0;
                let ghost base = out@;
                while i < tail.len()
                    invariant
                        i <= tail.len(),
                        out@ == base + tail@.take(i as int),
                    decreases tail.len() - i,
                {
                    out.push(tail[i]);
                    i += 1;
                    assert(out@ =~= base + tail@.take(i as int));
                }
                assert(tail@.take(i as int) =~= tail@);
                out
            },
            SystemError::Io(m) => m.clone(),
            SystemError::FsOpen => "Unable to open file".to_owned(),
            SystemError::FsRemove => "Unable to remove file".to_owned(),
            SystemError::FsWrite => "Unable to write file".to_owned(),
            SystemError::FsLoad => "Unable to load configuration".to_owned(),
        }
    }
}

/// The user asked to quit; it shows no message.
#[derive(Debug, Clone, Copy, PartialEq, Eq)]
pub struct Quit;

impl Quit {
    /// The message shown, which is empty.
    pub fn to_string(&self) -> (r: String)
        ensures
            r@ == Seq::<char>::empty(),
    {
        String::new()
    }
}

} // verus!
