//! Fetching an index of Bioconductor.
//!
//! A copy of each index is kept, together with what the server said of its version.
//! The server is asked for the index only if it has changed since.

use std::io::Read;

use vstd::prelude::*;

use crate::error::UvrError;
use crate::http;
use crate::http::{Ask, Request};
use crate::registry::bioconductor;
use crate::registry::cran::CranPackageEntry;
use crate::strings;
use crate::strmap::StrMap;

verus! {

/// What `flate2::read::GzDecoder` reads to the end of some bytes as a text, or the
/// message of the error that reading meets.
pub uninterp spec fn gunzipped(bytes: Seq<u8>) -> Result<Seq<char>, Seq<char>>;

/// `flate2::read::GzDecoder`, read to its end by `read_to_string`: a function of the
/// bytes alone. An error is told by its message.
#[verifier::external_body]
fn gunzip(bytes: &[u8]) -> (r: Result<String, String>)
    ensures
        match r {
            Ok(s) => gunzipped(bytes@) == Ok::<Seq<char>, Seq<char>>(s@),
            Err(m) => gunzipped(bytes@) == Err::<Seq<char>, Seq<char>>(m@),
        },
{
    let mut text = String::new();
    match flate2::read::GzDecoder::new(bytes).read_to_string(&mut text) {
        Ok(_) => Ok(text),
        Err(e) => Err(e.to_string()),
    }
}

/// What the server said of the version of an index.
#[derive(Debug, PartialEq, Eq)]
pub struct CacheMeta {
    pub etag: Option<String>,
    pub last_modified: Option<String>,
}

/// How far fetching an index has come.
#[derive(Debug, PartialEq, Eq)]
pub enum FetchState {
    /// The copy is looked for.
    Start,
    /// The server is asked, with or without the condition that the index has changed.
    Asking { conditional: bool },
    /// The index is read from the server.
    ReadingBody(CacheMeta),
    /// The index is put by.
    WritingData { content: String, meta: CacheMeta },
    /// What the server said of its version is put by.
    WritingMeta { content: String },
    /// The copy is read.
    ReadingCache,
    Finished,
}

/// What happened.
#[derive(Debug, PartialEq, Eq)]
pub enum FetchEvent {
    /// Whether there is a copy, and what is known of its version.
    Cache { exists: bool, known: Option<CacheMeta> },
    /// The server could not be asked, for these causes.
    SendFailed(Vec<String>),
    /// The server replied.
    Replied { status: u16, status_text: String, meta: CacheMeta },
    /// What the server sent.
    Body(Vec<u8>),
    /// What the server sent could not be read, for these causes.
    BodyFailed(Vec<String>),
    /// What the copy holds.
    CacheRead(String),
    /// The copy could not be read, for this reason.
    CacheUnreadable(String),
    /// Whether the index was put by.
    DataWritten(bool),
    /// What the server said of its version was put by, or it was not.
    MetaWritten,
}

/// What to do next.
#[derive(Debug, PartialEq, Eq)]
pub enum FetchAction {
    Get(Request),
    ReadBody,
    ReadCache,
    WriteData(String),
    WriteMeta(CacheMeta),
    Done(Result<StrMap<CranPackageEntry>, UvrError>),
}

/// The event is one that the state waits for.
pub open spec fn fetch_expects(s: FetchState, e: FetchEvent) -> bool {
    match s {
        FetchState::Start => e is Cache,
        FetchState::Asking { .. } => e is SendFailed || e is Replied,
        FetchState::ReadingBody(_) => e is Body || e is BodyFailed,
        FetchState::WritingData { .. } => e is DataWritten,
        FetchState::WritingMeta { .. } => e is MetaWritten,
        FetchState::ReadingCache => e is CacheRead || e is CacheUnreadable,
        FetchState::Finished => false,
    }
}

/// The address of an index.
pub open spec fn index_url(release: Seq<char>, subrepo_path: Seq<char>) -> Seq<char> {
    "https://bioconductor.org/packages/"@ + release + "/"@ + subrepo_path
        + "/src/contrib/PACKAGES.gz"@
}

/// The name under which the copy of an index is kept.
pub open spec fn key_of(release: Seq<char>, suffix: Seq<char>) -> Seq<char> {
    "bioc-"@ + release + "-"@ + suffix
}

/// The headers that ask for an index only if it has changed.
pub open spec fn condition_headers(meta: CacheMeta) -> Seq<(Seq<char>, Seq<char>)> {
    (match meta.etag {
        Some(e) => seq![("If-None-Match"@, e@)],
        None => seq![],
    }) + (match meta.last_modified {
        Some(m) => seq![("If-Modified-Since"@, m@)],
        None => seq![],
    })
}

/// The action hands out an index.
pub open spec fn hands_out(a: FetchAction, content: Seq<char>) -> bool {
    a matches FetchAction::Done(Ok(index)) && index.deep_view() == bioconductor::index_of(content)
}

/// What unpacking the bytes of an index came to leads to another state and an
/// action: the index is put by, or there is an error.
pub open spec fn unpack_move(
    meta: CacheMeta,
    unpacked: Result<Seq<char>, Seq<char>>,
    t: FetchState,
    a: FetchAction,
) -> bool {
    match unpacked {
        Ok(content) => {
            &&& t matches FetchState::WritingData { content: kept, meta: m }
            &&& kept@ == content
            &&& m == meta
            &&& a matches FetchAction::WriteData(written)
            &&& written@ == content
        },
        Err(message) => {
            &&& t == FetchState::Finished
            &&& a matches FetchAction::Done(Err(UvrError::Io(m)))
            &&& m@ == message
        },
    }
}

/// A reply of the server leads to another state and an action. To a question with a
/// condition, any reply but one of success leaves the copy to be used.
pub open spec fn reply_move(
    subrepo_path: Seq<char>,
    conditional: bool,
    status: u16,
    status_text: Seq<char>,
    meta: CacheMeta,
    t: FetchState,
    a: FetchAction,
) -> bool {
    if http::is_success(status) {
        t == FetchState::ReadingBody(meta) && a == FetchAction::ReadBody
    } else if conditional {
        t == FetchState::ReadingCache && a == FetchAction::ReadCache
    } else {
        &&& t == FetchState::Finished
        &&& a matches FetchAction::Done(Err(UvrError::Other(m)))
        &&& m@ == "Failed to fetch Bioconductor "@ + subrepo_path + " index (HTTP "@ + status_text
            + ")"@
    }
}

/// From one state an event leads to another state and an action. Without a copy the
/// server is asked, and with one it is asked on the condition that the index has
/// changed. A copy of which no version is known is used as it is. What the server
/// sends is put by, and only where that has succeeded what it said of the version.
pub open spec fn fetch_move(
    release: Seq<char>,
    subrepo_path: Seq<char>,
    s: FetchState,
    e: FetchEvent,
    t: FetchState,
    a: FetchAction,
) -> bool {
    match (s, e) {
        (FetchState::Start, FetchEvent::Cache { exists, known }) => if !exists {
            &&& t == FetchState::Asking { conditional: false }
            &&& a matches FetchAction::Get(request)
            &&& request.deep_view() == (Ask {
                url: index_url(release, subrepo_path),
                headers: seq![],
            })
        } else {
            match known {
                Some(m) => {
                    &&& t == FetchState::Asking { conditional: true }
                    &&& a matches FetchAction::Get(request)
                    &&& request.deep_view() == (Ask {
                        url: index_url(release, subrepo_path),
                        headers: condition_headers(m),
                    })
                },
                None => t == FetchState::ReadingCache && a == FetchAction::ReadCache,
            }
        },
        (FetchState::Asking { conditional }, FetchEvent::SendFailed(causes)) => if conditional {
            t == FetchState::ReadingCache && a == FetchAction::ReadCache
        } else {
            t == FetchState::Finished && a == FetchAction::Done(Err(UvrError::Network(causes)))
        },
        (
            FetchState::Asking { conditional },
            FetchEvent::Replied { status, status_text, meta },
        ) => reply_move(subrepo_path, conditional, status, status_text@, meta, t, a),
        (FetchState::ReadingBody(meta), FetchEvent::Body(bytes)) => unpack_move(
            meta,
            gunzipped(bytes@),
            t,
            a,
        ),
        (FetchState::ReadingBody(_), FetchEvent::BodyFailed(causes)) => t == FetchState::Finished
            && a == FetchAction::Done(Err(UvrError::Network(causes))),
        (FetchState::WritingData { content, meta }, FetchEvent::DataWritten(written)) => if written {
            t == FetchState::WritingMeta { content } && a == FetchAction::WriteMeta(meta)
        } else {
            t == FetchState::Finished && hands_out(a, content@)
        },
        (FetchState::WritingMeta { content }, FetchEvent::MetaWritten) => t == FetchState::Finished
            && hands_out(a, content@),
        (FetchState::ReadingCache, FetchEvent::CacheRead(content)) => t == FetchState::Finished
            && hands_out(a, content@),
        (FetchState::ReadingCache, FetchEvent::CacheUnreadable(message)) => t
            == FetchState::Finished && a == FetchAction::Done(Err(UvrError::Io(message))),
        _ => false,
    }
}

/// Fetches an index of Bioconductor. What is to be done is told by
/// [`SubrepoFetch::step`], which is told in turn what came of it.
#[derive(Debug, PartialEq, Eq)]
pub struct SubrepoFetch {
    pub bioc_release: String,
    /// What tells the copy of this index from the copies of others.
    pub cache_key_suffix: String,
    /// The path of the repository within Bioconductor.
    pub subrepo_path: String,
    pub state: FetchState,
}

impl SubrepoFetch {
    /// Fetching has not begun. Whether there is a copy is the first thing to be told.
    pub fn new(bioc_release: &str, cache_key_suffix: &str, subrepo_path: &str) -> (r: Self)
        ensures
            r.bioc_release@ == bioc_release@,
            r.cache_key_suffix@ == cache_key_suffix@,
            r.subrepo_path@ == subrepo_path@,
            r.state == FetchState::Start,
    {
        SubrepoFetch {
            bioc_release: bioc_release.to_owned(),
            cache_key_suffix: cache_key_suffix.to_owned(),
            subrepo_path: subrepo_path.to_owned(),
            state: FetchState::Start,
        }
    }

    /// The name under which the copy is kept.
    pub fn cache_key(&self) -> (r: String)
        ensures
            r@ == key_of(self.bioc_release@, self.cache_key_suffix@),
    {
        let mut k = "bioc-".to_owned();
        k.append(self.bioc_release.as_str());
        k.append("-");
        k.append(self.cache_key_suffix.as_str());
        k
    }

    /// The address of the index.
    pub fn url(&self) -> (r: String)
        ensures
            r@ == index_url(self.bioc_release@, self.subrepo_path@),
    {
        let mut u = "https://bioconductor.org/packages/".to_owned();
        u.append(self.bioc_release.as_str());
        u.append("/");
        u.append(self.subrepo_path.as_str());
        u.append("/src/contrib/PACKAGES.gz");
        u
    }

    /// The question whether the index has changed.
    fn conditional_request(&self, meta: CacheMeta) -> (r: Request)
        ensures
            r.deep_view() == (Ask {
                url: index_url(self.bioc_release@, self.subrepo_path@),
                headers: condition_headers(meta),
            }),
    {
        let mut request = Request::get(self.url());
        if let Some(e) = &meta.etag {
            request.add_header("If-None-Match", e.as_str());
        }
        if let Some(m) = &meta.last_modified {
            request.add_header("If-Modified-Since", m.as_str());
        }
        assert(request.headers.deep_view() =~= condition_headers(meta));
        request
    }

    /// Hands out the index that a text is.
    fn hand_out(&mut self, content: &str) -> (action: FetchAction)
        ensures
            final(self).state == FetchState::Finished,
            hands_out(action, content@),
            final(self).bioc_release == old(self).bioc_release,
            final(self).cache_key_suffix == old(self).cache_key_suffix,
            final(self).subrepo_path == old(self).subrepo_path,
    {
        self.state = FetchState::Finished;
        FetchAction::Done(Ok(bioconductor::parse_bioc_text(content)))
    }

    /// Goes on once the bytes of the index have been unpacked, or could not be.
    pub fn unpacked(&mut self, meta: CacheMeta, unpacked: Result<String, String>) -> (action:
        FetchAction)
        ensures
            unpack_move(
                meta,
                match unpacked {
                    Ok(s) => Ok(s@),
                    Err(m) => Err(m@),
                },
                final(self).state,
                action,
            ),
            final(self).bioc_release == old(self).bioc_release,
            final(self).cache_key_suffix == old(self).cache_key_suffix,
            final(self).subrepo_path == old(self).subrepo_path,
    {
        match unpacked {
            Ok(content) => {
                self.state = FetchState::WritingData { content: content.clone(), meta };
                FetchAction::WriteData(content)
            },
            Err(m) => {
                self.state = FetchState::Finished;
                FetchAction::Done(Err(UvrError::Io(m)))
            },
        }
    }

    /// Goes on once the server has replied.
    fn replied(&mut self, conditional: bool, status: u16, status_text: &str, meta: CacheMeta) -> (
    action: FetchAction)
        ensures
            reply_move(
                old(self).subrepo_path@,
                conditional,
                status,
                status_text@,
                meta,
                final(self).state,
                action,
            ),
            final(self).bioc_release == old(self).bioc_release,
            final(self).cache_key_suffix == old(self).cache_key_suffix,
            final(self).subrepo_path == old(self).subrepo_path,
    {
        if 200 <= status && status <= 299 {
            self.state = FetchState::ReadingBody(meta);
            FetchAction::ReadBody
        } else if conditional {
            self.state = FetchState::ReadingCache;
            FetchAction::ReadCache
        } else {
            let mut m = "Failed to fetch Bioconductor ".to_owned();
            m.append(self.subrepo_path.as_str());
            m.append(" index (HTTP ");
            m.append(status_text);
            m.append(")");
            self.state = FetchState::Finished;
            FetchAction::Done(Err(UvrError::Other(m)))
        }
    }

    /// Goes on by one step.
    pub fn step(&mut self, event: FetchEvent) -> (action: FetchAction)
        requires
            fetch_expects(old(self).state, event),
        ensures
            fetch_move(
                old(self).bioc_release@,
                old(self).subrepo_path@,
                old(self).state,
                event,
                final(self).state,
                action,
            ),
            final(self).bioc_release == old(self).bioc_release,
            final(self).cache_key_suffix == old(self).cache_key_suffix,
            final(self).subrepo_path == old(self).subrepo_path,
    {
        let mut state = FetchState::Finished;
        std::mem::swap(&mut state, &mut self.state);
        match (state, event) {
            (FetchState::Start, FetchEvent::Cache { exists, known }) => {
                if !exists {
                    self.state = FetchState::Asking { conditional: false };
                    return FetchAction::Get(Request::get(self.url()));
                }
                match known {
                    Some(m) => {
                        self.state = FetchState::Asking { conditional: true };
                        FetchAction::Get(self.conditional_request(m))
                    },
                    None => {
                        self.state = FetchState::ReadingCache;
                        FetchAction::ReadCache
                    },
                }
            },
            (FetchState::Asking { conditional }, FetchEvent::SendFailed(causes)) => {
                if conditional {
                    self.state = FetchState::ReadingCache;
                    FetchAction::ReadCache
                } else {
                    FetchAction::Done(Err(UvrError::Network(causes)))
                }
            },
            (
                FetchState::Asking { conditional },
                FetchEvent::Replied { status, status_text, meta },
            ) => self.replied(conditional, status, status_text.as_str(), meta),
            (FetchState::ReadingBody(meta), FetchEvent::Body(bytes)) => {
                let unpacked = gunzip(bytes.as_slice());
                self.unpacked(meta, unpacked)
            },
            (FetchState::ReadingBody(_), FetchEvent::BodyFailed(causes)) => FetchAction::Done(
                Err(UvrError::Network(causes)),
            ),
            (FetchState::WritingData { content, meta }, FetchEvent::DataWritten(written)) => {
                if written {
                    self.state = FetchState::WritingMeta { content };
                    FetchAction::WriteMeta(meta)
                } else {
                    self.hand_out(content.as_str())
                }
            },
            (FetchState::WritingMeta { content }, FetchEvent::MetaWritten) => self.hand_out(
                content.as_str(),
            ),
            (FetchState::ReadingCache, FetchEvent::CacheRead(content)) => self.hand_out(
                content.as_str(),
            ),
            (FetchState::ReadingCache, FetchEvent::CacheUnreadable(message)) => FetchAction::Done(
                Err(UvrError::Io(message)),
            ),
            (_, _) => FetchAction::ReadCache,
        }
    }
}

/// What the server said of the version of an index is put by only after the index
/// itself has been, so that the copy is never older than its version says.
pub proof fn law_version_is_written_after_data(
    release: Seq<char>,
    subrepo_path: Seq<char>,
    s: FetchState,
    e: FetchEvent,
    t: FetchState,
    a: FetchAction,
)
    requires
        fetch_move(release, subrepo_path, s, e, t, a),
        a is WriteMeta,
    ensures
        s is WritingData,
        e == FetchEvent::DataWritten(true),
        a == FetchAction::WriteMeta(s->WritingData_meta),
{
}

/// An index that was put by is the index that is handed out, whether or not putting
/// it by succeeded.
pub proof fn law_written_index_is_handed_out(
    release: Seq<char>,
    subrepo_path: Seq<char>,
    content: String,
    meta: CacheMeta,
    written: bool,
    t: FetchState,
    a: FetchAction,
    u: FetchState,
    b: FetchAction,
)
    requires
        fetch_move(
            release,
            subrepo_path,
            FetchState::WritingData { content, meta },
            FetchEvent::DataWritten(written),
            t,
            a,
        ),
        written ==> fetch_move(release, subrepo_path, t, FetchEvent::MetaWritten, u, b),
    ensures
        written ==> hands_out(b, content@),
        !written ==> hands_out(a, content@),
{
}

/// Where there is a copy, that the server cannot be reached or that it refuses is no
/// error: the copy is read.
pub proof fn law_copy_outlives_the_server(
    release: Seq<char>,
    subrepo_path: Seq<char>,
    e: FetchEvent,
    t: FetchState,
    a: FetchAction,
)
    requires
        fetch_move(
            release,
            subrepo_path,
            FetchState::Asking { conditional: true },
            e,
            t,
            a,
        ),
    ensures
        a !is Done,
        e is SendFailed ==> a is ReadCache,
        (e matches FetchEvent::Replied { status, .. } && !http::is_success(status)) ==> a
            is ReadCache,
{
}

/// The copies of different indexes do not share a name: neither those of one release
/// nor those of one repository.
pub proof fn law_copies_are_kept_apart(release: Seq<char>, a: Seq<char>, b: Seq<char>)
    ensures
        key_of(release, a) == key_of(release, b) ==> a == b,
        key_of(a, release) == key_of(b, release) ==> a == b,
        key_of(release, a) == "bioc-"@ + (release + "-"@ + a),
{
    reveal_strlit("bioc-");
    reveal_strlit("-");
    let n = release.len() as int;
    assert(key_of(release, a) =~= "bioc-"@ + (release + "-"@ + a));
    assert(key_of(release, a).skip(6 + n) =~= a);
    assert(key_of(release, b).skip(6 + n) =~= b);
    let x = key_of(a, release);
    let y = key_of(b, release);
    assert(x.subrange(5, x.len() - n - 1) =~= a);
    assert(y.subrange(5, y.len() - n - 1) =~= b);
}

/// The address of an index is the release and the path of the repository, in this
/// order, between the packages of Bioconductor and the packed index of the sources.
pub proof fn law_address_of_an_index(release: Seq<char>, path: Seq<char>)
    ensures
        ({
            let u = index_url(release, path);
            let front = "https://bioconductor.org/packages/"@;
            let end = "/src/contrib/PACKAGES.gz"@;
            &&& strings::starts_with(u, front)
            &&& strings::ends_with(u, end)
            &&& u.subrange(front.len() as int, u.len() - end.len()) == release + seq!['/'] + path
        }),
{
    reveal_strlit("/");
    let u = index_url(release, path);
    let front = "https://bioconductor.org/packages/"@;
    let end = "/src/contrib/PACKAGES.gz"@;
    assert(u.take(front.len() as int) =~= front);
    assert(u.skip(u.len() - end.len()) =~= end);
    assert(u.subrange(front.len() as int, u.len() - end.len()) =~= release + seq!['/'] + path);
}

/// What is asked first: without a copy the index is asked for outright, with a copy
/// only if it is another than the one that is known, and where nothing is known of the
/// copy it is not asked for. The server is told all that is known, and nothing else.
pub proof fn law_first_question(
    release: Seq<char>,
    path: Seq<char>,
    exists: bool,
    known: Option<CacheMeta>,
    t: FetchState,
    a: FetchAction,
)
    requires
        fetch_move(release, path, FetchState::Start, FetchEvent::Cache { exists, known }, t, a),
    ensures
        a is Get <==> (exists ==> known is Some),
        a is ReadCache <==> exists && known is None,
        a is ReadCache ==> t is ReadingCache,
        a matches FetchAction::Get(request) ==> {
            let ask = request.deep_view();
            &&& t == FetchState::Asking { conditional: exists }
            &&& ask.url == index_url(release, path)
            &&& !exists ==> ask.headers.len() == 0
            &&& exists ==> {
                let m = known->0;
                &&& forall|v: Seq<char>|
                    ask.headers.contains(("If-None-Match"@, v)) <==> (m.etag matches Some(e)
                        && e@ == v)
                &&& forall|v: Seq<char>|
                    ask.headers.contains(("If-Modified-Since"@, v)) <==> (
                    m.last_modified matches Some(d) && d@ == v)
                &&& forall|i: int|
                    0 <= i < ask.headers.len() ==> (#[trigger] ask.headers[i]).0
                        == "If-None-Match"@ || ask.headers[i].0 == "If-Modified-Since"@
            }
        },
{
    if let FetchAction::Get(request) = a {
        if exists {
            reveal_strlit("If-None-Match");
            reveal_strlit("If-Modified-Since");
            let m = known->0;
            let h = request.deep_view().headers;
            assert("If-None-Match"@.len() != "If-Modified-Since"@.len());
            if let Some(e) = m.etag {
                assert(h[0] == ("If-None-Match"@, e@));
            }
            if let Some(d) = m.last_modified {
                assert(h[h.len() - 1] == ("If-Modified-Since"@, d@));
            }
        }
    }
}

/// A reply of success is read, whatever was asked. Without a copy any other reply is
/// an error that tells the repository and what the server said, and a server that
/// cannot be reached is an error that tells why.
pub proof fn law_replies(
    release: Seq<char>,
    path: Seq<char>,
    conditional: bool,
    e: FetchEvent,
    t: FetchState,
    a: FetchAction,
)
    requires
        fetch_move(release, path, FetchState::Asking { conditional }, e, t, a),
    ensures
        match e {
            FetchEvent::SendFailed(causes) => if conditional {
                a is ReadCache && t is ReadingCache
            } else {
                t is Finished && a == FetchAction::Done(Err(UvrError::Network(causes)))
            },
            FetchEvent::Replied { status, status_text, meta } => if 200 <= status < 300 {
                a is ReadBody && t == FetchState::ReadingBody(meta)
            } else if conditional {
                a is ReadCache && t is ReadingCache
            } else {
                &&& t is Finished
                &&& a matches FetchAction::Done(Err(UvrError::Other(m)))
                &&& strings::contains_text(m@, path)
                &&& strings::contains_text(m@, status_text@)
            },
            _ => true,
        },
{
    if let FetchEvent::Replied { status, status_text, meta } = e {
        if !(200 <= status < 300) && !conditional {
            let one = "Failed to fetch Bioconductor "@;
            let two = " index (HTTP "@;
            strings::lemma_contains_middle(one, path, two + status_text@ + ")"@);
            strings::lemma_contains_middle(one + path + two, status_text@, ")"@);
            if let FetchAction::Done(Err(UvrError::Other(m))) = a {
                assert(m@ =~= one + path + (two + status_text@ + ")"@));
            }
        }
    }
}

/// What the server sent is unpacked, put by and handed out: these are one text. The
/// version that is put by is the one that came with it.
pub proof fn law_what_was_sent_is_handed_out(
    release: Seq<char>,
    path: Seq<char>,
    bytes: Vec<u8>,
    meta: CacheMeta,
    written: bool,
    t: FetchState,
    a: FetchAction,
    u: FetchState,
    b: FetchAction,
    v: FetchState,
    c: FetchAction,
)
    requires
        fetch_move(release, path, FetchState::ReadingBody(meta), FetchEvent::Body(bytes), t, a),
        t is WritingData ==> fetch_move(release, path, t, FetchEvent::DataWritten(written), u, b),
        t is WritingData && written ==> fetch_move(release, path, u, FetchEvent::MetaWritten, v, c),
    ensures
        match gunzipped(bytes@) {
            Ok(content) => {
                &&& a matches FetchAction::WriteData(text)
                &&& text@ == content
                &&& written ==> b == FetchAction::WriteMeta(meta)
                &&& (if written {
                    c
                } else {
                    b
                }) matches FetchAction::Done(Ok(index))
                &&& index.deep_view() == bioconductor::index_of(content)
                &&& (if written {
                    v
                } else {
                    u
                }) is Finished
            },
            Err(message) => {
                &&& t is Finished
                &&& a matches FetchAction::Done(Err(UvrError::Io(m)))
                &&& m@ == message
            },
        },
{
}

/// The copy is handed out as it is read, and one that cannot be read is an error that
/// tells why. So is an index that breaks off while it is sent.
pub proof fn law_copy_is_handed_out(
    release: Seq<char>,
    path: Seq<char>,
    meta: CacheMeta,
    causes: Vec<String>,
    e: FetchEvent,
    t: FetchState,
    a: FetchAction,
    u: FetchState,
    b: FetchAction,
)
    requires
        fetch_move(release, path, FetchState::ReadingCache, e, t, a),
        fetch_move(
            release,
            path,
            FetchState::ReadingBody(meta),
            FetchEvent::BodyFailed(causes),
            u,
            b,
        ),
    ensures
        t is Finished,
        e matches FetchEvent::CacheRead(content) ==> {
            &&& a matches FetchAction::Done(Ok(index))
            &&& index.deep_view() == bioconductor::index_of(content@)
        },
        e matches FetchEvent::CacheUnreadable(m) ==> a == FetchAction::Done(Err(UvrError::Io(m))),
        u is Finished,
        b == FetchAction::Done(Err(UvrError::Network(causes))),
{
}

/// What is being done and what is waited for go together, in every step of a fetch.
pub proof fn law_fetch_waits_for_what_it_does(
    release: Seq<char>,
    path: Seq<char>,
    s: FetchState,
    e: FetchEvent,
    t: FetchState,
    a: FetchAction,
)
    requires
        fetch_move(release, path, s, e, t, a),
    ensures
        a is Get <==> t is Asking,
        a is ReadBody <==> t is ReadingBody,
        a is ReadCache <==> t is ReadingCache,
        a is WriteData <==> t is WritingData,
        a is WriteMeta <==> t is WritingMeta,
        a is Done <==> t is Finished,
        a matches FetchAction::WriteData(text) ==> (t matches FetchState::WritingData {
            content,
            ..
        } && content@ == text@),
        t matches FetchState::WritingMeta { content } ==> (s matches FetchState::WritingData {
            content: before,
            ..
        } && before@ == content@),
{
}

} // verus!
