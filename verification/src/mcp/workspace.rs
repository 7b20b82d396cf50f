//! The decisions behind the workspace tools: reading a session action, the
//! status and open reports, when diagnostics need a refresh and when they have
//! settled, the retries of the first symbol listing and the filling of the
//! symbol index from it, and which directories a source scan skips.
use vstd::prelude::*;
use crate::text::{decimal, split_words, text_eq, trim, trimmed, usize_text, words};
use crate::lsp::lifecycle::ServerStatus;
use crate::lsp::types::SymbolInformation;
use crate::resolver::index::{SymbolEntry, SymbolIndex};

verus! {

/// What a session action asks for.
#[derive(Debug, PartialEq, Eq)]
pub enum SessionAction {
    /// `open PATH`: open the workspace at `PATH`.
    Open(String),
    /// `status`: report the server status.
    Status,
    /// `close`: close the workspace.
    Close,
    /// Anything else, answered with this message.
    Refused(String),
}

/// The message that refuses a session action made of the words `w`, or
/// `None` when the action is one of `open PATH`, `status` and `close` (words
/// after those that are needed are ignored).
pub open spec fn session_refusal(w: Seq<Seq<char>>) -> Option<Seq<char>> {
    if w.len() == 0 {
        Some("! empty session action."@)
    } else if w[0] == "open"@ {
        if w.len() < 2 {
            Some("! open requires a path."@)
        } else {
            None
        }
    } else if w[0] == "status"@ || w[0] == "close"@ {
        None
    } else {
        Some("! unknown session action '"@ + w[0] + "'."@)
    }
}

/// `r` is what the session action made of the words `w` asks for.
pub open spec fn session_action_of(w: Seq<Seq<char>>, r: SessionAction) -> bool {
    match r {
        SessionAction::Open(p) => w.len() >= 2 && w[0] == "open"@ && p@ == w[1],
        SessionAction::Status => w.len() >= 1 && w[0] == "status"@,
        SessionAction::Close => w.len() >= 1 && w[0] == "close"@,
        SessionAction::Refused(m) => session_refusal(w) == Some(m@),
    }
}

/// Reads a session action: its first word names it, and `open` takes the
/// path as its second word.
pub fn session_action(action: &str) -> (r: SessionAction)
    ensures
        session_action_of(words(action@), r),
        r is Refused <==> session_refusal(words(action@)) is Some,
{
    let w = split_words(action);
    let ghost ws = words(action@);
    assert(w@.len() == ws.len());
    if w.len() == 0 {
        return SessionAction::Refused(String::from_str("! empty session action."));
    }
    assert(w@[0]@ == ws[0]);
    let first = w[0].as_str();
    if text_eq(first, "open") {
        if w.len() < 2 {
            return SessionAction::Refused(String::from_str("! open requires a path."));
        }
        assert(w@[1]@ == ws[1]);
        return SessionAction::Open(w[1].clone());
    }
    if text_eq(first, "status") {
        return SessionAction::Status;
    }
    if text_eq(first, "close") {
        return SessionAction::Close;
    }
    let mut m = String::from_str("! unknown session action '");
    m.append(first);
    m.append("'.");
    SessionAction::Refused(m)
}

/// The word that names a server status in reports.
pub open spec fn status_label(s: ServerStatus) -> Seq<char> {
    match s {
        ServerStatus::NotStarted => "not started"@,
        ServerStatus::Starting => "starting"@,
        ServerStatus::Ready => "ready"@,
        ServerStatus::Indexing => "indexing"@,
        ServerStatus::Crashed => "crashed"@,
        ServerStatus::Stopped => "stopped"@,
    }
}

/// The word that names `s` in reports.
pub fn status_text(s: ServerStatus) -> (r: &'static str)
    ensures
        r@ == status_label(s),
{
    match s {
        ServerStatus::NotStarted => "not started",
        ServerStatus::Starting => "starting",
        ServerStatus::Ready => "ready",
        ServerStatus::Indexing => "indexing",
        ServerStatus::Crashed => "crashed",
        ServerStatus::Stopped => "stopped",
    }
}

/// The status report: the server status, the workspace, how many source
/// files and symbols it has, and the diagnostics counts.
pub open spec fn status_report_text(
    status: ServerStatus,
    workspace: Seq<char>,
    files: nat,
    symbols: nat,
    errors: nat,
    warnings: nat,
) -> Seq<char> {
    "Status: "@ + status_label(status) + "\nWorkspace: "@ + workspace + "\nFiles: "@ + decimal(files)
        + "\nSymbols: "@ + decimal(symbols) + "\nDiagnostics: "@ + decimal(errors) + " errors, "@
        + decimal(warnings) + " warnings"@
}

/// Writes the status report.
pub fn status_report(
    status: ServerStatus,
    workspace: &str,
    files: usize,
    symbols: usize,
    errors: usize,
    warnings: usize,
) -> (r: String)
    ensures
        r@ == status_report_text(
            status,
            workspace@,
            files as nat,
            symbols as nat,
            errors as nat,
            warnings as nat,
        ),
{
    let mut r = String::from_str("Status: ");
    r.append(status_text(status));
    r.append("\nWorkspace: ");
    r.append(workspace);
    r.append("\nFiles: ");
    r.append(usize_text(files).as_str());
    r.append("\nSymbols: ");
    r.append(usize_text(symbols).as_str());
    r.append("\nDiagnostics: ");
    r.append(usize_text(errors).as_str());
    r.append(" errors, ");
    r.append(usize_text(warnings).as_str());
    r.append(" warnings");
    r
}

/// The answer to opening a workspace.
pub open spec fn open_report_text(path: Seq<char>, files: nat, symbols: nat) -> Seq<char> {
    "Opened workspace: "@ + path + " ("@ + decimal(files) + " files, "@ + decimal(symbols)
        + " symbols)"@
}

/// Writes the answer to opening the workspace at `path`.
pub fn open_report(path: &str, files: usize, symbols: usize) -> (r: String)
    ensures
        r@ == open_report_text(path@, files as nat, symbols as nat),
{
    let mut r = String::from_str("Opened workspace: ");
    r.append(path);
    r.append(" (");
    r.append(usize_text(files).as_str());
    r.append(" files, ");
    r.append(usize_text(symbols).as_str());
    r.append(" symbols)");
    r
}

/// Whether `s` begins with `prefix`.
fn has_prefix(s: &str, prefix: &str) -> (r: bool)
    ensures
        r == prefix@.is_prefix_of(s@),
{
    let sv = crate::text::chars_of(s);
    let pv = crate::text::chars_of(prefix);
    if pv.len() > sv.len() {
        return false;
    }
    let mut i: usize = 0;
    while i < pv.len()
        invariant
            pv@ == prefix@,
            sv@ == s@,
            pv@.len() <= sv@.len(),
            i <= pv@.len(),
            forall|j: int| 0 <= j < i ==> pv@[j] == sv@[j],
        decreases pv@.len() - i,
    {
        if pv[i] != sv[i] {
            return false;
        }
        i += 1;
    }
    assert(pv@ =~= sv@.take(pv@.len() as int));
    true
}

/// What `url::Url::parse` gives for a string: the serialization of the URL
/// it reads, or the `Display` text of its error.
pub uninterp spec fn url_parse_text(s: Seq<char>) -> Result<Seq<char>, Seq<char>>;

/// `url::Url::parse`, with the URL turned into its serialization and the
/// error into its `Display` text. Its result is named `url_parse_text`; the
/// WHATWG parsing rules it follows are left unsaid.
#[verifier::external_body]
fn parse_url(s: &str) -> (r: Result<String, String>)
    ensures
        match r {
            Ok(u) => url_parse_text(s@) == Ok::<Seq<char>, Seq<char>>(u@),
            Err(e) => url_parse_text(s@) == Err::<Seq<char>, Seq<char>>(e@),
        },
{
    match url::Url::parse(s) {
        Ok(u) => Ok(String::from(u)),
        Err(e) => Err(e.to_string()),
    }
}

/// A path that some platform may take as absolute: it begins with `/` or
/// `\`, or names a drive (`X:`).
pub open spec fn absolute_looking(path: Seq<char>) -> bool {
    path.len() > 0 && (path[0] == '/' || path[0] == '\\' || (path.len() >= 2 && path[1] == ':'))
}

/// An ASCII letter or digit.
pub open spec fn ascii_alphanumeric(c: char) -> bool {
    ('a' <= c && c <= 'z') || ('A' <= c && c <= 'Z') || ('0' <= c && c <= '9')
}

/// `path` has no backslash and ends in `/` followed by the name `w`, made of
/// ASCII letters and digits only.
pub open spec fn ends_in_plain_name(path: Seq<char>, w: Seq<char>) -> bool {
    &&& w.len() > 0
    &&& forall|i: int| 0 <= i < w.len() ==> ascii_alphanumeric(#[trigger] w[i])
    &&& ("/"@ + w).is_suffix_of(path)
    &&& forall|i: int| 0 <= i < path.len() ==> #[trigger] path[i] != '\\'
}

/// What holds, on every platform, of the URL that `url::Url::from_file_path`
/// gives for `path`: it is a `file://` URL, the path looks absolute (relative
/// paths are refused), and a last name of plain letters and digits ends the URL
/// after a `/` (such a name is not percent-encoded).
pub open spec fn file_url_of(path: Seq<char>, url: Seq<char>) -> bool {
    &&& "file://"@.is_prefix_of(url)
    &&& absolute_looking(path)
    &&& forall|w: Seq<char>| #[trigger] ends_in_plain_name(path, w) ==> ("/"@ + w).is_suffix_of(url)
}

/// `url::Url::from_file_path`, with the URL turned into its serialization.
/// As its source shows, on every platform: it refuses a path that is not
/// absolute, its URL begins with `file://`, and the path's components follow
/// as `/`-separated segments, percent-encoded (which leaves letters and digits
/// as they are); this is what `file_url_of` states. Which paths are absolute,
/// how separators and prefixes are read and how other characters are escaped
/// differ by platform and are left unsaid.
#[verifier::external_body]
fn url_from_file_path(p: &str) -> (r: Option<String>)
    ensures
        r matches Some(u) ==> file_url_of(p@, u@),
{
    match url::Url::from_file_path(p) {
        Ok(u) => Some(String::from(u)),
        Err(()) => None,
    }
}

/// The URI of the workspace at `path`: a `file://` URI is parsed as a URL
/// (answered with `! invalid URI: <error>` when that fails); anything else is
/// taken as a file path and turned into a `file://` URL (answered with
/// `! invalid path: <path>` when that fails).
pub fn workspace_uri(path: &str) -> (r: Result<String, String>)
    ensures
        "file://"@.is_prefix_of(path@) ==> match url_parse_text(path@) {
            Ok(u) => r matches Ok(v) && v@ == u,
            Err(e) => r matches Err(m) && m@ == "! invalid URI: "@ + e,
        },
        !"file://"@.is_prefix_of(path@) ==> match r {
            Ok(u) => file_url_of(path@, u@),
            Err(m) => m@ == "! invalid path: "@ + path@,
        },
{
    if is_file_uri(path) {
        match parse_url(path) {
            Ok(u) => Ok(u),
            Err(e) => {
                let mut m = String::from_str("! invalid URI: ");
                m.append(e.as_str());
                Err(m)
            },
        }
    } else {
        match url_from_file_path(path) {
            Some(u) => Ok(u),
            None => {
                let mut m = String::from_str("! invalid path: ");
                m.append(path);
                Err(m)
            },
        }
    }
}

/// The texts of some optional strings.
pub open spec fn option_views(s: Seq<Option<String>>) -> Seq<Option<Seq<char>>> {
    s.map_values(|o: Option<String>| match o {
        Some(x) => Some(x@),
        None => None,
    })
}

/// The values present among `s`, in order.
pub open spec fn present(s: Seq<Option<Seq<char>>>) -> Seq<Seq<char>>
    decreases s.len(),
{
    if s.len() == 0 {
        Seq::empty()
    } else {
        present(s.drop_last()) + match s.last() {
            Some(u) => seq![u],
            None => Seq::empty(),
        }
    }
}

/// The URLs that came back, in order, leaving out the paths that gave none.
pub fn collect_uris(results: Vec<Option<String>>) -> (r: Vec<String>)
    ensures
        r@.map_values(|x: String| x@) == present(option_views(results@)),
{
    let ghost rs = option_views(results@);
    let mut r: Vec<String> = Vec::new();
    let ghost mut k: int = 0;
    for o in it: results
        invariant
            rs == option_views(it.seq()),
            r@.map_values(|x: String| x@) == present(rs.take(it.index() as int)),
    {
        let ghost i = it.index() as int;
        let ghost before = r@.map_values(|x: String| x@);
        assert(rs.take(i + 1).drop_last() =~= rs.take(i));
        match o {
            Some(u) => {
                r.push(u);
                assert(r@.map_values(|x: String| x@) =~= before + seq![rs[i]->Some_0]);
            },
            None => {
                assert(before + Seq::<Seq<char>>::empty() =~= before);
            },
        }
    }
    assert(rs.take(rs.len() as int) =~= rs);
    r
}

/// The `file://` URLs of the given file paths, in order; paths that cannot be
/// turned into a URL are left out.
pub fn file_uris(paths: Vec<String>) -> (r: Vec<String>)
    ensures
        exists|results: Seq<Option<Seq<char>>>|
            #![trigger present(results)]
            results.len() == paths@.len() && (forall|i: int|
                0 <= i < results.len() ==> (#[trigger] results[i] matches Some(u) ==> file_url_of(
                    paths@[i]@,
                    u,
                ))) && r@.map_values(|x: String| x@) == present(results),
{
    let mut results: Vec<Option<String>> = Vec::new();
    let mut i: usize = 0;
    while i < paths.len()
        invariant
            i <= paths@.len(),
            results@.len() == i,
            forall|j: int|
                0 <= j < i ==> (#[trigger] option_views(results@)[j] matches Some(u) ==> file_url_of(
                    paths@[j]@,
                    u,
                )),
        decreases paths@.len() - i,
    {
        let got = url_from_file_path(paths[i].as_str());
        let ghost prev = results@;
        results.push(got);
        proof {
            assert(results@ == prev.push(got));
            assert forall|j: int| 0 <= j < i + 1 implies (#[trigger] option_views(results@)[j] matches Some(
                v,
            ) ==> file_url_of(paths@[j]@, v)) by {
                if j < i {
                    assert(option_views(results@)[j] == option_views(prev)[j]);
                } else {
                    assert(results@[j] == got);
                }
            }
        }
        i += 1;
    }
    let ghost views = option_views(results@);
    let r = collect_uris(results);
    assert(present(views) == r@.map_values(|x: String| x@));
    r
}

/// Whether `path` is given as a `file://` URI rather than a file path.
pub fn is_file_uri(path: &str) -> (r: bool)
    ensures
        r == "file://"@.is_prefix_of(path@),
{
    has_prefix(path, "file://")
}

/// Whether a query calls for fresh diagnostics first: it does when it is a
/// `diagnose` or an `unused` query.
pub fn query_wants_refresh(input: &str) -> (r: bool)
    ensures
        r == ("diagnose"@.is_prefix_of(trimmed(input@)) || "unused"@.is_prefix_of(trimmed(input@))),
{
    let t = trim(input);
    has_prefix(t, "diagnose") || has_prefix(t, "unused")
}

/// Whether diagnostics need a refresh, given the newest modification time
/// of a source file and the time of the last refresh (both in nanoseconds
/// since the Unix epoch): when a source file is newer than the last refresh,
/// or when there are source files and no refresh yet.
pub fn needs_refresh(newest: Option<u128>, last_reload: Option<u128>) -> (r: bool)
    ensures
        r == match (newest, last_reload) {
            (Some(n), Some(l)) => n > l,
            (Some(_), None) => true,
            (None, _) => false,
        },
{
    match (newest, last_reload) {
        (Some(n), Some(l)) => n > l,
        (Some(_), None) => true,
        (None, _) => false,
    }
}

/// The state of waiting for diagnostics to settle after a refresh.
pub struct SettleModel {
    /// The count seen last (zero before the first).
    pub prev: nat,
    /// For how many observations in a row the count has stayed the same
    /// since a non-zero count was seen.
    pub stable: nat,
    /// Whether a non-zero count has been seen.
    pub seen_nonzero: bool,
}

/// The settle state before any observation.
pub open spec fn settle_start() -> SettleModel {
    SettleModel { prev: 0, stable: 0, seen_nonzero: false }
}

/// The settle state after observing `count` diagnostics.
pub open spec fn settle_step(s: SettleModel, count: nat) -> SettleModel {
    let seen = s.seen_nonzero || count > 0;
    SettleModel {
        prev: count,
        stable: if seen && count == s.prev { s.stable + 1 } else { 0 },
        seen_nonzero: seen,
    }
}

/// The settle state after observing the counts `h` in order.
pub open spec fn settle_run(h: Seq<nat>) -> SettleModel
    decreases h.len(),
{
    if h.len() == 0 {
        settle_start()
    } else {
        settle_step(settle_run(h.drop_last()), h.last())
    }
}

/// Diagnostics count as settled once the count has stayed the same for two
/// observations in a row after a non-zero count was seen.
pub open spec fn settled(s: SettleModel) -> bool {
    s.stable >= 2
}

/// Waiting for diagnostics to settle: fed the diagnostics count after each
/// pause, it says when the count has settled.
pub struct DiagnosticsSettle {
    prev_count: usize,
    stable_rounds: u32,
    seen_nonzero: bool,
}

impl View for DiagnosticsSettle {
    type V = SettleModel;

    closed spec fn view(&self) -> SettleModel {
        SettleModel {
            prev: self.prev_count as nat,
            stable: self.stable_rounds as nat,
            seen_nonzero: self.seen_nonzero,
        }
    }
}

impl DiagnosticsSettle {
    /// Waiting begins with no count seen.
    pub fn new() -> (s: Self)
        ensures
            s@ == settle_start(),
    {
        DiagnosticsSettle { prev_count: 0, stable_rounds: 0, seen_nonzero: false }
    }

    /// Records a diagnostics count; whether the counts have now settled.
    pub fn observe(&mut self, count: usize) -> (done: bool)
        requires
            old(self)@.stable < u32::MAX,
        ensures
            final(self)@ == settle_step(old(self)@, count as nat),
            done == settled(final(self)@),
    {
        if count > 0 {
            self.seen_nonzero = true;
        }
        if self.seen_nonzero && count == self.prev_count {
            self.stable_rounds = self.stable_rounds + 1;
        } else {
            self.stable_rounds = 0;
        }
        self.prev_count = count;
        self.stable_rounds >= 2
    }
}

proof fn lemma_settle_run(h: Seq<nat>)
    ensures
        settle_run(h).prev == (if h.len() == 0 { 0 } else { h.last() }),
        settle_run(h).seen_nonzero <==> (exists|i: int| 0 <= i < h.len() && h[i] > 0),
        settle_run(h).stable < h.len() || h.len() == 0,
        forall|j: int|
            1 <= j <= settle_run(h).stable ==> j + 1 <= h.len() && #[trigger] h[h.len() - j]
                == h[h.len() - j - 1],
    decreases h.len(),
{
    if h.len() > 0 {
        let p = h.drop_last();
        lemma_settle_run(p);
        let s = settle_run(p);
        let c = h.last();
        assert forall|i: int| 0 <= i < p.len() implies p[i] == h[i] by {}
        if exists|i: int| 0 <= i < p.len() && p[i] > 0 {
            let i = choose|i: int| 0 <= i < p.len() && p[i] > 0;
            assert(h[i] > 0);
        }
        if exists|i: int| 0 <= i < h.len() && h[i] > 0 {
            let i = choose|i: int| 0 <= i < h.len() && h[i] > 0;
            if i < p.len() {
                assert(p[i] > 0);
            }
        }
        if settle_run(h).stable > 0 {
            assert(p.len() > 0) by {
                if p.len() == 0 {
                    assert(s.prev == 0);
                    assert(c == 0);
                    assert(!(exists|i: int| 0 <= i < h.len() && h[i] > 0)) by {
                        assert forall|i: int| 0 <= i < h.len() implies h[i] <= 0 by {
                            assert(i == 0);
                        }
                    }
                }
            }
            assert forall|j: int| 1 <= j <= settle_run(h).stable implies j + 1 <= h.len()
                && #[trigger] h[h.len() - j] == h[h.len() - j - 1] by {
                if j == 1 {
                    assert(h[h.len() - 1] == c);
                    assert(h[h.len() - 2] == p.last());
                } else {
                    let k = j - 1;
                    assert(1 <= k <= s.stable);
                    assert(p[p.len() - k] == p[p.len() - k - 1]);
                    assert(h[h.len() - j] == p[p.len() - k]);
                    assert(h[h.len() - j - 1] == p[p.len() - k - 1]);
                }
            }
        }
    }
}

/// Diagnostics count as settled only once a non-zero count has been seen and
/// the last three counts are the same.
pub proof fn law_settled_after_three_equal_counts(h: Seq<nat>)
    requires
        settled(settle_run(h)),
    ensures
        h.len() >= 3,
        h[h.len() - 1] == h[h.len() - 2],
        h[h.len() - 2] == h[h.len() - 3],
        exists|i: int| 0 <= i < h.len() && h[i] > 0,
{
    lemma_settle_run(h);
    let n = h.len();
    assert(h[n - 1] == h[n - 1 - 1]);
    assert(h[n - 2] == h[n - 2 - 1]);
}

/// How many times the first symbol listing is tried.
pub const INDEX_ATTEMPTS: usize = 10;

/// What follows an attempt at the first symbol listing.
#[derive(Debug, Clone, Copy, PartialEq, Eq, Structural)]
pub enum IndexStep {
    /// Symbols came back: index them.
    Done,
    /// None came back (or the request failed): wait and try again.
    Retry,
    /// None came back on the last attempt: index nothing.
    GiveUp,
}

/// What follows attempt number `attempt` (from zero) of the first symbol
/// listing, which returned `found` symbols (zero when the request failed).
pub fn index_step(attempt: usize, found: usize) -> (r: IndexStep)
    ensures
        r == (if found > 0 {
            IndexStep::Done
        } else if attempt + 1 < INDEX_ATTEMPTS {
            IndexStep::Retry
        } else {
            IndexStep::GiveUp
        }),
{
    if found > 0 {
        IndexStep::Done
    } else if attempt < INDEX_ATTEMPTS - 1 {
        IndexStep::Retry
    } else {
        IndexStep::GiveUp
    }
}

/// The index entry for a listed symbol: its location's range serves as
/// both its range and its selection range.
pub open spec fn entry_of(s: SymbolInformation) -> SymbolEntry {
    SymbolEntry {
        name: s.name,
        kind: s.kind,
        container_name: s.container_name,
        uri: s.location.uri,
        range: s.location.range,
        selection_range: s.location.range,
    }
}

/// Adds the listed symbols to the index, in order; how many there were.
pub fn index_symbols(index: &mut SymbolIndex, symbols: Vec<SymbolInformation>) -> (n: usize)
    ensures
        n == symbols@.len(),
        final(index)@ == old(index)@ + symbols@.map_values(|s: SymbolInformation| entry_of(s)),
{
    let n = symbols.len();
    let ghost start = index@;
    for s in it: symbols
        invariant
            index@ == start + it.seq().take(it.index() as int).map_values(
                |s: SymbolInformation| entry_of(s),
            ),
    {
        let ghost before = index@;
        let ghost k = it.index();
        let entry = SymbolEntry {
            name: s.name,
            kind: s.kind,
            container_name: s.container_name,
            uri: s.location.uri,
            range: s.location.range,
            selection_range: s.location.range,
        };
        index.insert(entry);
        proof {
            assert(it.seq().take(k + 1).map_values(|s: SymbolInformation| entry_of(s)) =~= it.seq().take(
                k as int,
            ).map_values(|s: SymbolInformation| entry_of(s)).push(entry_of(it.seq()[k as int])));
        }
    }
    n
}

/// Whether a source scan skips a directory of this name: `target` and
/// hidden directories are skipped.
pub fn should_skip_dir(name: &str) -> (r: bool)
    ensures
        r == (name@ == "target"@ || (name@.len() > 0 && name@[0] == '.')),
{
    let hidden = has_prefix(name, ".");
    proof {
        reveal_strlit(".");
        assert("."@ =~= seq!['.']);
        if name@.len() > 0 {
            assert(name@.subrange(0, 1) =~= seq![name@[0]]);
            if hidden {
                assert(name@.subrange(0, 1)[0] == "."@[0]);
            }
            if name@[0] == '.' {
                assert("."@ =~= name@.subrange(0, 1));
            }
        }
    }
    text_eq(name, "target") || hidden
}

} // verus!
