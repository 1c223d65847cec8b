//! Directory scanning: classification of directory entries as executable tool
//! candidates, and resolution of each candidate's metadata source.
//!
//! The scanner itself never touches the filesystem. A caller walks one
//! directory level, observes each entry (its path, whether it is a directory,
//! whether its execute permission is set, and whether a sidecar metadata file
//! beside it is readable), and hands those observations to
//! [`DirectoryScanner::scan_entries`]. Every decision — which entries become
//! tools, where their metadata lives, which problems are recorded — is made
//! here and is verified.
//!
//! Paths are plain strings; the text after the last `/` is taken as the file
//! name, as in the paths produced by listing a directory.

use vstd::prelude::*;

verus! {

use crate::text::{ascii_lower_char, lower_char, spec_lower};

/// Where a discovered tool's metadata lives.
#[derive(Debug, Clone)]
pub enum MetadataSource {
    /// Metadata is embedded in the executable file itself.
    Embedded(String),
    /// Metadata is in a sidecar `.yaml` file.
    Sidecar(String),
}

/// The mathematical shape of a [`MetadataSource`].
pub enum MetadataSourceView {
    Embedded(Seq<char>),
    Sidecar(Seq<char>),
}

impl View for MetadataSource {
    type V = MetadataSourceView;

    open spec fn view(&self) -> MetadataSourceView {
        match self {
            MetadataSource::Embedded(p) => MetadataSourceView::Embedded(p@),
            MetadataSource::Sidecar(p) => MetadataSourceView::Sidecar(p@),
        }
    }
}

impl PartialEq for MetadataSource {
    fn eq(&self, other: &Self) -> bool {
        match (self, other) {
            (MetadataSource::Embedded(a), MetadataSource::Embedded(b)) => *a == *b,
            (MetadataSource::Sidecar(a), MetadataSource::Sidecar(b)) => *a == *b,
            _ => false,
        }
    }
}

impl vstd::std_specs::cmp::PartialEqSpecImpl for MetadataSource {
    open spec fn obeys_eq_spec() -> bool {
        true
    }

    open spec fn eq_spec(&self, other: &Self) -> bool {
        self@ == other@
    }
}

/// One tool candidate found on disk: the executable and where its metadata
/// description is expected to live.
#[derive(Debug, Clone)]
pub struct DiscoveredTool {
    /// Path to the executable file.
    pub executable_path: String,
    /// Where to find the tool's metadata.
    pub metadata_source: MetadataSource,
}

/// The mathematical shape of a [`DiscoveredTool`].
pub struct DiscoveredToolView {
    pub executable_path: Seq<char>,
    pub metadata_source: MetadataSourceView,
}

impl View for DiscoveredTool {
    type V = DiscoveredToolView;

    open spec fn view(&self) -> DiscoveredToolView {
        DiscoveredToolView {
            executable_path: self.executable_path@,
            metadata_source: self.metadata_source@,
        }
    }
}

impl PartialEq for DiscoveredTool {
    fn eq(&self, other: &Self) -> bool {
        self.executable_path == other.executable_path && self.metadata_source
            == other.metadata_source
    }
}

impl vstd::std_specs::cmp::PartialEqSpecImpl for DiscoveredTool {
    open spec fn obeys_eq_spec() -> bool {
        true
    }

    open spec fn eq_spec(&self, other: &Self) -> bool {
        self@ == other@
    }
}

/// A problem met while scanning.
#[derive(Debug, Clone)]
pub enum ScanError {
    /// An entry (or the directory itself) could not be read; carries the
    /// underlying error's description.
    IoError(String),
    /// A path exists but its metadata could not be accessed.
    PermissionDenied { path: String },
}

/// The mathematical shape of a [`ScanError`].
pub enum ScanErrorView {
    IoError(Seq<char>),
    PermissionDenied { path: Seq<char> },
}

impl View for ScanError {
    type V = ScanErrorView;

    open spec fn view(&self) -> ScanErrorView {
        match self {
            ScanError::IoError(m) => ScanErrorView::IoError(m@),
            ScanError::PermissionDenied { path } => ScanErrorView::PermissionDenied { path: path@ },
        }
    }
}

/// What a caller observed about a candidate's sidecar `.yaml` path.
#[derive(Debug, Clone, Copy, PartialEq, Eq, Structural)]
pub enum SidecarStatus {
    /// No file exists at the sidecar path.
    Absent,
    /// The sidecar file exists and its metadata is accessible.
    Readable,
    /// The sidecar file exists but its metadata cannot be accessed.
    Unreadable,
}

/// What a caller observed about one directory entry.
#[derive(Debug, Clone)]
pub struct EntryInfo {
    /// Path of the entry.
    pub path: String,
    /// Whether the entry is a directory.
    pub is_dir: bool,
    /// Whether the entry's execute permission is set for the caller.
    pub execute_bit: bool,
    /// What probing the entry's sidecar path showed.
    pub sidecar: SidecarStatus,
}

/// The mathematical shape of an [`EntryInfo`].
pub struct EntryInfoView {
    pub path: Seq<char>,
    pub is_dir: bool,
    pub execute_bit: bool,
    pub sidecar: SidecarStatus,
}

impl View for EntryInfo {
    type V = EntryInfoView;

    open spec fn view(&self) -> EntryInfoView {
        EntryInfoView {
            path: self.path@,
            is_dir: self.is_dir,
            execute_bit: self.execute_bit,
            sidecar: self.sidecar,
        }
    }
}

/// One observation made while listing a directory: either an entry, or a
/// failure to read one.
#[derive(Debug, Clone)]
pub enum ScanEvent {
    /// An entry could not be read while iterating; carries the error's
    /// description.
    Failed(String),
    /// An entry was read.
    Entry(EntryInfo),
}

/// The mathematical shape of a [`ScanEvent`].
pub enum ScanEventView {
    Failed(Seq<char>),
    Entry(EntryInfoView),
}

impl View for ScanEvent {
    type V = ScanEventView;

    open spec fn view(&self) -> ScanEventView {
        match self {
            ScanEvent::Failed(m) => ScanEventView::Failed(m@),
            ScanEvent::Entry(i) => ScanEventView::Entry(i@),
        }
    }
}

// ---------------------------------------------------------------------------
// Path handling
// ---------------------------------------------------------------------------

/// The index where the file name begins: just after the last `/`.
pub open spec fn file_name_start(p: Seq<char>) -> int
    decreases p.len(),
{
    if p.len() == 0 {
        0
    } else if p.last() == '/' {
        p.len() as int
    } else {
        file_name_start(p.drop_last())
    }
}

/// The index of the last `.` after the last `/`, if any.
pub open spec fn last_dot(p: Seq<char>) -> Option<int>
    decreases p.len(),
{
    if p.len() == 0 {
        None
    } else if p.last() == '/' {
        None
    } else if p.last() == '.' {
        Some(p.len() - 1)
    } else {
        last_dot(p.drop_last())
    }
}

/// Where the replaced extension would begin: the last `.` of the file name,
/// unless it is the name's first character (a leading dot marks a hidden
/// file, not an extension); otherwise the path's length.
pub open spec fn stem_end(p: Seq<char>) -> int {
    match last_dot(p) {
        Some(j) => if j > file_name_start(p) {
            j
        } else {
            p.len() as int
        },
        None => p.len() as int,
    }
}

/// The extension of the path's file name, if any: the text after `stem_end`'s
/// dot.
pub open spec fn spec_extension(p: Seq<char>) -> Option<Seq<char>> {
    if stem_end(p) < p.len() {
        Some(p.subrange(stem_end(p) + 1, p.len() as int))
    } else {
        None
    }
}

/// The sibling path obtained by replacing the extension with `.yaml` (or
/// appending `.yaml` when there is none).
pub open spec fn spec_sidecar_path(p: Seq<char>) -> Seq<char> {
    p.subrange(0, stem_end(p)) + seq!['.', 'y', 'a', 'm', 'l']
}

pub proof fn lemma_file_name_start(p: Seq<char>)
    ensures
        0 <= file_name_start(p) <= p.len(),
        forall|k: int| file_name_start(p) <= k < p.len() ==> p[k] != '/',
        file_name_start(p) > 0 ==> p[file_name_start(p) - 1] == '/',
    decreases p.len(),
{
    if p.len() != 0 && p.last() != '/' {
        lemma_file_name_start(p.drop_last());
        assert forall|k: int| file_name_start(p) <= k < p.len() implies p[k] != '/' by {
            if k < p.len() - 1 {
                assert(p.drop_last()[k] == p[k]);
            }
        }
    }
}

pub proof fn lemma_last_dot(p: Seq<char>)
    ensures
        match last_dot(p) {
            Some(j) => 0 <= j < p.len() && p[j] == '.' && file_name_start(p) <= j,
            None => true,
        },
    decreases p.len(),
{
    if p.len() != 0 && p.last() != '/' {
        lemma_file_name_start(p.drop_last());
        if p.last() != '.' {
            lemma_last_dot(p.drop_last());
            if last_dot(p) is Some {
                let j = last_dot(p)->Some_0;
                assert(p.drop_last()[j] == p[j]);
            }
        }
    }
}

/// Find `file_name_start` of the path.
fn find_name_start(path: &str) -> (r: usize)
    ensures
        r as int == file_name_start(path@),
        r <= path@.len(),
{
    let n = path.unicode_len();
    let mut i: usize = n;
    proof {
        assert(path@.subrange(0, n as int) =~= path@);
    }
    while i > 0
        invariant
            i <= n,
            n == path@.len(),
            file_name_start(path@) == file_name_start(path@.subrange(0, i as int)),
        decreases i,
    {
        if path.get_char(i - 1) == '/' {
            proof {
                assert(path@.subrange(0, i as int).last() == '/');
            }
            return i;
        }
        proof {
            assert(path@.subrange(0, i as int).drop_last() =~= path@.subrange(0, i - 1));
        }
        i = i - 1;
    }
    proof {
        assert(path@.subrange(0, 0).len() == 0);
    }
    0
}

/// Find `stem_end` of the path.
fn find_stem_end(path: &str) -> (r: usize)
    ensures
        r as int == stem_end(path@),
        r <= path@.len(),
{
    let n = path.unicode_len();
    let start = find_name_start(path);
    proof {
        lemma_file_name_start(path@);
    }
    let mut i: usize = n;
    proof {
        assert(path@.subrange(0, n as int) =~= path@);
    }
    while i > start
        invariant
            start <= i <= n,
            n == path@.len(),
            start as int == file_name_start(path@),
            forall|k: int| file_name_start(path@) <= k < path@.len() ==> path@[k] != '/',
            last_dot(path@) == last_dot(path@.subrange(0, i as int)),
        decreases i,
    {
        let c = path.get_char(i - 1);
        if c == '.' {
            proof {
                assert(path@.subrange(0, i as int).last() == '.');
                assert(last_dot(path@) == Some(i - 1));
            }
            if i - 1 > start {
                return i - 1;
            } else {
                return n;
            }
        }
        proof {
            assert(path@.subrange(0, i as int).last() != '/');
            assert(path@.subrange(0, i as int).drop_last() =~= path@.subrange(0, i - 1));
        }
        i = i - 1;
    }
    proof {
        if start > 0 {
            assert(path@.subrange(0, start as int).last() == '/');
        } else {
            assert(path@.subrange(0, 0).len() == 0);
        }
        assert(last_dot(path@) is None);
    }
    n
}

/// The sibling path obtained by replacing the file name's extension with
/// `.yaml` (or appending `.yaml` when there is none).
pub fn sidecar_path(path: &str) -> (r: String)
    ensures
        r@ == spec_sidecar_path(path@),
{
    let j = find_stem_end(path);
    let stem = path.substring_char(0, j);
    let r = String::from_str(stem).concat(".yaml");
    proof {
        reveal_strlit(".yaml");
        assert(r@ =~= spec_sidecar_path(path@));
    }
    r
}

// ---------------------------------------------------------------------------
// Classification
// ---------------------------------------------------------------------------

/// Whether the extension, lowercased, is on the allow-list of well-known
/// executable extensions.
pub open spec fn spec_is_executable_extension(ext: Seq<char>) -> bool {
    ||| spec_lower(ext) == "exe"@
    ||| spec_lower(ext) == "bat"@
    ||| spec_lower(ext) == "cmd"@
    ||| spec_lower(ext) == "ps1"@
    ||| spec_lower(ext) == "sh"@
}

/// Whether a non-directory entry counts as a tool candidate: its execute bit
/// is set, or its file name carries a well-known executable extension.
pub open spec fn spec_is_candidate(p: Seq<char>, is_dir: bool, execute_bit: bool) -> bool {
    &&& !is_dir
    &&& (execute_bit || match spec_extension(p) {
        Some(ext) => spec_is_executable_extension(ext),
        None => false,
    })
}

/// Whether the file name's extension marks the file as executable: the
/// fallback used for entries whose execute bit is not set. Entries without an
/// extension have no such fallback.
pub fn check_executable_by_extension(path: &str) -> (r: bool)
    ensures
        r == match spec_extension(path@) {
            Some(ext) => spec_is_executable_extension(ext),
            None => false,
        },
{
    let n = path.unicode_len();
    let j = find_stem_end(path);
    if j == n {
        return false;
    }
    let ghost ext = spec_extension(path@)->Some_0;
    proof {
        assert(ext =~= path@.subrange(j + 1, n as int));
    }
    let len = n - j - 1;
    if len == 2 {
        let c0 = lower_char(path.get_char(j + 1));
        let c1 = lower_char(path.get_char(j + 2));
        let r = c0 == 's' && c1 == 'h';
        proof {
            reveal_strlit("sh");
            reveal_strlit("exe");
            reveal_strlit("bat");
            reveal_strlit("cmd");
            reveal_strlit("ps1");
            if r {
                assert(spec_lower(ext) =~= "sh"@);
            } else {
                assert(spec_lower(ext)[0] == ascii_lower_char(path@[j + 1]));
                assert(spec_lower(ext)[1] == ascii_lower_char(path@[j + 2]));
                assert(spec_lower(ext) != "sh"@);
                assert(spec_lower(ext).len() == 2);
                assert(!spec_is_executable_extension(ext));
            }
        }
        r
    } else if len == 3 {
        let c0 = lower_char(path.get_char(j + 1));
        let c1 = lower_char(path.get_char(j + 2));
        let c2 = lower_char(path.get_char(j + 3));
        let r = (c0 == 'e' && c1 == 'x' && c2 == 'e') || (c0 == 'b' && c1 == 'a' && c2 == 't') || (
        c0 == 'c' && c1 == 'm' && c2 == 'd') || (c0 == 'p' && c1 == 's' && c2 == '1');
        proof {
            reveal_strlit("sh");
            reveal_strlit("exe");
            reveal_strlit("bat");
            reveal_strlit("cmd");
            reveal_strlit("ps1");
            assert(spec_lower(ext).len() == 3);
            assert(spec_lower(ext)[0] == ascii_lower_char(path@[j + 1]));
            assert(spec_lower(ext)[1] == ascii_lower_char(path@[j + 2]));
            assert(spec_lower(ext)[2] == ascii_lower_char(path@[j + 3]));
            if r {
                if c0 == 'e' && c1 == 'x' && c2 == 'e' {
                    assert(spec_lower(ext) =~= "exe"@);
                } else if c0 == 'b' && c1 == 'a' && c2 == 't' {
                    assert(spec_lower(ext) =~= "bat"@);
                } else if c0 == 'c' && c1 == 'm' && c2 == 'd' {
                    assert(spec_lower(ext) =~= "cmd"@);
                } else {
                    assert(spec_lower(ext) =~= "ps1"@);
                }
            } else {
                assert(!spec_is_executable_extension(ext));
            }
        }
        r
    } else {
        proof {
            reveal_strlit("sh");
            reveal_strlit("exe");
            reveal_strlit("bat");
            reveal_strlit("cmd");
            reveal_strlit("ps1");
            assert(spec_lower(ext).len() == len);
            assert(!spec_is_executable_extension(ext));
        }
        false
    }
}

// ---------------------------------------------------------------------------
// Scanning
// ---------------------------------------------------------------------------

/// The metadata source a candidate resolves to: the sidecar path when the
/// sidecar is readable, else the executable itself.
pub open spec fn spec_resolved_source(p: Seq<char>, sidecar: SidecarStatus) -> MetadataSourceView {
    match sidecar {
        SidecarStatus::Readable => MetadataSourceView::Sidecar(spec_sidecar_path(p)),
        _ => MetadataSourceView::Embedded(p),
    }
}

/// The tools one observed event contributes, in order.
pub open spec fn spec_event_tools(e: ScanEventView) -> Seq<DiscoveredToolView> {
    match e {
        ScanEventView::Failed(_) => Seq::empty(),
        ScanEventView::Entry(i) => if spec_is_candidate(i.path, i.is_dir, i.execute_bit) {
            seq![
                DiscoveredToolView {
                    executable_path: i.path,
                    metadata_source: spec_resolved_source(i.path, i.sidecar),
                },
            ]
        } else {
            Seq::empty()
        },
    }
}

/// The errors one observed event contributes, in order.
pub open spec fn spec_event_errors(e: ScanEventView) -> Seq<ScanErrorView> {
    match e {
        ScanEventView::Failed(m) => seq![ScanErrorView::IoError(m)],
        ScanEventView::Entry(i) => if spec_is_candidate(i.path, i.is_dir, i.execute_bit)
            && i.sidecar == SidecarStatus::Unreadable {
            seq![ScanErrorView::PermissionDenied { path: spec_sidecar_path(i.path) }]
        } else {
            Seq::empty()
        },
    }
}

/// The tools a whole sequence of observed events yields, in order.
pub open spec fn spec_scan_tools(events: Seq<ScanEventView>) -> Seq<DiscoveredToolView>
    decreases events.len(),
{
    if events.len() == 0 {
        Seq::empty()
    } else {
        spec_scan_tools(events.drop_last()) + spec_event_tools(events.last())
    }
}

/// The errors a whole sequence of observed events adds to the log, in order.
pub open spec fn spec_scan_errors(events: Seq<ScanEventView>) -> Seq<ScanErrorView>
    decreases events.len(),
{
    if events.len() == 0 {
        Seq::empty()
    } else {
        spec_scan_errors(events.drop_last()) + spec_event_errors(events.last())
    }
}

/// Whether one observed event yields exactly this discovered tool: the
/// event is a readable non-directory entry that passed the execute-bit
/// check or the extension fallback, and the tool points at the entry's path
/// and carries the metadata source its sidecar probe resolves to.
pub open spec fn spec_event_yields(e: ScanEventView, t: DiscoveredToolView) -> bool {
    match e {
        ScanEventView::Failed(_) => false,
        ScanEventView::Entry(i) => {
            &&& !i.is_dir
            &&& spec_is_candidate(i.path, i.is_dir, i.execute_bit)
            &&& t.executable_path == i.path
            &&& t.metadata_source == spec_resolved_source(i.path, i.sidecar)
        },
    }
}

/// Every discovered tool comes from one of the observed entries: an entry
/// that is not a directory and that passed the execute-bit check or the
/// extension allow-list. Directories and files failing both checks yield no
/// tool, and each accepted candidate carries the metadata source its
/// sidecar probe resolves to.
pub proof fn lemma_scan_tools_classified(events: Seq<ScanEventView>)
    ensures
        forall|k: int|
            0 <= k < spec_scan_tools(events).len() ==> exists|m: int|
                0 <= m < events.len() && spec_event_yields(
                    events[m],
                    #[trigger] spec_scan_tools(events)[k],
                ),
    decreases events.len(),
{
    if events.len() != 0 {
        lemma_scan_tools_classified(events.drop_last());
        let front = spec_scan_tools(events.drop_last());
        let tail = spec_event_tools(events.last());
        assert forall|k: int| 0 <= k < spec_scan_tools(events).len() implies exists|m: int|
            0 <= m < events.len() && spec_event_yields(
                events[m],
                #[trigger] spec_scan_tools(events)[k],
            ) by {
            if k < front.len() {
                assert(spec_scan_tools(events)[k] == front[k]);
                let m = choose|m: int|
                    0 <= m < events.drop_last().len() && spec_event_yields(
                        events.drop_last()[m],
                        front[k],
                    );
                assert(events.drop_last()[m] == events[m]);
                assert(spec_event_yields(events[m], spec_scan_tools(events)[k]));
            } else {
                assert(spec_scan_tools(events)[k] == tail[k - front.len()]);
                assert(tail.len() == 1);
                let m = events.len() - 1;
                assert(events[m] == events.last());
                assert(spec_event_yields(events[m], spec_scan_tools(events)[k]));
            }
        }
    }
}

/// Scanner that classifies directory entries to discover potential tools.
///
/// Its only state is the log of non-fatal errors, which accumulates across
/// scans until drained with [`DirectoryScanner::take_errors`].
pub struct DirectoryScanner {
    errors: Vec<ScanError>,
}

impl DirectoryScanner {
    /// The accumulated non-fatal error log.
    pub closed spec fn log(&self) -> Seq<ScanErrorView> {
        self.errors@.map_values(|e: ScanError| e@)
    }

    /// Create a new directory scanner with an empty error log.
    pub fn new() -> (scanner: Self)
        ensures
            scanner.log() == Seq::<ScanErrorView>::empty(),
    {
        let scanner = Self { errors: Vec::new() };
        proof {
            assert(scanner.log() =~= Seq::<ScanErrorView>::empty());
        }
        scanner
    }

    /// Record that an entry could not be read while iterating a directory.
    pub fn record_failed_entry(&mut self, message: String)
        ensures
            final(self).log() == old(self).log().push(ScanErrorView::IoError(message@)),
    {
        let ghost prior = self.log();
        self.errors.push(ScanError::IoError(message));
        proof {
            assert(self.log() =~= prior.push(ScanErrorView::IoError(message@)));
        }
    }

    /// Resolve where a candidate's metadata lives, given what probing its
    /// sidecar path showed. An unreadable sidecar degrades to the embedded
    /// assumption and records a `PermissionDenied` for the sidecar path.
    pub fn find_metadata_source(&mut self, executable_path: &String, sidecar: SidecarStatus) -> (r:
        MetadataSource)
        ensures
            r@ == spec_resolved_source(executable_path@, sidecar),
            final(self).log() == old(self).log() + (if sidecar == SidecarStatus::Unreadable {
                seq![ScanErrorView::PermissionDenied { path: spec_sidecar_path(executable_path@) }]
            } else {
                Seq::<ScanErrorView>::empty()
            }),
    {
        let ghost prior = self.log();
        match sidecar {
            SidecarStatus::Absent => {
                let r = MetadataSource::Embedded(executable_path.clone());
                proof {
                    assert(self.log() =~= prior + Seq::<ScanErrorView>::empty());
                }
                r
            },
            SidecarStatus::Readable => {
                let r = MetadataSource::Sidecar(sidecar_path(executable_path.as_str()));
                proof {
                    assert(self.log() =~= prior + Seq::<ScanErrorView>::empty());
                }
                r
            },
            SidecarStatus::Unreadable => {
                let sidecar_file = sidecar_path(executable_path.as_str());
                self.errors.push(ScanError::PermissionDenied { path: sidecar_file });
                let r = MetadataSource::Embedded(executable_path.clone());
                proof {
                    assert(self.log() =~= prior + seq![
                        ScanErrorView::PermissionDenied {
                            path: spec_sidecar_path(executable_path@),
                        },
                    ]);
                }
                r
            },
        }
    }

    /// Classify one readable directory entry: directories are skipped, files
    /// must pass the execute-bit check or the extension fallback, and an
    /// accepted candidate resolves its metadata source.
    pub fn check_executable(&mut self, entry: &EntryInfo) -> (r: Option<DiscoveredTool>)
        ensures
            (match r {
                Some(t) => seq![t@],
                None => Seq::<DiscoveredToolView>::empty(),
            }) == spec_event_tools(ScanEventView::Entry(entry@)),
            final(self).log() == old(self).log() + spec_event_errors(
                ScanEventView::Entry(entry@),
            ),
    {
        let ghost prior = self.log();
        if entry.is_dir {
            proof {
                assert(self.log() =~= prior + Seq::<ScanErrorView>::empty());
            }
            return None;
        }
        let accepted = entry.execute_bit || check_executable_by_extension(entry.path.as_str());
        if !accepted {
            proof {
                assert(self.log() =~= prior + Seq::<ScanErrorView>::empty());
            }
            return None;
        }
        let metadata_source = self.find_metadata_source(&entry.path, entry.sidecar);
        let tool = DiscoveredTool { executable_path: entry.path.clone(), metadata_source };
        proof {
            assert(seq![tool@] =~= spec_event_tools(ScanEventView::Entry(entry@)));
        }
        Some(tool)
    }

    /// Process the observed events of one directory listing, in order: the
    /// discovered tools are returned, and the non-fatal errors are appended
    /// to the log.
    #[verifier::loop_isolation(false)]
    pub fn scan_entries(&mut self, events: Vec<ScanEvent>) -> (tools: Vec<DiscoveredTool>)
        ensures
            tools@.map_values(|t: DiscoveredTool| t@) == spec_scan_tools(
                events@.map_values(|e: ScanEvent| e@),
            ),
            final(self).log() == old(self).log() + spec_scan_errors(
                events@.map_values(|e: ScanEvent| e@),
            ),
    {
        let ghost prior = self.log();
        let ghost evs = events@.map_values(|e: ScanEvent| e@);
        let mut tools: Vec<DiscoveredTool> = Vec::new();
        let mut i: usize = 0;
        proof {
            assert(evs.subrange(0, 0) =~= Seq::<ScanEventView>::empty());
            assert(tools@.map_values(|t: DiscoveredTool| t@) =~= Seq::<
                DiscoveredToolView,
            >::empty());
            assert(self.log() =~= prior + Seq::<ScanErrorView>::empty());
        }
        while i < events.len()
            invariant
                i <= events.len(),
                tools@.map_values(|t: DiscoveredTool| t@) == spec_scan_tools(
                    evs.subrange(0, i as int),
                ),
                self.log() == prior + spec_scan_errors(evs.subrange(0, i as int)),
            decreases events.len() - i,
        {
            let ghost done = evs.subrange(0, i as int);
            let ghost tools_before = tools@.map_values(|t: DiscoveredTool| t@);
            let ghost log_before = self.log();
            match &events[i] {
                ScanEvent::Failed(message) => {
                    self.record_failed_entry(message.clone());
                },
                ScanEvent::Entry(entry) => {
                    if let Some(tool) = self.check_executable(entry) {
                        tools.push(tool);
                    }
                },
            }
            proof {
                assert(evs.subrange(0, i + 1).drop_last() =~= done);
                assert(evs.subrange(0, i + 1).last() == evs[i as int]);
                assert(tools@.map_values(|t: DiscoveredTool| t@) =~= tools_before
                    + spec_event_tools(evs[i as int]));
                assert(self.log() =~= log_before + spec_event_errors(evs[i as int]));
                assert(self.log() =~= prior + spec_scan_errors(evs.subrange(0, i + 1)));
            }
            i = i + 1;
        }
        proof {
            assert(evs.subrange(0, events.len() as int) =~= evs);
        }
        tools
    }

    /// Take all collected errors from the scanner, leaving the log empty.
    pub fn take_errors(&mut self) -> (errors: Vec<ScanError>)
        ensures
            errors@.map_values(|e: ScanError| e@) == old(self).log(),
            final(self).log() == Seq::<ScanErrorView>::empty(),
    {
        let mut taken: Vec<ScanError> = Vec::new();
        std::mem::swap(&mut taken, &mut self.errors);
        proof {
            assert(self.log() =~= Seq::<ScanErrorView>::empty());
        }
        taken
    }

    /// Look at the collected errors without clearing them.
    pub fn errors(&self) -> (errors: &[ScanError])
        ensures
            errors@.map_values(|e: ScanError| e@) == self.log(),
    {
        self.errors.as_slice()
    }
}

impl Default for DirectoryScanner {
    fn default() -> (scanner: Self)
        ensures
            scanner.log() == Seq::<ScanErrorView>::empty(),
    {
        Self::new()
    }
}

} // verus!
