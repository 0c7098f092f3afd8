//! The decisions of an import run: which files it takes, how each file's outcome is counted,
//! and the status the run ends with. Reading files and writing the database is left to the
//! caller, which reports each outcome here.
use vstd::prelude::*;
use crate::chars::{ascii_lower, eq_ignore_ascii_case, eq_ignore_case_str, is_blank, is_blank_str, lower_str, str_eq};
use crate::json::{get_string, str_field};
use crate::models::{ImportRunResult, SessionIndexEntry};
use crate::parsers::codex_session_jsonl::JsonLine;
use crate::parsers::SessionIndex;
use sha2::Digest;

verus! {

/// The lower-case hexadecimal SHA-256 digest of some bytes, as sha2's `Sha256` gives it.
pub uninterp spec fn sha256_bytes_hex_of(bytes: Seq<u8>) -> Seq<char>;

/// sha2's `Sha256` over some bytes, each byte of the digest written as two lower-case
/// hexadecimal digits. The contract names the digest and claims nothing else of it.
#[verifier::external_body]
fn sha256_bytes_hex(bytes: &[u8]) -> (r: String)
    ensures
        r@ == sha256_bytes_hex_of(bytes@),
{
    let mut hasher = sha2::Sha256::new();
    hasher.update(bytes);
    format!("{:x}", hasher.finalize())
}

/// The fingerprint an import keeps of a file's contents: their SHA-256 digest in hexadecimal.
pub fn file_digest(bytes: &[u8]) -> (r: String)
    ensures
        r@ == sha256_bytes_hex_of(bytes@),
{
    sha256_bytes_hex(bytes)
}

/// Whether a file extension names a file that an import reads: `json` or `jsonl`, in any case.
pub open spec fn supported_extension(ext: Option<Seq<char>>) -> bool {
    let e = match ext {
        Some(e) => ascii_lower(e),
        None => Seq::empty(),
    };
    e == "json"@ || e == "jsonl"@
}

/// Whether a file with this extension is imported.
pub fn is_supported_file(extension: Option<&str>) -> (b: bool)
    ensures
        b == supported_extension(
            match extension {
                Some(e) => Some(e@),
                None => None,
            },
        ),
{
    match extension {
        Some(e) => {
            let l = lower_str(e);
            str_eq(l.as_str(), "json") || str_eq(l.as_str(), "jsonl")
        },
        None => {
            assert(ascii_lower(Seq::<char>::empty()) =~= Seq::<char>::empty());
            assert(Seq::<char>::empty() != "json"@) by {
                reveal_strlit("json");
            }
            assert(Seq::<char>::empty() != "jsonl"@) by {
                reveal_strlit("jsonl");
            }
            false
        },
    }
}

/// The lower-cased extension that the parser registry is told of a file.
pub fn extension_key(extension: Option<&str>) -> (r: String)
    ensures
        r@ == match extension {
            Some(e) => ascii_lower(e@),
            None => Seq::empty(),
        },
{
    match extension {
        Some(e) => lower_str(e),
        None => String::new(),
    }
}

/// The components of a path, seen as texts.
pub open spec fn component_views(c: Seq<String>) -> Seq<Seq<char>> {
    c.map_values(|s: String| s@)
}

/// Whether the first `n` components of every path are the same.
pub open spec fn shared_prefix(paths: Seq<Seq<Seq<char>>>, n: int) -> bool {
    &&& paths.len() > 0
    &&& forall|p: int| 0 <= p < paths.len() ==> n <= (#[trigger] paths[p]).len()
    &&& forall|p: int, k: int| 0 <= p < paths.len() && 0 <= k < n ==> #[trigger] paths[p][k] == paths[0][k]
}

/// The length of the longest component prefix that all paths share; `None` when there are
/// no paths or they share nothing.
pub fn common_prefix_len(paths: &Vec<Vec<String>>) -> (r: Option<usize>)
    ensures
        ({
            let ps = paths@.map_values(|c: Vec<String>| component_views(c@));
            match r {
                Some(n) => n > 0 && shared_prefix(ps, n as int) && !shared_prefix(ps, n + 1),
                None => paths@.len() == 0 || !shared_prefix(ps, 1),
            }
        }),
{
    let ghost ps = paths@.map_values(|c: Vec<String>| component_views(c@));
    if paths.len() == 0 {
        return None;
    }
    let mut n = paths[0].len();
    let mut p: usize = 1;
    while p < paths.len()
        invariant
            1 <= p <= paths@.len(),
            ps == paths@.map_values(|c: Vec<String>| component_views(c@)),
            n <= paths@[0]@.len(),
            shared_prefix(ps.take(p as int), n as int),
            n == paths@[0]@.len() || !shared_prefix(ps.take(p as int), n + 1),
        decreases paths.len() - p,
    {
        let other = &paths[p];
        let ghost before = n;
        let mut k: usize = 0;
        while k < n && k < other.len() && str_eq(paths[0][k].as_str(), other[k].as_str())
            invariant
                1 <= paths@.len(),
                k <= n <= paths@[0]@.len(),
                k <= other@.len(),
                forall|j: int| 0 <= j < k ==> other@[j]@ == paths@[0]@[j]@,
            decreases n - k,
        {
            k += 1;
        }
        n = k;
        proof {
            let t = ps.take(p as int + 1);
            assert(t.drop_last() == ps.take(p as int));
            assert(t[p as int] == component_views(other@));
            assert(t[0] == ps[0]);
            assert forall|q: int| 0 <= q < t.len() implies n <= (#[trigger] t[q]).len() by {
                if q < p {
                    assert(t[q] == ps.take(p as int)[q]);
                }
            }
            assert forall|q: int, j: int| 0 <= q < t.len() && 0 <= j < n implies #[trigger] t[q][j] == t[0][j] by {
                if q < p {
                    assert(t[q] == ps.take(p as int)[q]);
                } else {
                    assert(t[q][j] == other@[j]@);
                }
            }
            if n < paths@[0]@.len() {
                if shared_prefix(t, n + 1) {
                    if n == before {
                        assert(shared_prefix(ps.take(p as int), n + 1)) by {
                            assert forall|q: int| 0 <= q < p implies n + 1 <= (#[trigger] ps.take(p as int)[q]).len() by {
                                assert(t[q] == ps.take(p as int)[q]);
                            }
                            assert forall|q: int, j: int| 0 <= q < p && 0 <= j < n + 1 implies #[trigger] ps.take(p as int)[q][j] == ps.take(p as int)[0][j] by {
                                assert(t[q] == ps.take(p as int)[q]);
                            }
                        }
                    } else {
                        assert(t[p as int][n as int] == t[0][n as int]);
                    }
                }
            }
        }
        p += 1;
    }
    assert(ps.take(paths@.len() as int) == ps);
    if n == 0 {
        return None;
    }
    proof {
        if shared_prefix(ps, n + 1) {
            assert(n + 1 <= ps[0].len());
        }
    }
    Some(n)
}

/// Whether a component names the Codex home: `.codex`, in any case.
pub open spec fn is_codex_home(component: Seq<char>) -> bool {
    eq_ignore_ascii_case(component, ".codex"@)
}

/// The length of the deepest ancestor of a path whose name is `.codex`.
pub open spec fn codex_root_len(c: Seq<Seq<char>>) -> Option<int>
    decreases c.len(),
{
    if c.len() == 0 {
        None
    } else if is_codex_home(c.last()) {
        Some(c.len() as int)
    } else {
        codex_root_len(c.drop_last())
    }
}

/// The first path, in order, that lies in a Codex home: its position and the length of the
/// home's path, the deepest such ancestor.
pub open spec fn codex_root_of(paths: Seq<Seq<Seq<char>>>) -> Option<(int, int)>
    decreases paths.len(),
{
    if paths.len() == 0 {
        None
    } else {
        match codex_root_of(paths.drop_last()) {
            Some(r) => Some(r),
            None => match codex_root_len(paths.last()) {
                Some(n) => Some(((paths.len() - 1) as int, n)),
                None => None,
            },
        }
    }
}

/// The Codex home that the given paths lie in, as the position of the first such path and the
/// number of its components that make up the home.
pub fn detect_codex_root(paths: &Vec<Vec<String>>) -> (r: Option<(usize, usize)>)
    ensures
        match r {
            Some((p, n)) => codex_root_of(paths@.map_values(|c: Vec<String>| component_views(c@))) == Some((p as int, n as int)),
            None => codex_root_of(paths@.map_values(|c: Vec<String>| component_views(c@))) is None,
        },
{
    let ghost ps = paths@.map_values(|c: Vec<String>| component_views(c@));
    let mut p: usize = 0;
    while p < paths.len()
        invariant
            p <= paths@.len(),
            ps == paths@.map_values(|c: Vec<String>| component_views(c@)),
            codex_root_of(ps.take(p as int)) is None,
        decreases paths.len() - p,
    {
        let comps = &paths[p];
        let ghost cv = component_views(comps@);
        let ghost t = ps.take(p as int + 1);
        assert(t.drop_last() == ps.take(p as int));
        assert(t.last() == cv);
        let mut k = comps.len();
        assert(cv.take(k as int) == cv);
        while k > 0
            invariant
                p < paths@.len(),
                ps == paths@.map_values(|c: Vec<String>| component_views(c@)),
                comps == paths@[p as int],
                t == ps.take(p as int + 1),
                codex_root_of(ps.take(p as int)) is None,
                t.drop_last() == ps.take(p as int),
                t.last() == cv,
                k <= comps@.len(),
                cv == component_views(comps@),
                codex_root_len(cv) == codex_root_len(cv.take(k as int)),
            decreases k,
        {
            let ghost u = cv.take(k as int);
            assert(u.drop_last() == cv.take(k - 1));
            assert(u.last() == comps@[k - 1]@);
            if eq_ignore_case_str(comps[k - 1].as_str(), ".codex") {
                proof {
                    assert(codex_root_len(u) == Some(k as int));
                    assert(codex_root_of(t) == Some((p as int, k as int)));
                    lemma_codex_root_prefix(ps, p as int + 1);
                }
                return Some((p, k));
            }
            k -= 1;
        }
        assert(cv.take(0) =~= Seq::<Seq<char>>::empty());
        p += 1;
    }
    assert(ps.take(paths@.len() as int) == ps);
    None
}

proof fn lemma_codex_root_prefix(ps: Seq<Seq<Seq<char>>>, n: int)
    requires
        0 <= n <= ps.len(),
        codex_root_of(ps.take(n)) is Some,
    ensures
        codex_root_of(ps) == codex_root_of(ps.take(n)),
    decreases ps.len() - n,
{
    if n < ps.len() {
        assert(ps.take(ps.len() - 1) == ps.drop_last());
        assert(ps.drop_last().take(n) == ps.take(n));
        lemma_codex_root_prefix(ps.drop_last(), n);
    } else {
        assert(ps.take(n) == ps);
    }
}

/// Records a line of the Codex session index: a JSON record with a string `id` gives that
/// session's thread name and update time; blank lines and other lines are skipped.
pub fn record_index_line(index: &mut SessionIndex, line: &JsonLine)
    ensures
        ({
            let recorded = !is_blank(line.text@) && (line.parsed matches Ok(v) && str_field(v, "id"@) is Some);
            if recorded {
                let v = line.parsed->Ok_0;
                &&& (final(index).entry(str_field(v, "id"@)->0) matches Some(e) && e@.thread_name == str_field(v, "thread_name"@) && e@.updated_at == str_field(v, "updated_at"@))
                &&& forall|k: Seq<char>| k != str_field(v, "id"@)->0 ==> final(index).entry(k) == old(index).entry(k)
            } else {
                forall|k: Seq<char>| final(index).entry(k) == old(index).entry(k)
            }
        }),
{
    if is_blank_str(line.text.as_str()) {
        return;
    }
    match &line.parsed {
        Ok(value) => match get_string(value, "id") {
            Some(id) => {
                let entry = SessionIndexEntry {
                    thread_name: get_string(value, "thread_name"),
                    updated_at: get_string(value, "updated_at"),
                };
                index.insert(id, entry);
            },
            None => {},
        },
        Err(_) => {},
    }
}

/// The counters of an import run.
#[derive(Debug)]
pub struct ImportTally {
    pub files_success: i64,
    pub files_failed: i64,
    pub warnings_count: i64,
    pub errors_count: i64,
}

/// What became of one file of an import run.
#[derive(Debug, Clone, Copy, PartialEq, Eq, Structural)]
pub enum FileOutcome {
    /// Its metadata could not be read.
    MetadataFailed,
    /// It is empty.
    Empty,
    /// It was parsed into a session, with this many warnings.
    Imported(u32),
    /// It was parsed, but gave no session.
    NoSession,
    /// Its parser failed.
    ParseFailed,
}

/// The status that the source file row is given for an outcome, if any.
pub open spec fn file_status(o: FileOutcome) -> Option<Seq<char>> {
    match o {
        FileOutcome::MetadataFailed => None,
        FileOutcome::Empty => Some("empty"@),
        FileOutcome::Imported(_) => Some("imported"@),
        FileOutcome::NoSession => Some("no_session"@),
        FileOutcome::ParseFailed => Some("failed"@),
    }
}

/// The severity and code of the issue recorded for an outcome, if any.
pub open spec fn file_issue(o: FileOutcome) -> Option<(Seq<char>, Seq<char>)> {
    match o {
        FileOutcome::MetadataFailed => Some(("error"@, "file_metadata_failed"@)),
        FileOutcome::Empty => Some(("warning"@, "empty_file"@)),
        FileOutcome::Imported(_) => None,
        FileOutcome::NoSession => Some(("warning"@, "missing_session"@)),
        FileOutcome::ParseFailed => Some(("error"@, "parse_failed"@)),
    }
}

/// The counters after one more outcome.
pub open spec fn tally_after(t: (int, int, int, int), o: FileOutcome) -> (int, int, int, int) {
    let (s, f, w, e) = t;
    match o {
        FileOutcome::MetadataFailed => (s, f + 1, w, e + 1),
        FileOutcome::Empty => (s, f + 1, w + 1, e),
        FileOutcome::Imported(n) => (s + 1, f, w + n, e),
        FileOutcome::NoSession => (s, f + 1, w + 1, e),
        FileOutcome::ParseFailed => (s, f + 1, w, e + 1),
    }
}

/// The status of a finished run: errors win over warnings.
pub open spec fn run_status(warnings: int, errors: int) -> Seq<char> {
    if errors > 0 {
        "completed_with_errors"@
    } else if warnings > 0 {
        "completed_with_warnings"@
    } else {
        "completed"@
    }
}

impl ImportTally {
    /// The counters as numbers: successes, failures, warnings, errors.
    pub open spec fn counts(&self) -> (int, int, int, int) {
        (self.files_success as int, self.files_failed as int, self.warnings_count as int, self.errors_count as int)
    }

    /// All counters at zero.
    pub fn new() -> (r: Self)
        ensures
            r.counts() == (0int, 0int, 0int, 0int),
    {
        ImportTally { files_success: 0, files_failed: 0, warnings_count: 0, errors_count: 0 }
    }

    /// Counts the warning that a run records before it looks at any file.
    pub fn record_startup_warning(&mut self)
        requires
            old(self).warnings_count < i64::MAX,
        ensures
            final(self).counts() == (old(self).counts().0, old(self).counts().1, old(self).counts().2 + 1, old(self).counts().3),
    {
        self.warnings_count = self.warnings_count + 1;
    }

    /// Counts one file's outcome, and tells the caller which status to give the file and which
    /// issue to record.
    pub fn record(&mut self, outcome: FileOutcome) -> (r: (Option<&'static str>, Option<(&'static str, &'static str)>))
        requires
            old(self).files_success < i64::MAX,
            old(self).files_failed < i64::MAX,
            old(self).warnings_count <= i64::MAX - u32::MAX,
            old(self).errors_count < i64::MAX,
        ensures
            final(self).counts() == tally_after(old(self).counts(), outcome),
            match r.0 {
                Some(s) => file_status(outcome) == Some(s@),
                None => file_status(outcome) is None,
            },
            match r.1 {
                Some((sev, code)) => file_issue(outcome) == Some((sev@, code@)),
                None => file_issue(outcome) is None,
            },
    {
        match outcome {
            FileOutcome::MetadataFailed => {
                self.files_failed = self.files_failed + 1;
                self.errors_count = self.errors_count + 1;
                (None, Some(("error", "file_metadata_failed")))
            },
            FileOutcome::Empty => {
                self.files_failed = self.files_failed + 1;
                self.warnings_count = self.warnings_count + 1;
                (Some("empty"), Some(("warning", "empty_file")))
            },
            FileOutcome::Imported(n) => {
                self.files_success = self.files_success + 1;
                self.warnings_count = self.warnings_count + n as i64;
                (Some("imported"), None)
            },
            FileOutcome::NoSession => {
                self.files_failed = self.files_failed + 1;
                self.warnings_count = self.warnings_count + 1;
                (Some("no_session"), Some(("warning", "missing_session")))
            },
            FileOutcome::ParseFailed => {
                self.files_failed = self.files_failed + 1;
                self.errors_count = self.errors_count + 1;
                (Some("failed"), Some(("error", "parse_failed")))
            },
        }
    }

    /// The status the run ends with.
    pub fn status(&self) -> (r: &'static str)
        ensures
            r@ == run_status(self.warnings_count as int, self.errors_count as int),
    {
        if self.errors_count > 0 {
            "completed_with_errors"
        } else if self.warnings_count > 0 {
            "completed_with_warnings"
        } else {
            "completed"
        }
    }
}

/// The outcome of a parse that succeeded: a session with its warnings, or no session.
pub fn parsed_outcome(has_session: bool, warnings: usize) -> (o: FileOutcome)
    requires
        warnings <= u32::MAX,
    ensures
        o == if has_session {
            FileOutcome::Imported(warnings as u32)
        } else {
            FileOutcome::NoSession
        },
{
    if has_session {
        FileOutcome::Imported(warnings as u32)
    } else {
        FileOutcome::NoSession
    }
}

/// The counters after a list of outcomes.
pub open spec fn tally_of(outcomes: Seq<FileOutcome>) -> (int, int, int, int)
    decreases outcomes.len(),
{
    if outcomes.len() == 0 {
        (0, 0, 0, 0)
    } else {
        tally_after(tally_of(outcomes.drop_last()), outcomes.last())
    }
}

/// Every file of a run is counted once: as a success or as a failure.
pub proof fn lemma_every_file_counted(outcomes: Seq<FileOutcome>)
    ensures
        tally_of(outcomes).0 + tally_of(outcomes).1 == outcomes.len(),
        tally_of(outcomes).0 >= 0 && tally_of(outcomes).1 >= 0,
        tally_of(outcomes).2 >= 0 && tally_of(outcomes).3 >= 0,
    decreases outcomes.len(),
{
    if outcomes.len() > 0 {
        lemma_every_file_counted(outcomes.drop_last());
    }
}

/// A run ends `completed` only when no file failed but for lack of a session or an empty file
/// counted as a warning, and no warning came up: in particular every file was imported.
pub proof fn lemma_completed_means_all_imported(outcomes: Seq<FileOutcome>)
    requires
        run_status(tally_of(outcomes).2, tally_of(outcomes).3) == "completed"@,
    ensures
        tally_of(outcomes).1 == 0,
        tally_of(outcomes).0 == outcomes.len(),
    decreases outcomes.len(),
{
    lemma_status_values();
    lemma_every_file_counted(outcomes);
    lemma_no_failure_without_issue(outcomes);
}

proof fn lemma_status_values()
    ensures
        "completed"@ != "completed_with_errors"@,
        "completed"@ != "completed_with_warnings"@,
{
    reveal_strlit("completed");
    reveal_strlit("completed_with_errors");
    reveal_strlit("completed_with_warnings");
    assert("completed"@.len() != "completed_with_errors"@.len());
    assert("completed"@.len() != "completed_with_warnings"@.len());
}

proof fn lemma_no_failure_without_issue(outcomes: Seq<FileOutcome>)
    ensures
        tally_of(outcomes).1 <= tally_of(outcomes).2 + tally_of(outcomes).3,
    decreases outcomes.len(),
{
    if outcomes.len() > 0 {
        lemma_no_failure_without_issue(outcomes.drop_last());
        lemma_every_file_counted(outcomes.drop_last());
    }
}

/// The result that a run started in the background reports at once.
pub fn background_result(source_label: &str, root_path: String) -> (r: ImportRunResult)
    ensures
        r.import_id@ == "background"@,
        r.source_label@ == source_label@,
        r.root_path@ == root_path@,
        r.status@ == "running"@,
        r.files_total == 0 && r.files_success == 0 && r.files_failed == 0,
        r.warnings_count == 0 && r.errors_count == 0,
        r.issues@.len() == 0,
{
    ImportRunResult {
        import_id: "background".to_owned(),
        source_label: source_label.to_owned(),
        root_path,
        status: "running".to_owned(),
        files_total: 0,
        files_success: 0,
        files_failed: 0,
        warnings_count: 0,
        errors_count: 0,
        issues: Vec::new(),
    }
}

} // verus!
