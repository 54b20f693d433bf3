//! Downloading one file: choosing the target, the `.part` files beside it,
//! and the decisions taken while the response streams in.
use vstd::prelude::*;
use crate::error::{BoxError, GfileError, IoErrorKind, IoFailure, IoOp};
use crate::http::{
    is_retryable, is_success_status, retry_delay_ms, spec_is_retryable, spec_is_success,
    spec_retry_delay_ms, status_error,
};
use crate::naming::{sanitize_server_filename, sanitized_name};
use crate::parser::download::{PageInfo, RemoteFile};
use crate::paths::{
    comp_start, file_name_of, head_len, join, join_path, last_comp, parent_and_file_name, parent_of,
    trim_end,
};
use crate::sniff::{is_html_content_type, looks_like_html, spec_is_html_content_type, spec_looks_like_html};


verus! {

broadcast use vstd::string::group_string_axioms;

/// What a download is asked to do.
#[derive(Clone, Debug)]
pub struct DownloadOptions {
    pub url: String,
    pub output: Option<String>,
    pub force: bool,
    /// How long, in milliseconds, a read may stall before it fails.
    pub timeout_ms: u64,
    pub retries: u32,
    pub user_agent: Option<String>,
    pub dump_page: Option<String>,
    pub quiet: bool,
    pub allow_any_host: bool,
}

/// What a finished download produced.
#[derive(Clone, Debug)]
pub struct DownloadOutcome {
    pub path: String,
    pub bytes: u64,
    pub resumed: bool,
}

/// The record kept beside a `.part` file while it is being written.
#[derive(Clone, Debug)]
pub struct PartSidecar {
    pub version: u8,
    pub file_id: String,
    pub expected: Option<u64>,
    pub key_used: bool,
}

/// The sidecar for a download of `file_id` announced at `expected` bytes.
pub fn part_sidecar(file_id: &str, expected: Option<u64>) -> (s: PartSidecar)
    ensures
        s.version == 1,
        s.file_id@ == file_id@,
        s.expected == expected,
        !s.key_used,
{
    PartSidecar { version: 1, file_id: String::from_str(file_id), expected, key_used: false }
}

/// The cause of a network failure: an I/O error of kind `io_kind` when that
/// is `Some`, another error otherwise, with its message.
pub fn boxed(io_kind: Option<IoErrorKind>, message: String) -> (b: BoxError)
    ensures
        b.io_kind == io_kind,
        b.message@ == message@,
{
    BoxError { io_kind, message }
}

/// A network failure with its cause and what was being done.
pub fn network_error(source: BoxError, context: &str) -> (e: GfileError)
    ensures
        e matches GfileError::Network { source: s, context: c } && s.io_kind == source.io_kind
            && s.message@ == source.message@ && c@ == context@,
{
    GfileError::Network { source, context: String::from_str(context) }
}

/// A network failure because a read stalled longer than the timeout.
pub fn timeout_network_error(context: &str) -> (e: GfileError)
    ensures
        e matches GfileError::Network { source: s, context: c } && s.io_kind == Some(
            IoErrorKind::TimedOut,
        ) && s.message@ == "stream timed out"@ && c@ == context@,
{
    network_error(boxed(Some(IoErrorKind::TimedOut), String::from_str("stream timed out")), context)
}

/// A file-system failure on `path`.
pub fn io_error(source: IoFailure, path: &str, op: IoOp) -> (e: GfileError)
    ensures
        e matches GfileError::Io { source: s, path: p, op: o } && s.kind == source.kind
            && s.message@ == source.message@ && p@ == path@ && o == op,
{
    GfileError::Io { source, path: String::from_str(path), op }
}

/// The hint given when the server sends a page instead of the file.
pub open spec fn html_hint() -> Seq<char> {
    "The server returned an HTML page instead of a file; rerun with --dump-page and -vv for diagnostics."@
}

/// The error for a response that is an HTML page instead of the file.
pub fn html_response_error(what: &str) -> (e: GfileError)
    ensures
        e matches GfileError::Parse { what: w, hint: h } && w@ == what@ && h@ == html_hint(),
{
    GfileError::Parse {
        what: String::from_str(what),
        hint: String::from_str(
            "The server returned an HTML page instead of a file; rerun with --dump-page and -vv for diagnostics.",
        ),
    }
}

/// `".part"`
pub open spec fn part_suffix() -> Seq<char> {
    seq!['.', 'p', 'a', 'r', 't']
}

/// `".json"`
pub open spec fn json_suffix() -> Seq<char> {
    seq!['.', 'j', 's', 'o', 'n']
}

/// The `.part` file beside `final_path`: the path with its file name
/// replaced by that name with `.part` appended (`PathBuf::set_file_name`).
pub open spec fn part_path_of(final_path: Seq<char>) -> Seq<char> {
    join_path(parent_of(final_path), file_name_of(final_path)->0 + part_suffix())
}

/// The sidecar beside the `.part` file: its name with `.json` appended.
pub open spec fn sidecar_path_of(final_path: Seq<char>) -> Seq<char> {
    join_path(parent_of(final_path), file_name_of(final_path)->0 + part_suffix() + json_suffix())
}

/// The `.part` file and its sidecar for a download to `final_path`.
///
/// A path without a file name (empty, the root, the current directory, or
/// one that ends in `..`) is refused as invalid input.
pub fn part_paths(final_path: &str) -> (r: Result<(String, String), GfileError>)
    ensures
        r is Ok <==> file_name_of(final_path@) is Some,
        r matches Ok((part, sidecar)) ==> part@ == part_path_of(final_path@) && sidecar@
            == sidecar_path_of(final_path@),
        r matches Err(e) ==> e matches GfileError::Io { source: s, path: p, op: o } && s.kind
            == IoErrorKind::InvalidInput && s.message@ == "target path has no filename"@ && p@
            == final_path@ && o == IoOp::Create,
{
    let (parent, name) = match parent_and_file_name(final_path) {
        Some(pn) => pn,
        None => {
            proof {
                reveal_strlit("target path has no filename");
            }
            return Err(
                io_error(
                    IoFailure {
                        kind: IoErrorKind::InvalidInput,
                        message: String::from_str("target path has no filename"),
                    },
                    final_path,
                    IoOp::Create,
                ),
            );
        },
    };
    let mut part_name = name;
    proof {
        reveal_strlit(".part");
        reveal_strlit(".json");
    }
    part_name.append(".part");
    let mut sidecar_name = part_name.clone();
    sidecar_name.append(".json");
    assert(".part"@ =~= part_suffix());
    assert(".json"@ =~= json_suffix());
    let part = join(parent.as_str(), part_name.as_str());
    let sidecar = join(parent.as_str(), sidecar_name.as_str());
    Ok((part, sidecar))
}

proof fn lemma_trim_end(p: Seq<char>, e: int)
    requires
        0 <= e <= p.len(),
    ensures
        0 <= trim_end(p, e) <= e,
        forall|k: int| trim_end(p, e) <= k < e ==> p[k] == '/' || p[k] == '.',
    decreases e,
{
    let c = crate::paths::comp_cut(p, e);
    if e > head_len(p, e) && (last_comp(p, e).len() == 0 || last_comp(p, e) == seq!['.']) && 0
        <= c < e {
        lemma_trim_end(p, c);
        let h = head_len(p, e);
        lemma_sep_bounds(p, h, e);
        let i = crate::paths::sep_before(p, h, e);
        let st = comp_start(p, e);
        assert(i >= 0 ==> c == i && st == i + 1 && p[i] == '/');
        assert(i < 0 ==> c == h && st == h);
        assert forall|k: int| c <= k < e implies p[k] == '/' || p[k] == '.' by {
            if k >= st {
                assert(last_comp(p, e).len() == e - st);
                assert(last_comp(p, e) == seq!['.']);
                assert(last_comp(p, e)[k - st] == p[k]);
            } else {
                assert(k == i);
            }
        }
    }
}

proof fn lemma_sep_bounds(p: Seq<char>, from: int, e: int)
    requires
        0 <= from,
        e <= p.len(),
    ensures
        crate::paths::sep_before(p, from, e) == -1 || (from <= crate::paths::sep_before(p, from, e)
            < e && p[crate::paths::sep_before(p, from, e)] == '/'),
        forall|k: int| crate::paths::sep_before(p, from, e) < k < e && from <= k ==> p[k] != '/',
    decreases e - from,
{
    if e > from && p[e - 1] != '/' {
        lemma_sep_bounds(p, from, e - 1);
    }
}

/// `p == x + name + w` is impossible when `p` is the file's path with file
/// name `name`, `w` is non-empty, holds no `/`, and ends in neither `/` nor
/// `.`.
proof fn lemma_not_renamed(p: Seq<char>, x: Seq<char>, w: Seq<char>)
    requires
        file_name_of(p) is Some,
        w.len() > 0,
        forall|k: int| 0 <= k < w.len() ==> w[k] != '/',
        w.last() != '.',
    ensures
        p != x + file_name_of(p)->0 + w,
{
    let n = file_name_of(p)->0;
    let e = trim_end(p, p.len() as int);
    let s = comp_start(p, e);
    let h = head_len(p, e);
    lemma_trim_end(p, p.len() as int);
    lemma_sep_bounds(p, h, e);
    assert forall|k: int| 0 <= k < n.len() implies n[k] != '/' by {
        assert(n[k] == p[s + k]);
    }
    if p == x + n + w {
        let q = x + n + w;
        assert(q.last() == w.last());
        if e < p.len() {
            assert(p[p.len() - 1] == '/' || p[p.len() - 1] == '.');
        } else {
            // p is p[..s] + n, so p[..s] is longer than x + w and ends in '/'
            assert(p.len() == s + n.len());
            assert(s == x.len() + w.len());
            assert(s >= 1);
            assert(p[s - 1] == '/');
            let j = s - 1 - x.len();
            assert(q[s - 1] == (n + w)[j]);
            if j < n.len() {
                assert((n + w)[j] == n[j]);
            } else {
                assert((n + w)[j] == w[j - n.len()]);
            }
        }
    }
}

/// The `.part` file and its sidecar differ from each other and from the
/// target, and lie in the target's directory: writing them never touches the
/// target itself.
pub proof fn part_files_never_clobber_target(final_path: Seq<char>)
    requires
        file_name_of(final_path) is Some,
    ensures
        part_path_of(final_path) != final_path,
        sidecar_path_of(final_path) != final_path,
        sidecar_path_of(final_path) != part_path_of(final_path),
        part_path_of(final_path).take(parent_of(final_path).len() as int) == parent_of(final_path),
        sidecar_path_of(final_path).take(parent_of(final_path).len() as int) == parent_of(
            final_path,
        ),
{
    let p = final_path;
    let par = parent_of(p);
    let n = file_name_of(p)->0;
    let w1 = part_suffix();
    let w2 = part_suffix() + json_suffix();
    lemma_join_shape(par, n, w1);
    lemma_join_shape(par, n, w2);
    assert(n + part_suffix() + json_suffix() =~= n + w2);
    assert(w2.last() == 'n');
    assert forall|k: int| 0 <= k < w2.len() implies w2[k] != '/' by {}
    lemma_not_renamed(p, dir_with_sep(par), w1);
    lemma_not_renamed(p, dir_with_sep(par), w2);
}

/// `dir` followed by the `/` that joining a name to it adds.
spec fn dir_with_sep(dir: Seq<char>) -> Seq<char> {
    if dir.len() == 0 || dir.last() == '/' {
        dir
    } else {
        dir + seq!['/']
    }
}

proof fn lemma_join_shape(dir: Seq<char>, n: Seq<char>, w: Seq<char>)
    ensures
        join_path(dir, n + w) == dir_with_sep(dir) + n + w,
        join_path(dir, n + w).take(dir.len() as int) == dir,
        join_path(dir, n + w).len() == dir_with_sep(dir).len() + n.len() + w.len(),
{
    assert(join_path(dir, n + w) =~= dir_with_sep(dir) + n + w);
    assert(join_path(dir, n + w).take(dir.len() as int) =~= dir);
}

/// The file a page offers first, the one that is downloaded.
pub fn first_remote_file(page: &PageInfo) -> (r: Result<&RemoteFile, GfileError>)
    ensures
        r is Ok <==> page.files@.len() > 0,
        r matches Ok(f) ==> *f == page.files@[0],
        r matches Err(e) ==> e matches GfileError::Parse { what: w, hint: h } && w@
            == "page contains no downloadable file"@ && h@
            == "Page structure may have changed; rerun with --dump-page and -vv."@,
{
    if page.files.len() == 0 {
        Err(
            GfileError::Parse {
                what: String::from_str("page contains no downloadable file"),
                hint: String::from_str(
                    "Page structure may have changed; rerun with --dump-page and -vv.",
                ),
            },
        )
    } else {
        Ok(&page.files[0])
    }
}

/// Where a download is saved: inside `output` when it names an existing
/// directory, at `output` when it names anything else, and in the working
/// directory `cwd` when it is absent; in a directory the file takes the
/// sanitized server name.
pub open spec fn output_path_of(
    raw_name: Seq<char>,
    file_id: Seq<char>,
    output: Option<Seq<char>>,
    output_is_dir: bool,
    cwd: Seq<char>,
) -> Seq<char> {
    match output {
        Some(p) => if output_is_dir {
            join_path(p, sanitized_name(raw_name, file_id))
        } else {
            p
        },
        None => join_path(cwd, sanitized_name(raw_name, file_id)),
    }
}

/// A server name that is already safe is kept as it is, every character of
/// it (UTF-8 included): in an output directory, or in the working directory,
/// the file is saved as `<dir>/<name>`; an output that is not a directory is
/// used as given.
pub proof fn safe_server_names_are_kept(
    raw_name: Seq<char>,
    file_id: Seq<char>,
    dir: Seq<char>,
    cwd: Seq<char>,
)
    requires
        raw_name.len() > 0,
        raw_name != seq!['.'],
        raw_name != seq!['.', '.'],
        forall|i: int|
            0 <= i < raw_name.len() ==> #[trigger] raw_name[i] != '/' && raw_name[i] != '\\'
                && raw_name[i] >= ' ' && raw_name[i] != '\u{7f}',
        dir.len() > 0,
        dir.last() != '/',
        cwd.len() > 0,
        cwd.last() != '/',
    ensures
        output_path_of(raw_name, file_id, Some(dir), true, cwd) == dir + seq!['/'] + raw_name,
        output_path_of(raw_name, file_id, None, false, cwd) == cwd + seq!['/'] + raw_name,
        output_path_of(raw_name, file_id, Some(dir), false, cwd) == dir,
{
    crate::naming::sanitize_keeps_safe_names(raw_name, file_id);
    assert(crate::naming::is_safe_name(raw_name));
}

/// Whatever the server sends, a file saved into a directory lies directly in
/// it: the path is the directory, a `/` when it does not end in one, and a
/// single name holding no `/`.
pub proof fn saved_files_stay_in_their_directory(
    raw_name: Seq<char>,
    file_id: Seq<char>,
    dir: Seq<char>,
    cwd: Seq<char>,
)
    requires
        dir.len() > 0,
        dir.last() != '/',
    ensures
        ({
            let p = output_path_of(raw_name, file_id, Some(dir), true, cwd);
            &&& p.take(dir.len() + 1int) == dir + seq!['/']
            &&& p.len() > dir.len() + 1
            &&& forall|i: int| dir.len() + 1 <= i < p.len() ==> #[trigger] p[i] != '/'
        }),
{
    crate::naming::sanitize_keeps_safe_names(raw_name, file_id);
    let n = sanitized_name(raw_name, file_id);
    let p = output_path_of(raw_name, file_id, Some(dir), true, cwd);
    assert(p == dir + seq!['/'] + n);
    assert(p.take(dir.len() + 1int) =~= dir + seq!['/']);
    assert forall|i: int| dir.len() + 1 <= i < p.len() implies #[trigger] p[i] != '/' by {
        assert(p[i] == n[i - dir.len() - 1]);
    }
}

/// The path a download of `remote_file` is saved under (see `output_path_of`);
/// `output_is_dir` tells whether `output` exists and is a directory.
pub fn resolve_output_path(
    remote_file: &RemoteFile,
    output: Option<&str>,
    output_is_dir: bool,
    cwd: &str,
) -> (p: String)
    ensures
        p@ == output_path_of(
            remote_file.raw_name@,
            remote_file.file_id@,
            match output {
                Some(o) => Some(o@),
                None => None,
            },
            output_is_dir,
            cwd@,
        ),
{
    match output {
        Some(path) => {
            if output_is_dir {
                let name = sanitize_server_filename(
                    remote_file.raw_name.as_str(),
                    remote_file.file_id.as_str(),
                );
                join(path, name.as_str())
            } else {
                String::from_str(path)
            }
        },
        None => {
            let name = sanitize_server_filename(
                remote_file.raw_name.as_str(),
                remote_file.file_id.as_str(),
            );
            join(cwd, name.as_str())
        },
    }
}

/// Refuses a target that exists unless `force` allows overwriting it.
pub fn ensure_target_free(final_path: &str, exists: bool, force: bool) -> (r: Result<(), GfileError>)
    ensures
        r is Err <==> exists && !force,
        r matches Err(e) ==> e matches GfileError::Io { source: s, path: p, op: o } && s.kind
            == IoErrorKind::AlreadyExists && s.message@ == "target exists"@ && p@ == final_path@
            && o == IoOp::Create,
{
    if exists && !force {
        Err(
            io_error(
                IoFailure {
                    kind: IoErrorKind::AlreadyExists,
                    message: String::from_str("target exists"),
                },
                final_path,
                IoOp::Create,
            ),
        )
    } else {
        Ok(())
    }
}

/// The displayed size and the announced length disagree by more than a
/// tenth of the displayed size, and at least by more than 1024 bytes.
pub open spec fn spec_size_outside_tolerance(approx: u64, content_length: u64) -> bool {
    let tolerance: int = if approx / 10 > 1024 { (approx / 10) as int } else { 1024 };
    let diff: int = if approx >= content_length {
        approx - content_length
    } else {
        content_length - approx
    };
    diff > tolerance
}

/// Whether the page's displayed size is implausible for the announced length.
pub fn size_outside_tolerance(approx: u64, content_length: u64) -> (r: bool)
    ensures
        r == spec_size_outside_tolerance(approx, content_length),
{
    let tenth = approx / 10;
    let tolerance = if tenth > 1024 {
        tenth
    } else {
        1024
    };
    let diff = if approx >= content_length {
        approx - content_length
    } else {
        content_length - approx
    };
    diff > tolerance
}

/// How many retries a request may still make.
pub struct RetryBudget {
    attempt: u32,
    retries: u32,
}

impl RetryBudget {
    /// The retries made so far.
    pub closed spec fn spec_attempt(&self) -> u32 {
        self.attempt
    }

    /// The retries allowed.
    pub closed spec fn spec_retries(&self) -> u32 {
        self.retries
    }

    /// A budget of `retries` retries, none made yet.
    pub fn new(retries: u32) -> (b: RetryBudget)
        ensures
            b.spec_attempt() == 0,
            b.spec_retries() == retries,
    {
        RetryBudget { attempt: 0, retries }
    }

    /// The retries made so far.
    pub fn attempt(&self) -> (a: u32)
        ensures
            a == self.spec_attempt(),
    {
        self.attempt
    }

    /// After a failed attempt: the delay in milliseconds before the next
    /// attempt, or `None` when the failure is final. A failure is retried
    /// when another attempt may cure it and retries are left; each retry
    /// uses one up, so a request is made at most `retries + 1` times.
    pub fn after_failure(&mut self, error: &GfileError) -> (delay: Option<u64>)
        requires
            old(self).spec_attempt() <= old(self).spec_retries(),
        ensures
            final(self).spec_retries() == old(self).spec_retries(),
            final(self).spec_attempt() <= final(self).spec_retries(),
            delay is Some <==> spec_is_retryable(*error) && old(self).spec_attempt() < old(
                self,
            ).spec_retries(),
            delay is Some ==> delay == Some(spec_retry_delay_ms(old(self).spec_attempt()))
                && final(self).spec_attempt() == old(self).spec_attempt() + 1,
            delay is None ==> final(self).spec_attempt() == old(self).spec_attempt(),
    {
        if is_retryable(error) && self.attempt < self.retries {
            let delay = retry_delay_ms(self.attempt);
            self.attempt = self.attempt + 1;
            Some(delay)
        } else {
            None
        }
    }
}

/// A request retried as `RetryBudget::after_failure` allows, from retry
/// count `attempt` on, when attempt `k` ends with `outcomes[k]` (`None`: it
/// succeeded; `Some(e)`: it failed with `e`): how many attempts are made, and
/// the delays slept between them.
pub open spec fn retry_run(attempt: nat, retries: nat, outcomes: Seq<Option<GfileError>>) -> (
    nat,
    Seq<u64>,
)
    decreases outcomes.len(),
{
    if outcomes.len() == 0 {
        (0, Seq::empty())
    } else {
        match outcomes[0] {
            None => (1, Seq::empty()),
            Some(e) => if spec_is_retryable(e) && attempt < retries {
                let rest = retry_run(attempt + 1, retries, outcomes.drop_first());
                (rest.0 + 1, seq![spec_retry_delay_ms(attempt as u32)] + rest.1)
            } else {
                (1, Seq::empty())
            },
        }
    }
}

/// An attempt that failed in a way worth retrying.
pub open spec fn is_retryable_failure(outcome: Option<GfileError>) -> bool {
    outcome matches Some(e) && spec_is_retryable(e)
}

/// The back-off delays for retries `attempt`, `attempt + 1`, ... (`n` of them).
pub open spec fn backoff_delays(attempt: nat, n: nat) -> Seq<u64> {
    Seq::new(n, |j: int| spec_retry_delay_ms((attempt + j) as u32))
}

proof fn lemma_retry_run_exhausts(a: nat, retries: nat, outcomes: Seq<Option<GfileError>>)
    requires
        a <= retries,
        outcomes.len() >= retries + 1 - a,
        forall|k: int| 0 <= k <= retries - a ==> is_retryable_failure(#[trigger] outcomes[k]),
    ensures
        retry_run(a, retries, outcomes) == (
            (retries + 1 - a) as nat,
            backoff_delays(a, (retries - a) as nat),
        ),
    decreases retries - a,
{
    assert(is_retryable_failure(outcomes[0]));
    if a < retries {
        let rest = outcomes.drop_first();
        assert forall|k: int| 0 <= k <= retries - (a + 1) implies is_retryable_failure(#[trigger] rest[k]) by {
            assert(rest[k] == outcomes[k + 1]);
        }
        lemma_retry_run_exhausts(a + 1, retries, rest);
        assert(seq![spec_retry_delay_ms(a as u32)] + backoff_delays(a + 1, (retries - (a + 1)) as nat)
            =~= backoff_delays(a, (retries - a) as nat));
    } else {
        assert(backoff_delays(a, 0) =~= Seq::<u64>::empty());
    }
}

proof fn lemma_retry_run_succeeds(a: nat, retries: nat, outcomes: Seq<Option<GfileError>>, i: nat)
    requires
        a + i <= retries,
        i < outcomes.len(),
        outcomes[i as int] is None,
        forall|k: int| 0 <= k < i ==> is_retryable_failure(#[trigger] outcomes[k]),
    ensures
        retry_run(a, retries, outcomes) == ((i + 1) as nat, backoff_delays(a, i)),
    decreases i,
{
    if i > 0 {
        assert(is_retryable_failure(outcomes[0]));
        let rest = outcomes.drop_first();
        assert forall|k: int| 0 <= k < i - 1 implies is_retryable_failure(#[trigger] rest[k]) by {
            assert(rest[k] == outcomes[k + 1]);
        }
        assert(rest[i - 1] == outcomes[i as int]);
        lemma_retry_run_succeeds(a + 1, retries, rest, (i - 1) as nat);
        assert(seq![spec_retry_delay_ms(a as u32)] + backoff_delays(a + 1, (i - 1) as nat)
            =~= backoff_delays(a, i));
    } else {
        assert(backoff_delays(a, 0) =~= Seq::<u64>::empty());
    }
}

/// When every attempt fails in a way worth retrying, a request with a budget
/// of `retries` is made exactly `retries + 1` times, so its outcome is the
/// failure of attempt `retries`; between attempts it waits 500 ms, 1 s, 2 s,
/// 4 s, then 8 s each time.
pub proof fn retries_exhaust_after_budget(retries: u32, outcomes: Seq<Option<GfileError>>)
    requires
        outcomes.len() >= retries + 1,
        forall|k: int| 0 <= k <= retries ==> is_retryable_failure(#[trigger] outcomes[k]),
    ensures
        retry_run(0, retries as nat, outcomes).0 == retries + 1,
        retry_run(0, retries as nat, outcomes).1 == backoff_delays(0, retries as nat),
{
    lemma_retry_run_exhausts(0, retries as nat, outcomes);
}

/// When attempts `0..i` fail in a way worth retrying and attempt `i` succeeds,
/// with `i` within the budget, the request is made exactly `i + 1` times and
/// succeeds, after the back-off delays for retries `0..i`.
pub proof fn retries_reach_success(retries: u32, outcomes: Seq<Option<GfileError>>, i: nat)
    requires
        i <= retries,
        i < outcomes.len(),
        outcomes[i as int] is None,
        forall|k: int| 0 <= k < i ==> is_retryable_failure(#[trigger] outcomes[k]),
    ensures
        retry_run(0, retries as nat, outcomes) == ((i + 1) as nat, backoff_delays(0, i)),
{
    lemma_retry_run_succeeds(0, retries as nat, outcomes, i);
}

/// A failure that is not worth retrying ends the request at once.
pub proof fn final_failures_are_not_retried(
    attempt: nat,
    retries: nat,
    outcomes: Seq<Option<GfileError>>,
)
    requires
        outcomes.len() > 0,
        outcomes[0] matches Some(e) && !spec_is_retryable(e),
    ensures
        retry_run(attempt, retries, outcomes) == (1nat, Seq::<u64>::empty()),
{
}

/// Where a file transfer stands.
#[derive(Clone, Copy, Debug, PartialEq, Eq, Structural)]
pub enum TransferPhase {
    /// The request is sent; its response has not arrived.
    AwaitingResponse,
    /// The response is accepted; no body byte has been read.
    AwaitingFirstChunk,
    /// Body bytes are being written to the `.part` file.
    Streaming,
    /// The body is complete and has the announced length.
    Complete,
    /// The transfer failed.
    Failed,
}

/// Why reading the response body failed.
#[derive(Clone, Debug)]
pub enum ReadFailure {
    /// No bytes arrived within the timeout.
    Timeout,
    /// The connection failed; `decode` tells whether the body could not be
    /// decoded (as when it ends before its announced length).
    Transfer { decode: bool, message: String },
}

/// The sum of the chunk lengths.
pub open spec fn total(lengths: Seq<nat>) -> nat
    decreases lengths.len(),
{
    if lengths.len() == 0 {
        0
    } else {
        total(lengths.drop_last()) + lengths.last()
    }
}

/// The decisions taken while one response is received: whether it is a file
/// at all, how many bytes have reached the `.part` file, and whether the body
/// is complete.
pub struct Transfer {
    url: String,
    phase: TransferPhase,
    expected: Option<u64>,
    actual: u64,
    received: Ghost<Seq<nat>>,
}

impl Transfer {
    /// The URL the file is fetched from.
    pub closed spec fn spec_url(&self) -> Seq<char> {
        self.url@
    }

    /// The current phase.
    pub closed spec fn spec_phase(&self) -> TransferPhase {
        self.phase
    }

    /// The announced length of the body, once the response is accepted.
    pub closed spec fn spec_expected(&self) -> Option<u64> {
        self.expected
    }

    /// The number of body bytes accepted for writing.
    pub closed spec fn spec_actual(&self) -> u64 {
        self.actual
    }

    /// The lengths of the chunks accepted for writing, in order.
    pub closed spec fn received(&self) -> Seq<nat> {
        self.received@
    }

    /// The byte count is the sum of the accepted chunks, and no chunk is
    /// accepted before the body is read.
    pub closed spec fn wf(&self) -> bool {
        &&& self.actual == total(self.received@)
        &&& (self.phase == TransferPhase::AwaitingResponse || self.phase
            == TransferPhase::AwaitingFirstChunk) ==> self.received@.len() == 0
    }

    /// A transfer from `url` whose response has not arrived yet.
    pub fn new(url: &str) -> (t: Transfer)
        ensures
            t.wf(),
            t.spec_actual() == 0,
            t.spec_url() == url@,
            t.spec_phase() == TransferPhase::AwaitingResponse,
            t.spec_expected() is None,
            t.received() == Seq::<nat>::empty(),
    {
        Transfer {
            url: String::from_str(url),
            phase: TransferPhase::AwaitingResponse,
            expected: None,
            actual: 0,
            received: Ghost(Seq::empty()),
        }
    }

    /// The current phase.
    pub fn phase(&self) -> (p: TransferPhase)
        ensures
            p == self.spec_phase(),
    {
        self.phase
    }

    /// The number of body bytes accepted for writing.
    pub fn actual(&self) -> (a: u64)
        ensures
            a == self.spec_actual(),
            self.wf() ==> a == total(self.received()),
    {
        self.actual
    }

    /// The announced length of the body.
    pub fn expected(&self) -> (e: Option<u64>)
        ensures
            e == self.spec_expected(),
    {
        self.expected
    }

    /// The response's status line and headers arrived. A status other than
    /// 2xx is an HTTP error; an HTML content type means the server sent a page
    /// instead of the file. Otherwise the body is awaited, its announced
    /// length (when there is one) noted.
    pub fn on_response(
        &mut self,
        status: u16,
        content_type: Option<&str>,
        content_length: Option<u64>,
    ) -> (r: Result<(), GfileError>)
        requires
            old(self).wf(),
            old(self).spec_phase() == TransferPhase::AwaitingResponse,
        ensures
            final(self).wf(),
            final(self).spec_url() == old(self).spec_url(),
            final(self).received() == old(self).received(),
            !spec_is_success(status) ==> final(self).spec_phase() == TransferPhase::Failed && (
            r matches Err(GfileError::HttpStatus { status: s, url: u }) && s == status && u@
                == old(self).spec_url()),
            spec_is_success(status) && spec_is_html_content_type(
                match content_type {
                    None => None,
                    Some(v) => Some(v@),
                },
            ) ==> final(self).spec_phase() == TransferPhase::Failed && (r matches Err(
                GfileError::Parse { what: w, hint: h },
            ) && w@ == "download response content-type is HTML"@ && h@ == html_hint()),
            r is Ok <==> spec_is_success(status) && !spec_is_html_content_type(
                match content_type {
                    None => None,
                    Some(v) => Some(v@),
                },
            ),
            r is Ok ==> final(self).spec_phase() == TransferPhase::AwaitingFirstChunk
                && final(self).spec_expected() == content_length && final(self).spec_actual() == 0
                && final(self).received().len() == 0,
    {
        if !is_success_status(status) {
            self.phase = TransferPhase::Failed;
            return Err(status_error(status, self.url.as_str()));
        }
        if is_html_content_type(content_type) {
            self.phase = TransferPhase::Failed;
            return Err(html_response_error("download response content-type is HTML"));
        }
        self.expected = content_length;
        self.phase = TransferPhase::AwaitingFirstChunk;
        Ok(())
    }

    /// The first read of the body returned `chunk` (`None`: the body is
    /// empty). A first chunk that looks like HTML stops the transfer before
    /// anything is written. Otherwise the `.part` file is to be prepared and
    /// the chunk written to it.
    pub fn on_first_chunk(&mut self, chunk: Option<&[u8]>) -> (r: Result<(), GfileError>)
        requires
            old(self).wf(),
            old(self).spec_phase() == TransferPhase::AwaitingFirstChunk,
        ensures
            final(self).wf(),
            final(self).spec_url() == old(self).spec_url(),
            final(self).spec_expected() == old(self).spec_expected(),
            r is Err <==> (chunk matches Some(c) && spec_looks_like_html(c@)),
            r matches Err(e) ==> e matches GfileError::Parse { what: w, hint: h } && w@
                == "download response body looks like HTML"@ && h@ == html_hint(),
            r is Err ==> final(self).spec_phase() == TransferPhase::Failed && final(self).received()
                == old(self).received(),
            r is Ok ==> final(self).spec_phase() == TransferPhase::Streaming,
            r is Ok ==> final(self).spec_actual() == match chunk {
                None => 0,
                Some(c) => c@.len(),
            },
            r is Ok ==> final(self).received() == match chunk {
                None => old(self).received(),
                Some(c) => old(self).received().push(c@.len()),
            },
    {
        match chunk {
            Some(c) => {
                if looks_like_html(c) {
                    self.phase = TransferPhase::Failed;
                    return Err(html_response_error("download response body looks like HTML"));
                }
                self.actual = c.len() as u64;
                self.received = Ghost(self.received@.push(c@.len()));
                proof {
                    assert(self.received@.drop_last() =~= Seq::<nat>::empty());
                    assert(total(Seq::<nat>::empty()) == 0);
                    assert(self.actual == c@.len());
                    assert(total(self.received@) == total(self.received@.drop_last()) + c@.len());
                }
            },
            None => {},
        }
        self.phase = TransferPhase::Streaming;
        Ok(())
    }

    /// Another chunk of `chunk_len` bytes arrived and is to be written.
    pub fn on_chunk(&mut self, chunk_len: usize)
        requires
            old(self).wf(),
            old(self).spec_phase() == TransferPhase::Streaming,
            old(self).spec_actual() + chunk_len <= u64::MAX,
        ensures
            final(self).wf(),
            final(self).spec_url() == old(self).spec_url(),
            final(self).spec_phase() == TransferPhase::Streaming,
            final(self).spec_expected() == old(self).spec_expected(),
            final(self).received() == old(self).received().push(chunk_len as nat),
            final(self).spec_actual() == old(self).spec_actual() + chunk_len,
    {
        self.actual = self.actual + chunk_len as u64;
        self.received = Ghost(self.received@.push(chunk_len as nat));
        proof {
            assert(self.received@.drop_last() =~= old(self).received@);
        }
    }

    /// The body ended. When its length was announced and a different number
    /// of bytes arrived, the sizes mismatch; otherwise the transfer is
    /// complete and every byte received has been written.
    pub fn on_end(&mut self) -> (r: Result<u64, GfileError>)
        requires
            old(self).wf(),
            old(self).spec_phase() == TransferPhase::Streaming,
        ensures
            final(self).wf(),
            final(self).spec_url() == old(self).spec_url(),
            final(self).received() == old(self).received(),
            final(self).spec_expected() == old(self).spec_expected(),
            r is Err <==> (old(self).spec_expected() matches Some(e) && e != old(
                self,
            ).spec_actual()),
            r matches Err(err) ==> err matches GfileError::SizeMismatch { expected: e, actual: a }
                && old(self).spec_expected() == Some(e) && a == old(self).spec_actual(),
            r matches Ok(bytes) ==> bytes == old(self).spec_actual() && bytes == total(old(self).received()) && (old(
                self,
            ).spec_expected() matches Some(e) ==> bytes == e),
            r is Ok ==> final(self).spec_phase() == TransferPhase::Complete,
            r is Err ==> final(self).spec_phase() == TransferPhase::Failed,
    {
        match self.expected {
            Some(e) => {
                if e != self.actual {
                    self.phase = TransferPhase::Failed;
                    return Err(GfileError::SizeMismatch { expected: e, actual: self.actual });
                }
            },
            None => {},
        }
        self.phase = TransferPhase::Complete;
        Ok(self.actual)
    }

    /// Reading the first chunk failed.
    pub fn on_first_chunk_failure(&mut self, failure: ReadFailure) -> (e: GfileError)
        requires
            old(self).wf(),
            old(self).spec_phase() == TransferPhase::AwaitingFirstChunk,
        ensures
            final(self).wf(),
            final(self).spec_phase() == TransferPhase::Failed,
            final(self).received() == old(self).received(),
            e matches GfileError::Network { source: s, context: c } && c@
                == "reading first download chunk"@ && match failure {
                ReadFailure::Timeout => s.io_kind == Some(IoErrorKind::TimedOut) && s.message@
                    == "stream timed out"@,
                ReadFailure::Transfer { message, .. } => s.io_kind is None && s.message@ == message@,
            },
    {
        self.phase = TransferPhase::Failed;
        match failure {
            ReadFailure::Timeout => timeout_network_error("reading first download chunk"),
            ReadFailure::Transfer { message, .. } => network_error(
                boxed(None, message),
                "reading first download chunk",
            ),
        }
    }

    /// Reading a later chunk failed. A body that cannot be decoded while a
    /// length was announced is a size mismatch at the bytes received so far.
    pub fn on_chunk_failure(&mut self, failure: ReadFailure) -> (e: GfileError)
        requires
            old(self).wf(),
            old(self).spec_phase() == TransferPhase::Streaming,
        ensures
            final(self).wf(),
            final(self).spec_phase() == TransferPhase::Failed,
            final(self).received() == old(self).received(),
            match failure {
                ReadFailure::Timeout => e matches GfileError::Network { source: s, context: c }
                    && s.io_kind == Some(IoErrorKind::TimedOut) && s.message@ == "stream timed out"@
                    && c@ == "reading download chunk"@,
                ReadFailure::Transfer { decode, message } => if decode && old(
                    self,
                ).spec_expected() is Some {
                    e matches GfileError::SizeMismatch { expected: x, actual: a } && Some(x) == old(
                        self,
                    ).spec_expected() && a == old(self).spec_actual()
                } else {
                    e matches GfileError::Network { source: s, context: c } && s.io_kind is None
                        && s.message@ == message@ && c@ == "reading download chunk"@
                },
            },
    {
        self.phase = TransferPhase::Failed;
        match failure {
            ReadFailure::Timeout => timeout_network_error("reading download chunk"),
            ReadFailure::Transfer { decode, message } => {
                match self.expected {
                    Some(x) => {
                        if decode {
                            return GfileError::SizeMismatch { expected: x, actual: self.actual };
                        }
                    },
                    None => {},
                }
                network_error(boxed(None, message), "reading download chunk")
            },
        }
    }
}

} // verus!
