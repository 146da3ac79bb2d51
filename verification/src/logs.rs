//! Reading Stash's core and crash logs into a `LogReport`: counts by level,
//! error patterns, modules and dates, crash summaries and the latest errors.
use vstd::prelude::*;
use crate::counter::{
    Counter, CountSeq, bump, count_seq_wf, max_count, count_of, lemma_bump, total_count,
    lemma_total_bump,
};
use crate::date::{Date, date_before, parsed_date, parse_date};
use crate::pattern::{captures_of, finds_match, regex_captures, regex_is_match};
use crate::text::{
    has_substr, occurs_at, lines, decimal, byte_prefix, to_chars, owned, contains_str, split_lines,
    string_of, take_chars, prefix_of_bytes, push_decimal, eq_str, lemma_lines_len, string_of_range,
    utf8_len, utf8_len_at_most, lemma_byte_prefix_whole, lex_lt, lex_lt_exec,
};
use crate::sorting::{insert_by, sort_by};

verus! {

/// A core log line: `[LEVEL] [hh:mm:ss] [module] message`.
pub const CORE_LINE_PATTERN: &'static str = "^\\[(INFO|WARN|ERRO)\\] \\[(\\d{2}:\\d{2}:\\d{2})\\] \\[([^\\]]+)\\] (.+)$";

/// A crash log line that reports an error or a warning.
pub const CRASH_LINE_PATTERN: &'static str = "(?i)(error|ERROR|请求超时|TLS错误|failed|WARNING)";

/// How many of the latest errors a report keeps.
pub const RECENT_LIMIT: usize = 20;

/// The width, in bytes, at which a long sample line of a crash log is cut.
pub const SAMPLE_WIDTH: usize = 120;

/// How many problem lines of a crash log are its samples.
pub const SAMPLE_COUNT: usize = 3;

/// The date format of log file names.
pub const LOG_DATE_FORMAT: &'static str = "%Y-%m-%d";

/// A file found in one of the log directories.
pub struct LogFile {
    /// The file name.
    pub name: String,
    /// The file's text, or `None` when it could not be read.
    pub content: Option<String>,
    /// The local date of the file's last modification, when known.
    pub modified: Option<Date>,
}

/// What the logs tell.
pub struct LogReport {
    pub file_count: usize,
    pub error_count: usize,
    pub warn_count: usize,
    pub info_count: usize,
    /// module -> count
    pub errors_by_module: Counter,
    /// error message pattern -> count
    pub error_patterns: Counter,
    /// date string -> error count
    pub errors_by_date: Counter,
    /// crash file summaries
    pub crash_summaries: Vec<String>,
    /// the latest errors (the last `RECENT_LIMIT`, 20), oldest first
    pub recent_errors: Vec<String>,
}

/// The mathematical content of a `LogReport`.
pub struct LogView {
    pub file_count: nat,
    pub error_count: nat,
    pub warn_count: nat,
    pub info_count: nat,
    pub errors_by_module: CountSeq,
    pub error_patterns: CountSeq,
    pub errors_by_date: CountSeq,
    pub crash_summaries: Seq<Seq<char>>,
    pub recent_errors: Seq<Seq<char>>,
}

impl View for LogReport {
    type V = LogView;

    open spec fn view(&self) -> LogView {
        LogView {
            file_count: self.file_count as nat,
            error_count: self.error_count as nat,
            warn_count: self.warn_count as nat,
            info_count: self.info_count as nat,
            errors_by_module: self.errors_by_module@,
            error_patterns: self.error_patterns@,
            errors_by_date: self.errors_by_date@,
            crash_summaries: self.crash_summaries.deep_view(),
            recent_errors: self.recent_errors.deep_view(),
        }
    }
}

/// A report before any log is read.
pub open spec fn empty_log_view() -> LogView {
    LogView {
        file_count: 0,
        error_count: 0,
        warn_count: 0,
        info_count: 0,
        errors_by_module: Seq::empty(),
        error_patterns: Seq::empty(),
        errors_by_date: Seq::empty(),
        crash_summaries: Seq::empty(),
        recent_errors: Seq::empty(),
    }
}

/// The count tables of a report are well formed.
pub open spec fn log_view_wf(r: LogView) -> bool {
    &&& count_seq_wf(r.errors_by_module)
    &&& count_seq_wf(r.error_patterns)
    &&& count_seq_wf(r.errors_by_date)
}

/// The larger of `a` and `b`.
pub open spec fn max2(a: nat, b: nat) -> nat {
    if a >= b { a } else { b }
}

/// The largest counter of a report.
pub open spec fn log_max(r: LogView) -> nat {
    max2(
        max2(max2(r.file_count, r.error_count), max2(r.warn_count, r.info_count)),
        max2(
            max_count(r.errors_by_module),
            max2(max_count(r.error_patterns), max_count(r.errors_by_date)),
        ),
    )
}

// ---------------------------------------------------------------------------
// Error messages
// ---------------------------------------------------------------------------
/// The pattern an error message is counted under: a known cause by its name,
/// any other message by its first 60 characters.
pub open spec fn normalized_error(msg: Seq<char>) -> Seq<char> {
    if has_substr(msg, "StashLink server is down"@) {
        "StashLink 服务崩溃重启"@
    } else if has_substr(msg, "failed to get nat type"@) {
        "NAT 类型检测失败 (UDP)"@
    } else if has_substr(msg, "default interface not found"@) {
        "默认网络接口丢失"@
    } else if has_substr(msg, "no proxy available"@) {
        "代理组无可用节点"@
    } else if has_substr(msg, "connection refused"@) {
        "连接被拒绝"@
    } else if has_substr(msg, "timeout"@) || has_substr(msg, "timed out"@) {
        "连接超时"@
    } else if has_substr(msg, "i/o timeout"@) {
        "I/O 超时"@
    } else {
        msg.take(if msg.len() < 60 { msg.len() as int } else { 60 })
    }
}

/// The pattern an error message is counted under.
pub fn normalize_error(msg: &str) -> (r: String)
    ensures
        r@ == normalized_error(msg@),
{
    let m = to_chars(msg);
    if contains_str(&m, "StashLink server is down") {
        return owned("StashLink 服务崩溃重启");
    }
    if contains_str(&m, "failed to get nat type") {
        return owned("NAT 类型检测失败 (UDP)");
    }
    if contains_str(&m, "default interface not found") {
        return owned("默认网络接口丢失");
    }
    if contains_str(&m, "no proxy available") {
        return owned("代理组无可用节点");
    }
    if contains_str(&m, "connection refused") {
        return owned("连接被拒绝");
    }
    if contains_str(&m, "timeout") || contains_str(&m, "timed out") {
        return owned("连接超时");
    }
    if contains_str(&m, "i/o timeout") {
        return owned("I/O 超时");
    }
    take_chars(&m, 60)
}

// ---------------------------------------------------------------------------
// Core logs
// ---------------------------------------------------------------------------
/// The level, time, module and message of a matched core log line.
pub open spec fn core_fields(caps: Option<Seq<Option<Seq<char>>>>) -> Option<
    (Seq<char>, Seq<char>, Seq<char>, Seq<char>),
> {
    match caps {
        Some(g) => if g.len() >= 5 && g[1] is Some && g[2] is Some && g[3] is Some
            && g[4] is Some {
            Some((g[1].unwrap(), g[2].unwrap(), g[3].unwrap(), g[4].unwrap()))
        } else {
            None
        },
        None => None,
    }
}

/// The line kept for an error among the latest errors.
pub open spec fn recent_error_line(
    date: Seq<char>,
    time: Seq<char>,
    module: Seq<char>,
    message: Seq<char>,
) -> Seq<char> {
    "["@ + date + " "@ + time + "] ["@ + module + "] "@ + message
}

/// The report after one core log line from a log dated `date`, given the
/// capture groups of `CORE_LINE_PATTERN` on that line.
pub open spec fn core_entry(r: LogView, date: Seq<char>, caps: Option<Seq<Option<Seq<char>>>>) -> LogView {
    match core_fields(caps) {
        Some((level, time, module, message)) => if level == "ERRO"@ {
            LogView {
                error_count: r.error_count + 1,
                errors_by_module: bump(r.errors_by_module, module),
                errors_by_date: bump(r.errors_by_date, date),
                error_patterns: bump(r.error_patterns, normalized_error(message)),
                recent_errors: r.recent_errors.push(recent_error_line(date, time, module, message)),
                ..r
            }
        } else if level == "WARN"@ {
            if has_substr(message, "no proxy available"@) {
                LogView {
                    warn_count: r.warn_count + 1,
                    error_patterns: bump(r.error_patterns, normalized_error(message)),
                    errors_by_module: bump(r.errors_by_module, module + "(WARN)"@),
                    ..r
                }
            } else {
                LogView { warn_count: r.warn_count + 1, ..r }
            }
        } else if level == "INFO"@ {
            LogView { info_count: r.info_count + 1, ..r }
        } else {
            r
        },
        None => r,
    }
}

/// The report after the core log lines `ls` of a log dated `date`.
pub open spec fn core_lines(r: LogView, date: Seq<char>, ls: Seq<Seq<char>>) -> LogView
    decreases ls.len(),
{
    if ls.len() == 0 {
        r
    } else {
        core_entry(
            core_lines(r, date, ls.drop_last()),
            date,
            captures_of(CORE_LINE_PATTERN@, ls.last()),
        )
    }
}

proof fn lemma_core_entry(r: LogView, date: Seq<char>, caps: Option<Seq<Option<Seq<char>>>>)
    requires
        log_view_wf(r),
    ensures
        log_view_wf(core_entry(r, date, caps)),
        log_max(core_entry(r, date, caps)) <= log_max(r) + 1,
        core_entry(r, date, caps).file_count == r.file_count,
        core_entry(r, date, caps).crash_summaries == r.crash_summaries,
{
    match core_fields(caps) {
        Some((level, time, module, message)) => {
            lemma_bump(r.errors_by_module, module);
            lemma_bump(r.errors_by_date, date);
            lemma_bump(r.error_patterns, normalized_error(message));
            lemma_bump(r.errors_by_module, module + "(WARN)"@);
        },
        None => {},
    }
}

// ---------------------------------------------------------------------------
// Crash logs
// ---------------------------------------------------------------------------
/// The error pattern a crash log line is counted under, if any.
pub open spec fn crash_category(line: Seq<char>) -> Option<Seq<char>> {
    if has_substr(line, "请求超时"@) || has_substr(line, "Code=-1001"@) {
        Some("网络请求超时 (NSURLErrorDomain -1001)"@)
    } else if has_substr(line, "TLS错误"@) || has_substr(line, "Code=-1200"@) {
        Some("TLS 安全连接失败 (-1200)"@)
    } else if has_substr(line, "WARNING"@) && has_substr(line, "reentrant"@) {
        Some("NSTableView reentrant 操作警告"@)
    } else if has_substr(line, "mach port"@) {
        Some("IMK mach port 通信错误"@)
    } else {
        None
    }
}

/// Whether a crash log line reports an error or a warning.
pub open spec fn crash_line_matches(line: Seq<char>) -> bool {
    finds_match(CRASH_LINE_PATTERN@, line) == Some(true)
}

/// The report after one crash log line, given whether it reports a problem.
pub open spec fn crash_entry(r: LogView, line: Seq<char>, is_error: bool) -> LogView {
    if is_error {
        match crash_category(line) {
            Some(p) => LogView {
                error_count: r.error_count + 1,
                error_patterns: bump(r.error_patterns, p),
                ..r
            },
            None => LogView { error_count: r.error_count + 1, ..r },
        }
    } else {
        r
    }
}

/// The report after the crash log lines `ls`, and how many of them report a problem.
pub open spec fn crash_lines(r: LogView, ls: Seq<Seq<char>>) -> (LogView, nat)
    decreases ls.len(),
{
    if ls.len() == 0 {
        (r, 0)
    } else {
        let prev = crash_lines(r, ls.drop_last());
        let hit = crash_line_matches(ls.last());
        (crash_entry(prev.0, ls.last(), hit), if hit { prev.1 + 1 } else { prev.1 })
    }
}

/// The summary line of a crash log with `n` problem lines.
pub open spec fn crash_summary(name: Seq<char>, n: nat) -> Seq<char> {
    name + ": "@ + decimal(n) + " 条错误/警告"@
}

/// The report after the crash log `name` with text `content`.
pub open spec fn crash_file(r: LogView, name: Seq<char>, content: Seq<char>) -> LogView {
    let res = crash_lines(r, lines(content));
    if res.1 > 0 {
        LogView { crash_summaries: res.0.crash_summaries.push(crash_summary(name, res.1)), ..res.0 }
    } else {
        res.0
    }
}

// ---------------------------------------------------------------------------
// Crash log samples
// ---------------------------------------------------------------------------
/// How many of the lines `ls` report an error or a warning.
pub open spec fn problem_lines(ls: Seq<Seq<char>>) -> nat
    decreases ls.len(),
{
    if ls.len() == 0 {
        0
    } else {
        problem_lines(ls.drop_last()) + if crash_line_matches(ls.last()) {
            1nat
        } else {
            0nat
        }
    }
}

/// A sample line can be cut at `SAMPLE_WIDTH` bytes: it is no longer than
/// that, or a character starts right at that byte.
pub open spec fn cuttable_sample(line: Seq<char>) -> bool {
    utf8_len(line) <= SAMPLE_WIDTH || byte_prefix(line, SAMPLE_WIDTH as nat) is Some
}

/// The samples of a crash log are its first `SAMPLE_COUNT` problem lines,
/// each cut at `SAMPLE_WIDTH` bytes when longer; a cut that would split a
/// character is an error the reader does not recover from, so a crash log is
/// accepted only when every sample can be cut.
pub open spec fn crash_samples_cuttable(content: Seq<char>) -> bool {
    forall|i: int|
        0 <= i < lines(content).len() && crash_line_matches(#[trigger] lines(content)[i])
            && problem_lines(lines(content).take(i)) < SAMPLE_COUNT ==> cuttable_sample(
            lines(content)[i],
        )
}

/// Whether `line` can be cut at `SAMPLE_WIDTH` bytes.
fn cuttable_sample_exec(line: &Vec<char>) -> (b: bool)
    ensures
        b == cuttable_sample(line@),
{
    proof {
        lemma_byte_prefix_whole(line@);
    }
    match prefix_of_bytes(line, SAMPLE_WIDTH) {
        Some(_) => true,
        None => utf8_len_at_most(line, SAMPLE_WIDTH),
    }
}

/// Whether every sample of the crash log text `content` can be cut at
/// `SAMPLE_WIDTH` bytes.
pub fn crash_samples_ok(content: &str) -> (b: bool)
    ensures
        b == crash_samples_cuttable(content@),
{
    let cs = to_chars(content);
    let ls = split_lines(&cs);
    let ghost all = lines(content@);
    let mut n: usize = 0;
    let mut i: usize = 0;
    assert(all.take(0) =~= Seq::<Seq<char>>::empty());
    while i < ls.len()
        invariant
            i <= ls@.len(),
            ls@.len() == all.len(),
            all == lines(content@),
            forall|k: int| 0 <= k < ls@.len() ==> #[trigger] ls@[k]@ == all[k],
            n == problem_lines(all.take(i as int)),
            n <= i,
            forall|j: int|
                0 <= j < i && crash_line_matches(#[trigger] all[j]) && problem_lines(all.take(j))
                    < SAMPLE_COUNT ==> cuttable_sample(all[j]),
        decreases ls@.len() - i,
    {
        let line = string_of(&ls[i]);
        let hit = match regex_is_match(CRASH_LINE_PATTERN, line.as_str()) {
            Some(b) => b,
            None => false,
        };
        assert(all.take(i + 1).drop_last() =~= all.take(i as int));
        assert(line@ == all[i as int]);
        if hit {
            if n < SAMPLE_COUNT && !cuttable_sample_exec(&ls[i]) {
                assert(crash_line_matches(lines(content@)[i as int]));
                return false;
            }
            n = n + 1;
        }
        i = i + 1;
    }
    true
}

/// A crash log that is read (see `crash_file_included`) has samples that can
/// be cut at `SAMPLE_WIDTH` bytes.
pub open spec fn crash_log_accepted(f: LogFile, since: Option<Date>) -> bool {
    crash_file_included(f, since) ==> match f.content {
        Some(c) => crash_samples_cuttable(c@),
        None => true,
    }
}

proof fn lemma_crash_entry(r: LogView, line: Seq<char>, is_error: bool)
    requires
        log_view_wf(r),
    ensures
        log_view_wf(crash_entry(r, line, is_error)),
        log_max(crash_entry(r, line, is_error)) <= log_max(r) + 1,
{
    if let Some(p) = crash_category(line) {
        lemma_bump(r.error_patterns, p);
    }
}

// ---------------------------------------------------------------------------
// File names
// ---------------------------------------------------------------------------
/// Index of the last '.' in `s`, or -1.
pub open spec fn last_dot(s: Seq<char>) -> int
    decreases s.len(),
{
    if s.len() == 0 {
        -1
    } else if s.last() == '.' {
        s.len() - 1
    } else {
        last_dot(s.drop_last())
    }
}

/// The extension of a file name, as `Path::extension` reads it.
pub open spec fn file_extension(name: Seq<char>) -> Option<Seq<char>> {
    if name == ".."@ || last_dot(name) <= 0 {
        None
    } else {
        Some(name.skip(last_dot(name) + 1))
    }
}

/// The stem of a file name, as `Path::file_stem` reads it.
pub open spec fn file_stem(name: Seq<char>) -> Seq<char> {
    if name == ".."@ || last_dot(name) <= 0 {
        name
    } else {
        name.take(last_dot(name))
    }
}

/// The date part of a log file name: the first 10 bytes of its stem, or
/// "unknown".
pub open spec fn date_label(name: Seq<char>) -> Seq<char> {
    match byte_prefix(file_stem(name), 10) {
        Some(p) => p,
        None => "unknown"@,
    }
}

/// The date a log file name starts with (`2026-04-11-111015.log` is of 2026-04-11).
pub open spec fn name_date(name: Seq<char>) -> Option<Date> {
    match byte_prefix(file_stem(name), 10) {
        Some(p) => parsed_date(p, LOG_DATE_FORMAT@),
        None => None,
    }
}

proof fn lemma_last_dot(s: Seq<char>)
    ensures
        -1 <= last_dot(s) < s.len(),
        last_dot(s) >= 0 ==> s[last_dot(s)] == '.',
        forall|i: int| last_dot(s) < i < s.len() ==> s[i] != '.',
    decreases s.len(),
{
    if s.len() > 0 {
        lemma_last_dot(s.drop_last());
        assert forall|i: int| last_dot(s) < i < s.len() implies s[i] != '.' by {
            if i < s.len() - 1 {
                assert(s.drop_last()[i] == s[i]);
            }
        }
    }
}

fn last_dot_exec(s: &Vec<char>) -> (r: Option<usize>)
    ensures
        r matches Some(i) ==> last_dot(s@) == i,
        r is None ==> last_dot(s@) == -1,
{
    let mut i = s.len();
    assert(s@.take(i as int) =~= s@);
    while i > 0
        invariant
            i <= s.len(),
            last_dot(s@) == last_dot(s@.take(i as int)),
        decreases i,
    {
        assert(s@.take(i as int).drop_last() =~= s@.take(i - 1));
        if s[i - 1] == '.' {
            return Some(i - 1);
        }
        i = i - 1;
    }
    None
}

/// The extension of a file name, if it has one.
pub fn extension_of(name: &str) -> (r: Option<String>)
    ensures
        r matches Some(e) ==> file_extension(name@) == Some(e@),
        r is None ==> file_extension(name@) is None,
{
    let s = to_chars(name);
    proof {
        lemma_last_dot(s@);
    }
    if eq_str(name, "..") {
        return None;
    }
    match last_dot_exec(&s) {
        Some(d) => if d == 0 {
            None
        } else {
            let e = string_of_range(&s, d + 1, s.len());
            assert(s@.subrange(d + 1, s@.len() as int) =~= s@.skip(d + 1));
            Some(e)
        },
        None => None,
    }
}

/// The stem of a file name.
pub fn stem_of(name: &str) -> (r: Vec<char>)
    ensures
        r@ == file_stem(name@),
{
    let s = to_chars(name);
    proof {
        lemma_last_dot(s@);
    }
    if eq_str(name, "..") {
        return s;
    }
    match last_dot_exec(&s) {
        Some(d) => if d == 0 {
            s
        } else {
            let mut r = s;
            r.truncate(d);
            assert(r@ =~= s@.take(d as int));
            r
        },
        None => s,
    }
}

/// The date part of a log file name.
pub fn date_label_of(name: &str) -> (r: String)
    ensures
        r@ == date_label(name@),
{
    let stem = stem_of(name);
    match prefix_of_bytes(&stem, 10) {
        Some(p) => p,
        None => owned("unknown"),
    }
}

/// The date a log file name starts with.
pub fn date_of_name(name: &str) -> (r: Option<Date>)
    ensures
        r == name_date(name@),
{
    let stem = stem_of(name);
    match prefix_of_bytes(&stem, 10) {
        Some(p) => parse_date(p.as_str(), LOG_DATE_FORMAT),
        None => None,
    }
}

/// Whether a file name has the extension "log".
pub fn is_log_name(name: &str) -> (r: bool)
    ensures
        r == (file_extension(name@) == Some("log"@)),
{
    match extension_of(name) {
        Some(e) => eq_str(e.as_str(), "log"),
        None => false,
    }
}

// ---------------------------------------------------------------------------
// Scanning
// ---------------------------------------------------------------------------
/// A core log counts when it is a `.log` file and, with a start date, is not
/// dated before it.
pub open spec fn core_file_included(f: LogFile, since: Option<Date>) -> bool {
    &&& file_extension(f.name@) == Some("log"@)
    &&& match (since, name_date(f.name@)) {
        (Some(min), Some(d)) => !date_before(d, min),
        _ => true,
    }
}

/// A crash log counts when it is a `.log` file and, with a start date, was
/// not last modified before it.
pub open spec fn crash_file_included(f: LogFile, since: Option<Date>) -> bool {
    &&& file_extension(f.name@) == Some("log"@)
    &&& match (since, f.modified) {
        (Some(min), Some(d)) => !date_before(d, min),
        _ => true,
    }
}

/// The report after the core log `f`.
pub open spec fn core_file(r: LogView, f: LogFile, since: Option<Date>) -> LogView {
    if core_file_included(f, since) {
        let r1 = LogView { file_count: r.file_count + 1, ..r };
        match f.content {
            Some(c) => core_lines(r1, date_label(f.name@), lines(c@)),
            None => r1,
        }
    } else {
        r
    }
}

/// The report after the crash log `f`.
pub open spec fn crash_log_file(r: LogView, f: LogFile, since: Option<Date>) -> LogView {
    if crash_file_included(f, since) {
        let r1 = LogView { file_count: r.file_count + 1, ..r };
        match f.content {
            Some(c) => crash_file(r1, f.name@, c@),
            None => r1,
        }
    } else {
        r
    }
}

/// The report after the core logs `fs`, in order.
pub open spec fn core_files(r: LogView, fs: Seq<LogFile>, since: Option<Date>) -> LogView
    decreases fs.len(),
{
    if fs.len() == 0 {
        r
    } else {
        core_file(core_files(r, fs.drop_last(), since), fs.last(), since)
    }
}

/// The report after the crash logs `fs`, in order.
pub open spec fn crash_files(r: LogView, fs: Seq<LogFile>, since: Option<Date>) -> LogView
    decreases fs.len(),
{
    if fs.len() == 0 {
        r
    } else {
        crash_log_file(crash_files(r, fs.drop_last(), since), fs.last(), since)
    }
}

/// The last `RECENT_LIMIT` entries of `s`.
pub open spec fn keep_recent(s: Seq<Seq<char>>) -> Seq<Seq<char>> {
    if s.len() > RECENT_LIMIT {
        s.skip(s.len() - RECENT_LIMIT)
    } else {
        s
    }
}

/// The order of core logs: by file name, in the order of code points (the
/// order of the names' UTF-8 bytes).
pub open spec fn name_order() -> spec_fn(LogFile, LogFile) -> bool {
    |a: LogFile, b: LogFile| lex_lt(a.name@, b.name@)
}

/// The files `fs` sorted by name; files of equal names keep their order.
pub open spec fn by_file_name(fs: Seq<LogFile>) -> Seq<LogFile> {
    sort_by(fs, name_order())
}

/// The report on the core logs `core`, read in the order of their names, and
/// then the crash logs `crashes`, in the order given.
pub open spec fn scan_spec(core: Seq<LogFile>, crashes: Seq<LogFile>, since: Option<Date>) -> LogView {
    let r = crash_files(core_files(empty_log_view(), by_file_name(core), since), crashes, since);
    LogView { recent_errors: keep_recent(r.recent_errors), ..r }
}

/// The room a file takes among the counters: one for the file, at most one
/// per character of its text.
pub open spec fn file_size(f: LogFile) -> nat {
    1 + match f.content {
        Some(c) => c@.len(),
        None => 0,
    }
}

/// The total room the files `fs` take.
pub open spec fn files_size(fs: Seq<LogFile>) -> nat
    decreases fs.len(),
{
    if fs.len() == 0 {
        0
    } else {
        files_size(fs.drop_last()) + file_size(fs.last())
    }
}

impl LogReport {
    /// The report's count tables are well formed.
    pub open spec fn wf(&self) -> bool {
        &&& self.errors_by_module.wf()
        &&& self.error_patterns.wf()
        &&& self.errors_by_date.wf()
    }

    /// An empty report.
    pub fn new() -> (r: LogReport)
        ensures
            r@ == empty_log_view(),
            r.wf(),
    {
        let r = LogReport {
            file_count: 0,
            error_count: 0,
            warn_count: 0,
            info_count: 0,
            errors_by_module: Counter::new(),
            error_patterns: Counter::new(),
            errors_by_date: Counter::new(),
            crash_summaries: Vec::new(),
            recent_errors: Vec::new(),
        };
        assert(r@.crash_summaries =~= Seq::<Seq<char>>::empty());
        assert(r@.recent_errors =~= Seq::<Seq<char>>::empty());
        r
    }

    proof fn lemma_counts(&self)
        ensures
            self.file_count <= log_max(self@),
            self.error_count <= log_max(self@),
            self.warn_count <= log_max(self@),
            self.info_count <= log_max(self@),
            max_count(self.errors_by_module@) <= log_max(self@),
            max_count(self.error_patterns@) <= log_max(self@),
            max_count(self.errors_by_date@) <= log_max(self@),
    {
    }

    /// Records one core log line from a log dated `date`, given the capture
    /// groups of `CORE_LINE_PATTERN` on it.
    pub fn record_core_line(&mut self, date: &str, caps: Option<Vec<Option<String>>>)
        requires
            old(self).wf(),
            log_max(old(self)@) < usize::MAX,
        ensures
            final(self).wf(),
            final(self)@ == core_entry(old(self)@, date@, caps.deep_view()),
    {
        proof {
            self.lemma_counts();
            lemma_core_entry(self@, date@, caps.deep_view());
        }
        let ghost old_v = self@;
        let g = match caps {
            Some(g) => g,
            None => return ,
        };
        if g.len() < 5 {
            return ;
        }
        let level = match &g[1] {
            Some(s) => s,
            None => return ,
        };
        let time = match &g[2] {
            Some(s) => s,
            None => return ,
        };
        let module = match &g[3] {
            Some(s) => s,
            None => return ,
        };
        let message = match &g[4] {
            Some(s) => s,
            None => return ,
        };
        assert(core_fields(caps.deep_view()) == Some((level@, time@, module@, message@)));
        proof {
            crate::counter::lemma_max_count_ge_count(self.errors_by_module@, module@);
            crate::counter::lemma_max_count_ge_count(self.errors_by_date@, date@);
            crate::counter::lemma_max_count_ge_count(
                self.error_patterns@,
                normalized_error(message@),
            );
            crate::counter::lemma_max_count_ge_count(self.errors_by_module@, module@ + "(WARN)"@);
        }
        if eq_str(level.as_str(), "ERRO") {
            self.error_count = self.error_count + 1;
            self.errors_by_module.increment(module.clone());
            self.errors_by_date.increment(owned(date));
            self.error_patterns.increment(normalize_error(message.as_str()));
            let mut line = owned("[");
            line.append(date);
            line.append(" ");
            line.append(time.as_str());
            line.append("] [");
            line.append(module.as_str());
            line.append("] ");
            line.append(message.as_str());
            let ghost line_v = line@;
            self.recent_errors.push(line);
            assert(self.recent_errors.deep_view() =~= old_v.recent_errors.push(line_v));
        } else if eq_str(level.as_str(), "WARN") {
            self.warn_count = self.warn_count + 1;
            let m = to_chars(message.as_str());
            if contains_str(&m, "no proxy available") {
                self.error_patterns.increment(normalize_error(message.as_str()));
                let mut key = module.clone();
                key.append("(WARN)");
                self.errors_by_module.increment(key);
            }
        } else if eq_str(level.as_str(), "INFO") {
            self.info_count = self.info_count + 1;
        }
    }

    /// Reads a core log named `file_name` with text `content`: each line of
    /// the form `[LEVEL] [time] [module] message` is counted.
    pub fn parse_core_log(&mut self, file_name: &str, content: &str)
        requires
            old(self).wf(),
            log_max(old(self)@) + content@.len() <= usize::MAX,
        ensures
            final(self).wf(),
            final(self)@ == core_lines(old(self)@, date_label(file_name@), lines(content@)),
            log_max(final(self)@) <= log_max(old(self)@) + content@.len(),
    {
        let date = date_label_of(file_name);
        let cs = to_chars(content);
        let ls = split_lines(&cs);
        proof {
            lemma_lines_len(content@);
        }
        let ghost all = lines(content@);
        let ghost start = self@;
        let mut i: usize = 0;
        assert(all.take(0) =~= Seq::<Seq<char>>::empty());
        while i < ls.len()
            invariant
                i <= ls@.len(),
                ls@.len() == all.len(),
                all.len() <= content@.len(),
                forall|k: int| 0 <= k < ls@.len() ==> #[trigger] ls@[k]@ == all[k],
                self.wf(),
                self@ == core_lines(start, date@, all.take(i as int)),
                log_max(self@) <= log_max(start) + i,
                log_max(start) + content@.len() <= usize::MAX,
            decreases ls@.len() - i,
        {
            let line = string_of(&ls[i]);
            let caps = regex_captures(CORE_LINE_PATTERN, line.as_str());
            proof {
                lemma_core_entry(self@, date@, caps.deep_view());
                assert(all.take(i + 1).drop_last() =~= all.take(i as int));
            }
            self.record_core_line(date.as_str(), caps);
            i = i + 1;
        }
        assert(all.take(all.len() as int) =~= all);
    }

    /// Records one crash log line, given whether it reports an error or a warning.
    pub fn record_crash_line(&mut self, line: &str, is_error: bool)
        requires
            old(self).wf(),
            log_max(old(self)@) < usize::MAX,
        ensures
            final(self).wf(),
            final(self)@ == crash_entry(old(self)@, line@, is_error),
    {
        if !is_error {
            return ;
        }
        proof {
            self.lemma_counts();
        }
        self.error_count = self.error_count + 1;
        let l = to_chars(line);
        let key = if contains_str(&l, "请求超时") || contains_str(&l, "Code=-1001") {
            Some(owned("网络请求超时 (NSURLErrorDomain -1001)"))
        } else if contains_str(&l, "TLS错误") || contains_str(&l, "Code=-1200") {
            Some(owned("TLS 安全连接失败 (-1200)"))
        } else if contains_str(&l, "WARNING") && contains_str(&l, "reentrant") {
            Some(owned("NSTableView reentrant 操作警告"))
        } else if contains_str(&l, "mach port") {
            Some(owned("IMK mach port 通信错误"))
        } else {
            None
        };
        match key {
            Some(k) => {
                proof {
                    crate::counter::lemma_max_count_ge_count(self.error_patterns@, k@);
                }
                self.error_patterns.increment(k);
            },
            None => {},
        }
    }

    /// Reads a crash log named `file_name` with text `content`: each line
    /// reporting an error or a warning is counted, and a summary of the file
    /// is added when it has any.  The log's samples must be cuttable (see
    /// `crash_samples_cuttable`).
    pub fn parse_crash_log(&mut self, file_name: &str, content: &str)
        requires
            old(self).wf(),
            crash_samples_cuttable(content@),
            log_max(old(self)@) + content@.len() <= usize::MAX,
        ensures
            final(self).wf(),
            final(self)@ == crash_file(old(self)@, file_name@, content@),
            log_max(final(self)@) <= log_max(old(self)@) + content@.len(),
    {
        let cs = to_chars(content);
        let ls = split_lines(&cs);
        proof {
            lemma_lines_len(content@);
        }
        let ghost all = lines(content@);
        let ghost start = self@;
        let mut n: usize = 0;
        let mut i: usize = 0;
        assert(all.take(0) =~= Seq::<Seq<char>>::empty());
        while i < ls.len()
            invariant
                i <= ls@.len(),
                ls@.len() == all.len(),
                all.len() <= content@.len(),
                forall|k: int| 0 <= k < ls@.len() ==> #[trigger] ls@[k]@ == all[k],
                self.wf(),
                crash_lines(start, all.take(i as int)) == (self@, n as nat),
                n <= i,
                log_max(self@) <= log_max(start) + i,
                log_max(start) + content@.len() <= usize::MAX,
            decreases ls@.len() - i,
        {
            let line = string_of(&ls[i]);
            let hit = match regex_is_match(CRASH_LINE_PATTERN, line.as_str()) {
                Some(b) => b,
                None => false,
            };
            proof {
                lemma_crash_entry(self@, line@, hit);
                assert(all.take(i + 1).drop_last() =~= all.take(i as int));
            }
            self.record_crash_line(line.as_str(), hit);
            if hit {
                n = n + 1;
            }
            i = i + 1;
        }
        assert(all.take(all.len() as int) =~= all);
        if n > 0 {
            let mut summary = owned(file_name);
            summary.append(": ");
            push_decimal(&mut summary, n as u64);
            summary.append(" 条错误/警告");
            let ghost old_s = self.crash_summaries.deep_view();
            let ghost sv = summary@;
            self.crash_summaries.push(summary);
            assert(self.crash_summaries.deep_view() =~= old_s.push(sv));
        }
    }

    /// Keeps only the latest `RECENT_LIMIT` errors.
    pub fn keep_recent_errors(&mut self)
        ensures
            final(self)@ == (LogView { recent_errors: keep_recent(old(self)@.recent_errors), ..old(self)@ }),
            final(self).wf() == old(self).wf(),
    {
        let len = self.recent_errors.len();
        if len > RECENT_LIMIT {
            let start = len - RECENT_LIMIT;
            let ghost all = self.recent_errors.deep_view();
            let mut kept: Vec<String> = Vec::new();
            let mut i = start;
            while i < len
                invariant
                    len == self.recent_errors.len(),
                    all == self.recent_errors.deep_view(),
                    all.len() == len,
                    start <= i <= len,
                    kept.deep_view() =~= all.subrange(start as int, i as int),
                decreases len - i,
            {
                let ghost before = kept.deep_view();
                let e = self.recent_errors[i].clone();
                assert(e@ == all[i as int]);
                kept.push(e);
                assert(kept.deep_view() =~= before.push(all[i as int]));
                assert(all.subrange(start as int, i + 1) =~= all.subrange(start as int, i as int).push(
                    all[i as int],
                ));
                i = i + 1;
            }
            assert(all.subrange(start as int, len as int) =~= keep_recent(all));
            self.recent_errors = kept;
        }
    }
}

proof fn lemma_files_size_step(fs: Seq<LogFile>, i: int)
    requires
        0 <= i < fs.len(),
    ensures
        files_size(fs.take(i + 1)) == files_size(fs.take(i)) + file_size(fs[i]),
{
    assert(fs.take(i + 1).drop_last() =~= fs.take(i));
}

proof fn lemma_files_size_prefix(fs: Seq<LogFile>, i: int)
    requires
        0 <= i <= fs.len(),
    ensures
        files_size(fs.take(i)) <= files_size(fs),
    decreases fs.len() - i,
{
    if i < fs.len() {
        lemma_files_size_step(fs, i);
        lemma_files_size_prefix(fs, i + 1);
    } else {
        assert(fs.take(i) =~= fs);
    }
}

proof fn lemma_file_counted(r: LogView)
    ensures
        log_max(LogView { file_count: r.file_count + 1, ..r }) <= log_max(r) + 1,
        log_view_wf(r) ==> log_view_wf(LogView { file_count: r.file_count + 1, ..r }),
{
}

/// Whether a core log counts, given the start date.
pub fn core_log_included(f: &LogFile, since: Option<Date>) -> (b: bool)
    ensures
        b == core_file_included(*f, since),
{
    if !is_log_name(f.name.as_str()) {
        return false;
    }
    match since {
        Some(min) => match date_of_name(f.name.as_str()) {
            Some(d) => !d.before(&min),
            None => true,
        },
        None => true,
    }
}

/// Whether a crash log counts, given the start date.
pub fn crash_log_included(f: &LogFile, since: Option<Date>) -> (b: bool)
    ensures
        b == crash_file_included(*f, since),
{
    if !is_log_name(f.name.as_str()) {
        return false;
    }
    match (since, f.modified) {
        (Some(min), Some(d)) => !d.before(&min),
        _ => true,
    }
}

proof fn lemma_files_size_cons(a: LogFile, t: Seq<LogFile>)
    ensures
        files_size(seq![a] + t) == file_size(a) + files_size(t),
    decreases t.len(),
{
    if t.len() > 0 {
        lemma_files_size_cons(a, t.drop_last());
        let st = seq![a] + t;
        assert(st.drop_last() =~= seq![a] + t.drop_last());
        assert(st.last() == t.last());
        assert(files_size(st) == files_size(st.drop_last()) + file_size(st.last()));
    } else {
        let st = seq![a] + t;
        assert(st =~= seq![a]);
        assert(st.drop_last() =~= Seq::<LogFile>::empty());
        assert(files_size(st) == files_size(st.drop_last()) + file_size(st.last()));
        assert(files_size(t) == 0);
    }
}

proof fn lemma_files_size_insert(r: Seq<LogFile>, x: LogFile)
    ensures
        files_size(insert_by(r, x, name_order())) == files_size(r) + file_size(x),
    decreases r.len(),
{
    if r.len() == 0 {
        lemma_files_size_cons(x, r);
        assert(seq![x] + r =~= seq![x]);
    } else if (name_order())(x, r[0]) {
        lemma_files_size_cons(x, r);
    } else {
        lemma_files_size_insert(r.drop_first(), x);
        lemma_files_size_cons(r[0], insert_by(r.drop_first(), x, name_order()));
        lemma_files_size_cons(r[0], r.drop_first());
        assert(seq![r[0]] + r.drop_first() =~= r);
    }
}

/// Sorting by name keeps the total room the files take.
proof fn lemma_files_size_by_name(s: Seq<LogFile>)
    ensures
        files_size(by_file_name(s)) == files_size(s),
    decreases s.len(),
{
    if s.len() > 0 {
        lemma_files_size_by_name(s.drop_last());
        lemma_files_size_insert(by_file_name(s.drop_last()), s.last());
    }
}

/// The files `fs` picked at the positions `order`.
pub open spec fn files_at(fs: Seq<LogFile>, order: Seq<usize>) -> Seq<LogFile> {
    Seq::new(order.len(), |k: int| fs[order[k] as int])
}

/// The positions of the files `fs`, in the order of their names.
fn name_order_of(fs: &Vec<LogFile>) -> (order: Vec<usize>)
    ensures
        forall|k: int| 0 <= k < order@.len() ==> #[trigger] order@[k] < fs@.len(),
        files_at(fs@, order@) == by_file_name(fs@),
{
    let mut order: Vec<usize> = Vec::new();
    let mut i: usize = 0;
    assert(fs@.take(0) =~= Seq::<LogFile>::empty());
    assert(files_at(fs@, order@) =~= Seq::<LogFile>::empty());
    while i < fs.len()
        invariant
            i <= fs@.len(),
            forall|k: int| 0 <= k < order@.len() ==> #[trigger] order@[k] < fs@.len(),
            files_at(fs@, order@) == by_file_name(fs@.take(i as int)),
        decreases fs@.len() - i,
    {
        let ghost x = fs@[i as int];
        let xc = to_chars(fs[i].name.as_str());
        let ghost before = files_at(fs@, order@);
        let mut k: usize = 0;
        assert(before.skip(0) =~= before);
        assert(before.take(0) + insert_by(before.skip(0), x, name_order()) =~= insert_by(
            before,
            x,
            name_order(),
        ));
        while k < order.len() && !lex_lt_exec(&xc, &to_chars(fs[order[k]].name.as_str()))
            invariant
                k <= order@.len(),
                i < fs@.len(),
                x == fs@[i as int],
                xc@ == x.name@,
                before == files_at(fs@, order@),
                forall|j: int| 0 <= j < order@.len() ==> #[trigger] order@[j] < fs@.len(),
                insert_by(before, x, name_order()) == before.take(k as int) + insert_by(
                    before.skip(k as int),
                    x,
                    name_order(),
                ),
            decreases order@.len() - k,
        {
            assert(before.skip(k as int)[0] == before[k as int]);
            assert(before.skip(k as int).drop_first() =~= before.skip(k + 1));
            assert(before.take(k + 1) =~= before.take(k as int) + seq![before[k as int]]);
            k = k + 1;
        }
        proof {
            if k < order@.len() {
                assert(before.skip(k as int)[0] == before[k as int]);
                assert(insert_by(before.skip(k as int), x, name_order()) == seq![x] + before.skip(
                    k as int,
                ));
            } else {
                assert(before.skip(k as int) =~= Seq::<LogFile>::empty());
            }
        }
        order.insert(k, i);
        assert(files_at(fs@, order@) =~= insert_by(before, x, name_order()));
        assert(fs@.take(i + 1).drop_last() =~= fs@.take(i as int));
        i = i + 1;
    }
    assert(fs@.take(fs@.len() as int) =~= fs@);
    order
}

/// Reads the core logs `core` (in the order of their names) and then the crash logs
/// `crashes`, keeping only `.log` files that are not older than `since`;
/// only the latest `RECENT_LIMIT` errors are kept.  Every crash log read must
/// have samples that can be cut (see `crash_samples_cuttable`).
pub fn scan_logs(core: &Vec<LogFile>, crashes: &Vec<LogFile>, since: Option<Date>) -> (r: LogReport)
    requires
        files_size(core@) + files_size(crashes@) <= usize::MAX,
        forall|i: int| 0 <= i < crashes@.len() ==> crash_log_accepted(#[trigger] crashes@[i], since),
    ensures
        r.wf(),
        r@ == scan_spec(core@, crashes@, since),
{
    let order = name_order_of(core);
    let ghost sorted = by_file_name(core@);
    proof {
        lemma_files_size_by_name(core@);
    }
    let mut report = LogReport::new();
    let mut i: usize = 0;
    assert(sorted.take(0) =~= Seq::<LogFile>::empty());
    while i < order.len()
        invariant
            i <= order@.len(),
            sorted == by_file_name(core@),
            files_at(core@, order@) == sorted,
            forall|k: int| 0 <= k < order@.len() ==> #[trigger] order@[k] < core@.len(),
            files_size(sorted) + files_size(crashes@) <= usize::MAX,
            report.wf(),
            report@ == core_files(empty_log_view(), sorted.take(i as int), since),
            log_max(report@) <= files_size(sorted.take(i as int)),
        decreases order@.len() - i,
    {
        let f = &core[order[i]];
        assert(*f == sorted[i as int]);
        proof {
            lemma_files_size_step(sorted, i as int);
            lemma_files_size_prefix(sorted, i + 1);
            lemma_file_counted(report@);
            assert(sorted.take(i + 1).drop_last() =~= sorted.take(i as int));
        }
        if core_log_included(f, since) {
            report.file_count = report.file_count + 1;
            match &f.content {
                Some(c) => report.parse_core_log(f.name.as_str(), c.as_str()),
                None => {},
            }
        }
        i = i + 1;
    }
    assert(sorted.take(sorted.len() as int) =~= sorted);
    let ghost mid = report@;
    let mut j: usize = 0;
    assert(crashes@.take(0) =~= Seq::<LogFile>::empty());
    while j < crashes.len()
        invariant
            j <= crashes@.len(),
            files_size(core@) + files_size(crashes@) <= usize::MAX,
            report.wf(),
            report@ == crash_files(mid, crashes@.take(j as int), since),
            forall|i: int| 0 <= i < crashes@.len() ==> crash_log_accepted(#[trigger] crashes@[i], since),
            log_max(report@) <= files_size(core@) + files_size(crashes@.take(j as int)),
        decreases crashes@.len() - j,
    {
        let f = &crashes[j];
        proof {
            lemma_files_size_step(crashes@, j as int);
            lemma_files_size_prefix(crashes@, j + 1);
            lemma_file_counted(report@);
            assert(crashes@.take(j + 1).drop_last() =~= crashes@.take(j as int));
        }
        if crash_log_included(f, since) {
            report.file_count = report.file_count + 1;
            match &f.content {
                Some(c) => report.parse_crash_log(f.name.as_str(), c.as_str()),
                None => {},
            }
        }
        j = j + 1;
    }
    assert(crashes@.take(crashes@.len() as int) =~= crashes@);
    report.keep_recent_errors();
    report
}

/// Scans the logs as `scan_logs` does when every crash log read has samples
/// that can be cut; `None` when one has not.
pub fn try_scan_logs(core: &Vec<LogFile>, crashes: &Vec<LogFile>, since: Option<Date>) -> (r: Option<LogReport>)
    requires
        files_size(core@) + files_size(crashes@) <= usize::MAX,
    ensures
        r is Some <==> forall|i: int| 0 <= i < crashes@.len() ==> crash_log_accepted(#[trigger] crashes@[i], since),
        r matches Some(x) ==> x.wf() && x@ == scan_spec(core@, crashes@, since),
{
    let mut j: usize = 0;
    while j < crashes.len()
        invariant
            j <= crashes@.len(),
            forall|i: int| 0 <= i < j ==> crash_log_accepted(#[trigger] crashes@[i], since),
        decreases crashes@.len() - j,
    {
        let f = &crashes[j];
        if crash_log_included(f, since) {
            match &f.content {
                Some(c) => {
                    if !crash_samples_ok(c.as_str()) {
                        assert(!crash_log_accepted(crashes@[j as int], since));
                        return None;
                    }
                },
                None => {},
            }
        }
        j = j + 1;
    }
    Some(scan_logs(core, crashes, since))
}

// ---------------------------------------------------------------------------
// Laws
// ---------------------------------------------------------------------------
/// The number of files among `fs` that are counted as core logs.
pub open spec fn included_core(fs: Seq<LogFile>, since: Option<Date>) -> nat
    decreases fs.len(),
{
    if fs.len() == 0 {
        0
    } else {
        included_core(fs.drop_last(), since) + if core_file_included(fs.last(), since) {
            1nat
        } else {
            0nat
        }
    }
}

/// The number of files among `fs` that are counted as crash logs.
pub open spec fn included_crash(fs: Seq<LogFile>, since: Option<Date>) -> nat
    decreases fs.len(),
{
    if fs.len() == 0 {
        0
    } else {
        included_crash(fs.drop_last(), since) + if crash_file_included(fs.last(), since) {
            1nat
        } else {
            0nat
        }
    }
}

/// Reading lines changes no file count, no crash summary; every error of a
/// core log is recorded once by date and once among the latest errors.
proof fn lemma_core_lines_keeps(r: LogView, date: Seq<char>, ls: Seq<Seq<char>>)
    ensures
        core_lines(r, date, ls).file_count == r.file_count,
        total_count(core_lines(r, date, ls).errors_by_date) + r.recent_errors.len() == total_count(
            r.errors_by_date,
        ) + core_lines(r, date, ls).recent_errors.len(),
    decreases ls.len(),
{
    if ls.len() > 0 {
        lemma_core_lines_keeps(r, date, ls.drop_last());
        let prev = core_lines(r, date, ls.drop_last());
        lemma_total_bump(prev.errors_by_date, date);
    }
}

proof fn lemma_crash_lines_keeps(r: LogView, ls: Seq<Seq<char>>)
    ensures
        crash_lines(r, ls).0.file_count == r.file_count,
        crash_lines(r, ls).0.errors_by_date == r.errors_by_date,
        crash_lines(r, ls).0.recent_errors == r.recent_errors,
    decreases ls.len(),
{
    if ls.len() > 0 {
        lemma_crash_lines_keeps(r, ls.drop_last());
    }
}

proof fn lemma_core_files_counts(r: LogView, fs: Seq<LogFile>, since: Option<Date>)
    ensures
        core_files(r, fs, since).file_count == r.file_count + included_core(fs, since),
        total_count(core_files(r, fs, since).errors_by_date) + r.recent_errors.len() == total_count(
            r.errors_by_date,
        ) + core_files(r, fs, since).recent_errors.len(),
    decreases fs.len(),
{
    if fs.len() > 0 {
        lemma_core_files_counts(r, fs.drop_last(), since);
        let prev = core_files(r, fs.drop_last(), since);
        let f = fs.last();
        if core_file_included(f, since) {
            let r1 = LogView { file_count: prev.file_count + 1, ..prev };
            match f.content {
                Some(c) => lemma_core_lines_keeps(r1, date_label(f.name@), lines(c@)),
                None => {},
            }
        }
    }
}

proof fn lemma_crash_files_counts(r: LogView, fs: Seq<LogFile>, since: Option<Date>)
    ensures
        crash_files(r, fs, since).file_count == r.file_count + included_crash(fs, since),
        crash_files(r, fs, since).errors_by_date == r.errors_by_date,
        crash_files(r, fs, since).recent_errors == r.recent_errors,
    decreases fs.len(),
{
    if fs.len() > 0 {
        lemma_crash_files_counts(r, fs.drop_last(), since);
        let prev = crash_files(r, fs.drop_last(), since);
        let f = fs.last();
        if crash_file_included(f, since) {
            let r1 = LogView { file_count: prev.file_count + 1, ..prev };
            match f.content {
                Some(c) => lemma_crash_lines_keeps(r1, lines(c@)),
                None => {},
            }
        }
    }
}

proof fn lemma_included_core_cons(a: LogFile, t: Seq<LogFile>, since: Option<Date>)
    ensures
        included_core(seq![a] + t, since) == included_core(t, since) + if core_file_included(
            a,
            since,
        ) {
            1nat
        } else {
            0nat
        },
    decreases t.len(),
{
    if t.len() > 0 {
        lemma_included_core_cons(a, t.drop_last(), since);
        let st = seq![a] + t;
        assert(st.drop_last() =~= seq![a] + t.drop_last());
        assert(st.last() == t.last());
    } else {
        let st = seq![a] + t;
        assert(st =~= seq![a]);
        assert(st.drop_last() =~= Seq::<LogFile>::empty());
        assert(st.last() == a);
        assert(included_core(st.drop_last(), since) == 0);
    }
}

proof fn lemma_included_core_insert(r: Seq<LogFile>, x: LogFile, since: Option<Date>)
    ensures
        included_core(insert_by(r, x, name_order()), since) == included_core(r, since) + if core_file_included(
            x,
            since,
        ) {
            1nat
        } else {
            0nat
        },
    decreases r.len(),
{
    if r.len() == 0 {
        lemma_included_core_cons(x, r, since);
        assert(seq![x] + r =~= seq![x]);
    } else if (name_order())(x, r[0]) {
        lemma_included_core_cons(x, r, since);
    } else {
        lemma_included_core_insert(r.drop_first(), x, since);
        lemma_included_core_cons(r[0], insert_by(r.drop_first(), x, name_order()), since);
        lemma_included_core_cons(r[0], r.drop_first(), since);
        assert(seq![r[0]] + r.drop_first() =~= r);
    }
}

/// Sorting by name keeps the number of core logs counted.
proof fn lemma_included_core_by_name(s: Seq<LogFile>, since: Option<Date>)
    ensures
        included_core(by_file_name(s), since) == included_core(s, since),
    decreases s.len(),
{
    if s.len() > 0 {
        lemma_included_core_by_name(s.drop_last(), since);
        lemma_included_core_insert(by_file_name(s.drop_last()), s.last(), since);
    }
}

/// A scan counts exactly the files it keeps (`.log` files not older than the
/// start date, readable or not), and keeps the latest errors: as many as
/// were counted by date, but no more than `RECENT_LIMIT`.
pub proof fn law_scan_counts(core: Seq<LogFile>, crashes: Seq<LogFile>, since: Option<Date>)
    ensures
        scan_spec(core, crashes, since).file_count == included_core(core, since) + included_crash(
            crashes,
            since,
        ),
        scan_spec(core, crashes, since).recent_errors.len() == if total_count(
            scan_spec(core, crashes, since).errors_by_date,
        ) > RECENT_LIMIT {
            RECENT_LIMIT as nat
        } else {
            total_count(scan_spec(core, crashes, since).errors_by_date)
        },
{
    lemma_core_files_counts(empty_log_view(), by_file_name(core), since);
    lemma_crash_files_counts(core_files(empty_log_view(), by_file_name(core), since), crashes, since);
    lemma_included_core_by_name(core, since);
}

/// A counted message pattern is never longer than 60 characters.
pub proof fn law_normalized_error_short(msg: Seq<char>)
    ensures
        normalized_error(msg).len() <= 60,
{
    reveal_strlit("StashLink 服务崩溃重启");
    reveal_strlit("NAT 类型检测失败 (UDP)");
    reveal_strlit("默认网络接口丢失");
    reveal_strlit("代理组无可用节点");
    reveal_strlit("连接被拒绝");
    reveal_strlit("连接超时");
    reveal_strlit("I/O 超时");
}

/// A text that lacks one of the characters of `needle` does not contain it.
proof fn lemma_missing_char(hay: Seq<char>, needle: Seq<char>, j: int)
    requires
        0 <= j < needle.len(),
        forall|i: int| 0 <= i < hay.len() ==> hay[i] != needle[j],
    ensures
        !has_substr(hay, needle),
{
    if has_substr(hay, needle) {
        let i = choose|i: int| occurs_at(hay, needle, i);
        assert(hay.subrange(i, i + needle.len())[j] == hay[i + j]);
    }
}

/// What a prefix contains, the whole text contains.
proof fn lemma_prefix_substr(m: Seq<char>, k: int, needle: Seq<char>)
    requires
        0 <= k <= m.len(),
        has_substr(m.take(k), needle),
    ensures
        has_substr(m, needle),
{
    let i = choose|i: int| occurs_at(m.take(k), needle, i);
    assert(m.take(k).subrange(i, i + needle.len()) =~= m.subrange(i, i + needle.len()));
    assert(occurs_at(m, needle, i));
}

/// A text without a lowercase 'o' names no known cause, so it is its own
/// pattern when it has at most 60 characters.
proof fn lemma_no_cause(t: Seq<char>)
    requires
        forall|i: int| 0 <= i < t.len() ==> t[i] != 'o',
    ensures
        !has_substr(t, "StashLink server is down"@),
        !has_substr(t, "failed to get nat type"@),
        !has_substr(t, "default interface not found"@),
        !has_substr(t, "no proxy available"@),
        !has_substr(t, "connection refused"@),
        !has_substr(t, "timeout"@),
        !has_substr(t, "timed out"@),
        !has_substr(t, "i/o timeout"@),
{
    reveal_strlit("StashLink server is down");
    reveal_strlit("failed to get nat type");
    reveal_strlit("default interface not found");
    reveal_strlit("no proxy available");
    reveal_strlit("connection refused");
    reveal_strlit("timeout");
    reveal_strlit("timed out");
    reveal_strlit("i/o timeout");
    lemma_missing_char(t, "StashLink server is down"@, 21);
    lemma_missing_char(t, "failed to get nat type"@, 8);
    lemma_missing_char(t, "default interface not found"@, 19);
    lemma_missing_char(t, "no proxy available"@, 1);
    lemma_missing_char(t, "connection refused"@, 1);
    lemma_missing_char(t, "timeout"@, 4);
    lemma_missing_char(t, "timed out"@, 6);
    lemma_missing_char(t, "i/o timeout"@, 2);
}

/// Normalizing a pattern again changes nothing: every pattern is its own
/// pattern.
pub proof fn law_normalized_error_stable(msg: Seq<char>)
    ensures
        normalized_error(normalized_error(msg)) == normalized_error(msg),
{
    let n = normalized_error(msg);
    law_normalized_error_short(msg);
    reveal_strlit("StashLink 服务崩溃重启");
    reveal_strlit("NAT 类型检测失败 (UDP)");
    reveal_strlit("默认网络接口丢失");
    reveal_strlit("代理组无可用节点");
    reveal_strlit("连接被拒绝");
    reveal_strlit("连接超时");
    reveal_strlit("I/O 超时");
    if n == "StashLink 服务崩溃重启"@ || n == "NAT 类型检测失败 (UDP)"@ || n == "默认网络接口丢失"@
        || n == "代理组无可用节点"@ || n == "连接被拒绝"@ || n == "连接超时"@ || n == "I/O 超时"@ {
        assert(forall|i: int| 0 <= i < n.len() ==> n[i] != 'o');
        lemma_no_cause(n);
        assert(n.take(n.len() as int) =~= n);
    } else {
        let k: int = if msg.len() < 60 { msg.len() as int } else { 60 };
        assert(n == msg.take(k));
        if has_substr(n, "StashLink server is down"@) {
            lemma_prefix_substr(msg, k, "StashLink server is down"@);
        }
        if has_substr(n, "failed to get nat type"@) {
            lemma_prefix_substr(msg, k, "failed to get nat type"@);
        }
        if has_substr(n, "default interface not found"@) {
            lemma_prefix_substr(msg, k, "default interface not found"@);
        }
        if has_substr(n, "no proxy available"@) {
            lemma_prefix_substr(msg, k, "no proxy available"@);
        }
        if has_substr(n, "connection refused"@) {
            lemma_prefix_substr(msg, k, "connection refused"@);
        }
        if has_substr(n, "timeout"@) {
            lemma_prefix_substr(msg, k, "timeout"@);
        }
        if has_substr(n, "timed out"@) {
            lemma_prefix_substr(msg, k, "timed out"@);
        }
        if has_substr(n, "i/o timeout"@) {
            lemma_prefix_substr(msg, k, "i/o timeout"@);
        }
        assert(n.take(n.len() as int) =~= n);
    }
}

/// Each of the four counters of `a` is at most the same counter of `b`.
pub open spec fn counts_le(a: LogView, b: LogView) -> bool {
    &&& a.file_count <= b.file_count
    &&& a.error_count <= b.error_count
    &&& a.warn_count <= b.warn_count
    &&& a.info_count <= b.info_count
}

/// What core log lines add to the counters does not depend on the report
/// they are added to.
proof fn lemma_core_lines_delta(r: LogView, date: Seq<char>, ls: Seq<Seq<char>>)
    ensures
        core_lines(r, date, ls).file_count == r.file_count,
        core_lines(r, date, ls).error_count == r.error_count + core_lines(empty_log_view(), date, ls).error_count,
        core_lines(r, date, ls).warn_count == r.warn_count + core_lines(empty_log_view(), date, ls).warn_count,
        core_lines(r, date, ls).info_count == r.info_count + core_lines(empty_log_view(), date, ls).info_count,
    decreases ls.len(),
{
    if ls.len() > 0 {
        lemma_core_lines_delta(r, date, ls.drop_last());
        lemma_core_lines_delta(empty_log_view(), date, ls.drop_last());
    }
}

/// What crash log lines add to the counters does not depend on the report
/// they are added to.
proof fn lemma_crash_lines_delta(r: LogView, ls: Seq<Seq<char>>)
    ensures
        crash_lines(r, ls).0.file_count == r.file_count,
        crash_lines(r, ls).0.error_count == r.error_count + crash_lines(empty_log_view(), ls).0.error_count,
        crash_lines(r, ls).0.warn_count == r.warn_count,
        crash_lines(r, ls).0.info_count == r.info_count,
    decreases ls.len(),
{
    if ls.len() > 0 {
        lemma_crash_lines_delta(r, ls.drop_last());
        lemma_crash_lines_delta(empty_log_view(), ls.drop_last());
    }
}

/// Counting core logs under two start dates, where every file the second
/// keeps the first keeps too, gives the second no more of any counter.
proof fn lemma_core_files_mono(r1: LogView, r2: LogView, fs: Seq<LogFile>, s1: Option<Date>, s2: Option<Date>)
    requires
        counts_le(r2, r1),
        forall|f: LogFile| #[trigger] core_file_included(f, s2) ==> core_file_included(f, s1),
    ensures
        counts_le(core_files(r2, fs, s2), core_files(r1, fs, s1)),
    decreases fs.len(),
{
    if fs.len() > 0 {
        lemma_core_files_mono(r1, r2, fs.drop_last(), s1, s2);
        let a1 = core_files(r1, fs.drop_last(), s1);
        let a2 = core_files(r2, fs.drop_last(), s2);
        let f = fs.last();
        let date = date_label(f.name@);
        match f.content {
            Some(c) => {
                lemma_core_lines_delta(LogView { file_count: a1.file_count + 1, ..a1 }, date, lines(c@));
                lemma_core_lines_delta(LogView { file_count: a2.file_count + 1, ..a2 }, date, lines(c@));
            },
            None => {},
        }
        if core_file_included(f, s2) {
            assert(core_file_included(f, s1));
        }
    }
}

/// The same for crash logs.
proof fn lemma_crash_files_mono(r1: LogView, r2: LogView, fs: Seq<LogFile>, s1: Option<Date>, s2: Option<Date>)
    requires
        counts_le(r2, r1),
        forall|f: LogFile| #[trigger] crash_file_included(f, s2) ==> crash_file_included(f, s1),
    ensures
        counts_le(crash_files(r2, fs, s2), crash_files(r1, fs, s1)),
    decreases fs.len(),
{
    if fs.len() > 0 {
        lemma_crash_files_mono(r1, r2, fs.drop_last(), s1, s2);
        let a1 = crash_files(r1, fs.drop_last(), s1);
        let a2 = crash_files(r2, fs.drop_last(), s2);
        let f = fs.last();
        match f.content {
            Some(c) => {
                lemma_crash_lines_delta(LogView { file_count: a1.file_count + 1, ..a1 }, lines(c@));
                lemma_crash_lines_delta(LogView { file_count: a2.file_count + 1, ..a2 }, lines(c@));
            },
            None => {},
        }
        if crash_file_included(f, s2) {
            assert(crash_file_included(f, s1));
        }
    }
}

/// A later start date never raises a count: with a start date `d2` not
/// before `d1`, the scan counts no more files, errors, warnings or infos than
/// with `d1`, and with `d1` no more than without a start date.
pub proof fn law_since_monotone(core: Seq<LogFile>, crashes: Seq<LogFile>, d1: Date, d2: Date)
    requires
        !date_before(d2, d1),
    ensures
        counts_le(scan_spec(core, crashes, Some(d2)), scan_spec(core, crashes, Some(d1))),
        counts_le(scan_spec(core, crashes, Some(d1)), scan_spec(core, crashes, None)),
{
    let e = empty_log_view();
    let sorted = by_file_name(core);
    assert forall|f: LogFile| #[trigger] core_file_included(f, Some(d2)) implies core_file_included(f, Some(d1)) by {}
    assert forall|f: LogFile| #[trigger] core_file_included(f, Some(d1)) implies core_file_included(f, None) by {}
    assert forall|f: LogFile| #[trigger] crash_file_included(f, Some(d2)) implies crash_file_included(f, Some(d1)) by {}
    assert forall|f: LogFile| #[trigger] crash_file_included(f, Some(d1)) implies crash_file_included(f, None) by {}
    lemma_core_files_mono(e, e, sorted, Some(d1), Some(d2));
    lemma_core_files_mono(e, e, sorted, None, Some(d1));
    lemma_crash_files_mono(
        core_files(e, sorted, Some(d1)),
        core_files(e, sorted, Some(d2)),
        crashes,
        Some(d1),
        Some(d2),
    );
    lemma_crash_files_mono(
        core_files(e, sorted, None),
        core_files(e, sorted, Some(d1)),
        crashes,
        None,
        Some(d1),
    );
}

/// Without a start date every `.log` file counts; with one, a core log
/// dated before it, or a crash log last modified before it, does not.
pub proof fn law_since_filter(f: LogFile, min: Date)
    ensures
        core_file_included(f, None) == (file_extension(f.name@) == Some("log"@)),
        crash_file_included(f, None) == (file_extension(f.name@) == Some("log"@)),
        (name_date(f.name@) matches Some(d) && date_before(d, min)) ==> !core_file_included(
            f,
            Some(min),
        ),
        (f.modified matches Some(d) && date_before(d, min)) ==> !crash_file_included(f, Some(min)),
{
}

/// `b` counts `p` once more than `a`, and every other key as often.
pub open spec fn counted_once_more(a: CountSeq, b: CountSeq, p: Seq<char>) -> bool {
    &&& count_of(b, p) == count_of(a, p) + 1
    &&& forall|k: Seq<char>| k != p ==> #[trigger] count_of(b, k) == count_of(a, k)
}

/// A problem line of a crash log counts one more error, under the first
/// pattern its text points to: "请求超时" or "Code=-1001" is a request
/// timeout; otherwise "TLS错误" or "Code=-1200" a TLS failure; otherwise
/// "WARNING" with "reentrant" an NSTableView warning; otherwise "mach port"
/// an IMK error; otherwise it is counted under no pattern.  A line that
/// reports no problem changes nothing.
pub proof fn law_crash_line(r: LogView, line: Seq<char>)
    requires
        log_view_wf(r),
    ensures
        crash_entry(r, line, false) == r,
        crash_entry(r, line, true).error_count == r.error_count + 1,
        crash_entry(r, line, true).file_count == r.file_count,
        crash_entry(r, line, true).warn_count == r.warn_count,
        crash_entry(r, line, true).errors_by_module == r.errors_by_module,
        (has_substr(line, "请求超时"@) || has_substr(line, "Code=-1001"@)) ==> counted_once_more(
            r.error_patterns,
            crash_entry(r, line, true).error_patterns,
            "网络请求超时 (NSURLErrorDomain -1001)"@,
        ),
        !(has_substr(line, "请求超时"@) || has_substr(line, "Code=-1001"@)) && (has_substr(
            line,
            "TLS错误"@,
        ) || has_substr(line, "Code=-1200"@)) ==> counted_once_more(
            r.error_patterns,
            crash_entry(r, line, true).error_patterns,
            "TLS 安全连接失败 (-1200)"@,
        ),
        !(has_substr(line, "请求超时"@) || has_substr(line, "Code=-1001"@)) && !(has_substr(
            line,
            "TLS错误"@,
        ) || has_substr(line, "Code=-1200"@)) && has_substr(line, "WARNING"@) && has_substr(
            line,
            "reentrant"@,
        ) ==> counted_once_more(
            r.error_patterns,
            crash_entry(r, line, true).error_patterns,
            "NSTableView reentrant 操作警告"@,
        ),
        !(has_substr(line, "请求超时"@) || has_substr(line, "Code=-1001"@)) && !(has_substr(
            line,
            "TLS错误"@,
        ) || has_substr(line, "Code=-1200"@)) && !(has_substr(line, "WARNING"@) && has_substr(
            line,
            "reentrant"@,
        )) && has_substr(line, "mach port"@) ==> counted_once_more(
            r.error_patterns,
            crash_entry(r, line, true).error_patterns,
            "IMK mach port 通信错误"@,
        ),
        !(has_substr(line, "请求超时"@) || has_substr(line, "Code=-1001"@)) && !(has_substr(
            line,
            "TLS错误"@,
        ) || has_substr(line, "Code=-1200"@)) && !(has_substr(line, "WARNING"@) && has_substr(
            line,
            "reentrant"@,
        )) && !has_substr(line, "mach port"@) ==> crash_entry(r, line, true).error_patterns
            == r.error_patterns,
{
    match crash_category(line) {
        Some(p) => lemma_bump(r.error_patterns, p),
        None => {},
    }
}

/// `d` is the day `min` or a later one.
pub open spec fn on_or_after(d: Date, min: Date) -> bool {
    ||| d.year > min.year
    ||| (d.year == min.year && d.month > min.month)
    ||| (d.year == min.year && d.month == min.month && d.day >= min.day)
}

/// Which logs a scan reads: only `.log` files; without a start date all of
/// them; with one, a core log dated on or after it (or whose name gives no
/// date) is read and one dated before it is not, and likewise a crash log
/// by its last modification.
pub proof fn law_start_date_inclusion(f: LogFile, min: Date)
    ensures
        file_extension(f.name@) != Some("log"@) ==> !core_file_included(f, None) && !core_file_included(
            f,
            Some(min),
        ) && !crash_file_included(f, None) && !crash_file_included(f, Some(min)),
        file_extension(f.name@) == Some("log"@) ==> core_file_included(f, None) && crash_file_included(
            f,
            None,
        ),
        file_extension(f.name@) == Some("log"@) ==> (core_file_included(f, Some(min)) <==> match name_date(
            f.name@,
        ) {
            Some(d) => on_or_after(d, min),
            None => true,
        }),
        file_extension(f.name@) == Some("log"@) ==> (crash_file_included(f, Some(min)) <==> match f.modified {
            Some(d) => on_or_after(d, min),
            None => true,
        }),
{
}

/// The pattern an error message is counted under: the first of these causes
/// its text names, in this order: "StashLink server is down", "failed to get
/// nat type", "default interface not found", "no proxy available",
/// "connection refused", "timeout" or "timed out"; a message naming none is
/// counted by its first 60 characters.
pub proof fn law_error_patterns(msg: Seq<char>)
    ensures
        has_substr(msg, "StashLink server is down"@)
            ==> normalized_error(msg) == "StashLink 服务崩溃重启"@,
        !has_substr(msg, "StashLink server is down"@)
            && has_substr(msg, "failed to get nat type"@)
            ==> normalized_error(msg) == "NAT 类型检测失败 (UDP)"@,
        !has_substr(msg, "StashLink server is down"@)
            && !has_substr(msg, "failed to get nat type"@)
            && has_substr(msg, "default interface not found"@)
            ==> normalized_error(msg) == "默认网络接口丢失"@,
        !has_substr(msg, "StashLink server is down"@)
            && !has_substr(msg, "failed to get nat type"@)
            && !has_substr(msg, "default interface not found"@)
            && has_substr(msg, "no proxy available"@)
            ==> normalized_error(msg) == "代理组无可用节点"@,
        !has_substr(msg, "StashLink server is down"@)
            && !has_substr(msg, "failed to get nat type"@)
            && !has_substr(msg, "default interface not found"@)
            && !has_substr(msg, "no proxy available"@)
            && has_substr(msg, "connection refused"@)
            ==> normalized_error(msg) == "连接被拒绝"@,
        !has_substr(msg, "StashLink server is down"@)
            && !has_substr(msg, "failed to get nat type"@)
            && !has_substr(msg, "default interface not found"@)
            && !has_substr(msg, "no proxy available"@)
            && !has_substr(msg, "connection refused"@)
            && (has_substr(msg, "timeout"@) || has_substr(msg, "timed out"@))
            ==> normalized_error(msg) == "连接超时"@,
        !has_substr(msg, "StashLink server is down"@)
            && !has_substr(msg, "failed to get nat type"@)
            && !has_substr(msg, "default interface not found"@)
            && !has_substr(msg, "no proxy available"@)
            && !has_substr(msg, "connection refused"@)
            && !(has_substr(msg, "timeout"@) || has_substr(msg, "timed out"@))
            ==> normalized_error(msg) == msg.take(if msg.len() < 60 { msg.len() as int } else { 60 }),
{
    if has_substr(msg, "i/o timeout"@) {
        reveal_strlit("i/o timeout");
        reveal_strlit("timeout");
        let i = choose|i: int| occurs_at(msg, "i/o timeout"@, i);
        assert(msg.subrange(i + 4, i + 11) =~= msg.subrange(i, i + 11).subrange(4, 11));
        assert("i/o timeout"@.subrange(4, 11) =~= "timeout"@);
        assert(occurs_at(msg, "timeout"@, i + 4));
    }
}

/// A matched core log line of level ERRO counts one more error, under its
/// module, under the log's date and under its message's pattern, and joins
/// the latest errors as "[date time] [module] message"; one of level WARN
/// counts one more warning, and when its message says "no proxy available"
/// also counts under that pattern and under "<module>(WARN)"; one of level
/// INFO counts one more info; any other line changes nothing.
pub proof fn law_core_line(
    r: LogView,
    date: Seq<char>,
    caps: Option<Seq<Option<Seq<char>>>>,
    level: Seq<char>,
    time: Seq<char>,
    module: Seq<char>,
    message: Seq<char>,
)
    requires
        log_view_wf(r),
        core_fields(caps) == Some((level, time, module, message)),
    ensures
        level == "ERRO"@ ==> {
            let a = core_entry(r, date, caps);
            &&& a.error_count == r.error_count + 1
            &&& a.warn_count == r.warn_count
            &&& a.info_count == r.info_count
            &&& counted_once_more(r.errors_by_module, a.errors_by_module, module)
            &&& counted_once_more(r.errors_by_date, a.errors_by_date, date)
            &&& counted_once_more(r.error_patterns, a.error_patterns, normalized_error(message))
            &&& a.recent_errors == r.recent_errors.push(
                "["@ + date + " "@ + time + "] ["@ + module + "] "@ + message,
            )
        },
        level == "WARN"@ ==> {
            let a = core_entry(r, date, caps);
            &&& a.warn_count == r.warn_count + 1
            &&& a.error_count == r.error_count
            &&& a.errors_by_date == r.errors_by_date
            &&& a.recent_errors == r.recent_errors
            &&& has_substr(message, "no proxy available"@) ==> counted_once_more(
                r.error_patterns,
                a.error_patterns,
                normalized_error(message),
            ) && counted_once_more(r.errors_by_module, a.errors_by_module, module + "(WARN)"@)
            &&& !has_substr(message, "no proxy available"@) ==> a.error_patterns == r.error_patterns
                && a.errors_by_module == r.errors_by_module
        },
        level == "INFO"@ ==> core_entry(r, date, caps) == (LogView { info_count: r.info_count + 1, ..r }),
        level != "ERRO"@ && level != "WARN"@ && level != "INFO"@ ==> core_entry(r, date, caps) == r,
{
    reveal_strlit("ERRO");
    reveal_strlit("WARN");
    reveal_strlit("INFO");
    assert("WARN"@[0] != "ERRO"@[0]);
    assert("INFO"@[0] != "ERRO"@[0]);
    assert("INFO"@[0] != "WARN"@[0]);
    lemma_bump(r.errors_by_module, module);
    lemma_bump(r.errors_by_date, date);
    lemma_bump(r.error_patterns, normalized_error(message));
    lemma_bump(r.errors_by_module, module + "(WARN)"@);
}

/// A core log line that does not match the line pattern changes nothing.
pub proof fn law_core_line_unmatched(r: LogView, date: Seq<char>, caps: Option<Seq<Option<Seq<char>>>>)
    requires
        core_fields(caps) is None,
    ensures
        core_entry(r, date, caps) == r,
{
}

} // verus!
