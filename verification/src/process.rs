use vstd::prelude::*;
use crate::errors::ResguardError;

verus! {

/// One process snapshot, supplied by the process scanner outside the
/// library. `cpu_usage` is in thousandths of a percent; `memory` is resident
/// bytes.
#[derive(Debug, Clone)]
pub struct Process {
    pub pid: u32,
    pub name: String,
    pub exe: String,
    pub cmd: Vec<String>,
    pub cpu_usage: u64,
    pub memory: u64,
    pub user: String,
    pub systemd_service: Option<String>,
}

/// Handle for process enumeration. Scanning itself reads the operating
/// system and happens outside the library; the scanner carries no state.
pub struct Scanner;

impl Scanner {
    pub fn new() -> (s: Scanner) {
        Scanner
    }
}

#[verifier::external_type_specification]
#[verifier::external_body]
pub struct ExRegex(regex::Regex);

#[verifier::external_type_specification]
#[verifier::external_body]
pub struct ExRegexError(regex::Error);

/// Relies on regex::Regex::new: compiles a pattern, failing exactly on
/// syntactically invalid patterns.
#[verifier::external_body]
fn regex_compile(pattern: &str) -> (r: Result<regex::Regex, regex::Error>) {
    regex::Regex::new(pattern)
}

/// Relies on the Display implementation of regex::Error for a readable
/// account of why a pattern failed to compile.
#[verifier::external_body]
fn regex_error_text(e: &regex::Error) -> (s: String) {
    format!("{}", e)
}

/// Relies on regex::Regex::is_match: whether the pattern matches somewhere
/// in the text.
#[verifier::external_body]
fn regex_is_match(re: &regex::Regex, text: &str) -> (b: bool) {
    re.is_match(text)
}

/// The allow/deny filter: `true` exactly when no blacklist pattern hit and,
/// if a whitelist is present at all, some whitelist pattern hit.
pub open spec fn spec_decide_monitor(black_hits: Seq<bool>, white_hits: Seq<bool>) -> bool {
    (forall|i: int| 0 <= i < black_hits.len() ==> !black_hits[i]) && (white_hits.len() == 0
        || exists|i: int| 0 <= i < white_hits.len() && white_hits[i])
}

/// Decides whether to keep monitoring a process, given which blacklist and
/// whitelist patterns matched it.
pub fn decide_monitor(black_hits: &Vec<bool>, white_hits: &Vec<bool>) -> (r: bool)
    ensures
        r == spec_decide_monitor(black_hits@, white_hits@),
{
    let mut i: usize = 0;
    while i < black_hits.len()
        invariant
            i <= black_hits@.len(),
            forall|j: int| 0 <= j < i ==> !black_hits@[j],
        decreases black_hits@.len() - i,
    {
        if black_hits[i] {
            return false;
        }
        i = i + 1;
    }
    if white_hits.len() == 0 {
        return true;
    }
    let mut w: usize = 0;
    while w < white_hits.len()
        invariant
            w <= white_hits@.len(),
            white_hits@.len() > 0,
            forall|j: int| 0 <= j < black_hits@.len() ==> !black_hits@[j],
            forall|j: int| 0 <= j < w ==> !white_hits@[j],
        decreases white_hits@.len() - w,
    {
        if white_hits[w] {
            proof {
                assert(white_hits@[w as int]);
            }
            return true;
        }
        w = w + 1;
    }
    false
}

/// The allow/deny filter over process names and executable paths, with
/// patterns compiled once at startup.
pub struct Matcher {
    whitelist: Vec<regex::Regex>,
    blacklist: Vec<regex::Regex>,
}

impl Matcher {
    /// Number of compiled whitelist patterns.
    pub closed spec fn whitelist_len(&self) -> nat {
        self.whitelist@.len()
    }

    /// Number of compiled blacklist patterns.
    pub closed spec fn blacklist_len(&self) -> nat {
        self.blacklist@.len()
    }

    /// Compiles both pattern lists; any invalid pattern is reported as a
    /// configuration error rather than dropped.
    pub fn new(whitelist: Vec<String>, blacklist: Vec<String>) -> (r: Result<
        Matcher,
        ResguardError,
    >)
        ensures
            r is Ok ==> r->Ok_0.whitelist_len() == whitelist@.len(),
            r is Ok ==> r->Ok_0.blacklist_len() == blacklist@.len(),
            r is Err ==> r->Err_0 is Config,
    {
        let wl = match Self::compile_patterns(whitelist) {
            Ok(v) => v,
            Err(e) => {
                return Err(e);
            },
        };
        let bl = match Self::compile_patterns(blacklist) {
            Ok(v) => v,
            Err(e) => {
                return Err(e);
            },
        };
        Ok(Matcher { whitelist: wl, blacklist: bl })
    }

    /// Compiles every pattern, or reports the first invalid one.
    fn compile_patterns(patterns: Vec<String>) -> (r: Result<Vec<regex::Regex>, ResguardError>)
        ensures
            r is Ok ==> r->Ok_0@.len() == patterns@.len(),
            r is Err ==> r->Err_0 is Config,
    {
        let mut compiled: Vec<regex::Regex> = Vec::new();
        let mut i: usize = 0;
        while i < patterns.len()
            invariant
                i <= patterns@.len(),
                compiled@.len() == i,
            decreases patterns@.len() - i,
        {
            match regex_compile(patterns[i].as_str()) {
                Ok(re) => compiled.push(re),
                Err(e) => {
                    return Err(ResguardError::Config(regex_error_text(&e)));
                },
            }
            i = i + 1;
        }
        Ok(compiled)
    }

    /// Whether the process should be monitored: a blacklist hit excludes it;
    /// a non-empty whitelist admits only processes it matches. The verdict
    /// over the individual pattern matches is exactly `decide_monitor`.
    pub fn should_monitor(&self, process: &Process) -> (r: bool) {
        let mut black_hits: Vec<bool> = Vec::new();
        let mut i: usize = 0;
        while i < self.blacklist.len()
            decreases self.blacklist@.len() - i,
        {
            let hit = regex_is_match(&self.blacklist[i], process.name.as_str())
                || regex_is_match(&self.blacklist[i], process.exe.as_str());
            black_hits.push(hit);
            i = i + 1;
        }
        let mut white_hits: Vec<bool> = Vec::new();
        let mut w: usize = 0;
        while w < self.whitelist.len()
            decreases self.whitelist@.len() - w,
        {
            let hit = regex_is_match(&self.whitelist[w], process.name.as_str())
                || regex_is_match(&self.whitelist[w], process.exe.as_str());
            white_hits.push(hit);
            w = w + 1;
        }
        decide_monitor(&black_hits, &white_hits)
    }
}

/// The byte value of a line break in a cgroup listing.
pub const LINE_BREAK: u8 = 10;

/// The byte value of the path separator in a cgroup listing.
pub const PATH_SEP: u8 = 47;

/// True when `pat` occurs contiguously somewhere in `s`.
pub open spec fn contains_seq(s: Seq<u8>, pat: Seq<u8>) -> bool {
    exists|i: int|
        0 <= i && i + pat.len() <= s.len() && #[trigger] s.subrange(i, i + pat.len()) == pat
}

/// Index just past the last occurrence of `sep` in `s`; 0 when none occurs.
pub open spec fn cut_index(s: Seq<u8>, sep: u8) -> int
    decreases s.len(),
{
    if s.len() == 0 {
        0
    } else if s[s.len() - 1] == sep {
        s.len() as int
    } else {
        cut_index(s.drop_last(), sep)
    }
}

/// The text after the last `sep`: the whole of `s` when none occurs.
pub open spec fn spec_suffix_after_last(s: Seq<u8>, sep: u8) -> Seq<u8> {
    s.subrange(cut_index(s, sep), s.len() as int)
}

/// First newline position at or after `i`; the length when none is left.
pub open spec fn spec_line_end(s: Seq<u8>, i: int) -> int
    decreases s.len() - i,
{
    if i < 0 || i >= s.len() {
        s.len() as int
    } else if s[i] == LINE_BREAK {
        i
    } else {
        spec_line_end(s, i + 1)
    }
}

/// Every line end lies between its start and the end of the text.
pub proof fn lemma_line_end_bounds(s: Seq<u8>, i: int)
    requires
        0 <= i <= s.len(),
    ensures
        i <= spec_line_end(s, i) <= s.len(),
    decreases s.len() - i,
{
    if i < s.len() && s[i] != LINE_BREAK {
        lemma_line_end_bounds(s, i + 1);
    }
}

/// The bytes of the marker that names a service line in a cgroup listing.
pub open spec fn service_marker() -> Seq<u8> {
    seq![115u8, 121u8, 115u8, 116u8, 101u8, 109u8, 46u8, 115u8, 108u8, 105u8, 99u8, 101u8]
}

/// The owning service in a process's cgroup listing, scanned line by line
/// from position `i`: the first line holding the marker yields what follows
/// the last path separator of that line.
pub open spec fn spec_detect_service(s: Seq<u8>, i: int) -> Option<Seq<u8>>
    decreases s.len() - i,
    via spec_detect_service_decreases
{
    if i < 0 || i >= s.len() {
        None
    } else {
        let e = spec_line_end(s, i);
        let line = s.subrange(i, e);
        if contains_seq(line, service_marker()) {
            Some(spec_suffix_after_last(line, PATH_SEP))
        } else if e >= s.len() {
            None
        } else {
            spec_detect_service(s, e + 1)
        }
    }
}

#[via_fn]
proof fn spec_detect_service_decreases(s: Seq<u8>, i: int) {
    if 0 <= i < s.len() {
        lemma_line_end_bounds(s, i);
    }
}

fn service_marker_bytes() -> (v: Vec<u8>)
    ensures
        v@ == service_marker(),
{
    let mut v: Vec<u8> = Vec::new();
    v.push(115);
    v.push(121);
    v.push(115);
    v.push(116);
    v.push(101);
    v.push(109);
    v.push(46);
    v.push(115);
    v.push(108);
    v.push(105);
    v.push(99);
    v.push(101);
    proof {
        assert(v@ =~= service_marker());
    }
    v
}

/// Whether `pat` starts at position `at` of `hay`.
fn matches_at(hay: &[u8], pat: &[u8], at: usize) -> (r: bool)
    requires
        at + pat@.len() <= hay@.len(),
        hay@.len() <= usize::MAX,
    ensures
        r == (hay@.subrange(at as int, at as int + pat@.len() as int) == pat@),
{
    let ghost window = hay@.subrange(at as int, at as int + pat@.len() as int);
    let mut j: usize = 0;
    while j < pat.len()
        invariant
            at + pat@.len() <= hay@.len(),
            hay@.len() <= usize::MAX,
            j <= pat@.len(),
            window == hay@.subrange(at as int, at as int + pat@.len() as int),
            forall|l: int| 0 <= l < j ==> window[l] == pat@[l],
        decreases pat@.len() - j,
    {
        if *vstd::slice::slice_index_get(hay, at + j) != *vstd::slice::slice_index_get(pat, j) {
            proof {
                assert(window[j as int] == hay@[at + j]);
                assert(window != pat@);
            }
            return false;
        }
        j = j + 1;
    }
    proof {
        assert(window =~= pat@);
    }
    true
}

/// Whether `pat` occurs contiguously in `hay`, by direct search.
pub fn contains_subslice(hay: &[u8], pat: &[u8]) -> (r: bool)
    ensures
        r == contains_seq(hay@, pat@),
{
    if pat.len() > hay.len() {
        return false;
    }
    if pat.len() == 0 {
        proof {
            assert(hay@.subrange(0, 0 + pat@.len() as int) =~= pat@);
            assert(contains_seq(hay@, pat@));
        }
        return true;
    }
    let mut i: usize = 0;
    while i <= hay.len() - pat.len()
        invariant
            1 <= pat@.len() <= hay@.len(),
            hay@.len() <= usize::MAX,
            i <= hay@.len() - pat@.len() + 1,
            forall|l: int|
                0 <= l < i ==> #[trigger] hay@.subrange(l, l + pat@.len() as int) != pat@,
        decreases hay@.len() - i + 1,
    {
        if matches_at(hay, pat, i) {
            return true;
        }
        i = i + 1;
    }
    false
}

/// Copies the text after the last `sep`, or the whole line when none
/// occurs.
pub fn suffix_after_last(line: &[u8], sep: u8) -> (r: Vec<u8>)
    ensures
        r@ == spec_suffix_after_last(line@, sep),
{
    let mut cut: usize = 0;
    let mut i: usize = 0;
    while i < line.len()
        invariant
            i <= line@.len(),
            cut <= i,
            cut == cut_index(line@.take(i as int), sep),
        decreases line@.len() - i,
    {
        proof {
            assert(line@.take(i as int + 1).drop_last() =~= line@.take(i as int));
            assert(line@.take(i as int + 1)[i as int] == line@[i as int]);
        }
        if *vstd::slice::slice_index_get(line, i) == sep {
            cut = i + 1;
        }
        i = i + 1;
    }
    proof {
        assert(line@.take(line@.len() as int) =~= line@);
    }
    let mut out: Vec<u8> = Vec::new();
    let mut j: usize = cut;
    while j < line.len()
        invariant
            cut <= j <= line@.len(),
            out@ == line@.subrange(cut as int, j as int),
        decreases line@.len() - j,
    {
        proof {
            assert(line@.subrange(cut as int, j as int + 1) =~= line@.subrange(
                cut as int,
                j as int,
            ).push(line@[j as int]));
        }
        out.push(*vstd::slice::slice_index_get(line, j));
        j = j + 1;
    }
    out
}

fn find_line_end(content: &[u8], start: usize) -> (e: usize)
    requires
        start <= content@.len(),
    ensures
        e == spec_line_end(content@, start as int),
        start <= e <= content@.len(),
{
    let mut i: usize = start;
    while i < content.len()
        invariant
            start <= i <= content@.len(),
            spec_line_end(content@, start as int) == spec_line_end(content@, i as int),
        decreases content@.len() - i,
    {
        if *vstd::slice::slice_index_get(content, i) == LINE_BREAK {
            return i;
        }
        i = i + 1;
    }
    i
}

/// The owning service name in a cgroup listing of one process: the first
/// line holding the service marker, cut after its last path separator;
/// exactly `spec_detect_service` over the bytes.
pub fn detect_systemd_service(content: &[u8]) -> (r: Option<Vec<u8>>)
    ensures
        match r {
            Some(v) => spec_detect_service(content@, 0) == Some(v@),
            None => spec_detect_service(content@, 0) is None,
        },
{
    let marker = service_marker_bytes();
    let mut start: usize = 0;
    while start < content.len()
        invariant
            start <= content@.len(),
            marker@ == service_marker(),
            spec_detect_service(content@, 0) == spec_detect_service(content@, start as int),
        decreases content@.len() - start,
    {
        let end = find_line_end(content, start);
        let line = vstd::slice::slice_subrange(content, start, end);
        if contains_subslice(line, marker.as_slice()) {
            let out = suffix_after_last(line, PATH_SEP);
            return Some(out);
        }
        if end == content.len() {
            return None;
        }
        proof {
            assert(spec_detect_service(content@, start as int) == spec_detect_service(
                content@,
                end as int + 1,
            ));
        }
        start = end + 1;
    }
    None
}

} // verus!

