//! Configuration and events of the test-runner console.
use crate::text::chars_of;
use vstd::prelude::*;
use vstd::string::StringExecFns;

verus! {

/// What the console runs.
#[derive(Debug, Clone)]
pub struct TestConfig {
    /// Feature flags passed to the build (such as `rocksdb-backend`).
    pub features: String,
    /// Test profile: unit, integration, performance or all.
    pub profile: String,
    /// Timeout in seconds.
    pub timeout: u64,
    /// Detailed output.
    pub verbose: bool,
    /// Where to write a report, if anywhere.
    pub report_file: Option<String>,
}

impl Default for TestConfig {
    fn default() -> (c: Self)
        ensures
            c.features@ == "rocksdb-backend"@,
            c.profile@ == "all"@,
            c.timeout == 300,
            !c.verbose,
            c.report_file is None,
    {
        TestConfig {
            features: String::from_str("rocksdb-backend"),
            profile: String::from_str("all"),
            timeout: 300,
            verbose: false,
            report_file: None,
        }
    }
}

/// One benchmark's measurement.
#[derive(Debug, Clone)]
pub struct BenchmarkResult {
    pub name: String,
    /// Time per iteration in nanoseconds.
    pub time_ns: u64,
    /// Samples taken.
    pub samples: u32,
}

/// What a run reports as it goes.
#[derive(Debug, Clone)]
pub enum TestEvent {
    TestStarted(String),
    TestPassed(String),
    TestFailed(String, String),
    TestIgnored(String),
    BenchmarkResult(BenchmarkResult),
    Log(String),
    Finished { total: u32, passed: u32, failed: u32 },
}

/// Whether `pat` occurs in `s` at position `i`.
pub open spec fn occurs_at(s: Seq<char>, pat: Seq<char>, i: int) -> bool {
    0 <= i && i + pat.len() <= s.len() && s.subrange(i, i + pat.len()) == pat
}

/// The first position at or after `from` where `pat` occurs in `s`.
pub open spec fn find_from(s: Seq<char>, pat: Seq<char>, from: int) -> Option<int>
    decreases s.len() + 1 - from,
{
    if from < 0 || from + pat.len() > s.len() {
        None
    } else if occurs_at(s, pat, from) {
        Some(from)
    } else {
        find_from(s, pat, from + 1)
    }
}

/// The name a result line gives its test: the text after the first `test ` up to the
/// next `test ` (as `split("test ").nth(1)` cuts it), and of that the part before the
/// first `marker`.
pub open spec fn reported_name(line: Seq<char>, marker: Seq<char>) -> Seq<char> {
    let start = find_from(line, "test "@, 0)->0 + 5;
    let end = match find_from(line, "test "@, start) {
        Some(p) => p,
        None => line.len() as int,
    };
    let piece = line.subrange(start, end);
    match find_from(piece, marker, 0) {
        Some(q) => piece.take(q),
        None => piece,
    }
}

/// What a line of test output reports, other than the line itself: a passed, failed or
/// ignored test, for a line holding `test ` and ` ... ok`, ` ... FAILED` or ` ... ignored`
/// (checked in that order); nothing for any other line. The number is 0 for passed, 1 for
/// failed and 2 for ignored.
pub open spec fn line_status(line: Seq<char>) -> Option<(int, Seq<char>)> {
    if find_from(line, "test "@, 0) is None {
        None
    } else if find_from(line, " ... ok"@, 0) is Some {
        Some((0, reported_name(line, " ... ok"@)))
    } else if find_from(line, " ... FAILED"@, 0) is Some {
        Some((1, reported_name(line, " ... FAILED"@)))
    } else if find_from(line, " ... ignored"@, 0) is Some {
        Some((2, reported_name(line, " ... ignored"@)))
    } else {
        None
    }
}

fn occurs_at_exec(s: &Vec<char>, pat: &Vec<char>, i: usize) -> (r: bool)
    requires
        i + pat@.len() <= s@.len(),
    ensures
        r == occurs_at(s@, pat@, i as int),
{
    let n = s.len();
    let mut j: usize = 0;
    while j < pat.len()
        invariant
            n == s@.len(),
            i + pat@.len() <= s@.len(),
            j <= pat@.len(),
            forall|k: int| 0 <= k < j ==> s@[i + k] == pat@[k],
        decreases pat@.len() - j,
    {
        if s[i + j] != pat[j] {
            assert(s@.subrange(i as int, i + pat@.len())[j as int] != pat@[j as int]);
            return false;
        }
        j = j + 1;
    }
    assert(s@.subrange(i as int, i + pat@.len()) =~= pat@);
    true
}

/// The first position at or after `from` where `pat` occurs in `s`.
fn find_from_exec(s: &Vec<char>, pat: &Vec<char>, from: usize) -> (r: Option<usize>)
    requires
        s@.len() + pat@.len() <= usize::MAX,
        pat@.len() >= 1,
        from <= s@.len(),
    ensures
        match find_from(s@, pat@, from as int) {
            Some(p) => r == Some(p as usize),
            None => r is None,
        },
{
    let mut i = from;
    while i + pat.len() <= s.len()
        invariant
            s@.len() + pat@.len() <= usize::MAX,
            pat@.len() >= 1,
            from <= i <= s@.len(),
            find_from(s@, pat@, from as int) == find_from(s@, pat@, i as int),
        decreases s@.len() - i,
    {
        if occurs_at_exec(s, pat, i) {
            return Some(i);
        }
        i = i + 1;
    }
    None
}

fn subrange_string(s: &Vec<char>, lo: usize, hi: usize) -> (r: String)
    requires
        lo <= hi <= s@.len(),
    ensures
        r@ == s@.subrange(lo as int, hi as int),
{
    let mut r = String::new();
    let mut i = lo;
    while i < hi
        invariant
            lo <= i <= hi <= s@.len(),
            r@ == s@.subrange(lo as int, i as int),
        decreases hi - i,
    {
        let piece = char_str(s[i]);
        r.append(piece.as_str());
        assert(s@.subrange(lo as int, i + 1) =~= s@.subrange(lo as int, i as int).push(s@[i as int]));
        i = i + 1;
    }
    r
}

/// Calls `char::to_string`: the one-character text.
#[verifier::external_body]
fn char_str(c: char) -> (s: String)
    ensures
        s@ == seq![c],
{
    c.to_string()
}

fn reported_name_exec(line: &Vec<char>, marker: &str) -> (r: String)
    requires
        find_from(line@, "test "@, 0) is Some,
        line@.len() + 16 <= usize::MAX,
        1 <= marker@.len() <= 16,
    ensures
        r@ == reported_name(line@, marker@),
{
    let test_pat = chars_of("test ");
    proof {
        reveal_strlit("test ");
    }
    let p1 = find_from_exec(line, &test_pat, 0).unwrap();
    proof {
        lemma_find_from_bounds(line@, "test "@, 0);
    }
    let start = p1 + 5;
    let end = match find_from_exec(line, &test_pat, start) {
        Some(p) => p,
        None => line.len(),
    };
    proof {
        lemma_find_from_bounds(line@, "test "@, start as int);
    }
    let piece = slice_chars(line, start, end);
    let m = chars_of(marker);
    let cut = match find_from_exec(&piece, &m, 0) {
        Some(q) => q,
        None => piece.len(),
    };
    proof {
        lemma_find_from_bounds(piece@, marker@, 0);
        assert(piece@.take(piece@.len() as int) =~= piece@);
    }
    subrange_string(&piece, 0, cut)
}

proof fn lemma_find_from_bounds(s: Seq<char>, pat: Seq<char>, from: int)
    ensures
        find_from(s, pat, from) matches Some(p) ==> from <= p && p + pat.len() <= s.len() && occurs_at(s, pat, p),
    decreases s.len() + 1 - from,
{
    if !(from < 0 || from + pat.len() > s.len()) && !occurs_at(s, pat, from) {
        lemma_find_from_bounds(s, pat, from + 1);
    }
}

fn slice_chars(s: &Vec<char>, lo: usize, hi: usize) -> (r: Vec<char>)
    requires
        lo <= hi <= s@.len(),
    ensures
        r@ == s@.subrange(lo as int, hi as int),
{
    let mut r: Vec<char> = Vec::new();
    let mut i = lo;
    while i < hi
        invariant
            lo <= i <= hi <= s@.len(),
            r@ == s@.subrange(lo as int, i as int),
        decreases hi - i,
    {
        r.push(s[i]);
        assert(s@.subrange(lo as int, i + 1) =~= s@.subrange(lo as int, i as int).push(s@[i as int]));
        i = i + 1;
    }
    r
}

/// The events a line of `cargo test` output gives: the test's result where the line
/// reports one (see `line_status`), then the line itself as a log line.
pub fn test_line_events(line: &str) -> (v: Vec<TestEvent>)
    requires
        line@.len() + 16 <= usize::MAX,
    ensures
        v@.len() == if line_status(line@) is Some { 2int } else { 1int },
        v@.last() matches TestEvent::Log(l) && l@ == line@,
        line_status(line@) matches Some((k, name)) ==> k == 0 ==> (v@[0] matches TestEvent::TestPassed(n) && n@ == name),
        line_status(line@) matches Some((k, name)) ==> k == 1 ==> (v@[0] matches TestEvent::TestFailed(n, l) && n@ == name
            && l@ == line@),
        line_status(line@) matches Some((k, name)) ==> k == 2 ==> (v@[0] matches TestEvent::TestIgnored(n) && n@ == name),
{
    proof {
        reveal_strlit("test ");
        reveal_strlit(" ... ok");
        reveal_strlit(" ... FAILED");
        reveal_strlit(" ... ignored");
    }
    let chars = chars_of(line);
    let mut v: Vec<TestEvent> = Vec::new();
    if find_from_exec(&chars, &chars_of("test "), 0).is_some() {
        if find_from_exec(&chars, &chars_of(" ... ok"), 0).is_some() {
            v.push(TestEvent::TestPassed(reported_name_exec(&chars, " ... ok")));
        } else if find_from_exec(&chars, &chars_of(" ... FAILED"), 0).is_some() {
            v.push(TestEvent::TestFailed(reported_name_exec(&chars, " ... FAILED"), String::from_str(line)));
        } else if find_from_exec(&chars, &chars_of(" ... ignored"), 0).is_some() {
            v.push(TestEvent::TestIgnored(reported_name_exec(&chars, " ... ignored")));
        }
    }
    v.push(TestEvent::Log(String::from_str(line)));
    v
}

/// The views of a list of strings.
pub open spec fn arg_views(v: Seq<String>) -> Seq<Seq<char>> {
    v.map_values(|a: String| a@)
}

/// The arguments every test run starts with, before the test selection.
pub open spec fn common_test_args(features: Seq<char>, workspace: bool) -> Seq<Seq<char>> {
    if workspace {
        seq!["test"@, "--release"@, "--workspace"@, "--features="@ + features, "--no-default-features"@, "--color=always"@]
    } else {
        seq!["test"@, "--release"@, "--features="@ + features, "--no-default-features"@, "--color=always"@]
    }
}

/// `cargo`'s arguments for the unit tests: the whole workspace with the features,
/// and the test name pattern when there is one.
pub open spec fn unit_test_args_of(features: Seq<char>, pattern: Seq<char>) -> Seq<Seq<char>> {
    let base = common_test_args(features, true);
    if pattern.len() == 0 {
        base
    } else {
        base.push(pattern)
    }
}

/// `cargo`'s arguments for the integration tests: the named test target (every
/// `integration_*` target when none is named), and the ignored tests with their output
/// when performance tests are included.
pub open spec fn integration_test_args_of(features: Seq<char>, test_name: Seq<char>, include_performance: bool) -> Seq<
    Seq<char>,
> {
    let base = common_test_args(features, false).push("--test"@).push(
        if test_name.len() == 0 {
            "integration_*"@
        } else {
            test_name
        },
    );
    if include_performance {
        base.push("--"@).push("--ignored"@).push("--nocapture"@)
    } else {
        base
    }
}

fn push_arg(v: &mut Vec<String>, a: &str)
    ensures
        arg_views(final(v)@) == arg_views(old(v)@).push(a@),
{
    v.push(String::from_str(a));
    assert(arg_views(v@) =~= arg_views(old(v)@).push(a@));
}

fn common_args(features: &str, workspace: bool) -> (v: Vec<String>)
    ensures
        arg_views(v@) == common_test_args(features@, workspace),
{
    let mut v: Vec<String> = Vec::new();
    assert(arg_views(v@) =~= Seq::<Seq<char>>::empty());
    push_arg(&mut v, "test");
    push_arg(&mut v, "--release");
    if workspace {
        push_arg(&mut v, "--workspace");
    }
    let mut f = String::from_str("--features=");
    f.append(features);
    let ghost before = v@;
    v.push(f);
    assert(arg_views(v@) =~= arg_views(before).push("--features="@ + features@));
    push_arg(&mut v, "--no-default-features");
    push_arg(&mut v, "--color=always");
    assert(arg_views(v@) =~= common_test_args(features@, workspace));
    v
}

/// The arguments of `cargo` for a run of the unit tests.
pub fn unit_test_args(features: &str, pattern: &str) -> (a: Vec<String>)
    ensures
        arg_views(a@) == unit_test_args_of(features@, pattern@),
{
    let mut a = common_args(features, true);
    if pattern.unicode_len() > 0 {
        push_arg(&mut a, pattern);
    }
    a
}

/// The arguments of `cargo` for a run of the integration tests.
pub fn integration_test_args(features: &str, test_name: &str, include_performance: bool) -> (a: Vec<String>)
    ensures
        arg_views(a@) == integration_test_args_of(features@, test_name@, include_performance),
{
    let mut a = common_args(features, false);
    push_arg(&mut a, "--test");
    if test_name.unicode_len() == 0 {
        push_arg(&mut a, "integration_*");
    } else {
        push_arg(&mut a, test_name);
    }
    if include_performance {
        push_arg(&mut a, "--");
        push_arg(&mut a, "--ignored");
        push_arg(&mut a, "--nocapture");
    }
    a
}

} // verus!
