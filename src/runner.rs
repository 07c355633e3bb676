//! The command lines with which Unity is run in batch mode.
//!
//! Running the process belongs to the caller; this module says what to run.
use vstd::prelude::*;

verus! {

/// Where Unity is told to write the test report.
pub const TEST_RESULTS_PATH: &'static str = "/tmp/unity-test-results.xml";

/// Which set of tests to run.
#[derive(Debug, Clone, Copy, PartialEq, Eq, Structural)]
pub enum TestMode {
    EditMode,
    PlayMode,
}

/// The abstract value of a list of arguments.
pub open spec fn args_view(v: Seq<String>) -> Seq<Seq<char>> {
    v.map_values(|s: String| s@)
}

/// The arguments of every run: headless, logging to standard output, on the
/// project at `project`, followed by `extra`.
pub open spec fn unity_args(project: Seq<char>, extra: Seq<Seq<char>>) -> Seq<Seq<char>> {
    seq!["-batchmode"@, "-logfile"@, "-"@, "-projectPath"@, project] + extra
}

/// The platform name of a test mode.
pub open spec fn platform(mode: TestMode) -> Seq<char> {
    match mode {
        TestMode::EditMode => "EditMode"@,
        TestMode::PlayMode => "PlayMode"@,
    }
}

/// The arguments that run the tests of `assemblies` (a `;`-separated list)
/// on the platform of `mode`, with the given filter (none: an empty one);
/// edit-mode tests are run synchronously, or they lock up Unity in batch mode.
pub open spec fn test_args(mode: TestMode, assemblies: Seq<char>, filters: Option<Seq<char>>) -> Seq<Seq<char>> {
    let filter = match filters {
        Some(f) => f,
        None => Seq::empty(),
    };
    let base = seq![
        "-runTests"@, "-testPlatform"@, platform(mode), "-testResults"@, TEST_RESULTS_PATH@,
        "-testFilter"@, filter, "-assemblyNames"@, assemblies,
    ];
    if mode == TestMode::EditMode {
        base.push("-runSynchronously"@)
    } else {
        base
    }
}

/// The abstract value of an optional text.
pub open spec fn opt_view(o: Option<String>) -> Option<Seq<char>> {
    match o {
        Some(s) => Some(s@),
        None => None,
    }
}

fn push_arg(v: &mut Vec<String>, a: &str)
    ensures
        args_view(final(v)@) == args_view(old(v)@).push(a@),
{
    v.push(String::from_str(a));
    assert(args_view(v@) =~= args_view(old(v)@).push(a@));
}

fn batch_args(project_path: &str) -> (r: Vec<String>)
    ensures
        args_view(r@) == unity_args(project_path@, seq![]),
{
    let mut v: Vec<String> = Vec::new();
    push_arg(&mut v, "-batchmode");
    push_arg(&mut v, "-logfile");
    push_arg(&mut v, "-");
    push_arg(&mut v, "-projectPath");
    push_arg(&mut v, project_path);
    assert(args_view(v@) =~= unity_args(project_path@, seq![]));
    v
}

/// The arguments that compile the project at `project_path` and quit.
pub fn compile(project_path: &str) -> (r: Vec<String>)
    ensures
        args_view(r@) == unity_args(project_path@, seq!["-quit"@]),
{
    let mut v = batch_args(project_path);
    push_arg(&mut v, "-quit");
    assert(args_view(v@) =~= unity_args(project_path@, seq!["-quit"@]));
    v
}

/// The arguments that compile the project at `project_path` and run its tests;
/// the report is written to `TEST_RESULTS_PATH`.
pub fn test(project_path: &str, mode: TestMode, assemblies: &str, filters: Option<String>) -> (r: Vec<String>)
    ensures
        args_view(r@) == unity_args(project_path@, test_args(mode, assemblies@, opt_view(filters))),
{
    let ghost fv = opt_view(filters);
    let filter = match filters {
        Some(f) => f,
        None => String::new(),
    };
    let mut v = batch_args(project_path);
    push_arg(&mut v, "-runTests");
    push_arg(&mut v, "-testPlatform");
    match mode {
        TestMode::EditMode => push_arg(&mut v, "EditMode"),
        TestMode::PlayMode => push_arg(&mut v, "PlayMode"),
    }
    push_arg(&mut v, "-testResults");
    push_arg(&mut v, TEST_RESULTS_PATH);
    push_arg(&mut v, "-testFilter");
    push_arg(&mut v, filter.as_str());
    push_arg(&mut v, "-assemblyNames");
    push_arg(&mut v, assemblies);
    if mode == TestMode::EditMode {
        push_arg(&mut v, "-runSynchronously");
    }
    assert(args_view(v@) =~= unity_args(project_path@, test_args(mode, assemblies@, fv)));
    v
}


/// `needle` occurs in `hay`.
pub open spec fn occurs(hay: Seq<char>, needle: Seq<char>) -> bool {
    exists|i: int| 0 <= i && i + needle.len() <= hay.len() && #[trigger] hay.subrange(i, i + needle.len()) == needle
}

/// The marker of a C# compiler error in Unity's log.
pub open spec fn error_marker() -> Seq<char> {
    "error CS"@
}

fn occurs_in(hay: &String, needle: &str) -> (r: bool)
    ensures
        r == occurs(hay@, needle@),
{
    let n = hay.unicode_len();
    let m = needle.unicode_len();
    if m > n {
        return false;
    }
    let mut i: usize = 0;
    while i <= n - m
        invariant
            n == hay@.len(),
            m == needle@.len(),
            m <= n,
            forall|k: int| 0 <= k < i ==> #[trigger] hay@.subrange(k, k + m) != needle@,
        decreases n - m + 1 - i,
    {
        let mut j: usize = 0;
        let mut same = true;
        while j < m && same
            invariant
                n == hay@.len(),
                m == needle@.len(),
                i + m <= n,
                j <= m,
                same == (forall|q: int| 0 <= q < j ==> hay@[i + q] == needle@[q]),
            decreases m - j,
        {
            if hay.get_char(i + j) != needle.get_char(j) {
                same = false;
            }
            j = j + 1;
        }
        if same {
            assert(hay@.subrange(i as int, i + m) =~= needle@);
            return true;
        }
        assert(hay@.subrange(i as int, i + m) != needle@) by {
            let q = choose|q: int| 0 <= q < j && hay@[i + q] != needle@[q];
            assert(hay@.subrange(i as int, i + m)[q] != needle@[q]);
        }
        i = i + 1;
    }
    assert forall|k: int| 0 <= k && k + m <= n implies #[trigger] hay@.subrange(k, k + m) != needle@ by {}
    false
}


/// The distinct lines among `ls` that hold a compiler error, in the order in
/// which each first appears.
pub open spec fn errors_in(ls: Seq<Seq<char>>) -> Seq<Seq<char>>
    decreases ls.len(),
{
    if ls.len() == 0 {
        seq![]
    } else {
        let before = errors_in(ls.drop_last());
        if occurs(ls.last(), error_marker()) && !before.contains(ls.last()) {
            before.push(ls.last())
        } else {
            before
        }
    }
}

fn holds_line(found: &Vec<String>, line: &String) -> (r: bool)
    ensures
        r == args_view(found@).contains(line@),
{
    let n = found.len();
    for i in 0..n
        invariant
            n == found@.len(),
            forall|k: int| 0 <= k < i ==> found@[k]@ != line@,
    {
        if found[i] == *line {
            assert(args_view(found@)[i as int] == line@);
            return true;
        }
    }
    assert forall|k: int| 0 <= k < args_view(found@).len() implies args_view(found@)[k] != line@ by {
        assert(found@[k]@ != line@);
    }
    false
}

/// The compiler errors in the lines of Unity's log: each distinct line that
/// holds `error CS`, once, in the order in which it first appears.
pub fn compile_errors(lines: &Vec<String>) -> (r: Vec<String>)
    ensures
        args_view(r@) == errors_in(args_view(lines@)),
{
    proof {
        reveal_strlit("error CS");
    }
    let mut found: Vec<String> = Vec::new();
    let n = lines.len();
    for i in 0..n
        invariant
            n == lines@.len(),
            args_view(found@) == errors_in(args_view(lines@).take(i as int)),
    {
        let ghost before = args_view(lines@).take(i as int);
        let ghost upto = args_view(lines@).take(i + 1);
        assert(upto.drop_last() =~= before);
        assert(upto.last() == lines@[i as int]@);
        let line = &lines[i];
        if occurs_in(line, "error CS") && !holds_line(&found, line) {
            found.push(line.clone());
            assert(args_view(found@) =~= errors_in(upto));
        }
    }
    assert(args_view(lines@).take(n as int) =~= args_view(lines@));
    found
}

} // verus!
