//! Fixture pairing and the classification of one run of a candidate program.

use vstd::prelude::*;
use crate::text::{chars_of, trim, trim_bounds};

verus! {

/// One fixture: the file fed to the program and the file holding the expected answer.
#[derive(Debug, PartialEq)]
pub struct TestFile {
    pub input_file: String,
    pub output_file: String,
}

impl TestFile {
    pub fn new(input_file: String, output_file: String) -> (r: Self)
        ensures
            r.input_file == input_file,
            r.output_file == output_file,
    {
        Self { input_file, output_file }
    }
}

/// Lexicographic order by code point, the order of `String`'s `Ord`.
pub open spec fn text_le(a: Seq<char>, b: Seq<char>) -> bool
    decreases a.len(),
{
    if a.len() == 0 {
        true
    } else if b.len() == 0 {
        false
    } else if a[0] != b[0] {
        a[0] < b[0]
    } else {
        text_le(a.drop_first(), b.drop_first())
    }
}

/// `v` is in ascending order.
pub open spec fn is_sorted(v: Seq<String>) -> bool {
    forall|i: int, j: int| 0 <= i < j < v.len() ==> text_le(#[trigger] v[i]@, #[trigger] v[j]@)
}

/// Fixture `i` is made of the entries `2i` and `2i + 1` of `paths`.
pub open spec fn is_pairing(r: Seq<TestFile>, paths: Seq<String>) -> bool {
    &&& r.len() == paths.len() / 2
    &&& forall|i: int|
        0 <= i < r.len() ==> (#[trigger] r[i]).input_file == paths[2 * i] && r[i].output_file
            == paths[2 * i + 1]
}

/// Relies on `slice::sort` on `String`s: it permutes the entries into ascending order,
/// which for `String` is lexicographic by code point (by UTF-8 byte value).
#[verifier::external_body]
fn sort_strings(v: &mut Vec<String>)
    ensures
        final(v)@.len() == old(v)@.len(),
        final(v)@.to_multiset() == old(v)@.to_multiset(),
        is_sorted(final(v)@),
{
    v.sort();
}

/// Pairs consecutive entries into fixtures: entry `2i` is the input and entry `2i + 1`
/// the expected output of fixture `i`. An odd entry left at the end is dropped.
pub fn conv_string_to_testfiles(file_list: Vec<String>) -> (r: Vec<TestFile>)
    ensures
        is_pairing(r@, file_list@),
{
    let mut testfiles_list: Vec<TestFile> = Vec::new();
    let mut i: usize = 0;
    while i + 1 < file_list.len()
        invariant
            i % 2 == 0,
            i <= file_list@.len(),
            testfiles_list@.len() == i / 2,
            forall|k: int|
                0 <= k < testfiles_list@.len() ==> (#[trigger] testfiles_list@[k]).input_file
                    == file_list@[2 * k] && testfiles_list@[k].output_file == file_list@[2 * k
                    + 1],
        decreases file_list@.len() - i,
    {
        let input_file = file_list[i].clone();
        let output_file = file_list[i + 1].clone();
        let testfile = TestFile::new(input_file, output_file);
        testfiles_list.push(testfile);
        i = i + 2;
    }
    testfiles_list
}

/// Pairing by position uses every entry, except the last one of an odd count: fixture
/// `k / 2` holds entry `k`, as its input when `k` is even and as its output when odd.
pub proof fn lemma_pairing_drops_only_odd_last(r: Seq<TestFile>, paths: Seq<String>)
    requires
        is_pairing(r, paths),
    ensures
        paths.len() % 2 == 0 ==> 2 * r.len() == paths.len(),
        paths.len() % 2 == 1 ==> 2 * r.len() + 1 == paths.len(),
        forall|k: int|
            0 <= k < 2 * r.len() ==> if k % 2 == 0 {
                r[k / 2].input_file == #[trigger] paths[k]
            } else {
                r[k / 2].output_file == paths[k]
            },
{
    assert forall|k: int| 0 <= k < 2 * r.len() implies if k % 2 == 0 {
        r[k / 2].input_file == #[trigger] paths[k]
    } else {
        r[k / 2].output_file == paths[k]
    } by {
        let i = k / 2;
        assert(0 <= i < r.len());
        assert(r[i].input_file == paths[2 * i] && r[i].output_file == paths[2 * i + 1]);
    }
}

/// The fixtures of a directory listing: the paths are sorted, then paired by position.
pub fn testfiles_from_paths(paths: Vec<String>) -> (r: Vec<TestFile>)
    ensures
        r@.len() == paths@.len() / 2,
        exists|sorted: Seq<String>|
            {
                &&& sorted.to_multiset() == paths@.to_multiset()
                &&& sorted.len() == paths@.len()
                &&& is_sorted(sorted)
                &&& is_pairing(r@, sorted)
            },
{
    let mut file_list = paths;
    sort_strings(&mut file_list);
    let r = conv_string_to_testfiles(file_list);
    assert(is_pairing(r@, file_list@));
    r
}

/// The wall-clock limit of one run, in seconds, the same for every case.
pub const TIME_LIMIT_SECS: u64 = 3;

/// The verdict of one case.
#[derive(Debug, Clone, Copy, PartialEq, Eq, Structural)]
pub enum Verdict {
    /// Accepted.
    AC,
    /// Wrong answer.
    WA,
    /// Runtime error.
    RE,
    /// Time limit exceeded.
    TLE,
}

/// The decision table, first match wins: a timeout is TLE, an abnormal exit RE, equal
/// trimmed outputs AC, anything else WA.
pub open spec fn verdict_of(
    timed_out: bool,
    exit_ok: bool,
    actual: Seq<char>,
    expected: Seq<char>,
) -> Verdict {
    if timed_out {
        Verdict::TLE
    } else if !exit_ok {
        Verdict::RE
    } else if trim(actual) == trim(expected) {
        Verdict::AC
    } else {
        Verdict::WA
    }
}

/// `s` without one final line feed, if it ends with one.
pub open spec fn strip_newline(s: Seq<char>) -> Seq<char> {
    if s.len() > 0 && s.last() == '\n' {
        s.drop_last()
    } else {
        s
    }
}

/// What `String::from_utf8_lossy` makes of the bytes.
pub uninterp spec fn lossy_utf8(b: Seq<u8>) -> Seq<char>;

/// Relies on `String::from_utf8_lossy`: invalid sequences become U+FFFD, and the text
/// depends on the bytes alone.
#[verifier::external_body]
fn decode_lossy(bytes: &Vec<u8>) -> (s: String)
    ensures
        s@ == lossy_utf8(bytes@),
{
    String::from_utf8_lossy(bytes).into_owned()
}

/// Removes at most one trailing line feed.
pub fn trim_one_newline(s: &str) -> (r: &str)
    ensures
        r@ == strip_newline(s@),
{
    let n = s.unicode_len();
    if n > 0 && s.get_char(n - 1) == '\n' {
        s.substring_char(0, n - 1)
    } else {
        s
    }
}

/// The text of the program's standard output, as it is compared: decoded leniently,
/// without one trailing line feed.
pub fn normalize_output(stdout: &Vec<u8>) -> (r: String)
    ensures
        r@ == strip_newline(lossy_utf8(stdout@)),
{
    let text = decode_lossy(stdout);
    let trimmed = trim_one_newline(text.as_str());
    trimmed.to_owned()
}

/// Whether the two texts agree once leading and trailing white space is removed.
pub fn same_trimmed(a: &str, b: &str) -> (r: bool)
    ensures
        r == (trim(a@) == trim(b@)),
{
    let va = chars_of(a);
    let vb = chars_of(b);
    let (alo, ahi) = trim_bounds(&va);
    let (blo, bhi) = trim_bounds(&vb);
    let ghost sa = va@.subrange(alo as int, ahi as int);
    let ghost sb = vb@.subrange(blo as int, bhi as int);
    assert(trim(a@) == sa && trim(b@) == sb);
    if ahi - alo != bhi - blo {
        assert(sa.len() != sb.len());
        return false;
    }
    let n = ahi - alo;
    let mut k: usize = 0;
    while k < n
        invariant
            alo + n == ahi <= va@.len(),
            blo + n == bhi <= vb@.len(),
            sa == va@.subrange(alo as int, ahi as int),
            sb == vb@.subrange(blo as int, bhi as int),
            trim(a@) == sa,
            trim(b@) == sb,
            k <= n,
            forall|j: int| 0 <= j < k ==> #[trigger] sa[j] == sb[j],
        decreases n - k,
    {
        if va[alo + k] != vb[blo + k] {
            assert(sa[k as int] != sb[k as int]);
            return false;
        }
        k = k + 1;
    }
    assert(sa =~= sb);
    true
}

/// Classifies one case from how the program ended and what it printed.
pub fn classify(timed_out: bool, exit_ok: bool, actual: &str, expected: &str) -> (v: Verdict)
    ensures
        v == verdict_of(timed_out, exit_ok, actual@, expected@),
{
    if timed_out {
        Verdict::TLE
    } else if !exit_ok {
        Verdict::RE
    } else if same_trimmed(actual, expected) {
        Verdict::AC
    } else {
        Verdict::WA
    }
}

/// What to do with the program once the wait for it is over.
#[derive(Debug, Clone, Copy, PartialEq, Eq, Structural)]
pub enum AfterWait {
    /// The deadline passed first: the program is still running and must be killed.
    KillChild,
    /// It ended abnormally: its output is not looked at.
    SkipOutput,
    /// It ended normally: its output is read and compared.
    CollectOutput,
}

/// `wait_result` is `None` when the deadline passed, else whether the exit status was success.
pub fn after_wait(wait_result: Option<bool>) -> (a: AfterWait)
    ensures
        wait_result is None <==> a == AfterWait::KillChild,
        wait_result == Some(false) <==> a == AfterWait::SkipOutput,
        wait_result == Some(true) <==> a == AfterWait::CollectOutput,
{
    match wait_result {
        None => AfterWait::KillChild,
        Some(false) => AfterWait::SkipOutput,
        Some(true) => AfterWait::CollectOutput,
    }
}

/// The verdict of a case. `wait_result` is `None` when the deadline passed, else whether
/// the program exited successfully; `stdout` is what it printed (read only after a
/// successful exit). On a successful exit `actual` receives the normalized output.
pub fn determine_verdict(
    wait_result: Option<bool>,
    stdout: &Vec<u8>,
    expected_output: &str,
    actual_output: &mut String,
) -> (v: Verdict)
    ensures
        wait_result == Some(true) ==> final(actual_output)@ == strip_newline(
            lossy_utf8(stdout@),
        ),
        wait_result != Some(true) ==> final(actual_output)@ == old(actual_output)@,
        v == verdict_of(
            wait_result is None,
            wait_result == Some(true),
            final(actual_output)@,
            expected_output@,
        ),
{
    match wait_result {
        None => Verdict::TLE,
        Some(false) => Verdict::RE,
        Some(true) => {
            *actual_output = normalize_output(stdout);
            classify(false, true, actual_output.as_str(), expected_output)
        },
    }
}

/// The decision table of the classifier: one verdict for every combination of inputs,
/// taken in priority order, so equal inputs always give equal verdicts.
pub proof fn lemma_verdict_table(
    timed_out: bool,
    exit_ok: bool,
    actual: Seq<char>,
    expected: Seq<char>,
)
    ensures
        timed_out ==> verdict_of(timed_out, exit_ok, actual, expected) == Verdict::TLE,
        !timed_out && !exit_ok ==> verdict_of(timed_out, exit_ok, actual, expected)
            == Verdict::RE,
        !timed_out && exit_ok ==> (verdict_of(timed_out, exit_ok, actual, expected)
            == Verdict::AC <==> trim(actual) == trim(expected)),
        !timed_out && exit_ok && trim(actual) != trim(expected) ==> verdict_of(
            timed_out,
            exit_ok,
            actual,
            expected,
        ) == Verdict::WA,
{
}

} // verus!
