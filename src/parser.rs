//! Test cases as a problem page lists them, and the fixture files made from them.

use vstd::prelude::*;
use crate::error::Error;
use crate::text::{
    chars_of, decimal, decimal_string, join_strs, join_with, lemma_trim_idempotent, split_on,
    split_str, substring, trim, trim_all, trim_str, views,
};
use scraper::{ElementRef, Html, Selector};

verus! {

/// The arguments and the expected answer of one test case.
#[derive(Debug, PartialEq)]
pub struct TestCase {
    pub input: Vec<String>,
    pub output: String,
}

impl TestCase {
    pub fn new(input: Vec<String>, output: String) -> (r: Self)
        ensures
            r.input == input,
            r.output == output,
    {
        Self { input, output }
    }
}

/// The words separated by single spaces.
pub fn format_vec_str(s: &Vec<String>) -> (r: String)
    ensures
        r@ == join_with(views(s@), seq![' ']),
{
    let r = join_strs(s, " ");
    proof {
        reveal_strlit(" ");
        assert(" "@ =~= seq![' ']);
    }
    r
}

/// A match of `\(([^)]+)\)` from `i` to `j`: `(` at `i`, `)` at `j`, and between them at
/// least one character and no `)`.
pub open spec fn group_at(s: Seq<char>, i: int, j: int) -> bool {
    &&& 0 <= i && i + 1 < j && j < s.len()
    &&& s[i] == '(' && s[j] == ')'
    &&& forall|k: int| i < k < j ==> s[k] != ')'
}

/// The leftmost match.
pub open spec fn first_group(s: Seq<char>, i: int, j: int) -> bool {
    &&& group_at(s, i, j)
    &&& forall|i2: int, j2: int| 0 <= i2 < i ==> !#[trigger] group_at(s, i2, j2)
}

pub open spec fn has_group(s: Seq<char>) -> bool {
    exists|i: int, j: int| group_at(s, i, j)
}

/// What the leftmost parentheses enclose.
pub open spec fn group_inside(s: Seq<char>) -> Seq<char> {
    let (i, j) = choose|i: int, j: int| first_group(s, i, j);
    s.subrange(i + 1, j)
}

/// The comma separated arguments, each trimmed, joined again by commas.
pub open spec fn normalize_args(inside: Seq<char>) -> Seq<char> {
    join_with(split_on(inside, ',').map_values(|p: Seq<char>| trim(p)), seq![','])
}

proof fn lemma_first_group_unique(s: Seq<char>, i: int, j: int)
    requires
        first_group(s, i, j),
    ensures
        group_inside(s) == s.subrange(i + 1, j),
{
    let (i2, j2) = choose|i2: int, j2: int| first_group(s, i2, j2);
    assert(first_group(s, i2, j2));
    if i2 < i {
        assert(!group_at(s, i2, j2));
    }
    if i < i2 {
        assert(!group_at(s, i, j));
    }
    if j < j2 {
        assert(s[j] != ')');
    }
    if j2 < j {
        assert(s[j2] != ')');
    }
}

/// The leftmost `(`...`)` group, as a pair of positions.
fn find_group(v: &Vec<char>) -> (r: Option<(usize, usize)>)
    ensures
        match r {
            Some((i, j)) => first_group(v@, i as int, j as int),
            None => !has_group(v@),
        },
{
    let n = v.len();
    let mut i: usize = 0;
    while i < n
        invariant
            i <= n == v@.len(),
            forall|i2: int, j2: int| 0 <= i2 < i ==> !#[trigger] group_at(v@, i2, j2),
        decreases n - i,
    {
        if v[i] == '(' && i + 1 < n && v[i + 1] != ')' {
            let mut j: usize = i + 2;
            while j < n && v[j] != ')'
                invariant
                    i + 2 <= j <= n == v@.len(),
                    forall|k: int| i < k < j ==> v@[k] != ')',
                decreases n - j,
            {
                j = j + 1;
            }
            if j < n {
                return Some((i, j));
            }
            assert forall|i2: int, j2: int| 0 <= i2 implies !#[trigger] group_at(v@, i2, j2) by {
                if i2 >= i && group_at(v@, i2, j2) {
                    assert(v@[j2] == ')');
                }
            }
            return None;
        }
        assert forall|j2: int| !#[trigger] group_at(v@, i as int, j2) by {
            if group_at(v@, i as int, j2) {
                assert(v@[i + 1] != ')');
            }
        }
        i = i + 1;
    }
    None
}

/// The arguments of a test case line such as `f(3, 2) --> 1`: what the leftmost
/// parentheses enclose, each comma separated piece trimmed (`3,2`).
pub fn parse_input_case(test_case: &str) -> (r: Result<String, Error>)
    ensures
        r is Ok <==> has_group(test_case@),
        r matches Ok(v) ==> v@ == normalize_args(group_inside(test_case@)),
        r matches Err(e) ==> e is PatternMismatch,
{
    let v = chars_of(test_case);
    match find_group(&v) {
        None => Err(Error::PatternMismatch),
        Some((i, j)) => {
            proof {
                lemma_first_group_unique(v@, i as int, j as int);
            }
            let inside = substring(test_case, i + 1, j);
            let pieces = split_str(inside.as_str(), ',');
            let trimmed = trim_all(&pieces);
            let joined = join_strs(&trimmed, ",");
            proof {
                reveal_strlit(",");
                assert(","@ =~= seq![',']);
                assert(inside@ == test_case@.subrange(i + 1, j as int));
            }
            Ok(joined)
        },
    }
}

/// A match of `--> (.+)$` at `i`: the arrow and a space, then at least one character and
/// no line feed up to the end.
pub open spec fn arrow_at(s: Seq<char>, i: int) -> bool {
    &&& 0 <= i && i + 4 < s.len()
    &&& s[i] == '-' && s[i + 1] == '-' && s[i + 2] == '>' && s[i + 3] == ' '
    &&& forall|k: int| i + 4 <= k < s.len() ==> s[k] != '\n'
}

/// The leftmost match.
pub open spec fn first_arrow(s: Seq<char>, i: int) -> bool {
    &&& arrow_at(s, i)
    &&& forall|i2: int| 0 <= i2 < i ==> !#[trigger] arrow_at(s, i2)
}

pub open spec fn has_arrow(s: Seq<char>) -> bool {
    exists|i: int| arrow_at(s, i)
}

/// What follows the leftmost arrow.
pub open spec fn arrow_value(s: Seq<char>) -> Seq<char> {
    let i = choose|i: int| first_arrow(s, i);
    s.subrange(i + 4, s.len() as int)
}

proof fn lemma_first_arrow_unique(s: Seq<char>, i: int)
    requires
        first_arrow(s, i),
    ensures
        arrow_value(s) == s.subrange(i + 4, s.len() as int),
        arrow_value(s).len() > 0,
{
    let i2 = choose|i2: int| first_arrow(s, i2);
    assert(first_arrow(s, i2));
    if i2 < i {
        assert(!arrow_at(s, i2));
    }
    if i < i2 {
        assert(!arrow_at(s, i));
    }
}

/// The position of the leftmost arrow.
fn find_arrow(v: &Vec<char>) -> (r: Option<usize>)
    ensures
        match r {
            Some(i) => first_arrow(v@, i as int),
            None => !has_arrow(v@),
        },
{
    let n = v.len();
    let mut line_start: usize = n;
    while line_start > 0 && v[line_start - 1] != '\n'
        invariant
            line_start <= n == v@.len(),
            forall|k: int| line_start <= k < n ==> v@[k] != '\n',
        decreases line_start,
    {
        line_start = line_start - 1;
    }
    let mut i: usize = 0;
    while n > 4 && i < n - 4
        invariant
            n == v@.len(),
            line_start <= n,
            forall|k: int| line_start <= k < n ==> v@[k] != '\n',
            line_start > 0 ==> v@[line_start - 1] == '\n',
            forall|i2: int| 0 <= i2 < i ==> !#[trigger] arrow_at(v@, i2),
        decreases n - i,
    {
        if v[i] == '-' && v[i + 1] == '-' && v[i + 2] == '>' && v[i + 3] == ' ' && i + 4
            >= line_start {
            return Some(i);
        }
        assert(!arrow_at(v@, i as int)) by {
            if i + 4 < line_start {
                assert(v@[line_start - 1] == '\n');
            }
        }
        i = i + 1;
    }
    None
}

/// The expected answer of a test case line such as `f(3, 2) --> 1`: what follows the
/// leftmost `--> ` when the rest of the text is one non-empty line (`1`).
pub fn parse_output_case(test_case: &str) -> (r: Result<String, Error>)
    ensures
        r is Ok <==> has_arrow(test_case@),
        r matches Ok(v) ==> v@ == arrow_value(test_case@),
        r matches Err(e) ==> e is PatternMismatch,
{
    let v = chars_of(test_case);
    match find_arrow(&v) {
        None => Err(Error::PatternMismatch),
        Some(i) => {
            proof {
                lemma_first_arrow_unique(v@, i as int);
            }
            let n = v.len();
            Ok(substring(test_case, i + 4, n))
        },
    }
}

/// The arguments of every line, or the error of the first line without them.
pub fn get_input_cases(test_cases: Vec<String>) -> (r: Result<Vec<String>, Error>)
    ensures
        r is Ok <==> forall|i: int| 0 <= i < test_cases@.len() ==> has_group(#[trigger] test_cases@[i]@),
        r matches Ok(v) ==> v@.len() == test_cases@.len() && forall|i: int|
            0 <= i < v@.len() ==> (#[trigger] v@[i])@ == normalize_args(group_inside(test_cases@[i]@)),
        r matches Err(e) ==> e is PatternMismatch,
{
    let mut out: Vec<String> = Vec::new();
    let mut i: usize = 0;
    while i < test_cases.len()
        invariant
            i <= test_cases@.len(),
            out@.len() == i,
            forall|k: int| 0 <= k < i ==> has_group(#[trigger] test_cases@[k]@),
            forall|k: int|
                0 <= k < i ==> (#[trigger] out@[k])@ == normalize_args(group_inside(test_cases@[k]@)),
        decreases test_cases@.len() - i,
    {
        match parse_input_case(test_cases[i].as_str()) {
            Ok(s) => out.push(s),
            Err(e) => return Err(e),
        }
        i = i + 1;
    }
    Ok(out)
}

/// The expected answer of every line, or the error of the first line without one.
pub fn get_output_cases(test_cases: Vec<String>) -> (r: Result<Vec<String>, Error>)
    ensures
        r is Ok <==> forall|i: int| 0 <= i < test_cases@.len() ==> has_arrow(#[trigger] test_cases@[i]@),
        r matches Ok(v) ==> v@.len() == test_cases@.len() && forall|i: int|
            0 <= i < v@.len() ==> (#[trigger] v@[i])@ == arrow_value(test_cases@[i]@),
        r matches Err(e) ==> e is PatternMismatch,
{
    let mut out: Vec<String> = Vec::new();
    let mut i: usize = 0;
    while i < test_cases.len()
        invariant
            i <= test_cases@.len(),
            out@.len() == i,
            forall|k: int| 0 <= k < i ==> has_arrow(#[trigger] test_cases@[k]@),
            forall|k: int| 0 <= k < i ==> (#[trigger] out@[k])@ == arrow_value(test_cases@[k]@),
        decreases test_cases@.len() - i,
    {
        match parse_output_case(test_cases[i].as_str()) {
            Ok(s) => out.push(s),
            Err(e) => return Err(e),
        }
        i = i + 1;
    }
    Ok(out)
}

/// A line that holds both arguments and an expected answer.
pub open spec fn line_ok(s: Seq<char>) -> bool {
    has_group(s) && has_arrow(s)
}

/// The arguments of a line, one string each.
pub open spec fn case_inputs(s: Seq<char>) -> Seq<Seq<char>> {
    split_on(normalize_args(group_inside(s)), ',').map_values(|p: Seq<char>| trim(p))
}

/// Case `i` is made of line `i`.
pub open spec fn cases_of_lines(cs: Seq<TestCase>, lines: Seq<String>) -> bool {
    &&& cs.len() == lines.len()
    &&& forall|i: int|
        0 <= i < cs.len() ==> views((#[trigger] cs[i]).input@) == case_inputs(lines[i]@)
            && cs[i].output@ == arrow_value(lines[i]@)
}

/// The test cases of the lines, or the error of the first line that is not one.
pub fn test_cases_from_lines(lines: &Vec<String>) -> (r: Result<Vec<TestCase>, Error>)
    ensures
        r is Ok <==> forall|i: int| 0 <= i < lines@.len() ==> line_ok(#[trigger] lines@[i]@),
        r matches Ok(cs) ==> cases_of_lines(cs@, lines@),
        r matches Err(e) ==> e is PatternMismatch,
{
    let mut cases: Vec<TestCase> = Vec::new();
    let mut i: usize = 0;
    while i < lines.len()
        invariant
            i <= lines@.len(),
            cases@.len() == i,
            forall|k: int| 0 <= k < i ==> line_ok(#[trigger] lines@[k]@),
            forall|k: int|
                0 <= k < i ==> views((#[trigger] cases@[k]).input@) == case_inputs(lines@[k]@)
                    && cases@[k].output@ == arrow_value(lines@[k]@),
        decreases lines@.len() - i,
    {
        let line = lines[i].as_str();
        let args = match parse_input_case(line) {
            Ok(a) => a,
            Err(e) => return Err(e),
        };
        let output = match parse_output_case(line) {
            Ok(o) => o,
            Err(e) => return Err(e),
        };
        let pieces = split_str(args.as_str(), ',');
        let inputs = trim_all(&pieces);
        cases.push(TestCase::new(inputs, output));
        i = i + 1;
    }
    Ok(cases)
}

/// The test cases listed on a problem page: those of the trimmed text of its case
/// paragraphs.
pub fn get_test_cases(html: &str) -> (r: Result<Vec<TestCase>, Error>)
    ensures
        r matches Err(e) ==> e is Selector || e is PatternMismatch,
        r matches Ok(cs) ==> exists|lines: Seq<String>|
            {
                &&& cases_of_lines(cs@, lines)
                &&& forall|i: int| 0 <= i < lines.len() ==> trim(#[trigger] lines[i]@) == lines[i]@
            },
{
    let lines = match pickup_test_case(html) {
        Ok(l) => l,
        Err(e) => return Err(e),
    };
    let r = test_cases_from_lines(&lines);
    if let Ok(cs) = &r {
        assert(cases_of_lines(cs@, lines@));
    }
    r
}

/// Where the fixture files of a problem are written: `./problem-<id>/testcase/testcase-<n><suffix>`.
pub open spec fn case_file_path(problem_id: Seq<char>, index: nat, suffix: Seq<char>) -> Seq<char> {
    "./problem-"@ + problem_id + "/testcase/"@ + "testcase-"@ + decimal(index) + suffix
}

fn case_file_name(problem_id: &str, index: usize, suffix: &str) -> (r: String)
    ensures
        r@ == case_file_path(problem_id@, index as nat, suffix@),
{
    let mut path = "./problem-".to_owned();
    path.append(problem_id);
    path.append("/testcase/");
    path.append("testcase-");
    let number = decimal_string(index);
    path.append(number.as_str());
    path.append(suffix);
    path
}

/// The files to write for the test cases, in order: for case `i` (numbered from one) the
/// input file holding its arguments separated by spaces, then the output file holding the
/// expected answer.
pub fn test_case_files(test_cases: &Vec<TestCase>, problem_id: &str) -> (r: Vec<(String, String)>)
    ensures
        r@.len() == 2 * test_cases@.len(),
        forall|i: int|
            0 <= i < test_cases@.len() ==> {
                &&& (#[trigger] r@[2 * i]).0@ == case_file_path(problem_id@, (i + 1) as nat, ".in"@)
                &&& r@[2 * i].1@ == join_with(views(test_cases@[i].input@), seq![' '])
                &&& r@[2 * i + 1].0@ == case_file_path(problem_id@, (i + 1) as nat, ".out"@)
                &&& r@[2 * i + 1].1@ == test_cases@[i].output@
            },
{
    let mut files: Vec<(String, String)> = Vec::new();
    let mut i: usize = 0;
    while i < test_cases.len()
        invariant
            i <= test_cases@.len(),
            files@.len() == 2 * i,
            forall|k: int|
                0 <= k < i ==> {
                    &&& (#[trigger] files@[2 * k]).0@ == case_file_path(problem_id@, (k + 1) as nat, ".in"@)
                    &&& files@[2 * k].1@ == join_with(views(test_cases@[k].input@), seq![' '])
                    &&& files@[2 * k + 1].0@ == case_file_path(problem_id@, (k + 1) as nat, ".out"@)
                    &&& files@[2 * k + 1].1@ == test_cases@[k].output@
                },
        decreases test_cases@.len() - i,
    {
        let case = &test_cases[i];
        let input_path = case_file_name(problem_id, i + 1, ".in");
        let input_content = format_vec_str(&case.input);
        let output_path = case_file_name(problem_id, i + 1, ".out");
        let output_content = case.output.clone();
        let ghost prev = files@;
        files.push((input_path, input_content));
        files.push((output_path, output_content));
        assert(forall|k: int| 0 <= k < 2 * i ==> files@[k] == prev[k]);
        i = i + 1;
    }
    files
}

#[verifier::external_type_specification]
#[verifier::external_body]
pub struct ExHtml(Html);

#[verifier::external_type_specification]
#[verifier::external_body]
pub struct ExSelector(Selector);

#[verifier::external_type_specification]
#[verifier::external_body]
pub struct ExElementRef<'a>(ElementRef<'a>);

/// Relies on `Html::parse_document`, which recovers from malformed markup and never fails.
#[verifier::external_body]
pub(crate) fn parse_document(html: &str) -> Html {
    Html::parse_document(html)
}

/// Relies on `Selector::parse`; its error is kept as its message.
#[verifier::external_body]
pub(crate) fn parse_selector(css: &str) -> Result<Selector, String> {
    Selector::parse(css).map_err(|e| e.to_string())
}

/// Relies on `Html::select`: the matching elements in document order.
#[verifier::external_body]
pub(crate) fn select_in_document<'a>(doc: &'a Html, selector: &Selector) -> Vec<ElementRef<'a>> {
    doc.select(selector).collect()
}

/// Relies on `ElementRef::select`: the matching descendants in document order.
#[verifier::external_body]
fn select_in_element<'a>(elem: ElementRef<'a>, selector: &Selector) -> Vec<ElementRef<'a>> {
    elem.select(selector).collect()
}

/// Relies on `ElementRef::attr`: the value of the attribute, if the element has it.
#[verifier::external_body]
pub(crate) fn attribute<'a>(elem: ElementRef<'a>, name: &str) -> Option<&'a str> {
    elem.attr(name)
}

/// Relies on `ElementRef::text`: the text nodes under the element, concatenated.
#[verifier::external_body]
fn text_content(elem: ElementRef) -> String {
    elem.text().collect::<String>()
}

/// The text of every paragraph that holds a `span` with a `data-case` attribute, trimmed.
pub fn pickup_test_case(html: &str) -> (r: Result<Vec<String>, Error>)
    ensures
        r matches Err(e) ==> e is Selector,
        r matches Ok(lines) ==> forall|i: int|
            0 <= i < lines@.len() ==> trim(#[trigger] lines@[i]@) == lines@[i]@,
{
    let document = parse_document(html);
    let p_selector = match parse_selector("p") {
        Ok(s) => s,
        Err(m) => return Err(Error::Selector(m)),
    };
    let span_selector = match parse_selector("span[data-case]") {
        Ok(s) => s,
        Err(m) => return Err(Error::Selector(m)),
    };
    let paragraphs = select_in_document(&document, &p_selector);
    let mut targets: Vec<String> = Vec::new();
    let mut i: usize = 0;
    while i < paragraphs.len()
        invariant
            i <= paragraphs@.len(),
            forall|k: int|
                0 <= k < targets@.len() ==> trim(#[trigger] targets@[k]@) == targets@[k]@,
        decreases paragraphs@.len() - i,
    {
        let p_elem = paragraphs[i];
        let spans = select_in_element(p_elem, &span_selector);
        let mut has_target_span = false;
        let mut j: usize = 0;
        while j < spans.len() && !has_target_span
            invariant
                j <= spans@.len(),
            decreases spans@.len() - j,
        {
            has_target_span = attribute(spans[j], "data-case").is_some();
            j = j + 1;
        }
        if has_target_span {
            let content = text_content(p_elem);
            let text = trim_str(content.as_str());
            proof {
                lemma_trim_idempotent(content@);
            }
            targets.push(text);
        }
        i = i + 1;
    }
    Ok(targets)
}

} // verus!
