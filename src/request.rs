//! Problem addresses, the login answer, session cookies and the login form token.

use vstd::prelude::*;
use crate::error::Error;
use crate::parser::{attribute, parse_document, parse_selector, select_in_document};
use crate::text::{chars_of, is_digit, join_strs, join_with, trim, trim_str, views};

verus! {

/// The address of a problem page without its number.
pub open spec fn problem_prefix() -> Seq<char> {
    "https://recursionist.io/dashboard/problems/"@
}

/// The address of problem `num_str`.
pub fn create_url(num_str: &str) -> (r: String)
    ensures
        r@ == problem_prefix() + num_str@,
{
    let mut url = "https://recursionist.io/dashboard/problems/".to_owned();
    url.append(num_str);
    url
}

/// The value of a string of ASCII decimal digits.
pub open spec fn digits_value(s: Seq<char>) -> nat
    decreases s.len(),
{
    if s.len() == 0 {
        0
    } else {
        digits_value(s.drop_last()) * 10 + ((s.last() as u32) - ('0' as u32)) as nat
    }
}

/// `s` without one leading `+`.
pub open spec fn unsigned_digits(s: Seq<char>) -> Seq<char> {
    if s.len() > 0 && s[0] == '+' {
        s.drop_first()
    } else {
        s
    }
}

/// `s` is what `str::parse::<u32>` accepts: an optional `+`, then one or more ASCII digits
/// whose value fits in `u32`.
pub open spec fn parses_as_u32(s: Seq<char>) -> bool {
    let d = unsigned_digits(s);
    &&& d.len() > 0
    &&& forall|k: int| 0 <= k < d.len() ==> is_digit(#[trigger] d[k])
    &&& digits_value(d) <= u32::MAX
}

/// Whether `s` is a problem number.
pub fn is_natural_number(s: &str) -> (r: bool)
    ensures
        r == parses_as_u32(s@),
{
    let v = chars_of(s);
    let n = v.len();
    let start: usize = if n > 0 && v[0] == '+' {
        1
    } else {
        0
    };
    let ghost d = unsigned_digits(s@);
    assert(d =~= v@.subrange(start as int, n as int));
    if start == n {
        return false;
    }
    let cap: u64 = 0x1_0000_0000;
    let mut value: u64 = 0;
    let mut k: usize = start;
    while k < n
        invariant
            start <= k <= n == v@.len(),
            d == v@.subrange(start as int, n as int),
            d == unsigned_digits(s@),
            cap == u32::MAX + 1,
            forall|j: int| 0 <= j < k - start ==> is_digit(#[trigger] d[j]),
            value == if digits_value(d.take(k - start)) < cap {
                digits_value(d.take(k - start))
            } else {
                cap as nat
            },
        decreases n - k,
    {
        let c = v[k];
        if !('0' <= c && c <= '9') {
            assert(!is_digit(d[k - start]));
            return false;
        }
        let digit = (c as u32 - '0' as u32) as u64;
        proof {
            let p = d.take(k - start);
            assert(d.take(k + 1 - start).drop_last() =~= p);
            assert(d.take(k + 1 - start).last() == c);
            assert(digits_value(p) >= cap ==> digits_value(p) * 10 + digit >= cap)
                by (nonlinear_arith);
        }
        value = if value >= cap {
            cap
        } else if value * 10 + digit >= cap {
            cap
        } else {
            value * 10 + digit
        };
        k = k + 1;
    }
    assert(d.take(n - start) =~= d);
    value < cap
}

/// Whether the login answer sent the browser to the dashboard, which it does on success.
pub fn is_login_successful(location: &str) -> (r: bool)
    ensures
        r == (location@ == "https://recursionist.io/dashboard"@),
{
    location.to_owned() == "https://recursionist.io/dashboard".to_owned()
}

/// `s` has the shape of `^https://recursionist.io/dashboard/problems/\d+$`, the `.` of the
/// host name standing for any character but a line feed, `\d` for an ASCII digit.
pub open spec fn problem_url_shape(s: Seq<char>) -> bool {
    &&& s.len() > problem_prefix().len()
    &&& forall|k: int|
        0 <= k < problem_prefix().len() ==> if problem_prefix()[k] == '.' {
            s[k] != '\n'
        } else {
            #[trigger] s[k] == problem_prefix()[k]
        }
    &&& forall|k: int| problem_prefix().len() <= k < s.len() ==> is_digit(#[trigger] s[k])
}

/// Whether `url`, trimmed, is the address of a problem page.
pub fn valid_problem_url(url: &str) -> (r: Result<bool, Error>)
    ensures
        r matches Ok(b) && b == problem_url_shape(trim(url@)),
{
    let t = trim_str(url);
    let v = chars_of(t.as_str());
    let p = chars_of("https://recursionist.io/dashboard/problems/");
    proof {
        reveal_strlit("https://recursionist.io/dashboard/problems/");
    }
    let n = v.len();
    if n <= p.len() {
        return Ok(false);
    }
    let mut k: usize = 0;
    while k < p.len()
        invariant
            p@ == problem_prefix(),
            n == v@.len() > p@.len(),
            v@ == trim(url@),
            k <= p@.len(),
            forall|j: int|
                0 <= j < k ==> if problem_prefix()[j] == '.' {
                    v@[j] != '\n'
                } else {
                    #[trigger] v@[j] == problem_prefix()[j]
                },
        decreases p@.len() - k,
    {
        if p[k] == '.' {
            if v[k] == '\n' {
                return Ok(false);
            }
        } else if v[k] != p[k] {
            return Ok(false);
        }
        k = k + 1;
    }
    let mut j: usize = p.len();
    while j < n
        invariant
            p@ == problem_prefix(),
            n == v@.len(),
            v@ == trim(url@),
            p@.len() <= j <= n,
            forall|i: int| p@.len() <= i < j ==> is_digit(#[trigger] v@[i]),
        decreases n - j,
    {
        if !('0' <= v[j] && v[j] <= '9') {
            return Ok(false);
        }
        j = j + 1;
    }
    Ok(true)
}

/// The address that a download argument names: a problem number stands for its page.
pub open spec fn problem_url_of(arg: Seq<char>) -> Seq<char> {
    if parses_as_u32(arg) {
        problem_prefix() + arg
    } else {
        arg
    }
}

/// The problem page that a download argument names, if it names one.
pub fn resolve_problem_url(arg_s: &str) -> (r: Result<String, Error>)
    ensures
        r is Ok <==> problem_url_shape(trim(problem_url_of(arg_s@))),
        r matches Ok(u) ==> u@ == problem_url_of(arg_s@),
        r matches Err(e) ==> e is UrlIncorrectFormat,
{
    let url = if is_natural_number(arg_s) {
        create_url(arg_s)
    } else {
        arg_s.to_owned()
    };
    match valid_problem_url(url.as_str()) {
        Ok(true) => Ok(url),
        _ => Err(Error::UrlIncorrectFormat),
    }
}

/// `/problems/` followed by one or more digits up to the end, from `i`.
pub open spec fn number_at(s: Seq<char>, i: int) -> bool {
    &&& 0 <= i && i + 10 < s.len()
    &&& s.subrange(i, i + 10) == "/problems/"@
    &&& forall|k: int| i + 10 <= k < s.len() ==> is_digit(#[trigger] s[k])
}

pub open spec fn has_number(s: Seq<char>) -> bool {
    exists|i: int| number_at(s, i)
}

/// The digits that end the address.
pub open spec fn number_value(s: Seq<char>) -> Seq<char> {
    let i = choose|i: int| number_at(s, i);
    s.subrange(i + 10, s.len() as int)
}

proof fn lemma_number_unique(s: Seq<char>, i: int)
    requires
        number_at(s, i),
    ensures
        number_value(s) == s.subrange(i + 10, s.len() as int),
{
    reveal_strlit("/problems/");
    let i2 = choose|i2: int| number_at(s, i2);
    assert(number_at(s, i2));
    if i < i2 {
        assert(s.subrange(i2, i2 + 10)[9] == s[i2 + 9]);
        assert(is_digit(s[i2 + 9]));
    }
    if i2 < i {
        assert(s.subrange(i, i + 10)[9] == s[i + 9]);
        assert(is_digit(s[i + 9]));
    }
}

/// The problem number at the end of a problem address, as in `/problems/(\d+)$`.
pub fn extract_url_number(url: &str) -> (r: Result<String, Error>)
    ensures
        r is Ok <==> has_number(url@),
        r matches Ok(num) ==> num@ == number_value(url@),
        r matches Err(e) ==> e is UrlIncorrectFormat,
{
    let v = chars_of(url);
    let n = v.len();
    let mut d: usize = n;
    while d > 0 && '0' <= v[d - 1] && v[d - 1] <= '9'
        invariant
            d <= n == v@.len(),
            forall|k: int| d <= k < n ==> is_digit(#[trigger] v@[k]),
        decreases d,
    {
        d = d - 1;
    }
    let p = chars_of("/problems/");
    proof {
        reveal_strlit("/problems/");
        assert forall|i: int| number_at(v@, i) implies i + 10 == d by {
            assert(v@.subrange(i, i + 10)[9] == v@[i + 9]);
            if i + 10 < d {
                assert(is_digit(v@[d - 1]));
            }
            if i + 10 > d {
                assert(is_digit(v@[i + 9]));
            }
        }
    }
    if d == n || d < 10 {
        return Err(Error::UrlIncorrectFormat);
    }
    let mut k: usize = 0;
    while k < 10
        invariant
            p@ == "/problems/"@,
            p@.len() == 10,
            v@ == url@,
            10 <= d < n == v@.len(),
            forall|i: int| number_at(v@, i) ==> i + 10 == d,
            k <= 10,
            forall|j: int| 0 <= j < k ==> v@[d - 10 + j] == #[trigger] p@[j],
        decreases 10 - k,
    {
        if v[d - 10 + k] != p[k] {
            proof {
                if number_at(v@, d - 10) {
                    assert(v@.subrange(d - 10, d as int)[k as int] == v@[d - 10 + k]);
                    assert(v@.subrange(d - 10, d as int)[k as int] == p@[k as int]);
                }
                assert(!has_number(v@));
            }
            return Err(Error::UrlIncorrectFormat);
        }
        k = k + 1;
    }
    assert(v@.subrange(d - 10, d as int) =~= "/problems/"@);
    assert(number_at(v@, d - 10));
    proof {
        lemma_number_unique(v@, d - 10);
    }
    Ok(crate::text::substring(url, d, n))
}

/// Session cookies in the order they were read; a later entry for a key replaces an
/// earlier one.
pub type Cookie = Vec<(String, String)>;

/// The value stored under `key`: that of its last entry.
pub open spec fn cookie_lookup(entries: Seq<(String, String)>, key: Seq<char>) -> Option<Seq<char>>
    decreases entries.len(),
{
    if entries.len() == 0 {
        None
    } else if entries.last().0@ == key {
        Some(entries.last().1@)
    } else {
        cookie_lookup(entries.drop_last(), key)
    }
}

/// The first `=` of `s` is at `k`.
pub open spec fn first_eq(s: Seq<char>, k: int) -> bool {
    &&& 0 <= k < s.len()
    &&& s[k] == '='
    &&& forall|j: int| 0 <= j < k ==> #[trigger] s[j] != '='
}

pub open spec fn has_eq(s: Seq<char>) -> bool {
    exists|k: int| 0 <= k < s.len() && s[k] == '='
}

/// The key and the value of a cookie line `key=value`, each trimmed.
pub open spec fn cookie_entry(s: Seq<char>) -> (Seq<char>, Seq<char>) {
    let k = choose|k: int| first_eq(s, k);
    (trim(s.subrange(0, k)), trim(s.subrange(k + 1, s.len() as int)))
}

proof fn lemma_first_eq_unique(s: Seq<char>, k: int)
    requires
        first_eq(s, k),
    ensures
        cookie_entry(s) == (trim(s.subrange(0, k)), trim(s.subrange(k + 1, s.len() as int))),
{
    let k2 = choose|k2: int| first_eq(s, k2);
    assert(first_eq(s, k2));
    if k2 < k {
        assert(s[k2] != '=');
    }
    if k < k2 {
        assert(s[k] != '=');
    }
}

/// The cookies of a cookie file, one `key=value` per line, or the first line without `=`.
pub fn parse_cookie_lines(lines: &Vec<String>) -> (r: Result<Cookie, Error>)
    ensures
        r is Ok <==> forall|i: int| 0 <= i < lines@.len() ==> has_eq(#[trigger] lines@[i]@),
        r matches Ok(c) ==> c@.len() == lines@.len() && forall|i: int|
            0 <= i < c@.len() ==> ((#[trigger] c@[i]).0@, c@[i].1@) == cookie_entry(lines@[i]@),
        r matches Err(e) ==> exists|i: int|
            0 <= i < lines@.len() && !has_eq(#[trigger] lines@[i]@) && e == Error::MalformedCookie(
                lines@[i],
            ) && forall|j: int| 0 <= j < i ==> has_eq(#[trigger] lines@[j]@),
{
    let mut cookies: Cookie = Vec::new();
    let mut i: usize = 0;
    while i < lines.len()
        invariant
            i <= lines@.len(),
            cookies@.len() == i,
            forall|j: int| 0 <= j < i ==> has_eq(#[trigger] lines@[j]@),
            forall|j: int|
                0 <= j < i ==> ((#[trigger] cookies@[j]).0@, cookies@[j].1@) == cookie_entry(
                    lines@[j]@,
                ),
        decreases lines@.len() - i,
    {
        let v = chars_of(lines[i].as_str());
        let n = v.len();
        let mut k: usize = 0;
        while k < n && v[k] != '='
            invariant
                k <= n == v@.len(),
                forall|j: int| 0 <= j < k ==> #[trigger] v@[j] != '=',
            decreases n - k,
        {
            k = k + 1;
        }
        if k == n {
            assert(!has_eq(lines@[i as int]@));
            return Err(Error::MalformedCookie(lines[i].clone()));
        }
        proof {
            lemma_first_eq_unique(v@, k as int);
        }
        let key = trim_str(crate::text::substring(lines[i].as_str(), 0, k).as_str());
        let value = trim_str(crate::text::substring(lines[i].as_str(), k + 1, n).as_str());
        cookies.push((key, value));
        i = i + 1;
    }
    Ok(cookies)
}

/// The value of the last entry for `key`.
fn lookup(cookies: &Cookie, key: &str) -> (r: Option<String>)
    ensures
        match r {
            Some(v) => cookie_lookup(cookies@, key@) == Some(v@),
            None => cookie_lookup(cookies@, key@) is None,
        },
{
    let wanted = key.to_owned();
    let mut i: usize = cookies.len();
    assert(cookies@.take(i as int) =~= cookies@);
    while i > 0
        invariant
            i <= cookies@.len(),
            wanted@ == key@,
            cookie_lookup(cookies@, key@) == cookie_lookup(cookies@.take(i as int), key@),
        decreases i,
    {
        assert(cookies@.take(i as int).drop_last() =~= cookies@.take(i - 1));
        assert(cookies@.take(i as int).last() == cookies@[i - 1]);
        if cookies[i - 1].0 == wanted {
            return Some(cookies[i - 1].1.clone());
        }
        i = i - 1;
    }
    None
}

/// `key=value` when the key is present.
pub open spec fn header_part(cookies: Seq<(String, String)>, key: Seq<char>) -> Seq<Seq<char>> {
    match cookie_lookup(cookies, key) {
        Some(v) => seq![key + "="@ + v],
        None => Seq::empty(),
    }
}

/// The `Cookie` header: the session cookie and then the XSRF token, those present, joined
/// by `; `.
pub open spec fn cookie_header(cookies: Seq<(String, String)>) -> Seq<char> {
    join_with(
        header_part(cookies, "recursion_session"@) + header_part(cookies, "XSRF-TOKEN"@),
        "; "@,
    )
}

fn push_header_part(parts: &mut Vec<String>, cookies: &Cookie, key: &str)
    ensures
        views(final(parts)@) == views(old(parts)@) + header_part(cookies@, key@),
{
    match lookup(cookies, key) {
        Some(v) => {
            let mut part = key.to_owned();
            part.append("=");
            part.append(v.as_str());
            let ghost before = views(parts@);
            parts.push(part);
            assert(views(parts@) =~= before + header_part(cookies@, key@));
        },
        None => {
            assert(views(parts@) =~= views(parts@) + header_part(cookies@, key@));
        },
    }
}

/// The `Cookie` header for a request made with the session cookies.
pub fn format_cookie_header(cookies: Cookie) -> (r: String)
    ensures
        r@ == cookie_header(cookies@),
{
    let mut parts: Vec<String> = Vec::new();
    push_header_part(&mut parts, &cookies, "recursion_session");
    push_header_part(&mut parts, &cookies, "XSRF-TOKEN");
    assert(views(parts@) =~= header_part(cookies@, "recursion_session"@) + header_part(
        cookies@,
        "XSRF-TOKEN"@,
    ));
    join_strs(&parts, "; ")
}

/// The CSRF token of the login form: the `value` of the first `input` named `_token`.
pub fn extract_token_from_html(html: &str) -> (r: Result<String, Error>)
    ensures
        r matches Err(e) ==> e is TokenNotFound,
{
    let document = parse_document(html);
    let selector = match parse_selector("input[name=\"_token\"]") {
        Ok(s) => s,
        Err(_) => {
            return Err(
                Error::TokenNotFound("Token parse error in extract_token_from_html".to_owned()),
            )
        },
    };
    let inputs = select_in_document(&document, &selector);
    if inputs.len() > 0 {
        if let Some(v) = attribute(inputs[0], "value") {
            return Ok(v.to_owned());
        }
    }
    Err(Error::TokenNotFound("Token parse error in extract_token_from_html".to_owned()))
}

} // verus!
