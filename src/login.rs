//! The e-mail address asked for at login.

use vstd::prelude::*;
use crate::error::Error;
use crate::text::{chars_of, is_white, is_whitespace, trim, trim_str};

verus! {

/// A character allowed around the `@` of an address: neither `@` nor white space.
pub open spec fn email_char(c: char) -> bool {
    c != '@' && !is_white(c)
}

/// `s` has the shape of `^[^@\s]+@[^@\s]+\.[^@\s]+$`: one `@` with something before it,
/// a `.` after it with something on both sides, and no white space.
pub open spec fn email_shape(s: Seq<char>) -> bool {
    exists|a: int, d: int|
        {
            &&& 0 < a && a + 1 < d && d + 1 < s.len()
            &&& #[trigger] s[a] == '@' && #[trigger] s[d] == '.'
            &&& forall|k: int| 0 <= k < s.len() && k != a ==> email_char(#[trigger] s[k])
        }
}

/// Whether `email` is an e-mail address.
pub fn valid_email(email: &str) -> (r: Result<bool, Error>)
    ensures
        r matches Ok(b) && b == email_shape(email@),
{
    let v = chars_of(email);
    let n = v.len();
    let mut a: usize = 0;
    while a < n && v[a] != '@'
        invariant
            a <= n == v@.len(),
            forall|k: int| 0 <= k < a ==> #[trigger] v@[k] != '@',
        decreases n - a,
    {
        a = a + 1;
    }
    if a >= n {
        return Ok(false);
    }
    if a == 0 {
        assert(!email_shape(email@)) by {
            if email_shape(v@) {
                let (a2, d2) = choose|a2: int, d2: int|
                    {
                        &&& 0 < a2 && a2 + 1 < d2 && d2 + 1 < v@.len()
                        &&& #[trigger] v@[a2] == '@' && #[trigger] v@[d2] == '.'
                        &&& forall|k: int|
                            0 <= k < v@.len() && k != a2 ==> email_char(#[trigger] v@[k])
                    };
                assert(email_char(v@[0]));
            }
        }
        return Ok(false);
    }
    let mut k: usize = 0;
    while k < n
        invariant
            0 < a < n == v@.len(),
            v@ == email@,
            v@[a as int] == '@',
            forall|j: int| 0 <= j < a ==> #[trigger] v@[j] != '@',
            k <= n,
            forall|j: int| 0 <= j < k && j != a ==> email_char(#[trigger] v@[j]),
        decreases n - k,
    {
        if k != a && (v[k] == '@' || is_whitespace(v[k])) {
            assert(!email_shape(email@)) by {
                if email_shape(v@) {
                    let (a2, d2) = choose|a2: int, d2: int|
                        {
                            &&& 0 < a2 && a2 + 1 < d2 && d2 + 1 < v@.len()
                            &&& #[trigger] v@[a2] == '@' && #[trigger] v@[d2] == '.'
                            &&& forall|j: int|
                                0 <= j < v@.len() && j != a2 ==> email_char(#[trigger] v@[j])
                        };
                    if a2 != a {
                        assert(email_char(v@[a as int]));
                    }
                    assert(email_char(v@[k as int]));
                }
            }
            return Ok(false);
        }
        k = k + 1;
    }
    if n - a < 4 {
        return Ok(false);
    }
    let mut d: usize = a + 2;
    while d < n - 1 && v[d] != '.'
        invariant
            0 < a < n == v@.len(),
            a + 2 <= d <= n,
            forall|j: int| a + 2 <= j < d && j + 1 < n ==> #[trigger] v@[j] != '.',
        decreases n - d,
    {
        d = d + 1;
    }
    if d < n - 1 {
        assert(v@[a as int] == '@' && v@[d as int] == '.');
        return Ok(true);
    }
    assert(!email_shape(email@)) by {
        if email_shape(v@) {
            let (a2, d2) = choose|a2: int, d2: int|
                {
                    &&& 0 < a2 && a2 + 1 < d2 && d2 + 1 < v@.len()
                    &&& #[trigger] v@[a2] == '@' && #[trigger] v@[d2] == '.'
                    &&& forall|j: int|
                        0 <= j < v@.len() && j != a2 ==> email_char(#[trigger] v@[j])
                };
            if a2 != a {
                assert(email_char(v@[a as int]));
            }
            assert(v@[d2] != '.');
        }
    }
    Ok(false)
}

/// The address typed on a line, trimmed, if it is one.
pub fn accept_email(line: &str) -> (r: Option<String>)
    ensures
        r is Some <==> email_shape(trim(line@)),
        r matches Some(e) ==> e@ == trim(line@),
{
    let email = trim_str(line);
    match valid_email(email.as_str()) {
        Ok(true) => Some(email),
        _ => None,
    }
}

} // verus!
