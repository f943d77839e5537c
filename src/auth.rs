//! Sessions and credentials: the session cookie, the trailing-slash redirect, login and signup.

use vstd::prelude::*;

use crate::error::AppError;
use crate::model::{Account, CreateAccountPayload, LoginPayload, Timestamp};
use crate::store::{account_by_email, email_taken, Inventory};

verus! {

/// The largest magnitude that an `i32` literal may have, plus one.
const SATURATION: i64 = 2147483649;

pub open spec fn is_decimal_digit(c: char) -> bool {
    '0' <= c && c <= '9'
}

pub open spec fn all_decimal_digits(s: Seq<char>) -> bool {
    forall|i: int| 0 <= i < s.len() ==> is_decimal_digit(#[trigger] s[i])
}

/// The value of a string of decimal digits.
pub open spec fn digits_value(s: Seq<char>) -> int
    decreases s.len(),
{
    if s.len() == 0 {
        0
    } else {
        10 * digits_value(s.drop_last()) + (s.last() as int - '0' as int)
    }
}

/// The `i32` that `s` writes in base ten, with an optional leading `+` or `-`; none when
/// `s` is not such a number or the number does not fit.
pub open spec fn parsed_i32(s: Seq<char>) -> Option<i32> {
    let neg = s.len() > 0 && s[0] == '-';
    let body = if s.len() > 0 && (s[0] == '-' || s[0] == '+') {
        s.drop_first()
    } else {
        s
    };
    let v = if neg {
        -digits_value(body)
    } else {
        digits_value(body)
    };
    if body.len() == 0 || !all_decimal_digits(body) || v < i32::MIN || v > i32::MAX {
        None
    } else {
        Some(v as i32)
    }
}

proof fn lemma_digits_value_non_negative(s: Seq<char>)
    requires
        all_decimal_digits(s),
    ensures
        digits_value(s) >= 0,
    decreases s.len(),
{
    if s.len() > 0 {
        assert(all_decimal_digits(s.drop_last())) by {
            assert forall|i: int| 0 <= i < s.drop_last().len() implies is_decimal_digit(
                #[trigger] s.drop_last()[i],
            ) by {
                assert(s.drop_last()[i] == s[i]);
            }
        }
        lemma_digits_value_non_negative(s.drop_last());
        assert(is_decimal_digit(s[s.len() - 1]));
    }
}

/// The `i32` written in `value` (as a session cookie's account id or a form's category id).
pub fn parse_i32(value: &str) -> (r: Option<i32>)
    ensures
        r == parsed_i32(value@),
{
    let n = value.unicode_len();
    let mut start: usize = 0;
    let mut neg = false;
    if n > 0 {
        let c = value.get_char(0);
        if c == '-' || c == '+' {
            start = 1;
            neg = c == '-';
        }
    }
    let ghost body = if start == 1 { value@.drop_first() } else { value@ };
    assert(body =~= value@.subrange(start as int, n as int));
    if start == n {
        return None;
    }
    let mut acc: i64 = 0;
    let mut i: usize = start;
    while i < n
        invariant
            n == value@.len(),
            start <= i <= n,
            start == (if n > 0 && (value@[0] == '-' || value@[0] == '+') { 1usize } else { 0usize }),
            neg == (n > 0 && value@[0] == '-'),
            body == value@.subrange(start as int, n as int),
            all_decimal_digits(value@.subrange(start as int, i as int)),
            0 <= acc <= SATURATION,
            acc == (if digits_value(value@.subrange(start as int, i as int)) < SATURATION {
                digits_value(value@.subrange(start as int, i as int))
            } else {
                SATURATION as int
            }),
        decreases n - i,
    {
        let c = value.get_char(i);
        let ghost prev = value@.subrange(start as int, i as int);
        let ghost next = value@.subrange(start as int, i as int + 1);
        assert(next.drop_last() =~= prev);
        assert(next.last() == c);
        if !('0' <= c && c <= '9') {
            assert(body[i - start] == c);
            assert(!all_decimal_digits(body));
            return None;
        }
        assert(all_decimal_digits(next)) by {
            assert forall|j: int| 0 <= j < next.len() implies is_decimal_digit(#[trigger] next[j]) by {
                if j < prev.len() {
                    assert(next[j] == prev[j]);
                }
            }
        }
        proof {
            lemma_digits_value_non_negative(prev);
        }
        let d = (c as u32 - '0' as u32) as i64;
        let grown = acc * 10 + d;
        acc = if grown < SATURATION { grown } else { SATURATION };
        proof {
            let pv = digits_value(prev);
            assert(digits_value(next) == 10 * pv + d);
            if pv >= SATURATION {
                assert(10 * pv + d >= SATURATION) by (nonlinear_arith)
                    requires pv >= SATURATION, d >= 0;
            }
        }
        i = i + 1;
    }
    if neg {
        if acc > 2147483648 {
            None
        } else {
            Some((0 - acc) as i32)
        }
    } else {
        if acc > 2147483647 {
            None
        } else {
            Some(acc as i32)
        }
    }
}

/// `hay` holds `needle` somewhere.
pub open spec fn contains_text(hay: Seq<char>, needle: Seq<char>) -> bool {
    exists|i: int| 0 <= i && i + needle.len() <= hay.len() && #[trigger] hay.subrange(i, i + needle.len()) == needle
}

fn holds_at(hay: &str, needle: &str, i: usize, hn: usize, nn: usize) -> (r: bool)
    requires
        hn == hay@.len(),
        nn == needle@.len(),
        i + nn <= hn,
    ensures
        r == (hay@.subrange(i as int, i + nn) == needle@),
{
    let mut j: usize = 0;
    while j < nn
        invariant
            hn == hay@.len(),
            nn == needle@.len(),
            i + nn <= hn,
            j <= nn,
            forall|k: int| 0 <= k < j ==> hay@[i + k] == needle@[k],
        decreases nn - j,
    {
        if hay.get_char(i + j) != needle.get_char(j) {
            assert(hay@.subrange(i as int, i + nn)[j as int] != needle@[j as int]);
            return false;
        }
        j = j + 1;
    }
    assert(hay@.subrange(i as int, i + nn) =~= needle@);
    true
}

/// Whether the text `hay` holds `needle`.
pub fn contains(hay: &str, needle: &str) -> (r: bool)
    ensures
        r == contains_text(hay@, needle@),
{
    let hn = hay.unicode_len();
    let nn = needle.unicode_len();
    if nn > hn {
        return false;
    }
    let mut i: usize = 0;
    while i <= hn - nn
        invariant
            hn == hay@.len(),
            nn == needle@.len(),
            nn <= hn,
            i <= hn - nn + 1,
            forall|k: int| 0 <= k < i ==> #[trigger] hay@.subrange(k, k + nn) != needle@,
        decreases hn - nn - i,
    {
        if holds_at(hay, needle, i, hn, nn) {
            return true;
        }
        if i == hn - nn {
            return false;
        }
        i = i + 1;
    }
    false
}

/// Whether a request's `Cookie` header carries a session.
pub fn has_session_cookie(cookie_header: &str) -> (r: bool)
    ensures
        r == contains_text(cookie_header@, "session="@),
{
    contains(cookie_header, "session=")
}

/// `s` without its trailing slashes.
pub open spec fn trim_trailing_slashes(s: Seq<char>) -> Seq<char>
    decreases s.len(),
{
    if s.len() > 0 && s.last() == '/' {
        trim_trailing_slashes(s.drop_last())
    } else {
        s
    }
}

/// Where a request for `path` (with the query `query`) is sent permanently: a path longer
/// than one character that ends in `/` loses its trailing slashes and keeps its query;
/// any other path is served as it is (none).
pub fn strip_trailing_slash(path: &str, query: Option<&str>) -> (r: Option<String>)
    ensures
        path@.len() > 1 && path@.last() == '/' ==> r is Some && r->0@ == trim_trailing_slashes(path@)
            + match query {
            Some(q) => seq!['?'] + q@,
            None => Seq::empty(),
        },
        !(path@.len() > 1 && path@.last() == '/') ==> r is None,
{
    let n = path.unicode_len();
    if !(n > 1 && path.get_char(n - 1) == '/') {
        return None;
    }
    let mut j: usize = n;
    assert(path@.subrange(0, n as int) =~= path@);
    while j > 0 && path.get_char(j - 1) == '/'
        invariant
            n == path@.len(),
            j <= n,
            trim_trailing_slashes(path@) == trim_trailing_slashes(path@.subrange(0, j as int)),
        decreases j,
    {
        assert(path@.subrange(0, j as int).drop_last() =~= path@.subrange(0, j - 1));
        j = j - 1;
    }
    assert(path@.subrange(0, n as int) =~= path@);
    let base = String::from_str(path.substring_char(0, j));
    match query {
        Some(q) => {
            proof {
                reveal_strlit("?");
            }
            Some(base.concat("?").concat(q))
        },
        None => {
            assert(path@.subrange(0, j as int) + Seq::<char>::empty() =~= path@.subrange(0, j as int));
            Some(base)
        },
    }
}

/// What `bcrypt::verify` answers for a password and a stored hash: whether they match, or
/// none when the hash is malformed.
pub uninterp spec fn bcrypt_verdict(password: Seq<char>, hash: Seq<char>) -> Option<bool>;

/// Relies on `bcrypt::verify`: it rehashes the password with the cost and salt read from
/// the stored hash and compares; the answer depends on its two arguments alone, and a
/// malformed hash gives an error.
#[verifier::external_body]
fn verify_password(password: &str, hash: &str) -> (r: Option<bool>)
    ensures
        r == bcrypt_verdict(password@, hash@),
{
    bcrypt::verify(password, hash).ok()
}

/// Relies on `bcrypt::hash` with `bcrypt::DEFAULT_COST`: a fresh random salt on each call;
/// it fails only when the system's random source does, and a hash is 60 characters.
#[verifier::external_body]
fn hash_password(password: &str) -> (r: Option<String>)
    ensures
        r is Some ==> r->0@.len() == 60,
{
    bcrypt::hash(password, bcrypt::DEFAULT_COST).ok()
}

/// The reply to a login attempt that names no account or the wrong password.
pub const LOGIN_REFUSED: &'static str = "Nieprawidłowe dane logowania";

/// The outcome of a login, from the account looked up by email (if any) and the password
/// check's answer for it (`None` when the check failed).
pub open spec fn login_result(account: Option<Account>, verdict: Option<bool>) -> Result<i32, AppError> {
    match account {
        None => Err(AppError::BadRequest(arbitrary())),
        Some(a) => match verdict {
            None => Err(AppError::InternalServerError(arbitrary())),
            Some(false) => Err(AppError::BadRequest(arbitrary())),
            Some(true) => Ok(a.id),
        },
    }
}

/// `r` is `expected`, up to the text of an error.
pub open spec fn same_outcome(r: Result<i32, AppError>, expected: Result<i32, AppError>) -> bool {
    match expected {
        Ok(id) => r == Ok::<i32, AppError>(id),
        Err(AppError::BadRequest(_)) => r matches Err(AppError::BadRequest(m)) && m@ == LOGIN_REFUSED@,
        Err(AppError::InternalServerError(_)) => r matches Err(AppError::InternalServerError(_)),
        Err(_) => false,
    }
}

/// Decides a login from the account looked up by email and the password check's answer:
/// the account's id when the password matches; a refusal when there is no such account or
/// the password does not match; a server error when the check itself failed.
pub fn login_outcome(account: Option<Account>, verdict: Option<bool>) -> (r: Result<i32, AppError>)
    ensures
        same_outcome(r, login_result(account, verdict)),
{
    match account {
        None => Err(AppError::BadRequest(String::from_str(LOGIN_REFUSED))),
        Some(a) => match verdict {
            None => Err(AppError::InternalServerError(String::from_str("the password could not be checked"))),
            Some(false) => Err(AppError::BadRequest(String::from_str(LOGIN_REFUSED))),
            Some(true) => Ok(a.id),
        },
    }
}

/// The answer of the password check for `account`, none when there is no account.
pub open spec fn verdict_for(account: Option<Account>, password: Seq<char>) -> Option<bool> {
    match account {
        Some(a) => bcrypt_verdict(password, a.password@),
        None => None,
    }
}

/// Checks `password` against the stored hash of `account` (the account looked up by the
/// email given) and decides the login as `login_outcome` does.
pub fn check_login(account: Option<Account>, password: &str) -> (r: Result<i32, AppError>)
    ensures
        same_outcome(r, login_result(account, verdict_for(account, password@))),
{
    let verdict = match &account {
        Some(a) => verify_password(password, a.password.as_str()),
        None => None,
    };
    login_outcome(account, verdict)
}

/// A bcrypt hash of `password`, with a fresh salt; a failure to hash is a server error.
pub fn hash_new_password(password: &str) -> (r: Result<String, AppError>)
    ensures
        r is Ok ==> r->Ok_0@.len() == 60,
        r is Err ==> (r matches Err(AppError::InternalServerError(_))),
{
    match hash_password(password) {
        None => Err(AppError::InternalServerError(String::from_str("the password could not be hashed"))),
        Some(h) => Ok(h),
    }
}

/// Logs in with `payload`: the id of the account registered with its email when its
/// password matches the stored hash.
pub fn login(inv: &Inventory, payload: &LoginPayload) -> (r: Result<i32, AppError>)
    requires
        inv.wf(),
    ensures
        same_outcome(
            r,
            login_result(
                account_by_email(inv.account_records(), payload.email@),
                verdict_for(account_by_email(inv.account_records(), payload.email@), payload.password@),
            ),
        ),
{
    let account = inv.get_account_by_email(payload.email.as_str());
    check_login(account, payload.password.as_str())
}

/// Opens an account from `payload`, storing a bcrypt hash of its password. Refused when
/// the email is already registered; a failure to hash is a server error.
pub fn signup(inv: &mut Inventory, payload: &CreateAccountPayload, now: Timestamp) -> (r: Result<Account, AppError>)
    requires
        old(inv).wf(),
    ensures
        final(inv).wf(),
        final(inv).item_records() == old(inv).item_records(),
        final(inv).category_records() == old(inv).category_records(),
        email_taken(old(inv).account_records(), payload.email@) ==> r is Err,
        r is Err ==> final(inv).account_records() == old(inv).account_records(),
        r is Ok ==> final(inv).account_records() == old(inv).account_records().push(r->Ok_0)
            && r->Ok_0.name@ == payload.name@ && r->Ok_0.email@ == payload.email@
            && r->Ok_0.password@.len() == 60 && r->Ok_0.created_at == now,
{
    match hash_new_password(payload.password.as_str()) {
        Err(e) => Err(e),
        Ok(h) => inv.create_account(payload.name.as_str(), payload.email.as_str(), h.as_str(), now),
    }
}

} // verus!
