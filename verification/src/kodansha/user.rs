use vstd::prelude::*;

use crate::kodansha::volume::Library;

verus! {

/// A username and password pair, as the login endpoint takes it.
#[derive(Debug)]
pub struct Credentials {
    pub username: String,
    password: String,
}

impl Credentials {
    /// The username.
    pub closed spec fn spec_username(&self) -> Seq<char> {
        self.username@
    }

    /// The password; only the surrounding I/O layer reads it back.
    pub closed spec fn spec_password(&self) -> Seq<char> {
        self.password@
    }

    pub fn new(username: String, password: String) -> (c: Credentials)
        ensures
            c.spec_username() == username@,
            c.spec_password() == password@,
    {
        Credentials { username, password }
    }

    /// The password, for the login request.
    pub fn password(&self) -> (p: &String)
        ensures
            p@ == self.spec_password(),
    {
        &self.password
    }
}

/// How long before the nominal expiry a token is already treated as stale,
/// as slack for slow connections, in seconds.
pub const EXPIRY_SLACK_SECONDS: i64 = 3600;

/// When a token obtained now, valid for `expires_in` seconds, is treated as
/// expired: an hour of slack is taken off.
pub open spec fn spec_expirery(now: int, expires_in: int) -> int {
    now + expires_in - EXPIRY_SLACK_SECONDS
}

/// The moment a token obtained at `now` with lifetime `expires_in` seconds
/// is treated as expired.
pub fn expirery(now: i64, expires_in: i64) -> (t: i64)
    requires
        0 <= expires_in,
        i64::MIN <= now + expires_in - EXPIRY_SLACK_SECONDS,
        now + expires_in <= i64::MAX,
    ensures
        t == spec_expirery(now as int, expires_in as int),
{
    if expires_in >= EXPIRY_SLACK_SECONDS {
        now + (expires_in - EXPIRY_SLACK_SECONDS)
    } else {
        now - (EXPIRY_SLACK_SECONDS - expires_in)
    }
}

/// A logged-in user: the bearer token, the refresh token, the moment the
/// bearer token goes stale, and the loaded library.
pub struct User {
    token: String,
    refresh: String,
    expirery: i64,
    library: Option<Library>,
}

impl User {
    /// The bearer token.
    pub closed spec fn spec_token(&self) -> Seq<char> {
        self.token@
    }

    /// The refresh token.
    pub closed spec fn spec_refresh(&self) -> Seq<char> {
        self.refresh@
    }

    /// When the bearer token goes stale.
    pub closed spec fn spec_expirery(&self) -> i64 {
        self.expirery
    }

    /// The loaded library, if any.
    pub closed spec fn spec_library(&self) -> Option<Library> {
        self.library
    }

    /// A user as the login endpoint answers: tokens plus a lifetime, taken
    /// relative to the current time.
    pub fn from_login(token: String, refresh: String, expires_in: i64, now: i64) -> (u: User)
        requires
            0 <= expires_in,
            i64::MIN <= now + expires_in - EXPIRY_SLACK_SECONDS,
            now + expires_in <= i64::MAX,
        ensures
            u.spec_token() == token@,
            u.spec_refresh() == refresh@,
            u.spec_expirery() == spec_expirery(now as int, expires_in as int),
            u.spec_library() is None,
    {
        let expirery = expirery(now, expires_in);
        User { token, refresh, expirery, library: None }
    }

    /// A user as it was stored on disk.
    pub fn from_stored(token: String, refresh: String, expirery: i64) -> (u: User)
        ensures
            u.spec_token() == token@,
            u.spec_refresh() == refresh@,
            u.spec_expirery() == expirery,
            u.spec_library() is None,
    {
        User { token, refresh, expirery, library: None }
    }

    /// What is persisted to disk for this user.
    pub fn stored(&self) -> (s: (String, String, i64))
        ensures
            s.0@ == self.spec_token(),
            s.1@ == self.spec_refresh(),
            s.2 == self.spec_expirery(),
    {
        (
            crate::text::clone_string(&self.token),
            crate::text::clone_string(&self.refresh),
            self.expirery,
        )
    }

    /// The refresh token, as the refresh request carries it.
    pub fn refresh_request(&self) -> (r: String)
        ensures
            r@ == self.spec_refresh(),
    {
        crate::text::clone_string(&self.refresh)
    }

    /// Whether the held token is still fresh at `now`: a fresh one is
    /// reused, a stale one must be refreshed before the next request.
    pub fn token_is_fresh(&self, now: i64) -> (fresh: bool)
        ensures
            fresh <==> now < self.spec_expirery(),
    {
        now < self.expirery
    }

    /// The held token, read out for a request.
    pub fn token(&self) -> (t: String)
        ensures
            t@ == self.spec_token(),
    {
        crate::text::clone_string(&self.token)
    }

    /// Takes a refreshed token in: the new bearer value and its lifetime,
    /// relative to the current time. The refresh token stays.
    pub fn refreshed(&mut self, token: String, expires_in: i64, now: i64)
        requires
            0 <= expires_in,
            i64::MIN <= now + expires_in - EXPIRY_SLACK_SECONDS,
            now + expires_in <= i64::MAX,
        ensures
            final(self).spec_token() == token@,
            final(self).spec_refresh() == old(self).spec_refresh(),
            final(self).spec_expirery() == spec_expirery(now as int, expires_in as int),
            final(self).spec_library() == old(self).spec_library(),
    {
        self.token = token;
        self.expirery = expirery(now, expires_in);
    }

    /// The loaded library.
    pub fn library(&self) -> (l: &Option<Library>)
        ensures
            l == self.spec_library(),
    {
        &self.library
    }

    /// Stores a freshly fetched library.
    pub fn set_library(&mut self, library: Library)
        ensures
            final(self).spec_library() == Some(library),
            final(self).spec_token() == old(self).spec_token(),
            final(self).spec_refresh() == old(self).spec_refresh(),
            final(self).spec_expirery() == old(self).spec_expirery(),
    {
        self.library = Some(library);
    }
}

/// Why a string failed to parse as a signed decimal number.
#[derive(Clone, Copy, PartialEq, Eq, Structural, Debug)]
pub enum ParseNumberError {
    /// Empty, or a character that is not a decimal digit.
    Invalid,
    /// A well-formed number outside the representable range.
    OutOfRange,
}

/// The decimal value of a digit character.
pub open spec fn spec_digit_value(c: char) -> int {
    c as int - '0' as int
}

/// Whether a character is a decimal digit.
pub open spec fn spec_is_digit(c: char) -> bool {
    '0' <= c <= '9'
}

/// The value of a digit string, most significant digit first.
pub open spec fn spec_digits_value(s: Seq<char>) -> int
    decreases s.len(),
{
    if s.len() == 0 {
        0
    } else {
        spec_digits_value(s.drop_last()) * 10 + spec_digit_value(s.last())
    }
}

/// The digits of a decimal literal: everything after an optional sign.
pub open spec fn spec_number_body(s: Seq<char>) -> Seq<char> {
    if s.len() > 0 && (s[0] == '+' || s[0] == '-') {
        s.drop_first()
    } else {
        s
    }
}

/// Whether a string is a decimal integer literal: an optional sign and at
/// least one digit, nothing else.
pub open spec fn spec_is_number(s: Seq<char>) -> bool {
    &&& spec_number_body(s).len() > 0
    &&& forall|i: int|
        0 <= i < spec_number_body(s).len() ==> spec_is_digit(#[trigger] spec_number_body(s)[i])
}

/// The value of a decimal integer literal.
pub open spec fn spec_number_value(s: Seq<char>) -> int {
    if s.len() > 0 && s[0] == '-' {
        -spec_digits_value(spec_number_body(s))
    } else {
        spec_digits_value(spec_number_body(s))
    }
}

/// A digit string's value never goes down when digits are appended.
proof fn lemma_digits_value_nonneg(s: Seq<char>)
    requires
        forall|i: int| 0 <= i < s.len() ==> spec_is_digit(#[trigger] s[i]),
    ensures
        spec_digits_value(s) >= 0,
    decreases s.len(),
{
    if s.len() > 0 {
        lemma_digits_value_nonneg(s.drop_last());
    }
}

/// Parses a signed decimal integer, as the token lifetime field carries it:
/// an optional sign and digits. Returns the value exactly when the string
/// is well formed and the value fits; a malformed string and an overflowing
/// one are told apart.
pub fn parse_i64(s: &str) -> (r: Result<i64, ParseNumberError>)
    ensures
        (r is Ok <==> spec_is_number(s@) && i64::MIN <= spec_number_value(s@) <= i64::MAX),
        (r matches Ok(v) ==> v == spec_number_value(s@)),
        (r == Err::<i64, ParseNumberError>(ParseNumberError::Invalid) ==> !spec_is_number(s@)),
        (r == Err::<i64, ParseNumberError>(ParseNumberError::OutOfRange) ==> !(spec_is_number(s@)
            && i64::MIN <= spec_number_value(s@) <= i64::MAX)),
{
    let n = s.unicode_len();
    if n == 0 {
        return Err(ParseNumberError::Invalid);
    }
    let first = s.get_char(0);
    let negative = first == '-';
    let start: usize = if first == '-' || first == '+' {
        1
    } else {
        0
    };
    if n == start {
        return Err(ParseNumberError::Invalid);
    }
    let ghost body = spec_number_body(s@);
    proof {
        assert(body =~= s@.subrange(start as int, n as int));
    }
    let limit: u64 = if negative {
        9223372036854775808u64
    } else {
        9223372036854775807u64
    };
    let mut acc: u64 = 0;
    let mut i: usize = start;
    proof {
        assert(body.subrange(0, 0) =~= Seq::<char>::empty());
    }
    while i < n
        invariant
            start <= i <= n,
            n == s@.len(),
            start == 0 || start == 1,
            start == 1 ==> (s@[0] == '+' || s@[0] == '-'),
            start == 0 ==> !(s@[0] == '+' || s@[0] == '-'),
            n > start,
            negative <==> s@[0] == '-',
            body == spec_number_body(s@),
            body == s@.subrange(start as int, n as int),
            limit == (if negative {
                9223372036854775808u64
            } else {
                9223372036854775807u64
            }),
            forall|j: int| 0 <= j < i - start ==> spec_is_digit(#[trigger] body[j]),
            acc == spec_digits_value(body.subrange(0, i - start)),
            acc <= limit,
        decreases n - i,
    {
        let c = s.get_char(i);
        if !(c >= '0' && c <= '9') {
            proof {
                assert(body[i - start] == c);
                assert(!spec_is_number(s@));
            }
            return Err(ParseNumberError::Invalid);
        }
        let d: u64 = (c as u32 - 48) as u64;
        proof {
            assert(d == spec_digit_value(c));
            assert(d <= 9);
        }
        if acc > (limit - d) / 10 {
            proof {
                assert(acc * 10 + d > limit) by (nonlinear_arith)
                    requires
                        acc > (limit - d) / 10,
                        0 <= d <= 9,
                        d <= limit,
                        0 <= acc,
                ;
                if spec_is_number(s@) {
                    assert(body[i - start] == c);
                    lemma_digits_overflow(body, i - start, limit as int);
                    lemma_digits_value_nonneg(body);
                    if negative {
                        assert(spec_number_value(s@) == -spec_digits_value(body));
                        assert(spec_number_value(s@) < i64::MIN);
                    } else {
                        assert(spec_number_value(s@) > i64::MAX);
                    }
                }
            }
            return Err(ParseNumberError::OutOfRange);
        }
        proof {
            assert(acc * 10 + d <= limit) by (nonlinear_arith)
                requires
                    acc <= (limit - d) / 10,
                    0 <= d <= 9,
                    d <= limit,
                    0 <= acc,
            ;
            assert(body.subrange(0, i - start + 1).drop_last() =~= body.subrange(0, i - start));
            assert(body.subrange(0, i - start + 1).last() == c);
        }
        acc = acc * 10 + d;
        i = i + 1;
    }
    proof {
        assert(body.subrange(0, n - start) =~= body);
        assert(spec_is_number(s@));
        assert(acc == spec_digits_value(body));
    }
    if negative {
        if acc == 9223372036854775808u64 {
            proof {
                assert(spec_number_value(s@) == -(acc as int));
            }
            Ok(i64::MIN)
        } else {
            proof {
                assert(spec_number_value(s@) == -(acc as int));
            }
            Ok(-(acc as i64))
        }
    } else {
        Ok(acc as i64)
    }
}

/// If the digits seen so far already exceed the limit once extended by the
/// next digit, the whole literal's value exceeds the limit.
proof fn lemma_digits_overflow(body: Seq<char>, k: int, limit: int)
    requires
        0 <= k < body.len(),
        forall|i: int| 0 <= i < body.len() ==> spec_is_digit(#[trigger] body[i]),
        spec_digits_value(body.subrange(0, k)) * 10 + spec_digit_value(body[k]) > limit,
        limit >= 0,
    ensures
        spec_digits_value(body) > limit,
    decreases body.len() - k,
{
    assert(body.subrange(0, k + 1).drop_last() =~= body.subrange(0, k));
    assert(body.subrange(0, k + 1).last() == body[k]);
    assert(spec_digits_value(body.subrange(0, k + 1)) > limit);
    if k + 1 == body.len() {
        assert(body.subrange(0, k + 1) =~= body);
    } else {
        lemma_digits_grow(body, k + 1, limit);
    }
}

/// A digit string's value only grows as more digits are taken.
proof fn lemma_digits_grow(body: Seq<char>, k: int, limit: int)
    requires
        0 <= k <= body.len(),
        forall|i: int| 0 <= i < body.len() ==> spec_is_digit(#[trigger] body[i]),
        spec_digits_value(body.subrange(0, k)) > limit,
        limit >= 0,
    ensures
        spec_digits_value(body) > limit,
    decreases body.len() - k,
{
    if k == body.len() {
        assert(body.subrange(0, k) =~= body);
    } else {
        assert(body.subrange(0, k + 1).drop_last() =~= body.subrange(0, k));
        assert(body.subrange(0, k + 1).last() == body[k]);
        assert(spec_digits_value(body.subrange(0, k)) * 10 + spec_digit_value(body[k]) > limit)
            by (nonlinear_arith)
            requires
                spec_digits_value(body.subrange(0, k)) > limit,
                limit >= 0,
                spec_digit_value(body[k]) >= 0,
        ;
        lemma_digits_grow(body, k + 1, limit);
    }
}

/// The route tokens are obtained and refreshed at.
pub fn account_route() -> (s: String)
    ensures
        s@ == "https://api.kodansha.us/account/token"@,
{
    "https://api.kodansha.us/account/token".to_owned()
}

/// The route the user's library is listed at.
pub fn library_route() -> (s: String)
    ensures
        s@ == "https://api.kodansha.us/mycomics/"@,
{
    "https://api.kodansha.us/mycomics/".to_owned()
}

/// The authorization header value for a token.
pub open spec fn spec_bearer(token: Seq<char>) -> Seq<char> {
    "Bearer "@ + token
}

/// Renders the authorization header value.
pub fn bearer(token: &str) -> (s: String)
    ensures
        s@ == spec_bearer(token@),
{
    "Bearer ".to_owned().concat(token)
}

} // verus!
