//! Access-token lifetime: when the held token must be renewed, and the checks
//! that keep concurrent renewals from fetching twice.
use vstd::prelude::*;
use crate::kiwoom::{AccessTokenResponse, KiwoomError};
use crate::text::{trim_spec, trimmed_chars};

verus! {

/// How long before its expiry a token is renewed, in minutes.
pub const TOKEN_REFRESH_BEFORE_MIN: i64 = 5;

/// The offset of Korea Standard Time from UTC, in seconds.
pub const KST_OFFSET_SECS: i32 = 32_400;

/// The earliest instant that chrono represents, January 1, 262144 BCE (year
/// -262143) at 00:00:00 UTC, in seconds since the Unix epoch.
pub const CHRONO_MIN_TIMESTAMP: i64 = -8_334_601_228_800;

/// The format of a token's expiry (`YYYYMMDDHHMMSS`, local KST time).
pub open spec fn expiry_format() -> Seq<char> {
    seq!['%', 'Y', '%', 'm', '%', 'd', '%', 'H', '%', 'M', '%', 'S']
}

/// The date and time that chrono's `NaiveDateTime::parse_from_str` reads from
/// `text` with the format `fmt`, as the seconds of that wall-clock reading counted
/// from 1970-01-01 00:00:00 and its nanoseconds (from one billion on within a leap
/// second); `None` when the text does not match the format.
pub uninterp spec fn naive_datetime_parse(text: Seq<char>, fmt: Seq<char>) -> Option<(i64, u32)>;

/// Reads a date and time with a chrono format.
///
/// Trusted: `chrono::NaiveDateTime::parse_from_str`; the value read is handed back
/// as plain numbers through `and_utc`, `timestamp` and `timestamp_subsec_nanos`.
/// The result is named by `naive_datetime_parse`; nothing is stated about it.
#[verifier::external_body]
fn parse_naive_datetime(text: &str, fmt: &str) -> (r: Option<(i64, u32)>)
    ensures
        r == naive_datetime_parse(text@, fmt@),
{
    match chrono::NaiveDateTime::parse_from_str(text, fmt) {
        Ok(n) => Some((n.and_utc().timestamp(), n.and_utc().timestamp_subsec_nanos())),
        Err(_) => None,
    }
}

/// The current time: seconds since the Unix epoch (negative before it) and the
/// nanoseconds past that second.
///
/// Trusted: `std::time::SystemTime::now()`, converted with chrono's
/// `From<SystemTime> for DateTime<Utc>` and read back with `timestamp` and
/// `timestamp_subsec_nanos`. The conversion handles times before the epoch
/// without stopping, and always gives nanoseconds below one billion; it unwraps
/// only a reading beyond chrono's range of about 262,000 years around the epoch,
/// which the system clock cannot be set to (the kernel keeps its time as 64-bit
/// nanoseconds, a few centuries either side of 1970). The clock decides the
/// value; only the nanosecond bound is stated.
#[verifier::external_body]
fn utc_now() -> (r: (i64, u32))
    ensures
        r.1 < 1_000_000_000,
{
    let now = chrono::DateTime::<chrono::Utc>::from(std::time::SystemTime::now());
    (now.timestamp(), now.timestamp_subsec_nanos())
}

/// The instant at which the KST wall-clock reading `local` happens, as chrono's
/// `FixedOffset::from_local_datetime` gives it: nine hours earlier, the
/// nanoseconds kept; `None` when that falls before chrono's earliest instant.
pub open spec fn kst_instant(local: (i64, u32)) -> Option<(i64, u32)> {
    if local.0 - KST_OFFSET_SECS < CHRONO_MIN_TIMESTAMP {
        None
    } else {
        Some(((local.0 - KST_OFFSET_SECS) as i64, local.1))
    }
}

/// The instant that a token's expiry text denotes, read as KST.
pub open spec fn expiry_instant(token_exp: Seq<char>) -> Option<(i64, u32)> {
    match naive_datetime_parse(token_exp, expiry_format()) {
        Some(local) => kst_instant(local),
        None => None,
    }
}

/// Instants compared as chrono compares them: by seconds, then nanoseconds.
pub open spec fn instant_ge(a: (i64, u32), b: (int, u32)) -> bool {
    a.0 > b.0 || (a.0 == b.0 && a.1 >= b.1)
}

/// The instant `TOKEN_REFRESH_BEFORE_MIN` minutes before `expires`, as chrono
/// subtracts a duration: a leap second is first taken as the start of the next
/// second.
pub open spec fn refresh_instant(expires: (i64, u32)) -> (int, u32) {
    if expires.1 >= 1_000_000_000 {
        (expires.0 + 1 - TOKEN_REFRESH_BEFORE_MIN * 60, (expires.1 - 1_000_000_000) as u32)
    } else {
        (expires.0 - TOKEN_REFRESH_BEFORE_MIN * 60, expires.1)
    }
}

/// Whether, at `now`, a token expiring at `expires` is due for renewal: from
/// `TOKEN_REFRESH_BEFORE_MIN` minutes before its expiry on.
pub open spec fn refresh_due_spec(expires: (i64, u32), now: (i64, u32)) -> bool {
    instant_ge(now, refresh_instant(expires))
}

/// Whether the renewal instant of an expiry text can be computed: the text is
/// blank, or not a valid expiry, or its renewal instant is not before chrono's
/// earliest instant (chrono stops the program when it is).
pub open spec fn expiry_in_range_spec(token_exp: Seq<char>) -> bool {
    trim_spec(token_exp).len() == 0 || match expiry_instant(token_exp) {
        Some(e) => refresh_instant(e).0 >= CHRONO_MIN_TIMESTAMP,
        None => true,
    }
}

/// Whether a token with expiry text `token_exp` is due for renewal at `now`: when
/// the text is blank or not a valid expiry, or when renewal is due.
pub open spec fn should_refresh_at_spec(token_exp: Seq<char>, now: (i64, u32)) -> bool {
    if trim_spec(token_exp).len() == 0 {
        true
    } else {
        match expiry_instant(token_exp) {
            None => true,
            Some(e) => refresh_due_spec(e, now),
        }
    }
}

/// Whether, at `now`, a token expiring at `expires` is due for renewal.
pub fn refresh_due(expires: (i64, u32), now: (i64, u32)) -> (b: bool)
    ensures
        b == refresh_due_spec(expires, now),
{
    let before: i128 = (TOKEN_REFRESH_BEFORE_MIN as i128) * 60;
    let (at_secs, at_nanos): (i128, u32) = if expires.1 >= 1_000_000_000 {
        (expires.0 as i128 + 1 - before, expires.1 - 1_000_000_000)
    } else {
        (expires.0 as i128 - before, expires.1)
    };
    let now_secs = now.0 as i128;
    now_secs > at_secs || (now_secs == at_secs && now.1 >= at_nanos)
}

/// The instant of a token's expiry text, read as KST.
fn read_expiry(token_exp: &str) -> (r: Option<(i64, u32)>)
    ensures
        r == expiry_instant(token_exp@),
{
    proof {
        reveal_strlit("%Y%m%d%H%M%S");
        assert("%Y%m%d%H%M%S"@ =~= expiry_format());
    }
    match parse_naive_datetime(token_exp, "%Y%m%d%H%M%S") {
        None => None,
        Some(local) => {
            if (local.0 as i128) - (KST_OFFSET_SECS as i128) < CHRONO_MIN_TIMESTAMP as i128 {
                None
            } else {
                Some((local.0 - KST_OFFSET_SECS as i64, local.1))
            }
        },
    }
}

/// Whether the renewal instant of an expiry text can be computed; see
/// `expiry_in_range_spec`.
pub fn expiry_in_range(token_exp: &str) -> (b: bool)
    ensures
        b == expiry_in_range_spec(token_exp@),
{
    if trimmed_chars(token_exp).len() == 0 {
        return true;
    }
    match read_expiry(token_exp) {
        None => true,
        Some(e) => {
            let secs: i128 = if e.1 >= 1_000_000_000 {
                e.0 as i128 + 1 - (TOKEN_REFRESH_BEFORE_MIN as i128) * 60
            } else {
                e.0 as i128 - (TOKEN_REFRESH_BEFORE_MIN as i128) * 60
            };
            secs >= CHRONO_MIN_TIMESTAMP as i128
        },
    }
}

/// Whether a token with expiry text `token_exp` is due for renewal at `now`.
pub fn should_refresh_at(token_exp: &str, now: (i64, u32)) -> (b: bool)
    requires
        expiry_in_range_spec(token_exp@),
    ensures
        b == should_refresh_at_spec(token_exp@, now),
{
    let trimmed = trimmed_chars(token_exp);
    if trimmed.len() == 0 {
        return true;
    }
    match read_expiry(token_exp) {
        None => true,
        Some(e) => refresh_due(e, now),
    }
}

/// Whether a token with expiry text `token_exp` is due for renewal now. Blank or
/// unreadable expiries always are; otherwise the answer depends on the clock.
pub fn should_refresh_from(token_exp: &str) -> (b: bool)
    requires
        expiry_in_range_spec(token_exp@),
    ensures
        trim_spec(token_exp@).len() == 0 ==> b,
        expiry_instant(token_exp@) is None ==> b,
        exists|now: (i64, u32)| b == should_refresh_at_spec(token_exp@, now),
{
    let now = utc_now();
    should_refresh_at(token_exp, now)
}

/// `should_refresh_from`, or `None` for an expiry whose renewal instant is out of
/// chrono's range.
pub fn checked_should_refresh_from(token_exp: &str) -> (r: Option<bool>)
    ensures
        r is None <==> !expiry_in_range_spec(token_exp@),
        r matches Some(b) ==> (trim_spec(token_exp@).len() == 0 ==> b) && (expiry_instant(
            token_exp@,
        ) is None ==> b) && exists|now: (i64, u32)| b == should_refresh_at_spec(token_exp@, now),
{
    if expiry_in_range(token_exp) {
        Some(should_refresh_from(token_exp))
    } else {
        None
    }
}

/// Once renewal is due it stays due as time goes on.
pub proof fn lemma_refresh_stays_due(token_exp: Seq<char>, t1: (i64, u32), t2: (i64, u32))
    requires
        should_refresh_at_spec(token_exp, t1),
        t1.0 < t2.0 || (t1.0 == t2.0 && t1.1 <= t2.1),
    ensures
        should_refresh_at_spec(token_exp, t2),
{
}

/// The token held by the API client and its expiry text.
#[derive(Debug, Clone)]
pub struct TokenState {
    pub token: Option<String>,
    pub token_exp: String,
}

/// Whether a held token state needs renewal at `now`.
pub open spec fn state_needs_refresh_at(token: Option<String>, token_exp: Seq<char>, now: (i64, u32)) -> bool {
    token is None || should_refresh_at_spec(token_exp, now)
}

/// Whether the expiry of a held token can be checked: there is no token, or its
/// expiry's renewal instant is in chrono's range.
pub open spec fn state_in_range(token: Option<String>, token_exp: Seq<char>) -> bool {
    token is Some ==> expiry_in_range_spec(token_exp)
}

/// Whether the check after taking the renewal lock can read the current expiry:
/// it reads it only when the state changed meanwhile and holds a token.
pub open spec fn renewal_check_in_range(cur: TokenState, prev: TokenState) -> bool {
    ((cur.token_exp@ != prev.token_exp@ || (cur.token is None) != (prev.token is None))
        && cur.token is Some) ==> expiry_in_range_spec(cur.token_exp@)
}

/// Whether a renewal decided on the state `prev` must still go ahead at `now`
/// given the current state `cur`: not when the state changed meanwhile and now
/// holds a token that is not due.
pub open spec fn renewal_still_needed_spec(cur: TokenState, prev: TokenState, now: (i64, u32)) -> bool {
    !((cur.token_exp@ != prev.token_exp@ || (cur.token is None) != (prev.token is None))
        && cur.token is Some && !should_refresh_at_spec(cur.token_exp@, now))
}

impl TokenState {
    /// No token yet.
    pub fn new() -> (s: TokenState)
        ensures
            s.token is None,
            s.token_exp@ == Seq::<char>::empty(),
    {
        TokenState { token: None, token_exp: String::new() }
    }

    /// Whether this state needs renewal at `now`: when it holds no token or the
    /// token is due.
    pub fn should_refresh_at(&self, now: (i64, u32)) -> (b: bool)
        requires
            state_in_range(self.token, self.token_exp@),
        ensures
            b == state_needs_refresh_at(self.token, self.token_exp@, now),
    {
        if self.token.is_none() {
            return true;
        }
        should_refresh_at(self.token_exp.as_str(), now)
    }

    /// Whether this state needs renewal now.
    pub fn should_refresh(&self) -> (b: bool)
        requires
            state_in_range(self.token, self.token_exp@),
        ensures
            self.token is None ==> b,
            exists|now: (i64, u32)| b == state_needs_refresh_at(self.token, self.token_exp@, now),
    {
        if self.token.is_none() {
            assert(state_needs_refresh_at(self.token, self.token_exp@, (0i64, 0u32)));
            return true;
        }
        let b = should_refresh_from(self.token_exp.as_str());
        proof {
            let now = choose|now: (i64, u32)| b == should_refresh_at_spec(self.token_exp@, now);
            assert(b == state_needs_refresh_at(self.token, self.token_exp@, now));
        }
        b
    }

    /// `should_refresh`, or `None` when the held token's expiry is out of
    /// chrono's range.
    pub fn checked_should_refresh(&self) -> (r: Option<bool>)
        ensures
            r is None <==> !state_in_range(self.token, self.token_exp@),
            r matches Some(b) ==> (self.token is None ==> b) && exists|now: (i64, u32)|
                b == state_needs_refresh_at(self.token, self.token_exp@, now),
    {
        if self.token.is_some() && !expiry_in_range(self.token_exp.as_str()) {
            None
        } else {
            Some(self.should_refresh())
        }
    }

    /// Whether a renewal must still go ahead once the renewal lock is held. `prev` is
    /// the state read when the renewal was decided; no second fetch is made when
    /// another task has since stored a token that is not due.
    pub fn refresh_still_needed_at(&self, prev: &TokenState, now: (i64, u32)) -> (b: bool)
        requires
            renewal_check_in_range(*self, *prev),
        ensures
            b == renewal_still_needed_spec(*self, *prev, now),
    {
        let changed = !crate::json::str_eq(self.token_exp.as_str(), prev.token_exp.as_str())
            || self.token.is_none() != prev.token.is_none();
        !(changed && self.token.is_some() && !should_refresh_at(self.token_exp.as_str(), now))
    }

    /// Whether a renewal must still go ahead now, once the renewal lock is held.
    pub fn refresh_still_needed(&self, prev: &TokenState) -> (b: bool)
        requires
            renewal_check_in_range(*self, *prev),
        ensures
            exists|now: (i64, u32)| b == renewal_still_needed_spec(*self, *prev, now),
    {
        let now = utc_now();
        self.refresh_still_needed_at(prev, now)
    }

    /// `refresh_still_needed`, or `None` when the check would read an expiry out of
    /// chrono's range.
    pub fn checked_refresh_still_needed(&self, prev: &TokenState) -> (r: Option<bool>)
        ensures
            r is None <==> !renewal_check_in_range(*self, *prev),
            r matches Some(b) ==> exists|now: (i64, u32)| b == renewal_still_needed_spec(
                *self,
                *prev,
                now,
            ),
    {
        let changed = !crate::json::str_eq(self.token_exp.as_str(), prev.token_exp.as_str())
            || self.token.is_none() != prev.token.is_none();
        if changed && self.token.is_some() && !expiry_in_range(self.token_exp.as_str()) {
            None
        } else {
            Some(self.refresh_still_needed(prev))
        }
    }

    /// Stores a freshly fetched token and its expiry.
    pub fn store(&mut self, resp: AccessTokenResponse)
        ensures
            final(self).token == Some(resp.token),
            final(self).token_exp == resp.expires_dt,
    {
        self.token = Some(resp.token);
        self.token_exp = resp.expires_dt;
    }

    /// The held token, or a decode error when there is none.
    pub fn current_token(&self) -> (r: Result<String, KiwoomError>)
        ensures
            match self.token {
                Some(t) => r == Ok::<String, KiwoomError>(t),
                None => r matches Err(KiwoomError::Decode { raw }) && raw@ == missing_token_text(),
            },
    {
        proof {
            reveal_strlit("access token missing after ensure_token");
            assert("access token missing after ensure_token"@ =~= missing_token_text());
        }
        match &self.token {
            Some(t) => Ok(t.clone()),
            None => Err(KiwoomError::Decode { raw: "access token missing after ensure_token".to_owned() }),
        }
    }
}

pub open spec fn missing_token_text() -> Seq<char> {
    seq![
        'a', 'c', 'c', 'e', 's', 's', ' ', 't', 'o', 'k', 'e', 'n', ' ', 'm', 'i', 's', 's', 'i',
        'n', 'g', ' ', 'a', 'f', 't', 'e', 'r', ' ', 'e', 'n', 's', 'u', 'r', 'e', '_', 't', 'o',
        'k', 'e', 'n',
    ]
}

} // verus!
