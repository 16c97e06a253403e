//! Session and login-attempt bookkeeping. Times are milliseconds on a
//! monotonic clock read by the caller.

use vstd::prelude::*;

use crate::text::chars_of;

verus! {

/// One active session.
#[derive(Clone, Copy, Debug, PartialEq, Eq, Structural)]
pub struct SessionEntry {
    pub expires_at: u64,
}

/// Failed login attempts from one client.
#[derive(Clone, Copy, Debug, PartialEq, Eq, Structural)]
pub struct LoginAttempt {
    pub window_start: u64,
    pub failures: u32,
    pub locked_until: Option<u64>,
}

/// The rate-limiting policy for logins; `max_attempts == 0` disables it.
#[derive(Clone, Copy, Debug)]
pub struct LoginPolicy {
    pub window_ms: u64,
    pub max_attempts: u32,
    pub lockout_ms: u64,
}

/// Whether a session is still valid at `now`.
pub fn session_is_live(entry: &SessionEntry, now: u64) -> (r: bool)
    ensures
        r == (entry.expires_at > now),
{
    entry.expires_at > now
}

/// The time elapsed from `from` to `now`, zero if `from` is later.
pub open spec fn elapsed(from: u64, now: u64) -> int {
    if now >= from {
        now - from
    } else {
        0
    }
}

/// `now + d`, capped at the largest time.
pub open spec fn later(now: u64, d: u64) -> u64 {
    if now + d <= u64::MAX {
        (now + d) as u64
    } else {
        u64::MAX
    }
}

/// A fresh record for a client first seen at `now`.
pub open spec fn fresh_attempt(now: u64) -> LoginAttempt {
    LoginAttempt { window_start: now, failures: 0, locked_until: None }
}

/// Whether the record of a client is worth keeping at `now`: it is locked
/// out, or its window is still open.
pub open spec fn attempt_retained_spec(a: LoginAttempt, now: u64, window_ms: u64) -> bool {
    match a.locked_until {
        Some(until) => until > now,
        None => elapsed(a.window_start, now) <= window_ms,
    }
}

/// Whether the record of a client is worth keeping at `now`.
pub fn attempt_retained(a: &LoginAttempt, now: u64, window_ms: u64) -> (r: bool)
    ensures
        r == attempt_retained_spec(*a, now, window_ms),
{
    match a.locked_until {
        Some(until) => until > now,
        None => {
            let e = if now >= a.window_start {
                now - a.window_start
            } else {
                0
            };
            e <= window_ms
        },
    }
}

/// Decides whether a client may try to log in at `now`. Gives back the
/// client's updated record and, when it is locked out, the seconds left.
pub fn check_login_rate_limit(entry: Option<LoginAttempt>, now: u64, policy: &LoginPolicy) -> (r: (
    Option<LoginAttempt>,
    Option<u64>,
))
    ensures
        policy.max_attempts == 0 ==> r == (entry, None::<u64>),
        policy.max_attempts > 0 ==> {
            let a = match entry {
                Some(a) => a,
                None => fresh_attempt(now),
            };
            match a.locked_until {
                Some(until) if now < until => r == (Some(a), Some(((until - now) / 1000) as u64)),
                Some(_) => r == (Some(fresh_attempt(now)), None::<u64>),
                None => r == (
                    Some(
                        if elapsed(a.window_start, now) > policy.window_ms {
                            fresh_attempt(now)
                        } else {
                            a
                        },
                    ),
                    None::<u64>,
                ),
            }
        },
{
    if policy.max_attempts == 0 {
        return (entry, None);
    }
    let mut a = match entry {
        Some(a) => a,
        None => LoginAttempt { window_start: now, failures: 0, locked_until: None },
    };
    match a.locked_until {
        Some(until) => {
            if now < until {
                return (Some(a), Some((until - now) / 1000));
            }
            a = LoginAttempt { window_start: now, failures: 0, locked_until: None };
        },
        None => {},
    }
    let e = if now >= a.window_start {
        now - a.window_start
    } else {
        0
    };
    if e > policy.window_ms {
        a = LoginAttempt { window_start: now, failures: 0, locked_until: None };
    }
    (Some(a), None)
}

/// Records a failed login at `now`; the client is locked out for the
/// lockout period once its failures in the window reach the maximum.
pub fn register_login_failure(entry: Option<LoginAttempt>, now: u64, policy: &LoginPolicy) -> (r:
    Option<LoginAttempt>)
    ensures
        policy.max_attempts == 0 ==> r == entry,
        policy.max_attempts > 0 ==> {
            let a0 = match entry {
                Some(a) => a,
                None => fresh_attempt(now),
            };
            let a = if elapsed(a0.window_start, now) > policy.window_ms {
                fresh_attempt(now)
            } else {
                a0
            };
            let failures = if a.failures < u32::MAX {
                (a.failures + 1) as u32
            } else {
                u32::MAX
            };
            r == Some(
                LoginAttempt {
                    window_start: a.window_start,
                    failures,
                    locked_until: if failures >= policy.max_attempts {
                        Some(later(now, policy.lockout_ms))
                    } else {
                        a.locked_until
                    },
                },
            )
        },
{
    if policy.max_attempts == 0 {
        return entry;
    }
    let mut a = match entry {
        Some(a) => a,
        None => LoginAttempt { window_start: now, failures: 0, locked_until: None },
    };
    let e = if now >= a.window_start {
        now - a.window_start
    } else {
        0
    };
    if e > policy.window_ms {
        a = LoginAttempt { window_start: now, failures: 0, locked_until: None };
    }
    let failures = if a.failures < u32::MAX {
        a.failures + 1
    } else {
        u32::MAX
    };
    let locked_until = if failures >= policy.max_attempts {
        Some(
            if policy.lockout_ms <= u64::MAX - now {
                now + policy.lockout_ms
            } else {
                u64::MAX
            },
        )
    } else {
        a.locked_until
    };
    Some(LoginAttempt { window_start: a.window_start, failures, locked_until })
}

/// Whether `s` starts with `prefix`.
pub open spec fn starts_with(s: Seq<char>, prefix: Seq<char>) -> bool {
    s.len() >= prefix.len() && s.take(prefix.len() as int) == prefix
}

fn has_prefix(s: &Vec<char>, prefix: &str) -> (r: bool)
    ensures
        r == starts_with(s@, prefix@),
{
    let p = chars_of(prefix);
    if s.len() < p.len() {
        return false;
    }
    let mut i: usize = 0;
    while i < p.len()
        invariant
            i <= p.len() <= s.len(),
            p@ == prefix@,
            forall|j: int| 0 <= j < i ==> s@[j] == p@[j],
        decreases p.len() - i,
    {
        if s[i] != p[i] {
            assert(s@.take(p.len() as int)[i as int] != p@[i as int]);
            return false;
        }
        i = i + 1;
    }
    assert(s@.take(p.len() as int) =~= p@);
    true
}

/// Whether a request path needs no authentication: the login, logout,
/// status and version endpoints, and everything outside the API and WebDAV.
pub open spec fn auth_exempt_spec(path: Seq<char>) -> bool {
    ||| path == "/api/auth/login"@
    ||| path == "/api/auth/logout"@
    ||| path == "/api/auth/status"@
    ||| path == "/api/version"@
    ||| !starts_with(path, "/api/"@) && !starts_with(path, "/webdav"@)
}

/// Whether a request path needs no authentication.
pub fn is_auth_exempt_path(path: &str) -> (r: bool)
    ensures
        r == auth_exempt_spec(path@),
{
    let p = path.to_owned();
    if p == "/api/auth/login".to_owned() || p == "/api/auth/logout".to_owned() || p
        == "/api/auth/status".to_owned() || p == "/api/version".to_owned() {
        return true;
    }
    let cs = chars_of(path);
    if has_prefix(&cs, "/api/") || has_prefix(&cs, "/webdav") {
        return false;
    }
    true
}

} // verus!
