//! Server-wide limits and defaults.

use vstd::prelude::*;

use crate::auth::LoginPolicy;
use crate::upload::UploadConfig;

verus! {

/// Command-line and environment configuration of the server.
#[derive(Clone, Debug)]
pub struct Args {
    pub storage_dir: String,
    pub auth_user: String,
    pub auth_pass: String,
    pub host: String,
    pub http_port: u16,
    pub https_port: u16,
    pub tls_cert: Option<String>,
    pub tls_key: Option<String>,
    pub cors_origins: Option<String>,
    pub session_ttl_secs: u64,
    pub login_max_attempts: u32,
    pub login_window_secs: u64,
    pub login_lockout_secs: u64,
    pub upload_max_size: u64,
    pub upload_max_chunks: u64,
    pub upload_max_concurrent: u64,
    pub upload_temp_ttl_secs: u64,
}

/// `secs` in milliseconds, capped at the largest value.
pub open spec fn millis_spec(secs: u64) -> u64 {
    if secs * 1000 <= u64::MAX {
        (secs * 1000) as u64
    } else {
        u64::MAX
    }
}

/// `secs` in milliseconds, capped at the largest value.
pub fn millis(secs: u64) -> (r: u64)
    ensures
        r == millis_spec(secs),
{
    if secs <= u64::MAX / 1000 {
        secs * 1000
    } else {
        u64::MAX
    }
}

impl Args {
    /// The upload limits that the arguments set.
    pub fn upload_config(&self) -> (r: UploadConfig)
        ensures
            r.max_total_size == self.upload_max_size,
            r.max_chunks == self.upload_max_chunks,
            r.max_concurrent == self.upload_max_concurrent,
            r.temp_ttl_secs == self.upload_temp_ttl_secs,
    {
        UploadConfig {
            max_total_size: self.upload_max_size,
            max_chunks: self.upload_max_chunks,
            max_concurrent: self.upload_max_concurrent,
            temp_ttl_secs: self.upload_temp_ttl_secs,
        }
    }

    /// The login rate-limiting policy that the arguments set.
    pub fn login_policy(&self) -> (r: LoginPolicy)
        ensures
            r.window_ms == millis_spec(self.login_window_secs),
            r.max_attempts == self.login_max_attempts,
            r.lockout_ms == millis_spec(self.login_lockout_secs),
    {
        LoginPolicy {
            window_ms: millis(self.login_window_secs),
            max_attempts: self.login_max_attempts,
            lockout_ms: millis(self.login_lockout_secs),
        }
    }
}

/// Largest number of bytes that one uploaded chunk may hold.
pub const MAX_CHUNK_SIZE: u64 = 16 * 1024 * 1024;

/// Seconds to wait for the per-path lock before answering with a conflict.
pub const DEFAULT_LOCK_WAIT_TIMEOUT_SECS: u64 = 30;

/// Seconds after which a client may retry once too many uploads are open.
pub const UPLOAD_RETRY_AFTER_SECS: u64 = 60;

pub const DEFAULT_AUTH_USER: &'static str = "axo";
pub const DEFAULT_AUTH_PASS: &'static str = "axo";
pub const AUTH_COOKIE_NAME: &'static str = "AXO_SESSION";
pub const DEFAULT_SESSION_TTL_SECS: u64 = 24 * 60 * 60;
pub const DEFAULT_LOGIN_MAX_ATTEMPTS: u32 = 5;
pub const DEFAULT_LOGIN_WINDOW_SECS: u64 = 5 * 60;
pub const DEFAULT_LOGIN_LOCKOUT_SECS: u64 = 10 * 60;
pub const DEFAULT_UPLOAD_MAX_SIZE: u64 = 100 * 1024 * 1024 * 1024;
pub const DEFAULT_UPLOAD_MAX_CHUNKS: u64 = 8192;
pub const DEFAULT_UPLOAD_MAX_CONCURRENT: u64 = 8;
pub const DEFAULT_UPLOAD_TEMP_TTL_SECS: u64 = 24 * 60 * 60;
pub const SESSION_PRUNE_INTERVAL_SECS: u64 = 300;
pub const UPLOAD_CLEAN_INTERVAL_SECS: u64 = 900;

} // verus!
