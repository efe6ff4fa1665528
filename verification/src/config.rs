//! Configuration values and how they are read.

use crate::text;
use crate::text::{chars_of, eq_ignore_ascii_case, parse_i64, parse_uint};
use vstd::prelude::*;

verus! {

/// How long an access token lives without a setting, in seconds: 30 days.
pub const DEFAULT_ACCESS_TOKEN_TTL_SECS: u64 = 2592000;

/// How long a refresh token lives without a setting, in seconds: 90 days.
pub const DEFAULT_REFRESH_TOKEN_TTL_SECS: u64 = 7776000;

/// A whole number from a setting, or else the default.
pub open spec fn int_or(setting: Option<Seq<char>>, default_value: i64) -> i64 {
    match setting {
        Some(v) => match text::parsed_i64(v) {
            Some(n) => n as i64,
            None => default_value,
        },
        None => default_value,
    }
}

/// A natural number from a setting, or else the default.
pub open spec fn uint_or(setting: Option<Seq<char>>, default_value: u64) -> u64 {
    match setting {
        Some(v) => match text::parsed_uint(v, u64::MAX as nat) {
            Some(n) => n as u64,
            None => default_value,
        },
        None => default_value,
    }
}

/// Reads a whole number from a setting.
pub fn read_int(setting: Option<&str>, default_value: i64) -> (r: i64)
    ensures
        r == int_or(text::opt_str(setting), default_value),
{
    match setting {
        Some(v) => {
            let chars = chars_of(v);
            match parse_i64(chars.as_slice()) {
                Some(n) => n,
                None => default_value,
            }
        },
        None => default_value,
    }
}

/// Reads a natural number from a setting.
pub fn read_uint(setting: Option<&str>, default_value: u64) -> (r: u64)
    ensures
        r == uint_or(text::opt_str(setting), default_value),
{
    match setting {
        Some(v) => {
            let chars = chars_of(v);
            match parse_uint(chars.as_slice(), u64::MAX) {
                Some(n) => n,
                None => default_value,
            }
        },
        None => default_value,
    }
}

/// A size from a setting; the given one where there is no setting or it is no
/// size.
pub open spec fn size_or(setting: Option<Seq<char>>, default_value: usize) -> usize {
    match setting {
        Some(v) => match text::parsed_uint(v, usize::MAX as nat) {
            Some(n) => n as usize,
            None => default_value,
        },
        None => default_value,
    }
}

/// Reads a size.
pub fn read_size(setting: Option<&str>, default_value: usize) -> (r: usize)
    ensures
        r == size_or(text::opt_str(setting), default_value),
{
    match setting {
        Some(v) => {
            let chars = chars_of(v);
            match parse_uint(chars.as_slice(), usize::MAX as u64) {
                Some(n) => n as usize,
                None => default_value,
            }
        },
        None => default_value,
    }
}

/// The lifetime of access tokens in seconds, from its setting.
pub fn access_token_ttl(setting: Option<&str>) -> (r: u64)
    ensures
        r == uint_or(text::opt_str(setting), DEFAULT_ACCESS_TOKEN_TTL_SECS),
{
    read_uint(setting, DEFAULT_ACCESS_TOKEN_TTL_SECS)
}

/// The lifetime of refresh tokens in seconds, from its setting.
pub fn refresh_token_ttl(setting: Option<&str>) -> (r: u64)
    ensures
        r == uint_or(text::opt_str(setting), DEFAULT_REFRESH_TOKEN_TTL_SECS),
{
    read_uint(setting, DEFAULT_REFRESH_TOKEN_TTL_SECS)
}

/// Which database holds the data.
#[derive(Clone, Copy, Debug, PartialEq, Eq, Structural)]
pub enum DbBackendType {
    Sqlite,
    Postgres,
}

impl DbBackendType {
    /// The database that a setting names.
    pub open spec fn named(setting: Option<Seq<char>>) -> DbBackendType {
        match setting {
            Some(v) => if text::eq_ignoring_ascii_case(v, "postgres"@)
                || text::eq_ignoring_ascii_case(v, "postgresql"@) {
                DbBackendType::Postgres
            } else {
                DbBackendType::Sqlite
            },
            None => DbBackendType::Sqlite,
        }
    }

    /// Reads the database setting: `postgres` or `postgresql`, in whatever
    /// case, and SQLite for everything else.
    pub fn from_setting(setting: Option<&str>) -> (r: DbBackendType)
        ensures
            r == DbBackendType::named(text::opt_str(setting)),
    {
        match setting {
            Some(v) => {
                let chars = chars_of(v);
                let short = chars_of("postgres");
                let long = chars_of("postgresql");
                if eq_ignore_ascii_case(chars.as_slice(), short.as_slice())
                    || eq_ignore_ascii_case(chars.as_slice(), long.as_slice()) {
                    DbBackendType::Postgres
                } else {
                    DbBackendType::Sqlite
                }
            },
            None => DbBackendType::Sqlite,
        }
    }
}

} // verus!
