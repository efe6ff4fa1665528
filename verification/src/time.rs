//! The block about the current time that goes with every answer.

use crate::calendar;
use crate::json;
use crate::json::Json;
use crate::text;
use crate::text::{chars_of, string_of, trim_chars};
use vstd::prelude::*;

verus! {

/// Where the time zone came from.
#[derive(Clone, Copy, Debug, PartialEq, Eq, Structural)]
pub enum TimezoneSource {
    /// The server's own setting.
    Env,
    /// The setting of the system.
    Tz,
    /// Neither: it is UTC.
    Utc,
}

impl TimezoneSource {
    /// The source's name.
    pub open spec fn name(self) -> Seq<char> {
        match self {
            TimezoneSource::Env => "env"@,
            TimezoneSource::Tz => "tz"@,
            TimezoneSource::Utc => "utc"@,
        }
    }

    /// The source's name.
    pub fn as_str(self) -> (r: &'static str)
        ensures
            r@ == self.name(),
    {
        match self {
            TimezoneSource::Env => "env",
            TimezoneSource::Tz => "tz",
            TimezoneSource::Utc => "utc",
        }
    }
}

/// The name is one of the time zone database's.
pub uninterp spec fn zone_known(name: Seq<char>) -> bool;

/// `chrono_tz`'s `Tz` as `FromStr`: whether the database, which is a fixed table
/// of names, has the zone.
#[verifier::external_body]
fn is_zone(name: &str) -> (r: bool)
    ensures
        r == zone_known(name@),
{
    name.parse::<chrono_tz::Tz>().is_ok()
}

/// The last second of the latest year that `chrono` has.
pub const LAST_SECOND: i64 = 8210266876799;

/// The last second of the year 9999.
pub const LAST_SECOND_OF_FOUR_DIGITS: i64 = 253402300799;

/// `chrono`'s `Utc::now`, as Unix seconds. They are not negative and in
/// `chrono`'s range; it panics where the clock is set to no such time.
#[verifier::external_body]
fn utc_seconds() -> (secs: i64)
    ensures
        0 <= secs <= LAST_SECOND,
{
    chrono::Utc::now().timestamp()
}

/// How a time is shown in UTC.
pub open spec fn utc_pattern() -> Seq<char> {
    "%Y-%m-%dT%H:%M:%SZ"@
}

/// How a time is shown in a zone, with the distance from UTC.
pub open spec fn local_pattern() -> Seq<char> {
    "%Y-%m-%dT%H:%M:%S%:z"@
}

/// How a time is shown to people.
pub open spec fn human_pattern() -> Seq<char> {
    "%A, %B %-d, %Y at %-I:%M %p %Z"@
}

/// How `chrono` shows the time after a pattern, in a zone of `chrono_tz`'s
/// database; in UTC where the database has no such zone.
pub uninterp spec fn shown_time(secs: i64, zone: Seq<char>, pattern: Seq<char>) -> Seq<char>;

/// `chrono`'s `DateTime::format`, for Unix seconds in a zone of `chrono_tz`'s
/// database, or in UTC where it has no such zone. The text depends on the three
/// arguments alone. With the pattern for UTC, in the zone `UTC` and up to the
/// year 9999, it is the ISO 8601 form of the moment.
#[verifier::external_body]
fn show_time(secs: i64, zone: &str, pattern: &str) -> (r: String)
    requires
        0 <= secs <= LAST_SECOND,
        pattern@ == utc_pattern() || pattern@ == local_pattern() || pattern@ == human_pattern(),
    ensures
        r@ == shown_time(secs, zone@, pattern@),
        secs <= LAST_SECOND_OF_FOUR_DIGITS && zone@ == "UTC"@ && pattern@ == utc_pattern() ==> r@
            == calendar::iso_text(calendar::the_moment(secs as int)),
{
    let tz: chrono_tz::Tz = zone.parse().unwrap_or(chrono_tz::UTC);
    let time = chrono::DateTime::from_timestamp(secs, 0).unwrap_or_default();
    time.with_timezone(&tz).format(pattern).to_string()
}

/// A time zone and where it came from.
#[derive(Clone, Debug)]
pub struct TimezoneConfig {
    /// The name of the zone, such as `America/New_York`.
    pub name: String,
    pub source: TimezoneSource,
}

/// The zone that a setting names: its text without the space around it, where
/// the database has such a zone.
pub open spec fn zone_of(setting: Option<Seq<char>>) -> Option<Seq<char>> {
    match setting {
        Some(s) => if text::trim(s).len() > 0 && zone_known(text::trim(s)) {
            Some(text::trim(s))
        } else {
            None
        },
        None => None,
    }
}

/// Reads the zone that a setting names.
fn read_zone(setting: Option<&str>) -> (r: Option<String>)
    ensures
        match r {
            Some(z) => zone_of(text::opt_str(setting)) == Some(z@),
            None => zone_of(text::opt_str(setting)) is None,
        },
{
    match setting {
        Some(s) => {
            let chars = chars_of(s);
            let name = trim_chars(chars.as_slice());
            if name.len() == 0 {
                return None;
            }
            let name = string_of(name);
            if is_zone(name.as_str()) {
                Some(name)
            } else {
                None
            }
        },
        None => None,
    }
}

/// The member of a value is the given text.
pub open spec fn has_text(j: Json, name: Seq<char>, value: Seq<char>) -> bool {
    json::text_of(json::member(j, name)) == Some(value)
}

impl TimezoneConfig {
    /// The configuration for what the two settings name.
    pub open spec fn is_chosen(self, own: Option<Seq<char>>, system: Option<Seq<char>>) -> bool {
        match own {
            Some(zone) => self.name@ == zone && self.source == TimezoneSource::Env,
            None => match system {
                Some(zone) => self.name@ == zone && self.source == TimezoneSource::Tz,
                None => self.name@ == "UTC"@ && self.source == TimezoneSource::Utc,
            },
        }
    }

    /// The configuration for the zones that the two settings turned out to name.
    pub fn choose_zone(own: Option<String>, system: Option<String>) -> (r: Self)
        ensures
            r.is_chosen(text::opt_text(own), text::opt_text(system)),
    {
        match own {
            Some(name) => TimezoneConfig { name, source: TimezoneSource::Env },
            None => match system {
                Some(name) => TimezoneConfig { name, source: TimezoneSource::Tz },
                None => TimezoneConfig {
                    name: "UTC".to_owned(),
                    source: TimezoneSource::Utc,
                },
            },
        }
    }

    /// Resolves the time zone: the server's own setting, else that of the
    /// system, else UTC. A setting that is blank or names no zone is passed
    /// over.
    pub fn from_settings(own: Option<&str>, system: Option<&str>) -> (r: Self)
        ensures
            r.is_chosen(zone_of(text::opt_str(own)), zone_of(text::opt_str(system))),
    {
        let first = read_zone(own);
        let second = read_zone(system);
        TimezoneConfig::choose_zone(first, second)
    }

    /// The value is the block for the time, shown in three ways.
    pub open spec fn is_block(
        self,
        j: Json,
        now_unix: i64,
        now_utc: Seq<char>,
        now_local: Seq<char>,
        now_human: Seq<char>,
    ) -> bool {
        &&& j matches Json::Object(members) && members@.len() == 6
        &&& json::int_of(json::member(j, "now_unix"@)) == Some(now_unix)
        &&& has_text(j, "now_utc"@, now_utc)
        &&& has_text(j, "now_local"@, now_local)
        &&& has_text(j, "now_human"@, now_human)
        &&& has_text(j, "timezone"@, self.name@)
        &&& has_text(j, "timezone_source"@, self.source.name())
    }

    /// Builds the block for a time from its three forms.
    pub fn build_block(
        &self,
        now_unix: i64,
        now_utc: String,
        now_local: String,
        now_human: String,
    ) -> (r: Json)
        ensures
            self.is_block(r, now_unix, now_utc@, now_local@, now_human@),
    {
        let mut members: Vec<(String, Json)> = Vec::new();
        members.push(("now_unix".to_owned(), Json::Int(now_unix)));
        members.push(("now_utc".to_owned(), Json::Text(now_utc)));
        members.push(("now_local".to_owned(), Json::Text(now_local)));
        members.push(("now_human".to_owned(), Json::Text(now_human)));
        members.push(("timezone".to_owned(), Json::Text(self.name.as_str().to_owned())));
        members.push(
            ("timezone_source".to_owned(), Json::Text(self.source.as_str().to_owned())),
        );
        proof {
            reveal_strlit("now_unix");
            reveal_strlit("now_utc");
            reveal_strlit("now_local");
            reveal_strlit("now_human");
            reveal_strlit("timezone");
            reveal_strlit("timezone_source");
            assert("now_unix"@.len() == 8 && "now_utc"@.len() == 7 && "now_local"@.len() == 9
                && "now_human"@.len() == 9 && "timezone"@.len() == 8 && "timezone_source"@.len()
                == 15);
            assert("now_local"@[4] == 'l' && "now_human"@[4] == 'h');
            assert("now_unix"@[0] == 'n' && "timezone"@[0] == 't');
            reveal_with_fuel(json::member_from, 7);
        }
        Json::Object(members)
    }

    /// Builds the block for the given Unix seconds.
    pub fn time_block_at(&self, secs: i64) -> (r: Json)
        requires
            0 <= secs <= LAST_SECOND,
        ensures
            self.is_block(
                r,
                secs,
                shown_time(secs, "UTC"@, utc_pattern()),
                shown_time(secs, self.name@, local_pattern()),
                shown_time(secs, self.name@, human_pattern()),
            ),
            secs <= LAST_SECOND_OF_FOUR_DIGITS ==> has_text(
                r,
                "now_utc"@,
                calendar::iso_text(calendar::the_moment(secs as int)),
            ),
    {
        let now_utc = show_time(secs, "UTC", "%Y-%m-%dT%H:%M:%SZ");
        let now_local = show_time(secs, self.name.as_str(), "%Y-%m-%dT%H:%M:%S%:z");
        let now_human = show_time(secs, self.name.as_str(), "%A, %B %-d, %Y at %-I:%M %p %Z");
        self.build_block(secs, now_utc, now_local, now_human)
    }

    /// Builds the block for the current time.
    pub fn time_block(&self) -> (r: Json)
        ensures
            exists|secs: i64|
                0 <= secs <= LAST_SECOND && #[trigger] self.is_block(
                    r,
                    secs,
                    shown_time(secs, "UTC"@, utc_pattern()),
                    shown_time(secs, self.name@, local_pattern()),
                    shown_time(secs, self.name@, human_pattern()),
                ),
    {
        let secs: i64 = utc_seconds();
        self.time_block_at(secs)
    }
}

/// Builds the block for the current time.
pub fn time_block(cfg: &TimezoneConfig) -> (r: Json)
    ensures
        exists|secs: i64|
            0 <= secs <= LAST_SECOND && #[trigger] cfg.is_block(
                r,
                secs,
                shown_time(secs, "UTC"@, utc_pattern()),
                shown_time(secs, cfg.name@, local_pattern()),
                shown_time(secs, cfg.name@, human_pattern()),
            ),
{
    cfg.time_block()
}

/// A resolved zone is one of the database's, or it is UTC: a setting that names
/// no zone is never taken.
pub proof fn law_resolved_zone_is_known(
    cfg: TimezoneConfig,
    own: Option<Seq<char>>,
    system: Option<Seq<char>>,
)
    requires
        cfg.is_chosen(zone_of(own), zone_of(system)),
    ensures
        zone_known(cfg.name@) || (cfg.name@ == "UTC"@ && cfg.source == TimezoneSource::Utc),
        cfg.source == TimezoneSource::Utc <==> zone_of(own) is None && zone_of(system) is None,
{
}

} // verus!
