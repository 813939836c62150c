//! The decisions of the notification service: which server to reach, what
//! to ask it, which alerts to run, and when to announce a server outage, a
//! new day or an hourly summary.

use vstd::prelude::*;
use vstd::string::StringExecFns;
use crate::alert::Notice;
use crate::clock::new_day_message;
use crate::clock::new_day_text;
use crate::clock::seconds_until_next_day_start;
use crate::clock::day_floor;
use crate::clock::service_day;
use crate::clock::valid_day;
use crate::clock::valid_timestamp;
use crate::clock::SECS_PER_DAY;
use crate::clock::TIME_OFFSET_SECS;

verus! {

/// The server port of a normal installation.
pub const DEFAULT_PORT: u16 = 5600;

/// The server port of a testing installation.
pub const TESTING_PORT: u16 = 5666;

/// How old the latest activity record may be (in seconds) and still tell
/// whether the user is at the computer.
pub const AFK_STALE_SECS: i64 = 300;

/// The port to reach the server on: the one given, else the testing or the
/// normal default.
pub fn resolve_port(testing: bool, port: Option<u16>) -> (res: u16)
    ensures
        res == (match port {
            Some(p) => p,
            None => if testing { TESTING_PORT } else { DEFAULT_PORT },
        }),
{
    match port {
        Some(p) => p,
        None => if testing { TESTING_PORT } else { DEFAULT_PORT },
    }
}

/// What was asked on the command line.
pub enum Command {
    /// Run the service.
    Start { testing: bool, port: Option<u16> },
    /// Send one summary of today and stop.
    Checkin { testing: bool },
}

/// What the program does.
#[derive(PartialEq, Eq, Structural)]
pub enum Mode {
    /// Run the service until stopped.
    Service,
    /// Send one summary of today.
    Checkin,
}

/// The mode and the server port for a command line: a missing command runs
/// the service with the top-level options; a summary always uses the
/// default port of its installation.
pub fn plan(command: Option<Command>, testing: bool, port: Option<u16>) -> (res: (Mode, u16))
    ensures
        res == (match command {
            Some(Command::Start { testing: t, port: p }) => (Mode::Service, (match p {
                Some(q) => q,
                None => if t { TESTING_PORT } else { DEFAULT_PORT },
            })),
            Some(Command::Checkin { testing: t }) => (Mode::Checkin, if t { TESTING_PORT } else { DEFAULT_PORT }),
            None => (Mode::Service, (match port {
                Some(q) => q,
                None => if testing { TESTING_PORT } else { DEFAULT_PORT },
            })),
        }),
{
    match command {
        Some(Command::Start { testing: t, port: p }) => (Mode::Service, resolve_port(t, p)),
        Some(Command::Checkin { testing: t }) => (Mode::Checkin, resolve_port(t, None)),
        None => (Mode::Service, resolve_port(testing, port)),
    }
}

/// The name of the window-activity record set of a host.
pub open spec fn window_bucket_text(hostname: Seq<char>) -> Seq<char> {
    "aw-watcher-window_"@ + hostname
}

/// The name of the at-the-computer record set of a host.
pub open spec fn afk_bucket_text(hostname: Seq<char>) -> Seq<char> {
    "aw-watcher-afk_"@ + hostname
}

/// The name of the window-activity record set of `hostname`.
pub fn window_bucket(hostname: &str) -> (res: String)
    ensures
        res@ == window_bucket_text(hostname@),
{
    let mut res = String::from_str("aw-watcher-window_");
    res.append(hostname);
    res
}

/// The name of the at-the-computer record set of `hostname`.
pub fn afk_bucket(hostname: &str) -> (res: String)
    ensures
        res@ == afk_bucket_text(hostname@),
{
    let mut res = String::from_str("aw-watcher-afk_");
    res.append(hostname);
    res
}

/// The server query for the time per category of a host: window activity
/// while the user is at the computer, all under one category, with the
/// total duration.
pub open spec fn query_text(hostname: Seq<char>) -> Seq<char> {
    "\n            window_events = flood(query_bucket(\""@
        + window_bucket_text(hostname)
        + "\"));\n            afk_events = flood(query_bucket(\""@
        + afk_bucket_text(hostname)
        + "\"));\n            events = filter_period_intersect(window_events, filter_keyvals(afk_events, \"status\", [\"not-afk\"]));\n            events = categorize(events, [[[\"Work\"], {\"type\": \"regex\", \"regex\": \".*\"}]]);\n            events = merge_events_by_keys(events, [\"$category\"]);\n            events = sort_by_duration(events);\n            duration = sum_durations(events);\n            cat_events = events;\n            RETURN = {\"events\": events, \"duration\": duration, \"cat_events\": cat_events};\n            "@
}

/// The server query for the time per category of `hostname`.
pub fn build_query(hostname: &str) -> (res: String)
    ensures
        res@ == query_text(hostname@),
{
    let mut res = String::from_str("\n            window_events = flood(query_bucket(\"");
    let window = window_bucket(hostname);
    res.append(window.as_str());
    res.append("\"));\n            afk_events = flood(query_bucket(\"");
    let afk = afk_bucket(hostname);
    res.append(afk.as_str());
    res.append("\"));\n            events = filter_period_intersect(window_events, filter_keyvals(afk_events, \"status\", [\"not-afk\"]));\n            events = categorize(events, [[[\"Work\"], {\"type\": \"regex\", \"regex\": \".*\"}]]);\n            events = merge_events_by_keys(events, [\"$category\"]);\n            events = sort_by_duration(events);\n            duration = sum_durations(events);\n            cat_events = events;\n            RETURN = {\"events\": events, \"duration\": duration, \"cat_events\": cat_events};\n            ");
    res
}

/// The latest at-the-computer record: when it began, how long it lasted
/// (whole seconds) and the status it records, if any.
pub struct AfkEvent {
    pub start: i64,
    pub duration: i64,
    pub status: Option<String>,
}

/// Whether the user is at the computer, judged from the latest record at
/// `now`: unknown without a record, with a record that ended more than five
/// minutes ago, or with one without a status; otherwise whether its status
/// is "not-afk".
pub fn active_status(latest: Option<&AfkEvent>, now: i64) -> (res: Option<bool>)
    requires
        valid_timestamp(now - AFK_STALE_SECS),
        latest matches Some(e) ==> valid_timestamp(e.start + e.duration),
    ensures
        res == (match latest {
            None => None,
            Some(e) => if e.start + e.duration < now - AFK_STALE_SECS {
                None
            } else {
                match e.status {
                    Some(s) => Some(s@ == "not-afk"@),
                    None => None,
                }
            },
        }),
{
    match latest {
        None => None,
        Some(e) => {
            if e.start + e.duration < now - AFK_STALE_SECS {
                None
            } else {
                match &e.status {
                    Some(s) => {
                        let active = String::from_str("not-afk");
                        Some(*s == active)
                    },
                    None => None,
                }
            }
        },
    }
}

/// Whether the hourly summary is sent: only when the user is known to be
/// at the computer.
pub fn hourly_checkin_due(active: Option<bool>) -> (due: bool)
    ensures
        due == (active == Some(true)),
{
    match active {
        Some(a) => a,
        None => false,
    }
}

/// Watches whether the server answers, announcing each change.
pub struct ServerMonitor {
    /// Whether the server answered at the last look.
    pub available: bool,
}

/// The notice announcing that the server became `available` (or not).
pub open spec fn server_notice_texts(available: bool) -> (Seq<char>, Seq<char>) {
    if available {
        ("Server Available"@, "ActivityWatch server is back online."@)
    } else {
        ("Server Unavailable"@, "ActivityWatch server is down. Data may not be saved!"@)
    }
}

impl ServerMonitor {
    /// A monitor that takes the server as available.
    pub fn new() -> (res: Self)
        ensures
            res.available,
    {
        ServerMonitor { available: true }
    }

    /// Takes in whether the server answered now; a change is announced.
    pub fn observe(&mut self, current: bool) -> (res: Option<Notice>)
        ensures
            final(self).available == current,
            res is Some <==> current != old(self).available,
            res matches Some(n) ==> (n.title@, n.message@) == server_notice_texts(current),
    {
        if current == self.available {
            return None;
        }
        self.available = current;
        if current {
            Some(Notice {
                title: String::from_str("Server Available"),
                message: String::from_str("ActivityWatch server is back online."),
            })
        } else {
            Some(Notice {
                title: String::from_str("Server Unavailable"),
                message: String::from_str("ActivityWatch server is down. Data may not be saved!"),
            })
        }
    }
}

/// What the new-day watch does next.
pub enum NewDayPoll {
    /// A service day began that has not been announced: ask whether the
    /// user is at the computer, then report it with `on_activity`.
    NewDay(i32),
    /// Nothing new: sleep this many seconds, until the next service day
    /// begins.
    Sleep(i64),
}

/// What the watch that last announced `last_day` does at `now`.
pub open spec fn poll_result(last_day: i32, now: int) -> NewDayPoll {
    if (now - TIME_OFFSET_SECS) / 86400 != last_day {
        NewDayPoll::NewDay(((now - TIME_OFFSET_SECS) / 86400) as i32)
    } else {
        NewDayPoll::Sleep((86400 - (now - TIME_OFFSET_SECS) % 86400) as i64)
    }
}

/// Announces each new service day once, when the user is at the computer.
pub struct NewDayWatch {
    /// The last service day announced (or the one the watch began on).
    pub last_day: i32,
}

impl NewDayWatch {
    /// A watch that begins on the service day of `now`.
    pub fn new(now: i64) -> (res: Self)
        requires
            valid_timestamp(now - TIME_OFFSET_SECS),
        ensures
            res.last_day as int == (now - TIME_OFFSET_SECS) / 86400,
    {
        NewDayWatch { last_day: service_day(now) }
    }

    /// What to do at `now`: report a service day other than the last one
    /// announced, else sleep until the next service day begins.
    pub fn poll(&self, now: i64) -> (res: NewDayPoll)
        requires
            valid_timestamp(now - TIME_OFFSET_SECS),
            valid_timestamp(day_floor(now - TIME_OFFSET_SECS) + SECS_PER_DAY + TIME_OFFSET_SECS),
        ensures
            res == poll_result(self.last_day, now as int),
    {
        let current = service_day(now);
        if current != self.last_day {
            NewDayPoll::NewDay(current)
        } else {
            NewDayPoll::Sleep(seconds_until_next_day_start(now))
        }
    }

    /// Takes in whether the user is at the computer on the new service day
    /// `day`: when known to be, the day is announced and remembered;
    /// otherwise nothing changes.
    pub fn on_activity(&mut self, day: i32, active: Option<bool>) -> (res: Option<Notice>)
        requires
            valid_day(day as int),
        ensures
            active == Some(true) ==> final(self).last_day == day,
            active != Some(true) ==> final(self).last_day == old(self).last_day,
            res is Some <==> active == Some(true),
            res matches Some(n) ==> n.title@ == "New day"@ && n.message@ == new_day_text(day),
    {
        if active == Some(true) {
            self.last_day = day;
            Some(Notice { title: String::from_str("New day"), message: new_day_message(day) })
        } else {
            None
        }
    }
}

/// A service day is announced at most once: after `on_activity` has
/// announced `day` (making it the last day), polling at any instant of that
/// service day only sleeps.
pub proof fn law_new_day_announced_once(last_day: i32, now: int)
    requires
        (now - TIME_OFFSET_SECS) / 86400 == last_day,
    ensures
        poll_result(last_day, now) is Sleep,
{
}

/// The watch wakes when the next service day begins: after sleeping what a
/// poll asked for, the next poll reports that day.
pub proof fn law_new_day_noticed_on_waking(last_day: i32, now: int)
    requires
        (now - TIME_OFFSET_SECS) / 86400 == last_day,
        valid_day(last_day + 1),
    ensures
        poll_result(last_day, now) matches NewDayPoll::Sleep(wait)
            && poll_result(last_day, now + wait) == NewDayPoll::NewDay((last_day + 1) as i32),
{
    let t = now - TIME_OFFSET_SECS;
    let wait = 86400 - t % 86400;
    assert(t + wait == 86400 * (t / 86400 + 1));
    vstd::arithmetic::div_mod::lemma_div_multiples_vanish(t / 86400 + 1, 86400);
}

/// A day that was not announced (the user was away or unknown) stays
/// pending: polling again during it reports it again.
pub proof fn law_pending_day_reported_again(last_day: i32, day: i32, now: int)
    requires
        (now - TIME_OFFSET_SECS) / 86400 == day,
        day != last_day,
    ensures
        poll_result(last_day, now) == NewDayPoll::NewDay(day),
{
}

/// The statuses announced by a monitor that starts taking the server as
/// `available` and then sees `seen`, in order.
pub open spec fn announced_statuses(available: bool, seen: Seq<bool>) -> Seq<bool>
    decreases seen.len(),
{
    if seen.len() == 0 {
        Seq::empty()
    } else {
        let rest = announced_statuses(seen[0], seen.drop_first());
        if seen[0] != available { seq![seen[0]] + rest } else { rest }
    }
}

/// Server notices alternate: the first announces a status other than the
/// one the monitor started with (so "Server Unavailable" first for a new
/// monitor), and no two following notices announce the same status.
pub proof fn law_server_notices_alternate(available: bool, seen: Seq<bool>)
    ensures
        announced_statuses(available, seen).len() > 0 ==> announced_statuses(available, seen)[0] != available,
        forall|i: int|
            0 <= i < announced_statuses(available, seen).len() - 1 ==> #[trigger] announced_statuses(available, seen)[i]
                != announced_statuses(available, seen)[i + 1],
    decreases seen.len(),
{
    if seen.len() > 0 {
        let rest = seen.drop_first();
        law_server_notices_alternate(seen[0], rest);
        let r = announced_statuses(seen[0], rest);
        if seen[0] != available {
            let all = seq![seen[0]] + r;
            assert(announced_statuses(available, seen) == all);
            assert forall|i: int| 0 <= i < all.len() - 1 implies #[trigger] all[i] != all[i + 1] by {
                if i == 0 {
                    assert(all[1] == r[0]);
                } else {
                    assert(all[i] == r[i - 1]);
                    assert(all[i + 1] == r[i]);
                }
            }
        }
    }
}

} // verus!
