//! Alerts on the time spent in one category: each alert has thresholds, and
//! crossing one raises a notice, once.

use vstd::prelude::*;
use vstd::string::StringExecFns;
use crate::clock::day_floor;
use crate::clock::midnight;
use crate::clock::system_clock_secs;
use crate::clock::valid_duration;
use crate::clock::valid_timestamp;
use crate::clock::MAX_TIMESTAMP;
use crate::clock::SECS_PER_DAY;
use crate::clock::TIME_OFFSET_SECS;
use crate::text::duration_text;
use crate::text::law_same_minute_shows_alike;
use crate::text::format_duration;
use crate::times::CategoryTimes;

verus! {

/// A desktop notification: its title and its text.
pub struct Notice {
    pub title: String,
    pub message: String,
}

/// An alert on the time spent in one category today. Durations and instants
/// are whole seconds.
pub struct CategoryAlert {
    /// The category whose time is watched.
    pub category: String,
    /// How the category is named in notices.
    pub label: String,
    /// The durations whose crossing raises a notice.
    pub thresholds: Vec<i64>,
    /// The largest threshold already announced (zero before any).
    pub max_triggered: i64,
    /// The time spent in the category, as last fetched.
    pub time_spent: i64,
    /// When the time spent was last fetched.
    pub last_check: i64,
    /// Whether the time is a goal (announced as reached) rather than a limit.
    pub positive: bool,
}

/// The smallest element of `s` (zero for an empty sequence).
pub open spec fn seq_min(s: Seq<i64>) -> int
    decreases s.len(),
{
    if s.len() == 0 {
        0
    } else if s.len() == 1 {
        s[0] as int
    } else {
        let rest = seq_min(s.drop_last());
        if s.last() < rest { s.last() as int } else { rest }
    }
}

/// `seq_min` is an element and a lower bound of a nonempty sequence.
pub proof fn lemma_seq_min(s: Seq<i64>)
    requires
        s.len() > 0,
    ensures
        exists|i: int| 0 <= i < s.len() && s[i] == seq_min(s),
        forall|i: int| 0 <= i < s.len() ==> seq_min(s) <= #[trigger] s[i],
    decreases s.len(),
{
    if s.len() > 1 {
        let r = s.drop_last();
        lemma_seq_min(r);
        assert forall|i: int| 0 <= i < s.len() implies seq_min(s) <= #[trigger] s[i] by {
            if i < s.len() - 1 {
                assert(s[i] == r[i]);
            }
        }
        if s.last() < seq_min(r) {
            assert(s[s.len() - 1] == seq_min(s));
        } else {
            let j = choose|j: int| 0 <= j < r.len() && r[j] == seq_min(r);
            assert(s[j] == seq_min(s));
        }
    } else {
        assert(s[0] == seq_min(s));
    }
}

/// The smallest element of a nonempty list.
fn min_of(v: &Vec<i64>) -> (m: i64)
    requires
        v@.len() > 0,
    ensures
        m == seq_min(v@),
{
    let mut m = v[0];
    let mut i: usize = 1;
    assert(v@.take(1).drop_last().len() == 0);
    assert(seq_min(v@.take(1)) == v@[0]);
    while i < v.len()
        invariant
            1 <= i <= v@.len(),
            m == seq_min(v@.take(i as int)),
        decreases v@.len() - i,
    {
        assert(v@.take(i as int + 1).drop_last() =~= v@.take(i as int));
        assert(v@.take(i as int + 1).last() == v@[i as int]);
        if v[i] < m {
            m = v[i];
        }
        i = i + 1;
    }
    assert(v@.take(v@.len() as int) =~= v@);
    m
}

/// The title of a notice: a goal reached, or time spent.
pub open spec fn notice_title(positive: bool) -> Seq<char> {
    if positive { "Goal reached!"@ } else { "Time spent"@ }
}

/// The text of a notice for crossing `threshold` with `spent` seconds: the
/// label and the threshold, then the time spent in parentheses when it
/// shows differently.
pub open spec fn notice_text(label: Seq<char>, threshold: int, spent: int) -> Seq<char> {
    if duration_text(threshold) == duration_text(spent) {
        label + ": "@ + duration_text(threshold)
    } else {
        label + ": "@ + duration_text(threshold) + "  ("@ + duration_text(spent) + ")"@
    }
}

/// The text of an alert's status, as in "Work: 45m".
pub open spec fn status_text(label: Seq<char>, spent: int) -> Seq<char> {
    label + ": "@ + duration_text(spent)
}

/// `after` is `before` with a different largest announced threshold.
pub open spec fn same_but_max(before: CategoryAlert, after: CategoryAlert) -> bool {
    &&& after.category == before.category
    &&& after.label == before.label
    &&& after.thresholds@ == before.thresholds@
    &&& after.time_spent == before.time_spent
    &&& after.last_check == before.last_check
    &&& after.positive == before.positive
}

impl CategoryAlert {
    /// The thresholds not announced yet, in their order.
    pub open spec fn untriggered(&self) -> Seq<i64> {
        let max = self.max_triggered;
        self.thresholds@.filter(|t: i64| t > max)
    }

    /// Whether threshold `t` is crossed but not announced yet.
    pub open spec fn crossing(&self, t: i64) -> bool {
        self.max_triggered < t <= self.time_spent
    }

    /// Whether some threshold is crossed but not announced yet.
    pub open spec fn crossed(&self) -> bool {
        exists|i: int| 0 <= i < self.thresholds@.len() && self.crossing(#[trigger] self.thresholds@[i])
    }

    /// What a check does: when a threshold is crossed, the largest crossed
    /// one becomes the largest announced one; otherwise nothing changes.
    pub open spec fn check_post(before: CategoryAlert, after: CategoryAlert) -> bool {
        &&& same_but_max(before, after)
        &&& before.crossed() ==> {
            &&& exists|i: int|
                0 <= i < before.thresholds@.len() && #[trigger] before.thresholds@[i] == after.max_triggered
                    && before.crossing(before.thresholds@[i])
            &&& forall|i: int|
                0 <= i < before.thresholds@.len() && before.crossing(#[trigger] before.thresholds@[i])
                    ==> before.thresholds@[i] <= after.max_triggered
        }
        &&& !before.crossed() ==> after.max_triggered == before.max_triggered
    }

    /// What an update keeps: the alert's name, label, thresholds, kind and
    /// largest announced threshold.
    pub open spec fn update_post(before: CategoryAlert, after: CategoryAlert) -> bool {
        &&& after.category == before.category
        &&& after.label == before.label
        &&& after.thresholds@ == before.thresholds@
        &&& after.max_triggered == before.max_triggered
        &&& after.positive == before.positive
    }

    /// One step of an alert's life: a check or an update.
    pub open spec fn alert_step(before: CategoryAlert, after: CategoryAlert) -> bool {
        CategoryAlert::check_post(before, after) || CategoryAlert::update_post(before, after)
    }

    /// Whether `before` to `after` is a check that announced a threshold.
    pub open spec fn announcing_check(before: CategoryAlert, after: CategoryAlert) -> bool {
        CategoryAlert::check_post(before, after) && before.crossed()
    }

    /// How long until the next threshold may be reached, at instant `now`:
    /// the smallest unannounced threshold less the time spent; with every
    /// threshold announced, the time until the next service day begins plus
    /// the smallest threshold (or nothing, with no thresholds).
    pub open spec fn wait_at(&self, now: int) -> int {
        if self.untriggered().len() > 0 {
            seq_min(self.untriggered()) - self.time_spent
        } else {
            day_floor(now) + SECS_PER_DAY + TIME_OFFSET_SECS - now + seq_min(self.thresholds@)
        }
    }

    /// The instants and durations that computing `wait_at(now)` goes
    /// through are representable.
    pub open spec fn wait_defined(&self, now: int) -> bool {
        &&& valid_timestamp(now)
        &&& self.untriggered().len() == 0 ==> valid_timestamp(day_floor(now) + SECS_PER_DAY + TIME_OFFSET_SECS)
        &&& valid_duration(self.wait_at(now))
    }

    /// A new alert on `category`, shown as `label` (or as the category
    /// itself), with nothing announced or spent yet.
    pub fn new(category: &str, thresholds: Vec<i64>, label: Option<&str>, positive: bool) -> (res: Self)
        ensures
            res.category@ == category@,
            res.label@ == (match label { Some(l) => l@, None => category@ }),
            res.thresholds@ == thresholds@,
            res.max_triggered == 0,
            res.time_spent == 0,
            res.last_check == 0,
            res.positive == positive,
    {
        let shown = match label {
            Some(l) => l,
            None => category,
        };
        CategoryAlert {
            category: String::from_str(category),
            label: String::from_str(shown),
            thresholds,
            max_triggered: 0,
            time_spent: 0,
            last_check: 0,
            positive,
        }
    }

    /// The thresholds not announced yet, in their order.
    pub fn thresholds_untriggered(&self) -> (res: Vec<i64>)
        ensures
            res@ == self.untriggered(),
    {
        let max = self.max_triggered;
        let ghost pred = |t: i64| t > max;
        let mut res: Vec<i64> = Vec::new();
        let mut i: usize = 0;
        while i < self.thresholds.len()
            invariant
                0 <= i <= self.thresholds@.len(),
                max == self.max_triggered,
                pred == (|t: i64| t > max),
                res@ == self.thresholds@.take(i as int).filter(pred),
            decreases self.thresholds@.len() - i,
        {
            let ghost prefix = self.thresholds@.take(i as int + 1);
            assert(prefix.drop_last() =~= self.thresholds@.take(i as int));
            assert(prefix.last() == self.thresholds@[i as int]);
            reveal_with_fuel(Seq::<_>::filter, 1);
            if self.thresholds[i] > max {
                res.push(self.thresholds[i]);
            }
            i = i + 1;
        }
        assert(self.thresholds@.take(self.thresholds@.len() as int) =~= self.thresholds@);
        res
    }

    /// `wait_at(now)`, computed without overflow.
    fn wait_wide(&self, now: i64) -> (w: i128)
        requires
            valid_timestamp(now as int),
            self.untriggered().len() == 0 ==> valid_timestamp(
                day_floor(now as int) + SECS_PER_DAY + TIME_OFFSET_SECS,
            ),
        ensures
            w == self.wait_at(now as int),
    {
        let untriggered = self.thresholds_untriggered();
        if untriggered.len() > 0 {
            let m = min_of(&untriggered);
            (m as i128) - (self.time_spent as i128)
        } else {
            let day_end = midnight(now) + SECS_PER_DAY + TIME_OFFSET_SECS;
            let shortest: i64 = if self.thresholds.len() > 0 {
                min_of(&self.thresholds)
            } else {
                0
            };
            (day_end as i128) - (now as i128) + (shortest as i128)
        }
    }

    /// How long until the next threshold may be reached, at instant `now`
    /// (see `wait_at`).
    pub fn time_to_next_threshold_at(&self, now: i64) -> (wait: i64)
        requires
            self.wait_defined(now as int),
        ensures
            wait == self.wait_at(now as int),
    {
        let w = self.wait_wide(now);
        w as i64
    }

    /// How long until the next threshold may be reached (see `wait_at`),
    /// given a reading of the clock (`None` when the clock could not be
    /// read). While some threshold is unannounced the wait does not depend
    /// on the clock: it is the smallest such threshold less the time spent.
    /// With every threshold announced it is the wait at the reading. Nothing
    /// comes back when the wait, or an instant it goes through, cannot be
    /// represented, or when there is no reading to go by.
    pub fn time_to_next_threshold_from(&self, reading: Option<i64>) -> (res: Option<i64>)
        ensures
            self.untriggered().len() > 0 ==> res == (if valid_duration(seq_min(self.untriggered()) - self.time_spent) {
                Some((seq_min(self.untriggered()) - self.time_spent) as i64)
            } else {
                None::<i64>
            }),
            self.untriggered().len() == 0 ==> res == (match reading {
                Some(now) => if self.wait_defined(now as int) {
                    Some(self.wait_at(now as int) as i64)
                } else {
                    None::<i64>
                },
                None => None::<i64>,
            }),
    {
        let untriggered = self.thresholds_untriggered();
        if untriggered.len() > 0 {
            let m = min_of(&untriggered);
            let w = (m as i128) - (self.time_spent as i128);
            if w < -(crate::clock::MAX_DURATION_SECS as i128) || w > crate::clock::MAX_DURATION_SECS as i128 {
                return None;
            }
            return Some(w as i64);
        }
        let now = match reading {
            Some(t) => t,
            None => {
                return None;
            },
        };
        if now < crate::clock::MIN_TIMESTAMP || now > MAX_TIMESTAMP {
            return None;
        }
        let m = midnight(now);
        if m > MAX_TIMESTAMP - SECS_PER_DAY - TIME_OFFSET_SECS {
            return None;
        }
        let w = self.wait_wide(now);
        if w < -(crate::clock::MAX_DURATION_SECS as i128) || w > crate::clock::MAX_DURATION_SECS as i128 {
            return None;
        }
        Some(w as i64)
    }

    /// How long until the next threshold may be reached, going by the
    /// system clock (see `time_to_next_threshold_from`). The clock gives no
    /// reading before 1970 (or beyond what an `i64` holds).
    pub fn time_to_next_threshold(&self) -> (res: Option<i64>)
        ensures
            self.untriggered().len() > 0 ==> res == (if valid_duration(seq_min(self.untriggered()) - self.time_spent) {
                Some((seq_min(self.untriggered()) - self.time_spent) as i64)
            } else {
                None::<i64>
            }),
            self.untriggered().len() == 0 ==> (res matches Some(w) ==> exists|now: int|
                0 <= now <= MAX_TIMESTAMP && self.wait_defined(now) && w == self.wait_at(now)),
    {
        let reading: Option<i64> = if self.thresholds_untriggered().len() > 0 {
            None
        } else {
            match system_clock_secs() {
                Some(secs) => if secs <= i64::MAX as u64 { Some(secs as i64) } else { None },
                None => None,
            }
        };
        self.time_to_next_threshold_from(reading)
    }

    /// Whether `needs_update(now)` can be answered: every instant and
    /// duration it goes through is representable.
    pub fn wait_representable(&self, now: i64) -> (ok: bool)
        ensures
            ok == (self.wait_defined(now as int) && valid_timestamp(self.last_check + self.wait_at(now as int))),
    {
        if now < crate::clock::MIN_TIMESTAMP || now > MAX_TIMESTAMP {
            return false;
        }
        if self.thresholds_untriggered().len() == 0 {
            let m = midnight(now);
            if m > MAX_TIMESTAMP - SECS_PER_DAY - TIME_OFFSET_SECS {
                return false;
            }
        }
        let w = self.wait_wide(now);
        if w < -(crate::clock::MAX_DURATION_SECS as i128) || w > crate::clock::MAX_DURATION_SECS as i128 {
            return false;
        }
        let end = (self.last_check as i128) + w;
        crate::clock::MIN_TIMESTAMP as i128 <= end && end <= MAX_TIMESTAMP as i128
    }

    /// Whether the time spent should be fetched again at `now`: the wait
    /// from the last fetch has passed.
    pub fn needs_update(&self, now: i64) -> (due: bool)
        requires
            self.wait_defined(now as int),
            valid_timestamp(self.last_check + self.wait_at(now as int)),
        ensures
            due == (now > self.last_check + self.wait_at(now as int)),
    {
        let wait = self.time_to_next_threshold_at(now);
        now > self.last_check + wait
    }

    /// Takes in a fetch made at `now`: the category's time when the fetch
    /// succeeded (zero when the category is missing), the old time when it
    /// failed.
    pub fn update(&mut self, fetched: Option<&CategoryTimes>, now: i64)
        ensures
            final(self).time_spent == (match fetched {
                Some(t) => if t@.dom().contains(old(self).category@) { t@[old(self).category@] } else { 0 },
                None => old(self).time_spent,
            }),
            final(self).last_check == now,
            final(self).category == old(self).category,
            final(self).label == old(self).label,
            final(self).thresholds@ == old(self).thresholds@,
            final(self).max_triggered == old(self).max_triggered,
            final(self).positive == old(self).positive,
            CategoryAlert::update_post(*old(self), *final(self)),
    {
        match fetched {
            Some(times) => {
                self.time_spent = match times.get(self.category.as_str()) {
                    Some(s) => s,
                    None => 0,
                };
            },
            None => {},
        }
        self.last_check = now;
    }

    /// Announces the largest crossed threshold, if any: it becomes the
    /// largest announced one, and unless `silent` a notice says so.
    pub fn check(&mut self, silent: bool) -> (res: Option<Notice>)
        ensures
            CategoryAlert::check_post(*old(self), *final(self)),
            res is Some <==> (!silent && old(self).crossed()),
            res matches Some(n) ==> {
                &&& n.title@ == notice_title(old(self).positive)
                &&& n.message@ == notice_text(
                    old(self).label@,
                    final(self).max_triggered as int,
                    old(self).time_spent as int,
                )
            },
    {
        let max = self.max_triggered;
        let spent = self.time_spent;
        let mut best: Option<i64> = None;
        let mut i: usize = 0;
        while i < self.thresholds.len()
            invariant
                0 <= i <= self.thresholds@.len(),
                max == self.max_triggered,
                spent == self.time_spent,
                best is None <==> !(exists|j: int| 0 <= j < i && self.crossing(#[trigger] self.thresholds@[j])),
                best matches Some(b) ==> {
                    &&& exists|j: int| 0 <= j < i && #[trigger] self.thresholds@[j] == b && self.crossing(b)
                    &&& forall|j: int| 0 <= j < i && self.crossing(#[trigger] self.thresholds@[j]) ==> self.thresholds@[j] <= b
                },
            decreases self.thresholds@.len() - i,
        {
            let t = self.thresholds[i];
            if t > max && t <= spent {
                best = match best {
                    Some(b) => if t > b { Some(t) } else { Some(b) },
                    None => Some(t),
                };
            }
            i = i + 1;
        }
        match best {
            Some(b) => {
                self.max_triggered = b;
                if silent {
                    None
                } else {
                    Some(self.notice_for(b))
                }
            },
            None => None,
        }
    }

    /// The notice for crossing `threshold`.
    fn notice_for(&self, threshold: i64) -> (n: Notice)
        ensures
            n.title@ == notice_title(self.positive),
            n.message@ == notice_text(self.label@, threshold as int, self.time_spent as int),
    {
        let title = if self.positive {
            String::from_str("Goal reached!")
        } else {
            String::from_str("Time spent")
        };
        let threshold_text = format_duration(threshold);
        let spent_text = format_duration(self.time_spent);
        let mut message = self.label.clone();
        message.append(": ");
        message.append(threshold_text.as_str());
        if threshold_text != spent_text {
            message.append("  (");
            message.append(spent_text.as_str());
            message.append(")");
        }
        Notice { title, message }
    }

    /// The alert's status, as in "Work: 45m".
    pub fn status(&self) -> (res: String)
        ensures
            res@ == status_text(self.label@, self.time_spent as int),
    {
        let mut res = self.label.clone();
        res.append(": ");
        let spent = format_duration(self.time_spent);
        res.append(spent.as_str());
        res
    }
}

/// `a` is a new alert on `category` shown as `label`, with `thresholds`.
pub open spec fn fresh_alert(
    a: CategoryAlert,
    category: Seq<char>,
    label: Seq<char>,
    thresholds: Seq<i64>,
    positive: bool,
) -> bool {
    &&& a.category@ == category
    &&& a.label@ == label
    &&& a.thresholds@ == thresholds
    &&& a.max_triggered == 0
    &&& a.time_spent == 0
    &&& a.last_check == 0
    &&& a.positive == positive
}

/// The alerts the service runs: all activity at 1, 2, 4, 6 and 8 hours;
/// Twitter and YouTube at 15 and 30 minutes and 1 hour; Work, as a goal, at
/// 15 and 30 minutes and 1, 2 and 4 hours.
pub fn default_alerts() -> (res: Vec<CategoryAlert>)
    ensures
        res@.len() == 4,
        fresh_alert(res@[0], "All"@, "All"@, seq![3600, 7200, 14400, 21600, 28800], false),
        fresh_alert(res@[1], "Twitter"@, "\u{1f426} Twitter"@, seq![900, 1800, 3600], false),
        fresh_alert(res@[2], "Youtube"@, "\u{1f4fa} Youtube"@, seq![900, 1800, 3600], false),
        fresh_alert(res@[3], "Work"@, "\u{1f4bc} Work"@, seq![900, 1800, 3600, 7200, 14400], true),
{
    let mut res: Vec<CategoryAlert> = Vec::new();
    let mut all: Vec<i64> = Vec::new();
    all.push(3600);
    all.push(7200);
    all.push(14400);
    all.push(21600);
    all.push(28800);
    assert(all@ =~= seq![3600i64, 7200, 14400, 21600, 28800]);
    res.push(CategoryAlert::new("All", all, Some("All"), false));
    let mut twitter: Vec<i64> = Vec::new();
    twitter.push(900);
    twitter.push(1800);
    twitter.push(3600);
    assert(twitter@ =~= seq![900i64, 1800, 3600]);
    res.push(CategoryAlert::new("Twitter", twitter, Some("\u{1f426} Twitter"), false));
    let mut youtube: Vec<i64> = Vec::new();
    youtube.push(900);
    youtube.push(1800);
    youtube.push(3600);
    assert(youtube@ =~= seq![900i64, 1800, 3600]);
    res.push(CategoryAlert::new("Youtube", youtube, Some("\u{1f4fa} Youtube"), false));
    let mut work: Vec<i64> = Vec::new();
    work.push(900);
    work.push(1800);
    work.push(3600);
    work.push(7200);
    work.push(14400);
    assert(work@ =~= seq![900i64, 1800, 3600, 7200, 14400]);
    res.push(CategoryAlert::new("Work", work, Some("\u{1f4bc} Work"), true));
    res
}

/// Filtering by a weaker condition keeps at least as many elements.
proof fn lemma_filter_len_weaker(s: Seq<i64>, p: spec_fn(i64) -> bool, q: spec_fn(i64) -> bool)
    requires
        forall|t: i64| #[trigger] p(t) ==> q(t),
    ensures
        s.filter(p).len() <= s.filter(q).len(),
    decreases s.len(),
{
    reveal_with_fuel(Seq::<_>::filter, 1);
    if s.len() > 0 {
        lemma_filter_len_weaker(s.drop_last(), p, q);
    }
}

/// A notice names the label and the threshold, and repeats the time spent
/// in parentheses exactly when it shows differently from the threshold: the
/// text is "label: threshold" when the two show alike, and
/// "label: threshold  (spent)" otherwise.
pub proof fn law_notice_repeats_spent_only_when_shown_differently(
    label: Seq<char>,
    threshold: int,
    spent: int,
)
    ensures
        duration_text(threshold) == duration_text(spent) ==> notice_text(label, threshold, spent)
            == label + ": "@ + duration_text(threshold),
        duration_text(threshold) != duration_text(spent) ==> notice_text(label, threshold, spent)
            == label + ": "@ + duration_text(threshold) + "  ("@ + duration_text(spent) + ")"@,
        (notice_text(label, threshold, spent) == label + ": "@ + duration_text(threshold))
            <==> duration_text(threshold) == duration_text(spent),
{
    let short = label + ": "@ + duration_text(threshold);
    if duration_text(threshold) != duration_text(spent) {
        let long = short + "  ("@ + duration_text(spent) + ")"@;
        assert(long.len() > short.len()) by {
            reveal_strlit(")");
        }
    }
}

/// A threshold and a time spent of a minute or more within the same whole
/// minute give a notice without the time spent: crossing 30m with 30m 30s
/// spent reads "label: 30m".
pub proof fn law_notice_same_minute_plain(label: Seq<char>, threshold: int, spent: int)
    requires
        threshold >= 60,
        spent >= 60,
        threshold - threshold % 60 == spent - spent % 60,
    ensures
        notice_text(label, threshold, spent) == label + ": "@ + duration_text(threshold),
{
    law_same_minute_shows_alike(threshold, spent);
}

/// Announced thresholds are never announced again, and they come in
/// increasing order: a check never lowers the largest announced threshold,
/// and when it announces one, that threshold is above every one announced
/// before.
pub proof fn law_announcements_increase(before: CategoryAlert, after: CategoryAlert)
    requires
        CategoryAlert::check_post(before, after),
    ensures
        after.max_triggered >= before.max_triggered,
        before.crossed() ==> after.max_triggered > before.max_triggered,
{
}

/// A check leaves no threshold crossed but unannounced, so checking again
/// with the same time spent announces nothing and changes nothing.
pub proof fn law_check_settles(before: CategoryAlert, after: CategoryAlert, again: CategoryAlert)
    requires
        CategoryAlert::check_post(before, after),
        CategoryAlert::check_post(after, again),
    ensures
        !after.crossed(),
        again.max_triggered == after.max_triggered,
{
    if after.crossed() {
        let i = choose|i: int| 0 <= i < after.thresholds@.len() && after.crossing(#[trigger] after.thresholds@[i]);
        assert(before.thresholds@[i] == after.thresholds@[i]);
        assert(before.crossing(before.thresholds@[i]));
        assert(before.crossed());
    }
}

/// Announcing more thresholds leaves fewer unannounced: the unannounced
/// thresholds of a later state are among those of an earlier one.
pub proof fn law_untriggered_shrinks(earlier: CategoryAlert, later: CategoryAlert)
    requires
        later.thresholds@ == earlier.thresholds@,
        earlier.max_triggered <= later.max_triggered,
    ensures
        later.untriggered().len() <= earlier.untriggered().len(),
        forall|t: i64| later.untriggered().contains(t) ==> earlier.untriggered().contains(t),
{
    let p = |t: i64| t > later.max_triggered;
    let q = |t: i64| t > earlier.max_triggered;
    lemma_filter_len_weaker(earlier.thresholds@, p, q);
    assert forall|t: i64| later.untriggered().contains(t) implies earlier.untriggered().contains(t) by {
        broadcast use vstd::seq_lib::group_filter_ensures;
        assert(later.untriggered() == earlier.thresholds@.filter(p));
        earlier.thresholds@.lemma_filter_contains_rev(p, t);
        let i = choose|i: int| 0 <= i < later.untriggered().len() && later.untriggered()[i] == t;
        assert(p(later.untriggered()[i]));
        let j = choose|j: int| 0 <= j < earlier.thresholds@.len() && earlier.thresholds@[j] == t;
        assert(earlier.untriggered().contains(earlier.thresholds@[j]));
    }
}

/// A reached threshold does not go unannounced: once the time spent is at
/// least an unannounced threshold `t`, the next check announces a threshold
/// of at least `t`.
pub proof fn law_reached_threshold_announced(before: CategoryAlert, after: CategoryAlert, i: int)
    requires
        CategoryAlert::check_post(before, after),
        0 <= i < before.thresholds@.len(),
        before.max_triggered < before.thresholds@[i] <= before.time_spent,
    ensures
        before.crossed(),
        after.max_triggered >= before.thresholds@[i],
{
    assert(before.crossing(before.thresholds@[i]));
}

/// Over any run of checks and updates, the thresholds stay the same and
/// the largest announced threshold never goes down.
pub proof fn law_run_keeps_order(run: Seq<CategoryAlert>)
    requires
        forall|k: int| 0 <= k < run.len() - 1 ==> CategoryAlert::alert_step(#[trigger] run[k], run[k + 1]),
    ensures
        forall|i: int, j: int| 0 <= i <= j < run.len() ==> #[trigger] run[i].max_triggered <= #[trigger] run[j].max_triggered,
        forall|i: int| 0 <= i < run.len() ==> (#[trigger] run[i]).thresholds@ == run[0].thresholds@,
    decreases run.len(),
{
    if run.len() > 1 {
        let init = run.drop_last();
        assert forall|k: int| 0 <= k < init.len() - 1 implies CategoryAlert::alert_step(#[trigger] init[k], init[k + 1]) by {
            assert(init[k] == run[k] && init[k + 1] == run[k + 1]);
            assert(CategoryAlert::alert_step(run[k], run[k + 1]));
        }
        law_run_keeps_order(init);
        let n = run.len() - 1;
        assert(CategoryAlert::alert_step(run[n - 1], run[n]));
        assert forall|i: int, j: int| 0 <= i <= j < run.len() implies #[trigger] run[i].max_triggered
            <= #[trigger] run[j].max_triggered by {
            if j == n {
                if i < n {
                    assert(init[i].max_triggered <= init[n - 1].max_triggered);
                }
            } else {
                assert(init[i].max_triggered <= init[j].max_triggered);
            }
        }
        assert forall|i: int| 0 <= i < run.len() implies (#[trigger] run[i]).thresholds@ == run[0].thresholds@ by {
            if i < n {
                assert(init[i] == run[i]);
            } else {
                assert(init[n - 1] == run[n - 1]);
            }
        }
    }
}

/// Over any run of checks and updates, each threshold is announced at most
/// once and announcements come in increasing order: a later announcement
/// names a larger threshold than an earlier one.
pub proof fn law_run_announces_increasing(run: Seq<CategoryAlert>, k: int, l: int)
    requires
        forall|i: int| 0 <= i < run.len() - 1 ==> CategoryAlert::alert_step(#[trigger] run[i], run[i + 1]),
        0 <= k < l < run.len() - 1,
        CategoryAlert::announcing_check(run[k], run[k + 1]),
        CategoryAlert::announcing_check(run[l], run[l + 1]),
    ensures
        run[k + 1].max_triggered < run[l + 1].max_triggered,
{
    law_run_keeps_order(run);
    assert(run[k + 1].max_triggered <= run[l].max_triggered);
}

/// Thresholds already reached when an alert starts are never announced:
/// after a first (silent) check at time spent `run[0].time_spent`, every
/// later announcement names a threshold above that time.
pub proof fn law_run_skips_reached_at_start(run: Seq<CategoryAlert>, k: int)
    requires
        forall|i: int| 0 <= i < run.len() - 1 ==> CategoryAlert::alert_step(#[trigger] run[i], run[i + 1]),
        run.len() >= 2,
        CategoryAlert::check_post(run[0], run[1]),
        1 <= k < run.len() - 1,
        CategoryAlert::announcing_check(run[k], run[k + 1]),
    ensures
        run[k + 1].max_triggered > run[0].time_spent,
{
    law_run_keeps_order(run);
    let t = run[k + 1].max_triggered;
    let i = choose|i: int|
        0 <= i < run[k].thresholds@.len() && #[trigger] run[k].thresholds@[i] == t && run[k].crossing(run[k].thresholds@[i]);
    assert(run[k].thresholds@ == run[0].thresholds@);
    assert(run[1].max_triggered <= run[k].max_triggered);
    assert(run[0].max_triggered <= run[1].max_triggered);
    if t <= run[0].time_spent {
        assert(run[0].crossing(run[0].thresholds@[i]));
        assert(run[0].crossed());
        assert(run[0].thresholds@[i] <= run[1].max_triggered);
    }
}

} // verus!
