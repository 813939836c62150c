//! Time spent per category on one day, as the activity server reports it,
//! and the summary of the categories that took a noticeable share of it.

use vstd::prelude::*;
use vstd::string::StringExecFns;
use crate::text::format_duration;
use crate::text::duration_text;
use crate::text::join_words;
use crate::text::join_strings;
use crate::text::views;
use crate::clock::valid_duration;

verus! {

/// The name under which the total time of the day is reported.
pub open spec fn all_key() -> Seq<char> {
    seq!['A', 'l', 'l']
}

/// No two entries share a category name.
pub open spec fn keys_distinct(entries: Seq<(String, i64)>) -> bool {
    forall|i: int, j: int|
        0 <= i < j < entries.len() ==> #[trigger] entries[i].0@ != #[trigger] entries[j].0@
}

/// Seconds spent per category name. Each name occurs at most once.
pub struct CategoryTimes {
    entries: Vec<(String, i64)>,
}

impl CategoryTimes {
    #[verifier::type_invariant]
    spec fn inv(self) -> bool {
        keys_distinct(self.entries@)
    }

    /// The (name, seconds) entries, in the order the names were first added.
    pub closed spec fn pairs(&self) -> Seq<(String, i64)> {
        self.entries@
    }

    /// Whether some entry has the name `key`.
    pub open spec fn has(&self, key: Seq<char>) -> bool {
        exists|i: int| 0 <= i < self.pairs().len() && #[trigger] self.pairs()[i].0@ == key
    }

    /// The position of an entry named `key` (meaningful when there is one).
    pub open spec fn index_of(&self, key: Seq<char>) -> int {
        choose|i: int| 0 <= i < self.pairs().len() && #[trigger] self.pairs()[i].0@ == key
    }

    /// The seconds recorded for every name.
    pub open spec fn view(&self) -> Map<Seq<char>, i64> {
        Map::new(|k: Seq<char>| self.has(k), |k: Seq<char>| self.pairs()[self.index_of(k)].1)
    }

    /// An entry of `pairs` gives the seconds of its name.
    proof fn lemma_pair_in_view(&self, i: int)
        requires
            keys_distinct(self.pairs()),
            0 <= i < self.pairs().len(),
        ensures
            self@.dom().contains(self.pairs()[i].0@),
            self@[self.pairs()[i].0@] == self.pairs()[i].1,
    {
        let k = self.pairs()[i].0@;
        assert(self.has(k));
        let j = choose|j: int| 0 <= j < self.pairs().len() && #[trigger] self.pairs()[j].0@ == k;
        if j != i {
            if j < i {
                assert(self.entries@[j].0@ != self.entries@[i].0@);
            } else {
                assert(self.entries@[i].0@ != self.entries@[j].0@);
            }
        }
    }

    /// No names yet.
    pub fn new() -> (res: Self)
        ensures
            res@ == Map::<Seq<char>, i64>::empty(),
            res.pairs().len() == 0,
    {
        let res = CategoryTimes { entries: Vec::new() };
        assert(res@ =~= Map::<Seq<char>, i64>::empty());
        res
    }

    /// The position of the entry named `key`, if there is one.
    fn find(&self, key: &String) -> (res: Option<usize>)
        ensures
            match res {
                Some(i) => i < self.pairs().len() && self.pairs()[i as int].0@ == key@,
                None => !self.has(key@),
            },
    {
        let mut i: usize = 0;
        while i < self.entries.len()
            invariant
                0 <= i <= self.entries@.len(),
                forall|j: int| 0 <= j < i ==> #[trigger] self.entries@[j].0@ != key@,
            decreases self.entries@.len() - i,
        {
            if self.entries[i].0 == *key {
                return Some(i);
            }
            i = i + 1;
        }
        None
    }

    /// The seconds recorded for `key`, if any.
    pub fn get(&self, key: &str) -> (res: Option<i64>)
        ensures
            res == (if self@.dom().contains(key@) { Some(self@[key@]) } else { None::<i64> }),
    {
        proof {
            use_type_invariant(self);
        }
        let owned = String::from_str(key);
        match self.find(&owned) {
            Some(i) => {
                proof {
                    self.lemma_pair_in_view(i as int);
                }
                Some(self.entries[i].1)
            },
            None => None,
        }
    }

    /// Records `seconds` for `key`, replacing what was recorded for it.
    pub fn insert(&mut self, key: String, seconds: i64)
        ensures
            final(self)@ == old(self)@.insert(key@, seconds),
    {
        proof {
            use_type_invariant(&*self);
        }
        let ghost before = *self;
        let ghost kv = key@;
        let found = self.find(&key);
        let mut entries: Vec<(String, i64)> = Vec::new();
        std::mem::swap(&mut entries, &mut self.entries);
        match found {
            Some(i) => {
                entries.set(i, (key, seconds));
                proof {
                    assert forall|a: int, b: int| 0 <= a < b < entries@.len() implies
                        #[trigger] entries@[a].0@ != #[trigger] entries@[b].0@ by {
                        assert(before.pairs()[a].0@ != before.pairs()[b].0@);
                    }
                }
                self.entries = entries;
                proof {
                    self.lemma_after_replace(before, i as int, kv, seconds);
                }
            },
            None => {
                entries.push((key, seconds));
                proof {
                    assert forall|a: int, b: int| 0 <= a < b < entries@.len() implies
                        #[trigger] entries@[a].0@ != #[trigger] entries@[b].0@ by {
                        if b < before.pairs().len() {
                            assert(before.pairs()[a].0@ != before.pairs()[b].0@);
                        } else {
                            assert(before.pairs()[a].0@ != kv);
                        }
                    }
                }
                self.entries = entries;
                proof {
                    assert(self.pairs().drop_last() =~= before.pairs());
                    self.lemma_after_push(before, kv, seconds);
                }
            },
        }
    }

    proof fn lemma_after_replace(&self, before: Self, i: int, kv: Seq<char>, seconds: i64)
        requires
            keys_distinct(before.pairs()),
            keys_distinct(self.pairs()),
            0 <= i < before.pairs().len(),
            before.pairs()[i].0@ == kv,
            self.pairs() == before.pairs().update(i, (self.pairs()[i].0, seconds)),
            self.pairs()[i].0@ == kv,
        ensures
            self@ == before@.insert(kv, seconds),
    {
        let target = before@.insert(kv, seconds);
        assert forall|k: Seq<char>| #[trigger] self@.dom().contains(k) <==> target.dom().contains(k) by {
            if self.has(k) {
                let j = choose|j: int| 0 <= j < self.pairs().len() && #[trigger] self.pairs()[j].0@ == k;
                if j != i {
                    assert(before.pairs()[j].0@ == k);
                }
            }
            if before.has(k) {
                let j = choose|j: int| 0 <= j < before.pairs().len() && #[trigger] before.pairs()[j].0@ == k;
                if j != i {
                    assert(self.pairs()[j].0@ == k);
                }
            }
            if k == kv {
                assert(self.pairs()[i].0@ == k);
            }
        }
        assert forall|k: Seq<char>| self@.dom().contains(k) implies #[trigger] self@[k] == target[k] by {
            let j = choose|j: int| 0 <= j < self.pairs().len() && #[trigger] self.pairs()[j].0@ == k;
            self.lemma_pair_in_view(j);
            if j != i {
                assert(before.pairs()[j] == self.pairs()[j]);
                before.lemma_pair_in_view(j);
            }
        }
        assert(self@ =~= target);
    }

    proof fn lemma_after_push(&self, before: Self, kv: Seq<char>, seconds: i64)
        requires
            keys_distinct(before.pairs()),
            keys_distinct(self.pairs()),
            !before.has(kv),
            self.pairs().len() == before.pairs().len() + 1,
            self.pairs().drop_last() == before.pairs(),
            self.pairs().last().0@ == kv,
            self.pairs().last().1 == seconds,
        ensures
            self@ == before@.insert(kv, seconds),
    {
        let n = before.pairs().len() as int;
        let target = before@.insert(kv, seconds);
        assert forall|j: int| 0 <= j < n implies #[trigger] self.pairs()[j] == before.pairs()[j] by {
            assert(self.pairs().drop_last()[j] == self.pairs()[j]);
        }
        assert forall|k: Seq<char>| #[trigger] self@.dom().contains(k) <==> target.dom().contains(k) by {
            if self.has(k) {
                let j = choose|j: int| 0 <= j < self.pairs().len() && #[trigger] self.pairs()[j].0@ == k;
                if j != n {
                    assert(before.pairs()[j].0@ == k);
                }
            }
            if before.has(k) {
                let j = choose|j: int| 0 <= j < before.pairs().len() && #[trigger] before.pairs()[j].0@ == k;
                assert(self.pairs()[j].0@ == k);
            }
            if k == kv {
                assert(self.pairs()[n].0@ == k);
            }
        }
        assert forall|k: Seq<char>| self@.dom().contains(k) implies #[trigger] self@[k] == target[k] by {
            let j = choose|j: int| 0 <= j < self.pairs().len() && #[trigger] self.pairs()[j].0@ == k;
            self.lemma_pair_in_view(j);
            if j != n {
                before.lemma_pair_in_view(j);
            }
        }
        assert(self@ =~= target);
    }
}

/// One category total reported by the server; an entry that lacks its
/// category name or its duration is left out.
pub struct CategoryEvent {
    pub category: Option<String>,
    pub seconds: Option<i64>,
}

/// The times recorded from `events`, in order, on top of `base`: a later
/// entry of a name replaces an earlier one.
pub open spec fn record_events(base: Map<Seq<char>, i64>, events: Seq<CategoryEvent>) -> Map<Seq<char>, i64>
    decreases events.len(),
{
    if events.len() == 0 {
        base
    } else {
        let earlier = record_events(base, events.drop_last());
        match (events.last().category, events.last().seconds) {
            (Some(c), Some(s)) => earlier.insert(c@, s),
            _ => earlier,
        }
    }
}

/// The times before any category is recorded: the day's total under "All",
/// when the server reported one.
pub open spec fn total_entry(total: Option<i64>) -> Map<Seq<char>, i64> {
    match total {
        Some(t) => Map::<Seq<char>, i64>::empty().insert(all_key(), t),
        None => Map::<Seq<char>, i64>::empty(),
    }
}

/// Whether a category with `seconds` took more than two percent of a day
/// whose total is `total` seconds (and any time at all).
pub open spec fn is_significant(seconds: int, total: int) -> bool {
    seconds * 100 > total * 2 && seconds > 0
}

/// The day's total in `m` (under "All"), or zero when none was recorded.
pub open spec fn total_in(m: Map<Seq<char>, i64>) -> int {
    if m.dom().contains(all_key()) { m[all_key()] as int } else { 0 }
}

/// Whether category `k` took a noticeable share of the day in `m`.
pub open spec fn noticeable(m: Map<Seq<char>, i64>, k: Seq<char>) -> bool {
    m.dom().contains(k) && is_significant(m[k] as int, total_in(m))
}

/// Ordered from the most time to the least.
pub open spec fn sorted_desc(s: Seq<(Seq<char>, i64)>) -> bool {
    forall|i: int, j: int| 0 <= i < j < s.len() ==> #[trigger] s[i].1 >= #[trigger] s[j].1
}

/// No category name occurs twice.
pub open spec fn names_distinct(s: Seq<(Seq<char>, i64)>) -> bool {
    forall|i: int, j: int| 0 <= i < j < s.len() ==> #[trigger] s[i].0 != #[trigger] s[j].0
}

/// `s` lists every noticeable category of `m` once, with its time, and
/// nothing else.
pub open spec fn lists_noticeable(m: Map<Seq<char>, i64>, s: Seq<(Seq<char>, i64)>) -> bool {
    &&& names_distinct(s)
    &&& forall|i: int| 0 <= i < s.len() ==> noticeable(m, (#[trigger] s[i]).0) && s[i].1 == m[s[i].0]
    &&& forall|k: Seq<char>| #[trigger] noticeable(m, k) ==> exists|i: int| 0 <= i < s.len() && (#[trigger] s[i]).0 == k
}

/// How many categories a summary shows at most.
pub const MAX_SUMMARY_CATEGORIES: usize = 4;

/// How many of `n` candidates a summary shows.
pub open spec fn summary_count(n: int) -> int {
    if n < MAX_SUMMARY_CATEGORIES { n } else { MAX_SUMMARY_CATEGORIES as int }
}

/// Whether `top` lists the noticeable categories of `m`, from the most time
/// to the least, cut after the first four (categories with equal times in
/// any order).
pub open spec fn is_summary_selection(m: Map<Seq<char>, i64>, top: Seq<(Seq<char>, i64)>) -> bool {
    exists|s: Seq<(Seq<char>, i64)>|
        #[trigger] lists_noticeable(m, s) && sorted_desc(s) && top == s.take(summary_count(s.len() as int))
}

/// The (name, seconds) entries with each name taken by its characters.
pub open spec fn entry_views(s: Seq<(String, i64)>) -> Seq<(Seq<char>, i64)> {
    s.map_values(|p: (String, i64)| (p.0@, p.1))
}

/// One line of a summary, as in "- Work: 2h 5m".
pub open spec fn summary_line(entry: (Seq<char>, i64)) -> Seq<char> {
    seq!['-', ' '] + entry.0 + seq![':', ' '] + duration_text(entry.1 as int)
}

/// The lines of a summary of `top`, one per category.
pub open spec fn summary_lines(top: Seq<(Seq<char>, i64)>) -> Seq<Seq<char>> {
    top.map_values(|e: (Seq<char>, i64)| summary_line(e))
}

/// The text of a summary of `top`: its lines separated by line breaks.
pub open spec fn summary_text(top: Seq<(Seq<char>, i64)>) -> Seq<char> {
    join_words(summary_lines(top), seq!['\n'])
}

impl CategoryTimes {
    /// The times the server reported for one day: the total (under "All")
    /// when present, then each complete category entry in order.
    pub fn from_query(total: Option<i64>, events: Vec<CategoryEvent>) -> (res: Self)
        requires
            total matches Some(t) ==> valid_duration(t as int),
            forall|i: int| 0 <= i < events@.len() ==> (#[trigger] events@[i]).category is Some
                && events@[i].seconds is Some ==> valid_duration(events@[i].seconds->0 as int),
        ensures
            res@ == record_events(total_entry(total), events@),
    {
        let mut res = CategoryTimes::new();
        proof {
            reveal_strlit("All");
        }
        match total {
            Some(t) => {
                res.insert(String::from_str("All"), t);
                assert("All"@ =~= all_key());
            },
            None => {},
        }
        assert(res@ =~= total_entry(total));
        let mut i: usize = 0;
        while i < events.len()
            invariant
                0 <= i <= events@.len(),
                res@ == record_events(total_entry(total), events@.take(i as int)),
            decreases events@.len() - i,
        {
            let ghost prefix = events@.take(i as int + 1);
            assert(prefix.drop_last() =~= events@.take(i as int));
            let event = &events[i];
            match (&event.category, event.seconds) {
                (Some(c), Some(s)) => {
                    res.insert(c.clone(), s);
                },
                _ => {},
            }
            i = i + 1;
        }
        assert(events@.take(events@.len() as int) =~= events@);
        res
    }

    /// The categories with more than two percent of the day's total (and any
    /// time at all), from the most time to the least, at most four of them.
    /// The total itself, under "All", is one of the candidates.
    pub fn top_categories(&self) -> (res: Vec<(String, i64)>)
        ensures
            is_summary_selection(self@, entry_views(res@)),
    {
        proof {
            use_type_invariant(self);
            reveal_strlit("All");
        }
        let total: i64 = match self.get("All") {
            Some(t) => t,
            None => 0,
        };
        assert("All"@ =~= all_key());
        assert(total == total_in(self@));
        let mut sorted: Vec<(String, i64)> = Vec::new();
        let mut i: usize = 0;
        let ghost mut src: Seq<int> = Seq::empty();
        proof {
            reveal(drawn_from);
            reveal(covers);
        }
        while i < self.entries.len()
            invariant
                0 <= i <= self.entries@.len(),
                keys_distinct(self.entries@),
                sorted_desc(entry_views(sorted@)),
                names_distinct(entry_views(sorted@)),
                drawn_from(self.entries@, i as int, total as int, entry_views(sorted@), src),
                covers(self.entries@, i as int, total as int, entry_views(sorted@)),
            decreases self.entries@.len() - i,
        {
            let seconds = self.entries[i].1;
            if (seconds as i128) * 100 > (total as i128) * 2 && seconds > 0 {
                let mut p: usize = 0;
                while p < sorted.len() && sorted[p].1 >= seconds
                    invariant
                        0 <= p <= sorted@.len(),
                        forall|j: int| 0 <= j < p ==> #[trigger] sorted@[j].1 >= seconds,
                    decreases sorted@.len() - p,
                {
                    p = p + 1;
                }
                let item = (self.entries[i].0.clone(), seconds);
                let ghost old_sorted = sorted@;
                sorted.insert(p, item);
                proof {
                    let ov = entry_views(old_sorted);
                    let x = (self.entries@[i as int].0@, seconds);
                    lemma_views_insert(old_sorted, p as int, item);
                    lemma_new_name(self.entries@, i as int, total as int, ov, src);
                    lemma_insert_sorted(ov, p as int, x);
                    lemma_insert_distinct(ov, p as int, x);
                    lemma_insert_drawn(self.entries@, i as int, total as int, ov, src, p as int);
                    src = src.insert(p as int, i as int);
                    lemma_insert_covers(self.entries@, i as int, total as int, ov, p as int);
                }
            } else {
                proof {
                    lemma_drawn_grows(self.entries@, i as int, total as int, entry_views(sorted@), src);
                    lemma_skip_covers(self.entries@, i as int, total as int, entry_views(sorted@));
                }
            }
            i = i + 1;
        }
        let ghost full = entry_views(sorted@);
        proof {
            reveal(drawn_from);
            reveal(covers);
            assert forall|a: int| 0 <= a < full.len() implies noticeable(self@, (#[trigger] full[a]).0)
                && full[a].1 == self@[full[a].0] by {
                let j = src[a];
                self.lemma_pair_in_view(j);
            }
            assert forall|k: Seq<char>| #[trigger] noticeable(self@, k) implies exists|a: int|
                0 <= a < full.len() && (#[trigger] full[a]).0 == k by {
                assert(self.has(k));
                let j = self.index_of(k);
                assert(self.pairs()[j].0@ == k);
                assert(self@[k] == self.pairs()[j].1);
                assert(is_significant((self.entries@[j]).1 as int, total as int));
            }
            assert(lists_noticeable(self@, full));
        }
        if sorted.len() > MAX_SUMMARY_CATEGORIES {
            sorted.truncate(MAX_SUMMARY_CATEGORIES);
        }
        assert(entry_views(sorted@) =~= full.take(summary_count(full.len() as int)));
        sorted
    }

    /// The summary of the day: one line per top category (see
    /// `top_categories`), or nothing when no category stands out.
    pub fn summary(&self) -> (res: Option<String>)
        ensures
            exists|top: Seq<(Seq<char>, i64)>|
                #![trigger is_summary_selection(self@, top)]
                is_summary_selection(self@, top) && match res {
                    None => top.len() == 0,
                    Some(m) => top.len() > 0 && m@ == summary_text(top),
                },
    {
        let top = self.top_categories();
        let ghost tv = entry_views(top@);
        if top.len() == 0 {
            assert(tv.len() == 0);
            return None;
        }
        let mut lines: Vec<String> = Vec::new();
        let mut i: usize = 0;
        while i < top.len()
            invariant
                0 <= i <= top@.len(),
                tv == entry_views(top@),
                views(lines@) =~= summary_lines(tv).take(i as int),
            decreases top@.len() - i,
        {
            let line = summary_line_of(&top[i].0, top[i].1);
            assert(line@ == summary_line(tv[i as int]));
            let ghost before = lines@;
            lines.push(line);
            proof {
                assert(views(lines@) =~= views(before).push(line@));
                assert(summary_lines(tv).take(i as int + 1) =~= summary_lines(tv).take(i as int).push(
                    summary_line(tv[i as int]),
                ));
            }
            i = i + 1;
        }
        assert(summary_lines(tv).take(top@.len() as int) =~= summary_lines(tv));
        let sep = "\n";
        proof {
            reveal_strlit("\n");
        }
        assert(sep@ =~= seq!['\n']);
        let text = join_strings(&lines, sep);
        Some(text)
    }
}

/// Every listed entry `v[a]` comes, name and time, from the noticeable
/// entry `entries[src[a]]`, one of the first `n`.
#[verifier::opaque]
spec fn drawn_from(entries: Seq<(String, i64)>, n: int, total: int, v: Seq<(Seq<char>, i64)>, src: Seq<int>) -> bool {
    &&& src.len() == v.len()
    &&& forall|a: int| 0 <= a < v.len() ==> {
        let j = #[trigger] src[a];
        &&& 0 <= j < n
        &&& entries[j].0@ == v[a].0
        &&& entries[j].1 == v[a].1
        &&& is_significant(entries[j].1 as int, total)
    }
}

/// Every noticeable entry among the first `n` of `entries` is listed.
#[verifier::opaque]
spec fn covers(entries: Seq<(String, i64)>, n: int, total: int, v: Seq<(Seq<char>, i64)>) -> bool {
    forall|j: int| 0 <= j < n && is_significant((#[trigger] entries[j]).1 as int, total)
        ==> exists|a: int| 0 <= a < v.len() && (#[trigger] v[a]).0 == entries[j].0@
}

/// Inserting into a list of entries inserts the entry's view.
proof fn lemma_views_insert(s: Seq<(String, i64)>, p: int, x: (String, i64))
    requires
        0 <= p <= s.len(),
    ensures
        entry_views(s.insert(p, x)) == entry_views(s).insert(p, (x.0@, x.1)),
{
    assert(entry_views(s.insert(p, x)) =~= entry_views(s).insert(p, (x.0@, x.1)));
}

/// The elements of `v` with `x` inserted at `p`.
proof fn lemma_insert_at(v: Seq<(Seq<char>, i64)>, p: int, x: (Seq<char>, i64))
    requires
        0 <= p <= v.len(),
    ensures
        v.insert(p, x).len() == v.len() + 1,
        forall|a: int| 0 <= a < p ==> #[trigger] v.insert(p, x)[a] == v[a],
        v.insert(p, x)[p] == x,
        forall|a: int| p < a <= v.len() ==> #[trigger] v.insert(p, x)[a] == v[a - 1],
{
    v.insert_ensures(p, x);
    assert forall|a: int| p < a <= v.len() implies #[trigger] v.insert(p, x)[a] == v[a - 1] by {
        assert(v.insert(p, x)[(a - 1) + 1] == v[a - 1]);
    }
}

/// Placing an entry before the first one with less time keeps a list
/// ordered from the most time to the least.
proof fn lemma_insert_sorted(v: Seq<(Seq<char>, i64)>, p: int, x: (Seq<char>, i64))
    requires
        sorted_desc(v),
        0 <= p <= v.len(),
        forall|j: int| 0 <= j < p ==> #[trigger] v[j].1 >= x.1,
        p < v.len() ==> v[p].1 < x.1,
    ensures
        sorted_desc(v.insert(p, x)),
{
    lemma_insert_at(v, p, x);
    let nv = v.insert(p, x);
    assert forall|a: int, b: int| 0 <= a < b < nv.len() implies #[trigger] nv[a].1 >= #[trigger] nv[b].1 by {
        if b < p {
        } else if b == p {
        } else if a < p {
            if p < v.len() {
                assert(v[p].1 >= v[b - 1].1);
            }
        } else if a == p {
            if b - 1 > p {
                assert(v[p].1 >= v[b - 1].1);
            }
        } else {
            assert(v[a - 1].1 >= v[b - 1].1);
        }
    }
}

/// Inserting an entry whose name is not listed keeps names distinct.
proof fn lemma_insert_distinct(v: Seq<(Seq<char>, i64)>, p: int, x: (Seq<char>, i64))
    requires
        names_distinct(v),
        0 <= p <= v.len(),
        forall|a: int| 0 <= a < v.len() ==> (#[trigger] v[a]).0 != x.0,
    ensures
        names_distinct(v.insert(p, x)),
{
    lemma_insert_at(v, p, x);
    let nv = v.insert(p, x);
    assert forall|a: int, b: int| 0 <= a < b < nv.len() implies #[trigger] nv[a].0 != #[trigger] nv[b].0 by {
        if a == p {
            assert(nv[b] == v[b - 1]);
        } else if b == p {
            assert(nv[a] == v[a]);
        } else {
            let oa = if a < p { a } else { a - 1 };
            let ob = if b < p { b } else { b - 1 };
            assert(nv[a] == v[oa]);
            assert(nv[b] == v[ob]);
            assert(v[oa].0 != v[ob].0);
        }
    }
}

/// A name listed from the first `i` entries differs from entry `i`'s.
proof fn lemma_new_name(entries: Seq<(String, i64)>, i: int, total: int, v: Seq<(Seq<char>, i64)>, src: Seq<int>)
    requires
        0 <= i < entries.len(),
        keys_distinct(entries),
        drawn_from(entries, i, total, v, src),
    ensures
        forall|a: int| 0 <= a < v.len() ==> (#[trigger] v[a]).0 != entries[i].0@,
{
    reveal(drawn_from);
    assert forall|a: int| 0 <= a < v.len() implies (#[trigger] v[a]).0 != entries[i].0@ by {
        let j = src[a];
        assert(entries[j].0@ != entries[i].0@);
    }
}

/// Listing the noticeable entry `i` keeps the list drawn from the entries.
proof fn lemma_insert_drawn(
    entries: Seq<(String, i64)>,
    i: int,
    total: int,
    v: Seq<(Seq<char>, i64)>,
    src: Seq<int>,
    p: int,
)
    requires
        0 <= i < entries.len(),
        is_significant(entries[i].1 as int, total),
        drawn_from(entries, i, total, v, src),
        0 <= p <= v.len(),
    ensures
        drawn_from(entries, i + 1, total, v.insert(p, (entries[i].0@, entries[i].1)), src.insert(p, i)),
{
    reveal(drawn_from);
    let x = (entries[i].0@, entries[i].1);
    lemma_insert_at(v, p, x);
    src.insert_ensures(p, i);
    let nv = v.insert(p, x);
    let ns = src.insert(p, i);
    assert forall|a: int| 0 <= a < nv.len() implies {
        let j = #[trigger] ns[a];
        &&& 0 <= j < i + 1
        &&& entries[j].0@ == nv[a].0
        &&& entries[j].1 == nv[a].1
        &&& is_significant(entries[j].1 as int, total)
    } by {
        if a < p {
            assert(ns[a] == src[a]);
            assert(nv[a] == v[a]);
        } else if a > p {
            assert(ns[(a - 1) + 1] == src[a - 1]);
            assert(nv[a] == v[a - 1]);
        }
    }
}

/// Listing the noticeable entry `i` keeps the list covering the entries.
proof fn lemma_insert_covers(entries: Seq<(String, i64)>, i: int, total: int, v: Seq<(Seq<char>, i64)>, p: int)
    requires
        0 <= i < entries.len(),
        covers(entries, i, total, v),
        0 <= p <= v.len(),
    ensures
        covers(entries, i + 1, total, v.insert(p, (entries[i].0@, entries[i].1))),
{
    reveal(covers);
    let x = (entries[i].0@, entries[i].1);
    lemma_insert_at(v, p, x);
    let nv = v.insert(p, x);
    assert forall|j: int| 0 <= j < i + 1 && is_significant((#[trigger] entries[j]).1 as int, total)
        implies exists|a: int| 0 <= a < nv.len() && (#[trigger] nv[a]).0 == entries[j].0@ by {
        if j == i {
            assert(nv[p].0 == entries[j].0@);
        } else {
            let o = choose|a: int| 0 <= a < v.len() && (#[trigger] v[a]).0 == entries[j].0@;
            let a = if o < p { o } else { o + 1 };
            assert(nv[a] == v[o]);
        }
    }
}

/// A list drawn from the first `i` entries is drawn from the first `i + 1`.
proof fn lemma_drawn_grows(entries: Seq<(String, i64)>, i: int, total: int, v: Seq<(Seq<char>, i64)>, src: Seq<int>)
    requires
        drawn_from(entries, i, total, v, src),
    ensures
        drawn_from(entries, i + 1, total, v, src),
{
    reveal(drawn_from);
}

/// Passing over an entry that is not noticeable keeps the list covering
/// the entries.
proof fn lemma_skip_covers(entries: Seq<(String, i64)>, i: int, total: int, v: Seq<(Seq<char>, i64)>)
    requires
        0 <= i < entries.len(),
        !is_significant(entries[i].1 as int, total),
        covers(entries, i, total, v),
    ensures
        covers(entries, i + 1, total, v),
{
    reveal(covers);
    assert forall|j: int| 0 <= j < i + 1 && is_significant((#[trigger] entries[j]).1 as int, total)
        implies exists|a: int| 0 <= a < v.len() && (#[trigger] v[a]).0 == entries[j].0@ by {
        assert(j < i);
    }
}

/// One summary line for a category and its time.
fn summary_line_of(name: &String, seconds: i64) -> (res: String)
    ensures
        res@ == summary_line((name@, seconds)),
{
    proof {
        reveal_strlit("- ");
        reveal_strlit(": ");
    }
    let mut res = String::new();
    res.append("- ");
    res.append(name.as_str());
    res.append(": ");
    let time = format_duration(seconds);
    res.append(time.as_str());
    assert(res@ =~= summary_line((name@, seconds)));
    res
}

impl Clone for CategoryTimes {
    /// The same entries, in the same order.
    fn clone(&self) -> (res: Self)
        ensures
            res.pairs() == self.pairs(),
    {
        proof {
            use_type_invariant(self);
        }
        let mut entries: Vec<(String, i64)> = Vec::new();
        let mut i: usize = 0;
        while i < self.entries.len()
            invariant
                0 <= i <= self.entries@.len(),
                entries@ == self.entries@.take(i as int),
            decreases self.entries@.len() - i,
        {
            entries.push((self.entries[i].0.clone(), self.entries[i].1));
            assert(self.entries@.take(i as int + 1) =~= self.entries@.take(i as int).push(self.entries@[i as int]));
            i = i + 1;
        }
        assert(self.entries@.take(self.entries@.len() as int) =~= self.entries@);
        CategoryTimes { entries }
    }
}

/// What is recorded for a name is what a later read of that name gives, and
/// recording one name leaves every other name as it was.
pub proof fn law_read_after_record(before: CategoryTimes, after: CategoryTimes, key: Seq<char>, seconds: i64)
    requires
        after@ == before@.insert(key, seconds),
    ensures
        after@.dom().contains(key),
        after@[key] == seconds,
        forall|other: Seq<char>| other != key ==> (#[trigger] after@.dom().contains(other)
            == before@.dom().contains(other)),
        forall|other: Seq<char>| other != key && before@.dom().contains(other) ==> #[trigger] after@[other]
            == before@[other],
{
}

/// A summary lists the noticeable categories from the most time to the
/// least, each once and with its time, at most four: a noticeable category
/// left out means four are listed, each with no less time than it.
pub proof fn law_summary_is_top(m: Map<Seq<char>, i64>, top: Seq<(Seq<char>, i64)>)
    requires
        is_summary_selection(m, top),
    ensures
        top.len() <= MAX_SUMMARY_CATEGORIES,
        sorted_desc(top),
        names_distinct(top),
        forall|i: int| 0 <= i < top.len() ==> noticeable(m, (#[trigger] top[i]).0) && top[i].1 == m[top[i].0],
        forall|k: Seq<char>|
            noticeable(m, k) && !(exists|i: int| 0 <= i < top.len() && (#[trigger] top[i]).0 == k) ==> {
                &&& top.len() == MAX_SUMMARY_CATEGORIES
                &&& forall|i: int| 0 <= i < top.len() ==> m[k] <= (#[trigger] top[i]).1
            },
{
    let s = choose|s: Seq<(Seq<char>, i64)>|
        #[trigger] lists_noticeable(m, s) && sorted_desc(s) && top == s.take(summary_count(s.len() as int));
    let t = top.len() as int;
    assert forall|i: int| 0 <= i < top.len() implies noticeable(m, (#[trigger] top[i]).0) && top[i].1 == m[top[i].0] by {
        assert(top[i] == s[i]);
    }
    assert forall|k: Seq<char>|
        noticeable(m, k) && !(exists|i: int| 0 <= i < top.len() && (#[trigger] top[i]).0 == k) implies {
            &&& top.len() == MAX_SUMMARY_CATEGORIES
            &&& forall|i: int| 0 <= i < top.len() ==> m[k] <= (#[trigger] top[i]).1
        } by {
        let a = choose|a: int| 0 <= a < s.len() && (#[trigger] s[a]).0 == k;
        if a < t {
            assert(top[a] == s[a]);
        }
        assert forall|i: int| 0 <= i < top.len() implies m[k] <= (#[trigger] top[i]).1 by {
            assert(top[i] == s[i]);
            assert(s[i].1 >= s[a].1);
        }
    }
}

/// A day with any time at all has a summary: the total itself is always
/// a noticeable share of the day.
pub proof fn law_total_is_noticeable(m: Map<Seq<char>, i64>, top: Seq<(Seq<char>, i64)>)
    requires
        is_summary_selection(m, top),
        total_in(m) > 0,
    ensures
        top.len() > 0,
{
    let s = choose|s: Seq<(Seq<char>, i64)>|
        #[trigger] lists_noticeable(m, s) && sorted_desc(s) && top == s.take(summary_count(s.len() as int));
    assert(noticeable(m, all_key()));
    let a = choose|a: int| 0 <= a < s.len() && (#[trigger] s[a]).0 == all_key();
}

} // verus!
