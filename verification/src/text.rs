//! Building text: decimal numerals, joining words, and the compact
//! duration format used in every notification ("1d 1h", "5m", "30s").

use vstd::prelude::*;
use vstd::string::StringExecFns;

verus! {

/// The decimal digit character for `d` (which should be below ten).
pub open spec fn digit_char(d: nat) -> char {
    if d == 0 { '0' }
    else if d == 1 { '1' }
    else if d == 2 { '2' }
    else if d == 3 { '3' }
    else if d == 4 { '4' }
    else if d == 5 { '5' }
    else if d == 6 { '6' }
    else if d == 7 { '7' }
    else if d == 8 { '8' }
    else { '9' }
}

/// The decimal numeral of `n`, without leading zeros ("0" for zero).
pub open spec fn decimal(n: nat) -> Seq<char>
    decreases n,
{
    if n < 10 {
        seq![digit_char(n)]
    } else {
        decimal(n / 10).push(digit_char(n % 10))
    }
}

/// The one-character string of the digit `d`.
fn digit_str(d: u64) -> (s: &'static str)
    requires
        d < 10,
    ensures
        s@ == seq![digit_char(d as nat)],
{
    proof {
        reveal_strlit("0");
        reveal_strlit("1");
        reveal_strlit("2");
        reveal_strlit("3");
        reveal_strlit("4");
        reveal_strlit("5");
        reveal_strlit("6");
        reveal_strlit("7");
        reveal_strlit("8");
        reveal_strlit("9");
    }
    let s = if d == 0 { "0" }
    else if d == 1 { "1" }
    else if d == 2 { "2" }
    else if d == 3 { "3" }
    else if d == 4 { "4" }
    else if d == 5 { "5" }
    else if d == 6 { "6" }
    else if d == 7 { "7" }
    else if d == 8 { "8" }
    else { "9" };
    assert(s@ =~= seq![digit_char(d as nat)]);
    s
}

/// Appends the decimal numeral of `n` to `out`.
pub fn push_decimal(out: &mut String, n: u64)
    ensures
        final(out)@ == old(out)@ + decimal(n as nat),
    decreases n,
{
    if n >= 10 {
        push_decimal(out, n / 10);
    }
    out.append(digit_str(n % 10));
    proof {
        if n >= 10 {
            assert(decimal(n as nat) == decimal((n / 10) as nat).push(digit_char((n % 10) as nat)));
        }
    }
    assert(final(out)@ =~= old(out)@ + decimal(n as nat));
}


/// The words of `parts` separated by `sep`.
pub open spec fn join_words(parts: Seq<Seq<char>>, sep: Seq<char>) -> Seq<char>
    decreases parts.len(),
{
    if parts.len() == 0 {
        Seq::empty()
    } else if parts.len() == 1 {
        parts[0]
    } else {
        join_words(parts.drop_last(), sep) + sep + parts.last()
    }
}

/// The character views of a list of strings.
pub open spec fn views(list: Seq<String>) -> Seq<Seq<char>> {
    list.map_values(|s: String| s@)
}

/// Joins the strings of `list` with `sep` between each two neighbours.
pub fn join_strings(list: &Vec<String>, sep: &str) -> (res: String)
    ensures
        res@ == join_words(views(list@), sep@),
{
    let mut res = String::new();
    let ghost all = views(list@);
    let mut i: usize = 0;
    while i < list.len()
        invariant
            0 <= i <= list.len(),
            all == views(list@),
            all.len() == list@.len(),
            res@ == join_words(all.take(i as int), sep@),
        decreases list.len() - i,
    {
        let ghost before = res@;
        if i != 0 {
            res.append(sep);
        }
        res.append(list[i].as_str());
        proof {
            let t = all.take(i as int + 1);
            assert(t.drop_last() =~= all.take(i as int));
            assert(t.last() == list@[i as int]@);
            if i == 0 {
                assert(t.len() == 1);
                assert(res@ =~= t[0]);
            } else {
                assert(res@ =~= before + sep@ + t.last());
            }
        }
        i = i + 1;
    }
    assert(all.take(list.len() as int) =~= all);
    res
}

/// A count followed by its unit letter, as in "5m".
pub open spec fn unit_word(count: nat, unit: char) -> Seq<char> {
    decimal(count).push(unit)
}

/// The nonzero parts of a nonnegative duration of `t` seconds: whole days,
/// then the hours and minutes left over.
pub open spec fn duration_parts(t: nat) -> Seq<Seq<char>> {
    let days = t / 86400;
    let hours = (t % 86400) / 3600;
    let minutes = (t % 3600) / 60;
    (if days > 0 { seq![unit_word(days, 'd')] } else { Seq::empty() })
        + (if hours > 0 { seq![unit_word(hours, 'h')] } else { Seq::empty() })
        + (if minutes > 0 { seq![unit_word(minutes, 'm')] } else { Seq::empty() })
}

/// How a duration of `t` whole seconds is shown: its nonzero days, hours and
/// minutes separated by spaces; when there are none, the seconds below one
/// minute ("30s"). A negative duration shows only its seconds below one
/// minute, with a minus sign ("-30s" for -90 seconds) or as "0s".
pub open spec fn duration_text(t: int) -> Seq<char> {
    if t >= 0 {
        let parts = duration_parts(t as nat);
        if parts.len() == 0 {
            unit_word((t % 60) as nat, 's')
        } else {
            join_words(parts, seq![' '])
        }
    } else {
        let r = ((-t) % 60) as nat;
        if r == 0 {
            unit_word(0, 's')
        } else {
            seq!['-'] + unit_word(r, 's')
        }
    }
}

/// Dropping the seconds below a whole minute changes none of the nonzero
/// days, hours and minutes of a duration of a minute or more, and such a
/// duration has at least one of them.
proof fn lemma_parts_ignore_seconds(t: nat)
    requires
        t >= 60,
    ensures
        duration_parts(t) == duration_parts((t - t % 60) as nat),
        duration_parts(t).len() > 0,
{
    let u = (t - t % 60) as nat;
    assert(t / 86400 == u / 86400);
    assert((t % 86400) / 3600 == (u % 86400) / 3600);
    assert((t % 3600) / 60 == (u % 3600) / 60);
    assert(t / 86400 > 0 || (t % 86400) / 3600 > 0 || (t % 3600) / 60 > 0);
}

/// Seconds are shown only for a duration under one minute: one of a minute
/// or more shows exactly as the same duration without its leftover seconds
/// (so 1h 0m 30s shows as "1h", and 30m 30s as "30m"), and one under a
/// minute shows as its seconds ("30s").
pub proof fn law_seconds_only_under_a_minute(t: int)
    requires
        t >= 0,
    ensures
        t >= 60 ==> duration_text(t) == duration_text(t - t % 60),
        t < 60 ==> duration_text(t) == unit_word(t as nat, 's'),
{
    if t >= 60 {
        lemma_parts_ignore_seconds(t as nat);
        let u = t - t % 60;
        assert(u >= 60);
        lemma_parts_ignore_seconds(u as nat);
        assert((u as nat - (u as nat) % 60) as nat == u as nat);
    } else {
        assert(t / 86400 == 0 && (t % 86400) / 3600 == 0 && (t % 3600) / 60 == 0);
        assert(duration_parts(t as nat).len() == 0);
    }
}

/// Two durations of a minute or more within the same whole minute show
/// alike.
pub proof fn law_same_minute_shows_alike(a: int, b: int)
    requires
        a >= 60,
        b >= 60,
        a - a % 60 == b - b % 60,
    ensures
        duration_text(a) == duration_text(b),
{
    law_seconds_only_under_a_minute(a);
    law_seconds_only_under_a_minute(b);
}

/// A count followed by its one-letter unit.
fn unit_string(count: u64, unit: &str) -> (res: String)
    requires
        unit@.len() == 1,
    ensures
        res@ == unit_word(count as nat, unit@[0]),
{
    let mut res = String::new();
    push_decimal(&mut res, count);
    res.append(unit);
    assert(res@ =~= unit_word(count as nat, unit@[0]));
    res
}

/// Formats a duration of `total` whole seconds, such as "1d 1h", "1h 30m",
/// "5m" or "30s".
pub fn format_duration(total: i64) -> (res: String)
    ensures
        res@ == duration_text(total as int),
{
    proof {
        reveal_strlit("d");
        reveal_strlit("h");
        reveal_strlit("m");
        reveal_strlit("s");
        reveal_strlit("-");
        reveal_strlit(" ");
    }
    if total >= 0 {
        let t = total as u64;
        let days = t / 86400;
        let hours = (t % 86400) / 3600;
        let minutes = (t % 3600) / 60;
        let seconds = t % 60;
        let mut parts: Vec<String> = Vec::new();
        let ghost d_part = if days > 0 { seq![unit_word(days as nat, 'd')] } else { Seq::empty() };
        let ghost h_part = if hours > 0 { seq![unit_word(hours as nat, 'h')] } else { Seq::empty() };
        let ghost m_part = if minutes > 0 { seq![unit_word(minutes as nat, 'm')] } else { Seq::empty() };
        if days > 0 {
            parts.push(unit_string(days, "d"));
        }
        assert(views(parts@) =~= d_part);
        if hours > 0 {
            parts.push(unit_string(hours, "h"));
        }
        assert(views(parts@) =~= d_part + h_part);
        if minutes > 0 {
            parts.push(unit_string(minutes, "m"));
        }
        assert(views(parts@) =~= d_part + h_part + m_part);
        if parts.len() == 0 {
            unit_string(seconds, "s")
        } else {
            let sep = " ";
            assert(sep@ =~= seq![' ']);
            let res = join_strings(&parts, sep);
            proof {
                assert(views(parts@) =~= duration_parts(t as nat));
            }
            res
        }
    } else {
        let magnitude: u64 = (-(total + 1)) as u64 + 1;
        assert(magnitude as int == -total);
        let r = magnitude % 60;
        if r == 0 {
            unit_string(0, "s")
        } else {
            let mut res = String::new();
            res.append("-");
            let tail = unit_string(r, "s");
            res.append(tail.as_str());
            assert(res@ =~= seq!['-'] + unit_word(r as nat, 's'));
            res
        }
    }
}

} // verus!
