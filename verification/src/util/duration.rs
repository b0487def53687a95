//! Durations in the Prometheus format, such as `1h30m` or `500ms`.
use vstd::prelude::*;

use crate::util::text::{
    append_decimal, append_str, is_digit, lemma_decimal_roundtrip, spec_decimal_string,
    spec_decimal_value, str_to_chars, str_to_string,
};

verus! {

/// A span of time, counted in whole milliseconds.
#[derive(Debug, Clone, Copy, PartialEq, Eq, Structural)]
pub struct Duration {
    millis: u128,
}

impl View for Duration {
    type V = nat;

    closed spec fn view(&self) -> nat {
        self.millis as nat
    }
}

/// One millisecond.
pub const MILLI_MS: u128 = 1;

/// One second, in milliseconds.
pub const SECOND_MS: u128 = 1000;

/// One minute, in milliseconds.
pub const MINUTE_MS: u128 = 60_000;

/// One hour, in milliseconds.
pub const HOUR_MS: u128 = 3_600_000;

/// One day (24h), in milliseconds.
pub const DAY_MS: u128 = 86_400_000;

/// One week (7d), in milliseconds.
pub const WEEK_MS: u128 = 604_800_000;

/// One year (365d), in milliseconds.
pub const YEAR_MS: u128 = 31_536_000_000;

impl Duration {
    /// The empty duration.
    pub fn zero() -> (d: Duration)
        ensures
            d@ == 0,
    {
        Duration { millis: 0 }
    }

    pub fn from_millis(ms: u64) -> (d: Duration)
        ensures
            d@ == ms,
    {
        Duration { millis: ms as u128 }
    }

    pub fn from_secs(secs: u64) -> (d: Duration)
        ensures
            d@ == secs * 1000,
    {
        Duration { millis: secs as u128 * 1000 }
    }

    /// The total number of whole milliseconds.
    pub fn as_millis(&self) -> (ms: u128)
        ensures
            ms == self@,
    {
        self.millis
    }

    pub fn is_zero(&self) -> (b: bool)
        ensures
            b == (self@ == 0),
    {
        self.millis == 0
    }

    /// `self * rhs`, or `None` where the product does not fit.
    pub fn checked_mul(&self, rhs: u32) -> (d: Option<Duration>)
        ensures
            match d {
                Some(d) => d@ == self@ * rhs,
                None => self@ * rhs > u128::MAX,
            },
    {
        match self.millis.checked_mul(rhs as u128) {
            Some(m) => Some(Duration { millis: m }),
            None => None,
        }
    }

    /// `self + rhs`, or `None` where the sum does not fit.
    pub fn checked_add(&self, rhs: Duration) -> (d: Option<Duration>)
        ensures
            match d {
                Some(d) => d@ == self@ + rhs@,
                None => self@ + rhs@ > u128::MAX,
            },
    {
        match self.millis.checked_add(rhs.millis) {
            Some(m) => Some(Duration { millis: m }),
            None => None,
        }
    }
}

/// The length in milliseconds of the unit of rank `rank` (y, w, d, h, m, s, ms).
pub open spec fn unit_ms(rank: nat) -> int {
    if rank == 0 {
        YEAR_MS as int
    } else if rank == 1 {
        WEEK_MS as int
    } else if rank == 2 {
        DAY_MS as int
    } else if rank == 3 {
        HOUR_MS as int
    } else if rank == 4 {
        MINUTE_MS as int
    } else if rank == 5 {
        SECOND_MS as int
    } else {
        MILLI_MS as int
    }
}

/// The end of the run of digits that starts at `s[i]`.
pub open spec fn digit_run_end(s: Seq<char>, i: int) -> int
    decreases s.len() - i,
{
    if 0 <= i < s.len() && is_digit(s[i]) {
        digit_run_end(s, i + 1)
    } else {
        i
    }
}

/// The unit that starts at `s[i]`: its rank and how many chars it spans.
pub open spec fn unit_at(s: Seq<char>, i: int) -> Option<(nat, nat)> {
    let c = s[i];
    if c == 'y' {
        Some((0, 1))
    } else if c == 'w' {
        Some((1, 1))
    } else if c == 'd' {
        Some((2, 1))
    } else if c == 'h' {
        Some((3, 1))
    } else if c == 'm' {
        if i + 1 < s.len() && s[i + 1] == 's' {
            Some((6, 2))
        } else {
            Some((4, 1))
        }
    } else if c == 's' {
        Some((5, 1))
    } else {
        None
    }
}

/// What the component with the digits `digits` and the unit of rank `rank` adds: a
/// count too large for a `u32` adds nothing.
pub open spec fn component_ms(digits: Seq<char>, rank: nat) -> int {
    if spec_decimal_value(digits) > u32::MAX {
        0
    } else {
        spec_decimal_value(digits) * unit_ms(rank)
    }
}

/// The milliseconds that `s[i..]` stands for, where each component is a run of digits and
/// a unit, and the units come in the order y, w, d, h, m, s, ms, each of rank at least
/// `min_rank` and at most once; `None` where `s[i..]` is not of that form.
pub open spec fn spec_duration_from(s: Seq<char>, i: int, min_rank: nat) -> Option<int>
    decreases s.len() - i,
{
    if i < 0 {
        None
    } else if i >= s.len() {
        Some(0)
    } else {
        let j = digit_run_end(s, i);
        if j <= i || j >= s.len() {
            None
        } else {
            match unit_at(s, j) {
                None => None,
                Some((rank, len)) => if rank < min_rank {
                    None
                } else {
                    match spec_duration_from(s, j + len, rank + 1) {
                        Some(rest) => Some(component_ms(s.subrange(i, j), rank) + rest),
                        None => None,
                    }
                },
            }
        }
    }
}

/// What `parse_duration` gives for `s`: the milliseconds, or the error message.
pub open spec fn spec_parse_duration(s: Seq<char>) -> Result<int, Seq<char>> {
    if s.len() == 0 {
        Err("empty duration string"@)
    } else if s == "0"@ {
        Err("duration must be greater than 0"@)
    } else {
        match spec_duration_from(s, 0, 0) {
            None => Err("not a valid duration string: "@ + s),
            Some(ms) => if ms == 0 {
                Err("duration must be greater than 0"@)
            } else {
                Ok(ms)
            },
        }
    }
}

proof fn lemma_digit_run_end_bounds(s: Seq<char>, i: int)
    requires
        0 <= i <= s.len(),
    ensures
        i <= digit_run_end(s, i) <= s.len(),
        forall|k: int| i <= k < digit_run_end(s, i) ==> is_digit(#[trigger] s[k]),
        digit_run_end(s, i) < s.len() ==> !is_digit(s[digit_run_end(s, i)]),
    decreases s.len() - i,
{
    if i < s.len() && is_digit(s[i]) {
        lemma_digit_run_end_bounds(s, i + 1);
    }
}

proof fn lemma_duration_from_bound(s: Seq<char>, i: int, min_rank: nat)
    requires
        min_rank <= 7,
    ensures
        spec_duration_from(s, i, min_rank) matches Some(ms) ==> 0 <= ms <= (7 - min_rank) * (
        u32::MAX * YEAR_MS),
    decreases s.len() - i,
{
    if 0 <= i < s.len() {
        lemma_digit_run_end_bounds(s, i);
        let j = digit_run_end(s, i);
        if j > i && j < s.len() {
            match unit_at(s, j) {
                Some((rank, len)) => {
                    lemma_duration_from_bound(s, j + len, rank + 1);
                    let v = spec_decimal_value(s.subrange(i, j));
                    assert forall|k: int| 0 <= k < s.subrange(i, j).len() implies is_digit(
                        #[trigger] s.subrange(i, j)[k],
                    ) by {
                        assert(s.subrange(i, j)[k] == s[i + k]);
                    }
                    lemma_decimal_value_nonneg(s.subrange(i, j));
                    if v <= u32::MAX {
                        assert(v * unit_ms(rank) <= u32::MAX * YEAR_MS) by (nonlinear_arith)
                            requires
                                0 <= v <= u32::MAX,
                                0 <= unit_ms(rank) <= YEAR_MS,
                        ;
                    }
                },
                None => {},
            }
        }
    }
}

proof fn lemma_decimal_value_nonneg(s: Seq<char>)
    requires
        forall|k: int| 0 <= k < s.len() ==> is_digit(#[trigger] s[k]),
    ensures
        spec_decimal_value(s) >= 0,
    decreases s.len(),
{
    if s.len() > 0 {
        lemma_decimal_value_nonneg(s.drop_last());
    }
}

/// The value of the digits `s[i..j]`, or `None` where it exceeds `u32::MAX`.
fn parse_u32_digits(s: &Vec<char>, i: usize, j: usize) -> (r: Option<u32>)
    requires
        i <= j <= s.len(),
        forall|k: int| i <= k < j ==> is_digit(#[trigger] s@[k]),
    ensures
        match r {
            Some(v) => v == spec_decimal_value(s@.subrange(i as int, j as int)),
            None => spec_decimal_value(s@.subrange(i as int, j as int)) > u32::MAX,
        },
{
    let mut v: u64 = 0;
    let mut k = i;
    while k < j
        invariant
            i <= k <= j <= s.len(),
            forall|m: int| i <= m < j ==> is_digit(#[trigger] s@[m]),
            v == spec_decimal_value(s@.subrange(i as int, k as int)),
            v <= u32::MAX,
        decreases j - k,
    {
        let c = s[k];
        let d = (c as u32 - '0' as u32) as u64;
        assert(s@.subrange(i as int, k + 1).drop_last() =~= s@.subrange(i as int, k as int));
        assert(s@.subrange(i as int, k + 1).last() == c);
        assert(is_digit(s@[k as int]));
        let nv = v * 10 + d;
        k = k + 1;
        if nv > 0xFFFF_FFFF {
            proof {
                lemma_decimal_value_grows(s@, i as int, k as int, j as int);
            }
            return None;
        }
        v = nv;
    }
    Some(v as u32)
}

/// The value of a digit string does not shrink when digits are appended.
proof fn lemma_decimal_value_grows(s: Seq<char>, i: int, k: int, j: int)
    requires
        0 <= i <= k <= j <= s.len(),
        forall|m: int| i <= m < j ==> is_digit(#[trigger] s[m]),
    ensures
        spec_decimal_value(s.subrange(i, k)) <= spec_decimal_value(s.subrange(i, j)),
    decreases j - k,
{
    if k < j {
        lemma_decimal_value_grows(s, i, k + 1, j);
        assert(s.subrange(i, k + 1).drop_last() =~= s.subrange(i, k));
        lemma_decimal_value_nonneg(s.subrange(i, k));
        assert(is_digit(s[k]));
    }
}

/// Parses a string into a duration, taking a year as 365d, a week as 7d and a day as 24h.
pub fn parse_duration(ds: &str) -> (r: Result<Duration, String>)
    ensures
        match r {
            Ok(d) => spec_parse_duration(ds@) == Ok::<int, Seq<char>>(d@ as int),
            Err(e) => spec_parse_duration(ds@) == Err::<int, Seq<char>>(e@),
        },
{
    let s = str_to_chars(ds);
    let n = s.len();
    if n == 0 {
        return Err(str_to_string("empty duration string"));
    }
    proof {
        reveal_strlit("0");
    }
    if n == 1 && s[0] == '0' {
        assert(ds@ =~= "0"@);
        return Err(str_to_string("duration must be greater than 0"));
    }
    assert(ds@ != "0"@) by {
        if ds@ == "0"@ {
            assert(ds@[0] == '0');
        }
    }
    let mut i: usize = 0;
    let mut min_rank: usize = 0;
    let mut total: u128 = 0;
    proof {
        lemma_duration_from_bound(s@, 0, 0);
    }
    while i < n
        invariant
            n == s.len(),
            n > 0,
            s@ == ds@,
            ds@ != "0"@,
            i <= n,
            min_rank <= 7,
            spec_duration_from(s@, 0, 0) == (match spec_duration_from(s@, i as int, min_rank as nat) {
                Some(t) => Some(total + t),
                None => None,
            }),
            total <= min_rank * (u32::MAX * YEAR_MS),
        decreases n - i,
    {
        proof {
            lemma_digit_run_end_bounds(s@, i as int);
        }
        let mut j = i;
        while j < n && '0' <= s[j] && s[j] <= '9'
            invariant
                i <= j <= n,
                n == s.len(),
                digit_run_end(s@, i as int) == digit_run_end(s@, j as int),
                forall|k: int| i <= k < j ==> is_digit(#[trigger] s@[k]),
            decreases n - j,
        {
            j = j + 1;
        }
        proof {
            lemma_digit_run_end_bounds(s@, j as int);
        }
        assert(digit_run_end(s@, i as int) == j as int);
        if j <= i || j >= n {
            return Err(not_valid_duration(ds));
        }
        let c = s[j];
        let (rank, len): (usize, usize) = if c == 'y' {
            (0, 1)
        } else if c == 'w' {
            (1, 1)
        } else if c == 'd' {
            (2, 1)
        } else if c == 'h' {
            (3, 1)
        } else if c == 'm' {
            if j + 1 < n && s[j + 1] == 's' {
                (6, 2)
            } else {
                (4, 1)
            }
        } else if c == 's' {
            (5, 1)
        } else {
            return Err(not_valid_duration(ds));
        };
        assert(unit_at(s@, j as int) == Some((rank as nat, len as nat)));
        if rank < min_rank {
            return Err(not_valid_duration(ds));
        }
        let unit: u128 = if rank == 0 {
            YEAR_MS
        } else if rank == 1 {
            WEEK_MS
        } else if rank == 2 {
            DAY_MS
        } else if rank == 3 {
            HOUR_MS
        } else if rank == 4 {
            MINUTE_MS
        } else if rank == 5 {
            SECOND_MS
        } else {
            MILLI_MS
        };
        let part: u128 = match parse_u32_digits(&s, i, j) {
            Some(v) => {
                assert(v * unit <= u32::MAX * YEAR_MS) by (nonlinear_arith)
                    requires
                        v <= u32::MAX,
                        unit <= YEAR_MS,
                ;
                v as u128 * unit
            },
            None => 0,
        };
        assert(part == component_ms(s@.subrange(i as int, j as int), rank as nat));
        proof {
            lemma_duration_from_bound(s@, (j + len) as int, (rank + 1) as nat);
        }
        assert(total + part <= (rank + 1) * (u32::MAX * YEAR_MS)) by (nonlinear_arith)
            requires
                total <= min_rank * (u32::MAX * YEAR_MS),
                part <= u32::MAX * YEAR_MS,
                min_rank <= rank,
        ;
        total = total + part;
        i = j + len;
        min_rank = rank + 1;
    }
    if total == 0 {
        return Err(str_to_string("duration must be greater than 0"));
    }
    Ok(Duration { millis: total })
}

fn not_valid_duration(ds: &str) -> (e: String)
    ensures
        e@ == "not a valid duration string: "@ + ds@,
{
    let mut e = str_to_string("not a valid duration string: ");
    append_str(&mut e, ds);
    e
}

/// One step of the display: the component for the unit `unit` of `mult` milliseconds taken
/// from `ms`, and what is left of `ms`. Where `exact` holds, the unit is used only if it
/// divides `ms`.
pub open spec fn spec_display_step(ms: nat, mult: nat, unit: Seq<char>, exact: bool) -> (Seq<char>, nat) {
    if exact && ms % mult != 0 {
        (Seq::empty(), ms)
    } else if ms / mult > 0 {
        (spec_decimal_string(ms / mult) + unit, (ms - (ms / mult) * mult) as nat)
    } else {
        (Seq::empty(), ms)
    }
}

/// The Prometheus text of a duration of `ms` milliseconds: `0s` for zero, else its
/// non-zero components from years down to milliseconds, where years and weeks are used
/// only if they divide the duration.
pub open spec fn spec_display_duration(ms: nat) -> Seq<char> {
    if ms == 0 {
        "0s"@
    } else {
        let (y, r0) = spec_display_step(ms, YEAR_MS as nat, "y"@, true);
        let (w, r1) = spec_display_step(r0, WEEK_MS as nat, "w"@, true);
        let (d, r2) = spec_display_step(r1, DAY_MS as nat, "d"@, false);
        let (h, r3) = spec_display_step(r2, HOUR_MS as nat, "h"@, false);
        let (m, r4) = spec_display_step(r3, MINUTE_MS as nat, "m"@, false);
        let (sec, r5) = spec_display_step(r4, SECOND_MS as nat, "s"@, false);
        let (milli, r6) = spec_display_step(r5, MILLI_MS as nat, "ms"@, false);
        y + w + d + h + m + sec + milli
    }
}

fn display_step(s: &mut String, ms: &mut u128, mult: u128, unit: &str, exact: bool)
    requires
        mult > 0,
    ensures
        final(s)@ == old(s)@ + spec_display_step(*old(ms) as nat, mult as nat, unit@, exact).0,
        *final(ms) == spec_display_step(*old(ms) as nat, mult as nat, unit@, exact).1,
{
    if exact && *ms % mult != 0 {
        assert(s@ =~= s@ + Seq::<char>::empty());
        return;
    }
    let v = *ms / mult;
    if v > 0 {
        append_decimal(s, v);
        append_str(s, unit);
        assert(v * mult <= *ms) by (nonlinear_arith)
            requires
                v == *ms / mult,
                mult > 0,
        ;
        *ms = *ms - v * mult;
    } else {
        assert(s@ =~= s@ + Seq::<char>::empty());
    }
}

/// The duration in the Prometheus format, such as `4d1h` or `0s`.
pub fn display_duration(duration: &Duration) -> (r: String)
    ensures
        r@ == spec_display_duration(duration@),
{
    if duration.is_zero() {
        return str_to_string("0s");
    }
    let mut ms = duration.as_millis();
    let mut ss = String::new();
    display_step(&mut ss, &mut ms, YEAR_MS, "y", true);
    display_step(&mut ss, &mut ms, WEEK_MS, "w", true);
    display_step(&mut ss, &mut ms, DAY_MS, "d", false);
    display_step(&mut ss, &mut ms, HOUR_MS, "h", false);
    display_step(&mut ss, &mut ms, MINUTE_MS, "m", false);
    display_step(&mut ss, &mut ms, SECOND_MS, "s", false);
    display_step(&mut ss, &mut ms, MILLI_MS, "ms", false);
    assert(ss@ =~= spec_display_duration(duration@));
    ss
}


// ---------------------------------------------------------------------------------------
// Reading back a displayed duration
// ---------------------------------------------------------------------------------------
proof fn lemma_digit_run_end_shift(s: Seq<char>, i: int, k: int)
    requires
        0 <= i <= k <= s.len(),
    ensures
        digit_run_end(s, k) == i + digit_run_end(s.skip(i), k - i),
    decreases s.len() - k,
{
    if k < s.len() && is_digit(s[k]) {
        assert(s.skip(i)[k - i] == s[k]);
        lemma_digit_run_end_shift(s, i, k + 1);
    }
}

/// Where `s[i..]` is read from does not matter: only what it holds.
proof fn lemma_duration_from_skip(s: Seq<char>, i: int, min_rank: nat)
    requires
        0 <= i <= s.len(),
    ensures
        spec_duration_from(s, i, min_rank) == spec_duration_from(s.skip(i), 0, min_rank),
    decreases s.len() - i,
{
    let t = s.skip(i);
    if i < s.len() {
        lemma_digit_run_end_shift(s, i, i);
        lemma_digit_run_end_bounds(s, i);
        let j = digit_run_end(s, i);
        let jt = digit_run_end(t, 0);
        assert(j == i + jt);
        if j > i && j < s.len() {
            assert(t[jt] == s[j]);
            if jt + 1 < t.len() {
                assert(t[jt + 1] == s[j + 1]);
            }
            assert(unit_at(s, j) == unit_at(t, jt));
            assert(s.subrange(i, j) =~= t.subrange(0, jt));
            match unit_at(s, j) {
                Some((rank, len)) => {
                    if j + len <= s.len() {
                        lemma_duration_from_skip(s, j + len, rank + 1);
                        lemma_duration_from_skip(t, jt + len, rank + 1);
                        assert(t.skip(jt + len) =~= s.skip(j + len));
                    }
                },
                None => {},
            }
        }
    }
}

/// The text of a unit of rank `rank`.
pub open spec fn unit_text(rank: nat) -> Seq<char> {
    if rank == 0 {
        "y"@
    } else if rank == 1 {
        "w"@
    } else if rank == 2 {
        "d"@
    } else if rank == 3 {
        "h"@
    } else if rank == 4 {
        "m"@
    } else if rank == 5 {
        "s"@
    } else {
        "ms"@
    }
}

proof fn lemma_unit_texts()
    ensures
        unit_text(0) =~= seq!['y'],
        unit_text(1) =~= seq!['w'],
        unit_text(2) =~= seq!['d'],
        unit_text(3) =~= seq!['h'],
        unit_text(4) =~= seq!['m'],
        unit_text(5) =~= seq!['s'],
        unit_text(6) =~= seq!['m', 's'],
{
    reveal_strlit("y");
    reveal_strlit("w");
    reveal_strlit("d");
    reveal_strlit("h");
    reveal_strlit("m");
    reveal_strlit("s");
    reveal_strlit("ms");
}

/// Reading `v` followed by the unit of rank `rank` and then `rest` (empty or starting
/// with a digit) gives the component and whatever `rest` gives from the next rank on.
proof fn lemma_component_read(v: nat, rank: nat, rest: Seq<char>, min_rank: nat)
    requires
        rank <= 6,
        min_rank <= rank,
        rest.len() > 0 ==> is_digit(rest[0]),
    ensures
        spec_duration_from(spec_decimal_string(v) + unit_text(rank) + rest, 0, min_rank) == match spec_duration_from(rest, 0, rank + 1) {
            Some(x) => Some(component_ms(spec_decimal_string(v), rank) + x),
            None => None,
        },
{
    let d = spec_decimal_string(v);
    let u = unit_text(rank);
    let t = d + u + rest;
    lemma_decimal_roundtrip(v);
    lemma_unit_texts();
    let n = d.len() as int;
    assert forall|k: int| 0 <= k < n implies is_digit(#[trigger] t[k]) by {
        assert(t[k] == d[k]);
    }
    lemma_digit_run_prefix(t, 0, n);
    assert(t[n] == u[0]);
    assert(!is_digit(u[0]));
    assert(digit_run_end(t, n) == n);
    assert(digit_run_end(t, 0) == n);
    let len = u.len() as int;
    if rank == 4 {
        if n + 1 < t.len() {
            assert(t[n + 1] == rest[0]);
        }
    }
    if rank == 6 {
        assert(t[n + 1] == u[1]);
    }
    assert(unit_at(t, n) == Some((rank, len as nat)));
    assert(t.subrange(0, n) =~= d);
    lemma_duration_from_skip(t, n + len, rank + 1);
    assert(t.skip(n + len) =~= rest);
}

proof fn lemma_digit_run_prefix(t: Seq<char>, i: int, n: int)
    requires
        0 <= i <= n < t.len(),
        forall|k: int| 0 <= k < n ==> is_digit(#[trigger] t[k]),
        !is_digit(t[n]),
    ensures
        digit_run_end(t, i) == n,
    decreases n - i,
{
    if i < n {
        lemma_digit_run_prefix(t, i + 1, n);
    }
}

/// The text of one display step: `v` and the unit when `v > 0`, else nothing.
pub open spec fn step_text(v: nat, rank: nat) -> Seq<char> {
    if v > 0 {
        spec_decimal_string(v) + unit_text(rank)
    } else {
        Seq::empty()
    }
}

/// Reading a step's text before `rest` adds the step's milliseconds, from any rank up to
/// the step's own.
proof fn lemma_step_read(v: nat, rank: nat, rest: Seq<char>, x: int)
    requires
        rank <= 6,
        v <= u32::MAX,
        rest.len() > 0 ==> is_digit(rest[0]),
        forall|r: nat| r <= rank + 1 ==> #[trigger] spec_duration_from(rest, 0, r) == Some(x),
    ensures
        forall|r: nat| r <= rank ==> #[trigger] spec_duration_from(step_text(v, rank) + rest, 0, r)
            == Some(v * unit_ms(rank) + x),
        step_text(v, rank) + rest != rest ==> is_digit((step_text(v, rank) + rest)[0]),
        step_text(v, rank) + rest == rest ==> v == 0,
{
    lemma_decimal_roundtrip(v);
    if v > 0 {
        assert forall|r: nat| r <= rank implies #[trigger] spec_duration_from(
            step_text(v, rank) + rest,
            0,
            r,
        ) == Some(v * unit_ms(rank) + x) by {
            lemma_component_read(v, rank, rest, r);
            assert(spec_duration_from(rest, 0, rank + 1) == Some(x));
        }
        assert((step_text(v, rank) + rest)[0] == spec_decimal_string(v)[0]);
        assert((step_text(v, rank) + rest).len() > rest.len());
    } else {
        assert(step_text(v, rank) + rest =~= rest);
    }
}

/// How many units of `mult` milliseconds a display step takes from `ms`.
pub open spec fn step_count(ms: nat, mult: nat, exact: bool) -> nat {
    if exact && ms % mult != 0 {
        0
    } else {
        ms / mult
    }
}

proof fn lemma_display_step(ms: nat, rank: nat, exact: bool)
    requires
        rank <= 6,
    ensures
        ({
            let mult = unit_ms(rank) as nat;
            let c = step_count(ms, mult, exact);
            &&& spec_display_step(ms, mult, unit_text(rank), exact) == (step_text(c, rank), (ms - c
                * mult) as nat)
            &&& c * mult <= ms
            &&& !exact ==> ms - c * mult < mult
        }),
{
    let mult = unit_ms(rank) as nat;
    let c = step_count(ms, mult, exact);
    assert(c * mult <= ms && (!exact ==> ms - c * mult < mult)) by (nonlinear_arith)
        requires
            mult > 0,
            c == step_count(ms, mult, exact),
    ;
    if !(exact && ms % mult != 0) && ms / mult == 0 {
        assert(step_text(c, rank) =~= Seq::<char>::empty());
    }
}

/// Reading back the text of a duration gives the duration, for every duration from
/// 1ms up to `u32::MAX` days (beyond, a day count too large for a `u32` is read as
/// nothing).
#[verifier::rlimit(100)]
#[verifier::spinoff_prover]
pub proof fn lemma_display_parse_roundtrip(ms: nat)
    requires
        0 < ms <= u32::MAX * DAY_MS,
    ensures
        spec_parse_duration(spec_display_duration(ms)) == Ok::<int, Seq<char>>(ms as int),
{
    let c0 = step_count(ms, YEAR_MS as nat, true);
    lemma_display_step(ms, 0, true);
    let r0 = (ms - c0 * YEAR_MS) as nat;
    let c1 = step_count(r0, WEEK_MS as nat, true);
    lemma_display_step(r0, 1, true);
    let r1 = (r0 - c1 * WEEK_MS) as nat;
    let c2 = step_count(r1, DAY_MS as nat, false);
    lemma_display_step(r1, 2, false);
    let r2 = (r1 - c2 * DAY_MS) as nat;
    let c3 = step_count(r2, HOUR_MS as nat, false);
    lemma_display_step(r2, 3, false);
    let r3 = (r2 - c3 * HOUR_MS) as nat;
    let c4 = step_count(r3, MINUTE_MS as nat, false);
    lemma_display_step(r3, 4, false);
    let r4 = (r3 - c4 * MINUTE_MS) as nat;
    let c5 = step_count(r4, SECOND_MS as nat, false);
    lemma_display_step(r4, 5, false);
    let r5 = (r4 - c5 * SECOND_MS) as nat;
    let c6 = step_count(r5, MILLI_MS as nat, false);
    lemma_display_step(r5, 6, false);
    assert(c0 <= u32::MAX && c1 <= u32::MAX && c2 <= u32::MAX) by (nonlinear_arith)
        requires
            c0 * YEAR_MS <= ms,
            c1 * WEEK_MS <= r0,
            c2 * DAY_MS <= r1,
            r1 <= r0 <= ms,
            ms <= u32::MAX * DAY_MS,
    ;
    let empty = Seq::<char>::empty();
    assert forall|r: nat| r <= 7 implies #[trigger] spec_duration_from(empty, 0, r) == Some(0int) by {}
    let t6 = step_text(c6, 6) + empty;
    lemma_step_read(c6, 6, empty, 0);
    let x6 = c6 * unit_ms(6);
    let t5 = step_text(c5, 5) + t6;
    lemma_step_read(c5, 5, t6, x6);
    let x5 = c5 * unit_ms(5) + x6;
    let t4 = step_text(c4, 4) + t5;
    lemma_step_read(c4, 4, t5, x5);
    let x4 = c4 * unit_ms(4) + x5;
    let t3 = step_text(c3, 3) + t4;
    lemma_step_read(c3, 3, t4, x4);
    let x3 = c3 * unit_ms(3) + x4;
    let t2 = step_text(c2, 2) + t3;
    lemma_step_read(c2, 2, t3, x3);
    let x2 = c2 * unit_ms(2) + x3;
    let t1 = step_text(c1, 1) + t2;
    lemma_step_read(c1, 1, t2, x2);
    let x1 = c1 * unit_ms(1) + x2;
    let t0 = step_text(c0, 0) + t1;
    lemma_step_read(c0, 0, t1, x1);
    let x0 = c0 * unit_ms(0) + x1;
    assert(x0 == ms);
    let text = spec_display_duration(ms);
    assert(text =~= t0);
    assert(spec_duration_from(text, 0, 0) == Some(ms as int));
    reveal_strlit("0");
    let zero = "0"@;
    assert(digit_run_end(zero, 1) == 1);
    assert(digit_run_end(zero, 0) == 1);
    assert(spec_duration_from(zero, 0, 0) is None);
    assert(text != zero);
    assert(text.len() > 0) by {
        if text.len() == 0 {
            assert(text =~= empty);
        }
    }
}

proof fn lemma_digit_run_end_at(s: Seq<char>, i: int, j: int)
    requires
        0 <= i <= j < s.len(),
        forall|k: int| i <= k < j ==> is_digit(#[trigger] s[k]),
        !is_digit(s[j]),
    ensures
        digit_run_end(s, i) == j,
    decreases j - i,
{
    if i < j {
        lemma_digit_run_end_at(s, i + 1, j);
    }
}

/// Whether `(u, ms)` is a duration unit with its length in milliseconds: `y` a year of 365
/// days, `w` a week, `d` a day, `h` an hour, `m` a minute, `s` a second, `ms` a
/// millisecond.
pub open spec fn duration_unit(u: Seq<char>, ms: int) -> bool {
    ||| u == seq!['y'] && ms == 31_536_000_000
    ||| u == seq!['w'] && ms == 604_800_000
    ||| u == seq!['d'] && ms == 86_400_000
    ||| u == seq!['h'] && ms == 3_600_000
    ||| u == seq!['m'] && ms == 60_000
    ||| u == seq!['s'] && ms == 1_000
    ||| u == seq!['m', 's'] && ms == 1
}

/// A count followed by a unit reads as the count times the unit's length, for every
/// positive count that fits in a `u32`.
pub proof fn lemma_parse_count_and_unit(d: Seq<char>, u: Seq<char>, ms: int)
    requires
        d.len() > 0,
        forall|k: int| 0 <= k < d.len() ==> is_digit(#[trigger] d[k]),
        0 < spec_decimal_value(d) <= u32::MAX,
        duration_unit(u, ms),
    ensures
        spec_parse_duration(d + u) == Ok::<int, Seq<char>>(spec_decimal_value(d) * ms),
{
    let s = d + u;
    let j = d.len() as int;
    reveal_strlit("0");
    assert(s.len() >= 2);
    assert(s != "0"@) by {
        assert("0"@.len() == 1);
    }
    assert forall|k: int| 0 <= k < j implies is_digit(#[trigger] s[k]) by {
        assert(s[k] == d[k]);
    }
    assert(s[j] == u[0]);
    lemma_digit_run_end_at(s, 0, j);
    assert(s.subrange(0, j) =~= d);
    let (rank, len) = unit_at(s, j)->0;
    assert(j + len == s.len());
    assert(spec_duration_from(s, j + len, rank + 1) == Some(0int));
    assert(unit_ms(rank) == ms);
    assert(spec_decimal_value(d) * ms > 0) by (nonlinear_arith)
        requires
            spec_decimal_value(d) > 0,
            ms > 0,
    ;
}

} // verus!
