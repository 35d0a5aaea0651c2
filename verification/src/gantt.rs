//! The Gantt chart's layout: which tasks get a bar, the span of days the
//! chart covers, how wide a day is, where each bar starts and how long it
//! is, and the day headers.
use crate::dates::{
    civil_from_days, days_of_date, epoch_days, iso_of_day, iso_text, law_iso_of_day_reads_back,
    lemma_iso_reads_back, weekday_of, weekday_short, weekday_short_name, ymd_of, zero_padded,
};
use crate::models::{Priority, Task, TaskStatus};
use crate::text::{push_text, split_text, split_text_exec, views_of};
use vstd::prelude::*;

verus! {

/// The day number of an optional ISO date, when there is one and it reads.
pub open spec fn date_days(d: Option<String>) -> Option<int> {
    match d {
        Some(s) => match ymd_of(s@) {
            Some(t) => Some(days_of_date(t)),
            None => None,
        },
        None => None,
    }
}

/// A bar of the chart: the task's position in the project's list and its
/// first and last day.
pub struct GanttRow {
    pub task: usize,
    pub start: i64,
    pub end: i64,
}

pub open spec fn row_view(r: GanttRow) -> (int, int, int) {
    (r.task as int, r.start as int, r.end as int)
}

/// The bars of the first `n` tasks: one for each task whose start and end
/// dates both read, in list order.
pub open spec fn dated_rows(ts: Seq<Task>, n: nat) -> Seq<(int, int, int)>
    decreases n,
{
    if n == 0 {
        Seq::empty()
    } else {
        let rest = dated_rows(ts, (n - 1) as nat);
        let t = ts[n - 1];
        match (date_days(t.start_date), date_days(t.end_date)) {
            (Some(s), Some(e)) => rest.push((n - 1, s, e)),
            _ => rest,
        }
    }
}

fn days_of_opt(d: &Option<String>) -> (r: Option<i64>)
    ensures
        r is Some <==> date_days(*d) is Some,
        r matches Some(n) ==> n == date_days(*d)->0 && -0x200_0000_0000 < n < 0x200_0000_0000,
{
    match d {
        Some(s) => epoch_days(s.as_str()),
        None => None,
    }
}

/// The tasks that get a bar: those with a start and an end date that read.
pub fn gantt_rows(tasks: &Vec<Task>) -> (r: Vec<GanttRow>)
    ensures
        r@.map_values(|x: GanttRow| row_view(x)) == dated_rows(tasks@, tasks@.len()),
        forall|i: int|
            0 <= i < r@.len() ==> -0x200_0000_0000 < (#[trigger] r@[i]).start < 0x200_0000_0000
                && -0x200_0000_0000 < r@[i].end < 0x200_0000_0000,
{
    let n = tasks.len();
    let mut rows: Vec<GanttRow> = Vec::new();
    let mut i: usize = 0;
    while i < n
        invariant
            n == tasks@.len(),
            i <= n,
            rows@.map_values(|x: GanttRow| row_view(x)) == dated_rows(tasks@, i as nat),
            forall|k: int|
                0 <= k < rows@.len() ==> -0x200_0000_0000 < (#[trigger] rows@[k]).start
                    < 0x200_0000_0000 && -0x200_0000_0000 < rows@[k].end < 0x200_0000_0000,
        decreases n - i,
    {
        let t = &tasks[i];
        let s = days_of_opt(&t.start_date);
        let e = days_of_opt(&t.end_date);
        let ghost before = rows@;
        match (s, e) {
            (Some(s), Some(e)) => {
                rows.push(GanttRow { task: i, start: s, end: e });
                assert(rows@.map_values(|x: GanttRow| row_view(x)) =~= before.map_values(
                    |x: GanttRow| row_view(x),
                ).push((i as int, s as int, e as int)));
            },
            _ => {},
        }
        i = i + 1;
    }
    rows
}

/// The earliest start among the bars.
pub open spec fn min_start(rows: Seq<(int, int, int)>) -> int
    decreases rows.len(),
{
    if rows.len() <= 1 {
        rows[0].1
    } else {
        let m = min_start(rows.drop_last());
        if rows.last().1 < m {
            rows.last().1
        } else {
            m
        }
    }
}

/// The latest end among the bars.
pub open spec fn max_end(rows: Seq<(int, int, int)>) -> int
    decreases rows.len(),
{
    if rows.len() <= 1 {
        rows[0].2
    } else {
        let m = max_end(rows.drop_last());
        if rows.last().2 > m {
            rows.last().2
        } else {
            m
        }
    }
}

/// How the chart is laid out: the first and last day it shows (a day of
/// margin on each side of the bars) and the width of a day in pixels.
pub struct GanttLayout {
    pub min_day: i64,
    pub max_day: i64,
    pub day_width: i64,
}

/// The width of a day: 800 pixels shared among the days, at least 40 and at
/// most 120.
pub open spec fn day_width_for(total_days: int) -> int {
    let w = 800int / total_days;
    if w < 40 {
        40
    } else if w > 120 {
        120
    } else {
        w
    }
}

/// The chart's span and day width, for a non-empty set of bars.
pub fn gantt_layout(rows: &Vec<GanttRow>) -> (r: GanttLayout)
    requires
        rows@.len() > 0,
        forall|i: int|
            0 <= i < rows@.len() ==> -0x200_0000_0000 < (#[trigger] rows@[i]).start < 0x200_0000_0000
                && -0x200_0000_0000 < rows@[i].end < 0x200_0000_0000,
    ensures
        r.min_day == min_start(rows@.map_values(|x: GanttRow| row_view(x))) - 1,
        r.max_day == max_end(rows@.map_values(|x: GanttRow| row_view(x))) + 1,
        r.day_width == day_width_for(
            if r.max_day - r.min_day > 1 {
                r.max_day - r.min_day
            } else {
                1
            },
        ),
        -0x200_0000_0001 <= r.min_day < 0x200_0000_0000,
        -0x200_0000_0000 < r.max_day <= 0x200_0000_0000,
        40 <= r.day_width <= 120,
{
    let ghost v = rows@.map_values(|x: GanttRow| row_view(x));
    let mut lo = rows[0].start;
    let mut hi = rows[0].end;
    let mut i: usize = 1;
    assert(v.subrange(0, 1).len() == 1);
    while i < rows.len()
        invariant
            v == rows@.map_values(|x: GanttRow| row_view(x)),
            1 <= i <= rows@.len(),
            lo == min_start(v.subrange(0, i as int)),
            hi == max_end(v.subrange(0, i as int)),
            -0x200_0000_0000 < lo < 0x200_0000_0000,
            -0x200_0000_0000 < hi < 0x200_0000_0000,
            forall|k: int|
                0 <= k < rows@.len() ==> -0x200_0000_0000 < (#[trigger] rows@[k]).start
                    < 0x200_0000_0000 && -0x200_0000_0000 < rows@[k].end < 0x200_0000_0000,
        decreases rows@.len() - i,
    {
        let ghost next = v.subrange(0, i as int + 1);
        assert(next.drop_last() =~= v.subrange(0, i as int));
        assert(next.last() == row_view(rows@[i as int]));
        if rows[i].start < lo {
            lo = rows[i].start;
        }
        if rows[i].end > hi {
            hi = rows[i].end;
        }
        i = i + 1;
    }
    assert(v.subrange(0, rows@.len() as int) =~= v);
    let min_day = lo - 1;
    let max_day = hi + 1;
    let total = if max_day - min_day > 1 {
        max_day - min_day
    } else {
        1
    };
    let w = 800 / total;
    let day_width = if w < 40 {
        40
    } else if w > 120 {
        120
    } else {
        w
    };
    GanttLayout { min_day, max_day, day_width }
}

/// Where a bar starts and how wide it is: one day width per day after the
/// chart's first day, and per day of the task (at least one).
pub fn bar_spec(layout: &GanttLayout, start: i64, end: i64) -> (r: (i64, i64))
    requires
        -0x200_0000_0001 <= layout.min_day < 0x200_0000_0000,
        40 <= layout.day_width <= 120,
        -0x200_0000_0000 < start < 0x200_0000_0000,
        -0x200_0000_0000 < end < 0x200_0000_0000,
    ensures
        r.0 == (start - layout.min_day) * layout.day_width,
        r.1 == (if end - start + 1 > 1 {
            end - start + 1
        } else {
            1
        }) * layout.day_width,
{
    let left_days = start - layout.min_day;
    let duration = if end - start + 1 > 1 {
        end - start + 1
    } else {
        1
    };
    assert(-0x400_0000_0001 <= left_days <= 0x400_0000_0001);
    assert(left_days * layout.day_width <= 0x400_0000_0001 * 120) by (nonlinear_arith)
        requires
            left_days <= 0x400_0000_0001,
            0 <= layout.day_width <= 120,
    ;
    assert(left_days * layout.day_width >= -0x400_0000_0001 * 120) by (nonlinear_arith)
        requires
            left_days >= -0x400_0000_0001,
            0 <= layout.day_width <= 120,
    ;
    assert(duration * layout.day_width <= 0x400_0000_0001 * 120) by (nonlinear_arith)
        requires
            1 <= duration <= 0x400_0000_0001,
            0 <= layout.day_width <= 120,
    ;
    (left_days * layout.day_width, duration * layout.day_width)
}

/// Every bar of a task that ends no earlier than it starts lies within the
/// chart, a full day from either edge: with the chart's first day
/// `min_start - 1` and last day `max_end + 1`, the bar starts at least one
/// day width in and ends at least one day width before the chart's width of
/// `last - first + 1` days.
pub proof fn law_bars_inside_chart(rows: Seq<(int, int, int)>, k: int, w: int)
    requires
        0 <= k < rows.len(),
        rows[k].1 <= rows[k].2,
        w > 0,
    ensures
        ({
            let first = min_start(rows) - 1;
            let last = max_end(rows) + 1;
            let left = (rows[k].1 - first) * w;
            let width = (if rows[k].2 - rows[k].1 + 1 > 1 {
                rows[k].2 - rows[k].1 + 1
            } else {
                1
            }) * w;
            &&& left >= w
            &&& left + width + w <= (last - first + 1) * w
        }),
{
    lemma_min_start_le(rows, k);
    lemma_max_end_ge(rows, k);
    let first = min_start(rows) - 1;
    let last = max_end(rows) + 1;
    let s = rows[k].1;
    let e = rows[k].2;
    assert((s - first) * w >= w) by (nonlinear_arith)
        requires
            s - first >= 1,
            w > 0,
    ;
    assert((s - first) * w + (e - s + 1) * w + w <= (last - first + 1) * w) by (nonlinear_arith)
        requires
            e + 1 <= last,
            w > 0,
    ;
}

proof fn lemma_min_start_le(rows: Seq<(int, int, int)>, k: int)
    requires
        0 <= k < rows.len(),
    ensures
        min_start(rows) <= rows[k].1,
    decreases rows.len(),
{
    if rows.len() > 1 {
        if k < rows.len() - 1 {
            lemma_min_start_le(rows.drop_last(), k);
        }
    }
}

proof fn lemma_max_end_ge(rows: Seq<(int, int, int)>, k: int)
    requires
        0 <= k < rows.len(),
    ensures
        max_end(rows) >= rows[k].2,
    decreases rows.len(),
{
    if rows.len() > 1 {
        if k < rows.len() - 1 {
            lemma_max_end_ge(rows.drop_last(), k);
        }
    }
}

// ── Day headers ──────────────────────────────────────────────────────────────
/// A day's header: its short weekday and its day of the month, both read
/// from the ISO text of the day.
pub open spec fn day_header_of(day: int) -> (Seq<char>, Seq<char>) {
    let c = civil_from_days(day);
    let iso = iso_text(c.0, c.1, c.2);
    let wd = weekday_short_name(
        weekday_of(
            match ymd_of(iso) {
                Some(t) => days_of_date(t),
                None => 0,
            },
        ),
    );
    let pieces = split_text(iso, seq!['-']);
    (wd, pieces.last())
}

/// The header of the column of `day`.
pub fn day_header(day: i64) -> (r: (&'static str, String))
    requires
        -0x400_0000_0000 < day < 0x400_0000_0000,
    ensures
        r.0@ == day_header_of(day as int).0,
        r.1@ == day_header_of(day as int).1,
{
    let iso = iso_of_day(day);
    let wd = weekday_short(iso.as_str());
    let mut seps: Vec<char> = Vec::new();
    seps.push('-');
    assert(seps@ =~= seq!['-']);
    let pieces = split_text_exec(iso.as_str(), &seps);
    proof {
        crate::text::lemma_split_text_nonempty(iso@, seq!['-']);
    }
    let last = pieces.len() - 1;
    let dn = pieces[last].clone();
    (wd, dn)
}

/// A day's header shows that very day: its own weekday, and its day of the
/// month as two digits (for days from year 0 on).
pub proof fn law_day_header_is_the_days(day: int)
    requires
        0 <= civil_from_days(day).0 <= i32::MAX,
    ensures
        day_header_of(day) == (
            weekday_short_name(weekday_of(day)),
            zero_padded(civil_from_days(day).2 as nat, 2),
        ),
{
    law_iso_of_day_reads_back(day);
    crate::dates::lemma_civil_round_trip(day);
    let c = civil_from_days(day);
    crate::dates::lemma_civil_ranges(day);
    lemma_iso_reads_back(c.0, c.1, c.2);
}

/// A day's header names that day's real weekday, counting from 1970-01-01,
/// a Thursday (for days from year 0 on).
pub proof fn law_day_header_names_the_weekday(day: int)
    requires
        0 <= civil_from_days(day).0 <= i32::MAX,
    ensures
        day_header_of(day).0 == seq![
            "dom"@,
            "lun"@,
            "mar"@,
            "mié"@,
            "jue"@,
            "vie"@,
            "sáb"@,
        ][(day + 4) % 7],
{
    law_day_header_is_the_days(day);
    crate::dates::law_weekday_names(day);
}

// ── Bars ─────────────────────────────────────────────────────────────────────
pub open spec fn bar_color_of(s: TaskStatus) -> Seq<char> {
    match s {
        TaskStatus::Done => "#10b981"@,
        TaskStatus::InProgress => "#00A3F0"@,
        TaskStatus::Todo => "#6b7280"@,
    }
}

/// Gantt bars are colored by status: done green, in progress blue, to do
/// grey.
pub proof fn law_bar_colors()
    ensures
        bar_color_of(TaskStatus::Done) == "#10b981"@,
        bar_color_of(TaskStatus::InProgress) == "#00A3F0"@,
        bar_color_of(TaskStatus::Todo) == "#6b7280"@,
{
}

/// The fill of a bar, by the task's status.
pub fn bar_color(s: TaskStatus) -> (r: &'static str)
    ensures
        r@ == bar_color_of(s),
{
    match s {
        TaskStatus::Done => "#10b981",
        TaskStatus::InProgress => "#00A3F0",
        TaskStatus::Todo => "#6b7280",
    }
}

/// The background of a bar's row: white for tasks at even positions in the
/// project's list, light grey for odd ones.
pub fn row_background(task: usize) -> (r: &'static str)
    ensures
        r@ == (if task % 2 == 0 {
            "#ffffff"@
        } else {
            "#f9fafb"@
        }),
{
    if task % 2 == 0 {
        "#ffffff"
    } else {
        "#f9fafb"
    }
}

/// A bar's tooltip: `"<title> (<status>) - <priority> priority"`.
pub fn bar_tooltip(task: &Task) -> (r: String)
    ensures
        r@ == task.title@ + " ("@ + task.status.label_spec() + ") - "@ + task.priority.label_spec()
            + " priority"@,
{
    let mut s = String::new();
    push_text(&mut s, task.title.as_str());
    push_text(&mut s, " (");
    push_text(&mut s, task.status.label());
    push_text(&mut s, ") - ");
    push_text(&mut s, task.priority.label());
    push_text(&mut s, " priority");
    s
}

} // verus!
