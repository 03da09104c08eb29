//! How the time of a run was spent.
use vstd::prelude::*;

use crate::database::records::{
    moment, rfc3339_millis, TriageCompactionRecord, TriageRetryRecord, TriageRunRecord,
    TriageStepRecord, TriageTurnRecord, FIRST_MOMENT, LAST_MOMENT,
};
use crate::text;

verus! {

/// What time can be spent on.
#[derive(Clone, Copy, Debug, PartialEq, Eq, Structural)]
pub enum DurationCategory {
    Setup,
    Thinking,
    Tool,
    Compaction,
    RetryWait,
    Finalization,
}

/// A time that was spent on something: from its start up to, and without, its end.
#[derive(Clone, Copy, Debug, PartialEq, Eq, Structural)]
pub struct Interval {
    pub start: i64,
    pub end: i64,
    pub category: DurationCategory,
}

/// How long a run took, and what the time was spent on, in milliseconds.
#[derive(Clone, Copy, Debug, PartialEq, Eq, Structural)]
pub struct DurationMetrics {
    pub wall: i64,
    pub setup: Option<i64>,
    pub thinking: Option<i64>,
    pub tool: Option<i64>,
    pub compaction: Option<i64>,
    pub retry_wait: Option<i64>,
    pub gaps: Option<i64>,
    pub finalization: Option<i64>,
}

// ---------------------------------------------------------------------------------------------
// What a moment was spent on
// ---------------------------------------------------------------------------------------------

/// Whether the moment lies in an interval of the category.
pub open spec fn covered(intervals: Seq<Interval>, category: DurationCategory, at: int) -> bool {
    exists|i: int|
        0 <= i < intervals.len() && (#[trigger] intervals[i]).category == category
            && intervals[i].start <= at < intervals[i].end
}

/// What the moment was spent on: the first of the categories, in order of precedence, that an
/// interval around the moment has.
pub open spec fn spent_on(intervals: Seq<Interval>, at: int) -> Option<DurationCategory> {
    if covered(intervals, DurationCategory::RetryWait, at) {
        Some(DurationCategory::RetryWait)
    } else if covered(intervals, DurationCategory::Compaction, at) {
        Some(DurationCategory::Compaction)
    } else if covered(intervals, DurationCategory::Tool, at) {
        Some(DurationCategory::Tool)
    } else if covered(intervals, DurationCategory::Thinking, at) {
        Some(DurationCategory::Thinking)
    } else if covered(intervals, DurationCategory::Setup, at) {
        Some(DurationCategory::Setup)
    } else if covered(intervals, DurationCategory::Finalization, at) {
        Some(DurationCategory::Finalization)
    } else {
        None
    }
}

/// How many of the milliseconds from `from` up to `to` were spent on this.
pub open spec fn spent(
    intervals: Seq<Interval>,
    category: Option<DurationCategory>,
    from: int,
    to: int,
) -> int
    decreases to - from,
{
    if to <= from {
        0
    } else {
        spent(intervals, category, from, to - 1) + (if spent_on(intervals, to - 1) == category {
            1int
        } else {
            0int
        })
    }
}

/// Whether the moment is a bound of one of the intervals.
pub open spec fn bound(intervals: Seq<Interval>, at: int) -> bool {
    exists|i: int|
        0 <= i < intervals.len() && ((#[trigger] intervals[i]).start == at || intervals[i].end
            == at)
}

proof fn lemma_same_cover(
    intervals: Seq<Interval>,
    category: DurationCategory,
    at: int,
    next: int,
    t: int,
)
    requires
        at <= t < next,
        forall|x: int| at < x < next ==> !#[trigger] bound(intervals, x),
    ensures
        covered(intervals, category, t) == covered(intervals, category, at),
{
    if covered(intervals, category, t) {
        let i = choose|i: int|
            0 <= i < intervals.len() && (#[trigger] intervals[i]).category == category
                && intervals[i].start <= t < intervals[i].end;
        if intervals[i].start > at {
            assert(bound(intervals, intervals[i].start as int));
        }
        assert(intervals[i].start <= at < intervals[i].end);
    }
    if covered(intervals, category, at) {
        let i = choose|i: int|
            0 <= i < intervals.len() && (#[trigger] intervals[i]).category == category
                && intervals[i].start <= at < intervals[i].end;
        if intervals[i].end <= t {
            assert(bound(intervals, intervals[i].end as int));
        }
        assert(intervals[i].start <= t < intervals[i].end);
    }
}

proof fn lemma_same_spent_on(intervals: Seq<Interval>, at: int, next: int, t: int)
    requires
        at <= t < next,
        forall|x: int| at < x < next ==> !#[trigger] bound(intervals, x),
    ensures
        spent_on(intervals, t) == spent_on(intervals, at),
{
    lemma_same_cover(intervals, DurationCategory::RetryWait, at, next, t);
    lemma_same_cover(intervals, DurationCategory::Compaction, at, next, t);
    lemma_same_cover(intervals, DurationCategory::Tool, at, next, t);
    lemma_same_cover(intervals, DurationCategory::Thinking, at, next, t);
    lemma_same_cover(intervals, DurationCategory::Setup, at, next, t);
    lemma_same_cover(intervals, DurationCategory::Finalization, at, next, t);
}

/// Between two bounds all time is spent on the same thing.
proof fn lemma_segment(
    intervals: Seq<Interval>,
    category: Option<DurationCategory>,
    from: int,
    at: int,
    next: int,
    to: int,
)
    requires
        from <= at <= to <= next,
        at < next,
        forall|x: int| at < x < next ==> !#[trigger] bound(intervals, x),
    ensures
        spent(intervals, category, from, to) == spent(intervals, category, from, at) + (
        if spent_on(intervals, at) == category {
            to - at
        } else {
            0
        }),
    decreases to - at,
{
    if to > at {
        lemma_segment(intervals, category, from, at, next, to - 1);
        lemma_same_spent_on(intervals, at, next, to - 1);
    }
}

proof fn lemma_spent_bounds(
    intervals: Seq<Interval>,
    category: Option<DurationCategory>,
    from: int,
    to: int,
)
    requires
        from <= to,
    ensures
        0 <= spent(intervals, category, from, to) <= to - from,
    decreases to - from,
{
    if from < to {
        lemma_spent_bounds(intervals, category, from, to - 1);
    }
}

fn is_covered(intervals: &Vec<Interval>, category: DurationCategory, at: i64) -> (b: bool)
    ensures
        b == covered(intervals@, category, at as int),
{
    let mut i: usize = 0;
    while i < intervals.len()
        invariant
            i <= intervals@.len(),
            forall|k: int|
                0 <= k < i ==> !((#[trigger] intervals@[k]).category == category
                    && intervals@[k].start <= at < intervals@[k].end),
        decreases intervals@.len() - i,
    {
        if intervals[i].category == category && intervals[i].start <= at && at < intervals[i].end {
            return true;
        }
        i += 1;
    }
    false
}

fn category_at(intervals: &Vec<Interval>, at: i64) -> (category: Option<DurationCategory>)
    ensures
        category == spent_on(intervals@, at as int),
{
    if is_covered(intervals, DurationCategory::RetryWait, at) {
        Some(DurationCategory::RetryWait)
    } else if is_covered(intervals, DurationCategory::Compaction, at) {
        Some(DurationCategory::Compaction)
    } else if is_covered(intervals, DurationCategory::Tool, at) {
        Some(DurationCategory::Tool)
    } else if is_covered(intervals, DurationCategory::Thinking, at) {
        Some(DurationCategory::Thinking)
    } else if is_covered(intervals, DurationCategory::Setup, at) {
        Some(DurationCategory::Setup)
    } else if is_covered(intervals, DurationCategory::Finalization, at) {
        Some(DurationCategory::Finalization)
    } else {
        None
    }
}

/// The first bound behind the moment, and `last` where none comes before that.
fn next_bound(intervals: &Vec<Interval>, at: i64, last: i64) -> (next: i64)
    requires
        at < last,
    ensures
        at < next <= last,
        forall|x: int| at < x < next ==> !#[trigger] bound(intervals@, x),
{
    let mut next: i64 = last;
    let mut i: usize = 0;
    while i < intervals.len()
        invariant
            i <= intervals@.len(),
            at < next <= last,
            forall|k: int|
                0 <= k < i ==> !(at < (#[trigger] intervals@[k]).start < next) && !(at
                    < intervals@[k].end < next),
        decreases intervals@.len() - i,
    {
        if at < intervals[i].start && intervals[i].start < next {
            next = intervals[i].start;
        }
        if at < intervals[i].end && intervals[i].end < next {
            next = intervals[i].end;
        }
        i += 1;
    }
    next
}

/// The milliseconds of a stretch of time, by what they were spent on.
pub struct Totals {
    pub setup: i64,
    pub thinking: i64,
    pub tool: i64,
    pub compaction: i64,
    pub retry_wait: i64,
    pub finalization: i64,
    pub gaps: i64,
}

impl Totals {
    /// Whether the totals are those of the time from `from` up to `to`.
    pub open spec fn of(self, intervals: Seq<Interval>, from: int, to: int) -> bool {
        &&& self.setup == spent(intervals, Some(DurationCategory::Setup), from, to)
        &&& self.thinking == spent(intervals, Some(DurationCategory::Thinking), from, to)
        &&& self.tool == spent(intervals, Some(DurationCategory::Tool), from, to)
        &&& self.compaction == spent(intervals, Some(DurationCategory::Compaction), from, to)
        &&& self.retry_wait == spent(intervals, Some(DurationCategory::RetryWait), from, to)
        &&& self.finalization == spent(intervals, Some(DurationCategory::Finalization), from, to)
        &&& self.gaps == spent(intervals, None, from, to)
    }
}

/// What the time from `from` up to `to` was spent on.
pub fn measure(intervals: &Vec<Interval>, from: i64, to: i64) -> (totals: Totals)
    requires
        from <= to,
        to - from <= i64::MAX,
    ensures
        totals.of(intervals@, from as int, to as int),
{
    let mut totals = Totals {
        setup: 0,
        thinking: 0,
        tool: 0,
        compaction: 0,
        retry_wait: 0,
        finalization: 0,
        gaps: 0,
    };
    let mut at: i64 = from;
    while at < to
        invariant
            from <= at <= to,
            to - from <= i64::MAX,
            totals.of(intervals@, from as int, at as int),
        decreases to - at,
    {
        let next = next_bound(intervals, at, to);
        let length: i64 = next - at;
        proof {
            lemma_totals_step(intervals@, from as int, at as int, next as int);
        }
        match category_at(intervals, at) {
            Some(DurationCategory::Setup) => {
                totals.setup = totals.setup + length;
            },
            Some(DurationCategory::Thinking) => {
                totals.thinking = totals.thinking + length;
            },
            Some(DurationCategory::Tool) => {
                totals.tool = totals.tool + length;
            },
            Some(DurationCategory::Compaction) => {
                totals.compaction = totals.compaction + length;
            },
            Some(DurationCategory::RetryWait) => {
                totals.retry_wait = totals.retry_wait + length;
            },
            Some(DurationCategory::Finalization) => {
                totals.finalization = totals.finalization + length;
            },
            None => {
                totals.gaps = totals.gaps + length;
            },
        }
        at = next;
    }
    totals
}

proof fn lemma_totals_step(intervals: Seq<Interval>, from: int, at: int, next: int)
    requires
        from <= at < next,
        forall|x: int| at < x < next ==> !#[trigger] bound(intervals, x),
    ensures
        forall|category: Option<DurationCategory>|
            0 <= #[trigger] spent(intervals, category, from, at) <= at - from && spent(
                intervals,
                category,
                from,
                next,
            ) == spent(intervals, category, from, at) + (if spent_on(intervals, at) == category {
                next - at
            } else {
                0
            }),
{
    assert forall|category: Option<DurationCategory>|
        0 <= #[trigger] spent(intervals, category, from, at) <= at - from && spent(
            intervals,
            category,
            from,
            next,
        ) == spent(intervals, category, from, at) + (if spent_on(intervals, at) == category {
            next - at
        } else {
            0
        }) by {
        lemma_spent_bounds(intervals, category, from, at);
        lemma_segment(intervals, category, from, at, next, next);
    }
}

/// Every millisecond is spent on exactly one thing: what was spent on the categories and the gaps
/// adds up to the whole time.
pub proof fn law_durations_add_up(intervals: Seq<Interval>, from: int, to: int)
    requires
        from <= to,
    ensures
        spent(intervals, Some(DurationCategory::Setup), from, to) + spent(
            intervals,
            Some(DurationCategory::Thinking),
            from,
            to,
        ) + spent(intervals, Some(DurationCategory::Tool), from, to) + spent(
            intervals,
            Some(DurationCategory::Compaction),
            from,
            to,
        ) + spent(intervals, Some(DurationCategory::RetryWait), from, to) + spent(
            intervals,
            Some(DurationCategory::Finalization),
            from,
            to,
        ) + spent(intervals, None, from, to) == to - from,
    decreases to - from,
{
    if from < to {
        law_durations_add_up(intervals, from, to - 1);
    }
}

// ---------------------------------------------------------------------------------------------
// The intervals of a run
// ---------------------------------------------------------------------------------------------

/// The part of an interval that lies in the run: at most one interval.
pub open spec fn clipped(
    category: DurationCategory,
    from: int,
    to: int,
    run_start: i64,
    run_end: i64,
) -> Seq<Interval> {
    let start = if run_start > from {
        run_start as int
    } else {
        from
    };
    let end = if run_end < to {
        run_end as int
    } else {
        to
    };
    if end > start {
        seq![Interval { start: start as i64, end: end as i64, category }]
    } else {
        Seq::empty()
    }
}

fn add_interval(
    intervals: &mut Vec<Interval>,
    category: DurationCategory,
    from: i64,
    to: i64,
    run_start: i64,
    run_end: i64,
)
    ensures
        final(intervals)@ == old(intervals)@ + clipped(
            category,
            from as int,
            to as int,
            run_start,
            run_end,
        ),
{
    let start = if run_start > from {
        run_start
    } else {
        from
    };
    let end = if run_end < to {
        run_end
    } else {
        to
    };
    if end > start {
        intervals.push(Interval { start, end, category });
    }
    assert(intervals@ =~= old(intervals)@ + clipped(
        category,
        from as int,
        to as int,
        run_start,
        run_end,
    ));
}

/// The moment of a text that may be there.
pub open spec fn opt_millis(value: Option<Seq<char>>) -> Option<i64> {
    match value {
        Some(value) => rfc3339_millis(value),
        None => None,
    }
}

/// When something ended: at its own end, or else with the run, or else now.
pub open spec fn end_of(ended_at: Option<Seq<char>>, run_ended_at: Option<Seq<char>>, end: i64) -> i64 {
    match opt_millis(
        match ended_at {
            Some(_) => ended_at,
            None => run_ended_at,
        },
    ) {
        Some(moment) => moment,
        None => end,
    }
}

fn ending(ended_at: &Option<String>, run_ended_at: &Option<String>, end: i64) -> (out: i64)
    ensures
        out == end_of(text::opt_text(*ended_at), text::opt_text(*run_ended_at), end),
{
    let own = match ended_at {
        Some(value) => moment(value.as_str()),
        None => match run_ended_at {
            Some(value) => moment(value.as_str()),
            None => None,
        },
    };
    match own {
        Some(moment) => moment,
        None => end,
    }
}

/// The time before the first turn.
pub open spec fn setup_interval(turns: Seq<TriageTurnRecord>, start: i64, end: i64) -> Seq<Interval> {
    let first = if turns.len() > 0 {
        rfc3339_millis(turns[0].started_at@)
    } else {
        None
    };
    clipped(
        DurationCategory::Setup,
        start as int,
        match first {
            Some(moment) => moment as int,
            None => end as int,
        },
        start,
        end,
    )
}

/// The time behind the last turn of a run that has ended.
pub open spec fn final_interval(
    run: TriageRunRecord,
    turns: Seq<TriageTurnRecord>,
    start: i64,
    end: i64,
) -> Seq<Interval> {
    let last = if turns.len() > 0 && run.ended_at is Some {
        opt_millis(text::opt_text(turns.last().ended_at))
    } else {
        None
    };
    match last {
        Some(moment) => clipped(
            DurationCategory::Finalization,
            moment as int,
            end as int,
            start,
            end,
        ),
        None => Seq::empty(),
    }
}

/// The times of the steps. Compactions are counted by themselves.
pub open spec fn step_intervals(
    steps: Seq<TriageStepRecord>,
    run_ended_at: Option<Seq<char>>,
    start: i64,
    end: i64,
) -> Seq<Interval>
    decreases steps.len(),
{
    if steps.len() == 0 {
        Seq::empty()
    } else {
        let step = steps.last();
        step_intervals(steps.drop_last(), run_ended_at, start, end) + (if step.kind@
            == "compaction"@ {
            Seq::empty()
        } else {
            match rfc3339_millis(step.started_at@) {
                Some(began) => clipped(
                    if step.kind@ == "tool"@ {
                        DurationCategory::Tool
                    } else {
                        DurationCategory::Thinking
                    },
                    began as int,
                    end_of(text::opt_text(step.ended_at), run_ended_at, end) as int,
                    start,
                    end,
                ),
                None => Seq::empty(),
            }
        })
    }
}

/// The times of waiting before a retry: until the wait was over or the retry ended.
pub open spec fn retry_intervals(
    retries: Seq<TriageRetryRecord>,
    run_ended_at: Option<Seq<char>>,
    start: i64,
    end: i64,
) -> Seq<Interval>
    decreases retries.len(),
{
    if retries.len() == 0 {
        Seq::empty()
    } else {
        let retry = retries.last();
        let over = end_of(text::opt_text(retry.ended_at), run_ended_at, end);
        retry_intervals(retries.drop_last(), run_ended_at, start, end) + (match (
            rfc3339_millis(retry.started_at@),
            rfc3339_millis(retry.wait_ended_at@),
        ) {
            (Some(began), Some(waited)) => clipped(
                DurationCategory::RetryWait,
                began as int,
                if waited < over {
                    waited as int
                } else {
                    over as int
                },
                start,
                end,
            ),
            _ => Seq::empty(),
        })
    }
}

/// The times of the compactions.
pub open spec fn compaction_intervals(
    compactions: Seq<TriageCompactionRecord>,
    run_ended_at: Option<Seq<char>>,
    start: i64,
    end: i64,
) -> Seq<Interval>
    decreases compactions.len(),
{
    if compactions.len() == 0 {
        Seq::empty()
    } else {
        let compaction = compactions.last();
        compaction_intervals(compactions.drop_last(), run_ended_at, start, end) + (
        match rfc3339_millis(compaction.started_at@) {
            Some(began) => clipped(
                DurationCategory::Compaction,
                began as int,
                end_of(text::opt_text(compaction.ended_at), run_ended_at, end) as int,
                start,
                end,
            ),
            None => Seq::empty(),
        })
    }
}

/// All intervals of a run.
pub open spec fn run_intervals(
    run: TriageRunRecord,
    steps: Seq<TriageStepRecord>,
    turns: Seq<TriageTurnRecord>,
    retries: Seq<TriageRetryRecord>,
    compactions: Seq<TriageCompactionRecord>,
    start: i64,
    end: i64,
) -> Seq<Interval> {
    let ended_at = text::opt_text(run.ended_at);
    setup_interval(turns, start, end) + final_interval(run, turns, start, end) + step_intervals(
        steps,
        ended_at,
        start,
        end,
    ) + retry_intervals(retries, ended_at, start, end) + compaction_intervals(
        compactions,
        ended_at,
        start,
        end,
    )
}

fn add_steps(
    intervals: &mut Vec<Interval>,
    steps: &Vec<TriageStepRecord>,
    run_ended_at: &Option<String>,
    start: i64,
    end: i64,
)
    ensures
        final(intervals)@ == old(intervals)@ + step_intervals(
            steps@,
            text::opt_text(*run_ended_at),
            start,
            end,
        ),
{
    let mut i: usize = 0;
    assert(steps@.take(0) =~= Seq::empty());
    assert(intervals@ =~= old(intervals)@ + Seq::<Interval>::empty());
    while i < steps.len()
        invariant
            i <= steps@.len(),
            intervals@ == old(intervals)@ + step_intervals(
                steps@.take(i as int),
                text::opt_text(*run_ended_at),
                start,
                end,
            ),
        decreases steps@.len() - i,
    {
        assert(steps@.take(i + 1).drop_last() =~= steps@.take(i as int));
        let ghost before = intervals@;
        if !text::same(steps[i].kind.as_str(), "compaction") {
            let category = if text::same(steps[i].kind.as_str(), "tool") {
                DurationCategory::Tool
            } else {
                DurationCategory::Thinking
            };
            if let Some(began) = moment(steps[i].started_at.as_str()) {
                let over = ending(&steps[i].ended_at, run_ended_at, end);
                add_interval(intervals, category, began, over, start, end);
            }
        }
        assert(intervals@ =~= old(intervals)@ + step_intervals(
            steps@.take(i + 1),
            text::opt_text(*run_ended_at),
            start,
            end,
        ));
        i += 1;
    }
    assert(steps@.take(i as int) =~= steps@);
}

fn add_retries(
    intervals: &mut Vec<Interval>,
    retries: &Vec<TriageRetryRecord>,
    run_ended_at: &Option<String>,
    start: i64,
    end: i64,
)
    ensures
        final(intervals)@ == old(intervals)@ + retry_intervals(
            retries@,
            text::opt_text(*run_ended_at),
            start,
            end,
        ),
{
    let mut i: usize = 0;
    assert(retries@.take(0) =~= Seq::empty());
    assert(intervals@ =~= old(intervals)@ + Seq::<Interval>::empty());
    while i < retries.len()
        invariant
            i <= retries@.len(),
            intervals@ == old(intervals)@ + retry_intervals(
                retries@.take(i as int),
                text::opt_text(*run_ended_at),
                start,
                end,
            ),
        decreases retries@.len() - i,
    {
        assert(retries@.take(i + 1).drop_last() =~= retries@.take(i as int));
        let ghost before = intervals@;
        let over = ending(&retries[i].ended_at, run_ended_at, end);
        if let Some(began) = moment(retries[i].started_at.as_str()) {
            if let Some(waited) = moment(retries[i].wait_ended_at.as_str()) {
                let until = if waited < over {
                    waited
                } else {
                    over
                };
                add_interval(intervals, DurationCategory::RetryWait, began, until, start, end);
            }
        }
        assert(intervals@ =~= old(intervals)@ + retry_intervals(
            retries@.take(i + 1),
            text::opt_text(*run_ended_at),
            start,
            end,
        ));
        i += 1;
    }
    assert(retries@.take(i as int) =~= retries@);
}

fn add_compactions(
    intervals: &mut Vec<Interval>,
    compactions: &Vec<TriageCompactionRecord>,
    run_ended_at: &Option<String>,
    start: i64,
    end: i64,
)
    ensures
        final(intervals)@ == old(intervals)@ + compaction_intervals(
            compactions@,
            text::opt_text(*run_ended_at),
            start,
            end,
        ),
{
    let mut i: usize = 0;
    assert(compactions@.take(0) =~= Seq::empty());
    assert(intervals@ =~= old(intervals)@ + Seq::<Interval>::empty());
    while i < compactions.len()
        invariant
            i <= compactions@.len(),
            intervals@ == old(intervals)@ + compaction_intervals(
                compactions@.take(i as int),
                text::opt_text(*run_ended_at),
                start,
                end,
            ),
        decreases compactions@.len() - i,
    {
        assert(compactions@.take(i + 1).drop_last() =~= compactions@.take(i as int));
        let ghost before = intervals@;
        if let Some(began) = moment(compactions[i].started_at.as_str()) {
            let over = ending(&compactions[i].ended_at, run_ended_at, end);
            add_interval(intervals, DurationCategory::Compaction, began, over, start, end);
        }
        assert(intervals@ =~= old(intervals)@ + compaction_intervals(
            compactions@.take(i + 1),
            text::opt_text(*run_ended_at),
            start,
            end,
        ));
        i += 1;
    }
    assert(compactions@.take(i as int) =~= compactions@);
}

/// The times of a run that took from `start` to `end`. Where it ends before it starts, all the time
/// between is a gap.
pub open spec fn partitioned(intervals: Seq<Interval>, start: i64, end: i64) -> DurationMetrics {
    let from = if start < end {
        start as int
    } else {
        end as int
    };
    let to = if start < end {
        end as int
    } else {
        start as int
    };
    let of = |category: Option<DurationCategory>| Some(spent(intervals, category, from, to) as i64);
    DurationMetrics {
        wall: if end > start {
            (end - start) as i64
        } else {
            0
        },
        setup: of(Some(DurationCategory::Setup)),
        thinking: of(Some(DurationCategory::Thinking)),
        tool: of(Some(DurationCategory::Tool)),
        compaction: of(Some(DurationCategory::Compaction)),
        retry_wait: of(Some(DurationCategory::RetryWait)),
        gaps: of(None),
        finalization: of(Some(DurationCategory::Finalization)),
    }
}

/// What the time of a run that took from `start` to `end` was spent on.
pub fn partition_durations(
    run: &TriageRunRecord,
    steps: &Vec<TriageStepRecord>,
    turns: &Vec<TriageTurnRecord>,
    retries: &Vec<TriageRetryRecord>,
    compactions: &Vec<TriageCompactionRecord>,
    start: i64,
    end: i64,
) -> (metrics: DurationMetrics)
    requires
        FIRST_MOMENT <= start <= LAST_MOMENT,
        FIRST_MOMENT <= end <= LAST_MOMENT,
    ensures
        metrics == partitioned(
            run_intervals(*run, steps@, turns@, retries@, compactions@, start, end),
            start,
            end,
        ),
{
    let mut intervals: Vec<Interval> = Vec::new();
    let first = if turns.len() > 0 {
        moment(turns[0].started_at.as_str())
    } else {
        None
    };
    let set_up = match first {
        Some(moment) => moment,
        None => end,
    };
    add_interval(&mut intervals, DurationCategory::Setup, start, set_up, start, end);
    assert(intervals@ =~= setup_interval(turns@, start, end));
    if turns.len() > 0 && run.ended_at.is_some() {
        if let Some(ended_at) = &turns[turns.len() - 1].ended_at {
            if let Some(last) = moment(ended_at.as_str()) {
                add_interval(
                    &mut intervals,
                    DurationCategory::Finalization,
                    last,
                    end,
                    start,
                    end,
                );
            }
        }
    }
    assert(intervals@ =~= setup_interval(turns@, start, end) + final_interval(
        *run,
        turns@,
        start,
        end,
    ));
    add_steps(&mut intervals, steps, &run.ended_at, start, end);
    add_retries(&mut intervals, retries, &run.ended_at, start, end);
    add_compactions(&mut intervals, compactions, &run.ended_at, start, end);
    let from = if start < end {
        start
    } else {
        end
    };
    let to = if start < end {
        end
    } else {
        start
    };
    let totals = measure(&intervals, from, to);
    DurationMetrics {
        wall: if end > start {
            end - start
        } else {
            0
        },
        setup: Some(totals.setup),
        thinking: Some(totals.thinking),
        tool: Some(totals.tool),
        compaction: Some(totals.compaction),
        retry_wait: Some(totals.retry_wait),
        gaps: Some(totals.gaps),
        finalization: Some(totals.finalization),
    }
}

/// Where a run does not end before it starts, its times add up to its wall time.
pub proof fn law_partition_adds_up(intervals: Seq<Interval>, start: i64, end: i64)
    requires
        FIRST_MOMENT <= start <= end <= LAST_MOMENT,
    ensures
        ({
            let metrics = partitioned(intervals, start, end);
            metrics.setup->0 + metrics.thinking->0 + metrics.tool->0 + metrics.compaction->0
                + metrics.retry_wait->0 + metrics.finalization->0 + metrics.gaps->0
                == metrics.wall
        }),
{
    law_durations_add_up(intervals, start as int, end as int);
    lemma_spent_bounds(intervals, Some(DurationCategory::Setup), start as int, end as int);
    lemma_spent_bounds(intervals, Some(DurationCategory::Thinking), start as int, end as int);
    lemma_spent_bounds(intervals, Some(DurationCategory::Tool), start as int, end as int);
    lemma_spent_bounds(intervals, Some(DurationCategory::Compaction), start as int, end as int);
    lemma_spent_bounds(intervals, Some(DurationCategory::RetryWait), start as int, end as int);
    lemma_spent_bounds(intervals, Some(DurationCategory::Finalization), start as int, end as int);
    lemma_spent_bounds(intervals, None, start as int, end as int);
}

} // verus!
