//! Queue trends: how a link's backlog moves from one sample to the next.
use vstd::prelude::*;

verus! {

/// The direction in which a queue's length is moving.
#[derive(Clone, Copy, Debug, PartialEq, Eq, Structural)]
pub enum QueueTrend {
    Starved,
    FastDraining,
    Draining,
    Stable,
    Growing,
    FastGrowing,
    Runaway,
}

/// The trends that shrink a queue, or find it empty.
pub open spec fn draining(trend: QueueTrend) -> bool {
    trend is Starved || trend is FastDraining || trend is Draining
}

/// The trends that lengthen a queue.
pub open spec fn growing(trend: QueueTrend) -> bool {
    trend is Growing || trend is FastGrowing || trend is Runaway
}

/// The position of a trend on the scale from starved to runaway.
pub open spec fn trend_code(trend: QueueTrend) -> u8 {
    match trend {
        QueueTrend::Starved => 0,
        QueueTrend::FastDraining => 1,
        QueueTrend::Draining => 2,
        QueueTrend::Stable => 3,
        QueueTrend::Growing => 4,
        QueueTrend::FastGrowing => 5,
        QueueTrend::Runaway => 6,
    }
}

impl QueueTrend {
    /// The trend's number in telemetry, from 0 (starved) to 6 (runaway).
    pub fn code(self) -> (code: u8)
        ensures
            code == trend_code(self),
    {
        match self {
            QueueTrend::Starved => 0,
            QueueTrend::FastDraining => 1,
            QueueTrend::Draining => 2,
            QueueTrend::Stable => 3,
            QueueTrend::Growing => 4,
            QueueTrend::FastGrowing => 5,
            QueueTrend::Runaway => 6,
        }
    }

    pub fn is_draining(self) -> (yes: bool)
        ensures
            yes == draining(self),
    {
        matches!(self, QueueTrend::Starved | QueueTrend::FastDraining | QueueTrend::Draining)
    }

    pub fn is_growing(self) -> (yes: bool)
        ensures
            yes == growing(self),
    {
        matches!(self, QueueTrend::Growing | QueueTrend::FastGrowing | QueueTrend::Runaway)
    }
}

/// Where a link's net rate stands against its larger one-way rate (and at
/// least one item per second). With `ratio` for net rate over that basis:
///
/// - `FastDraining`: `ratio <= -0.45`
/// - `Draining`: `-0.45 < ratio <= -0.12`
/// - `Steady`: `-0.12 < ratio < 0.12`
/// - `Growing`: `0.12 <= ratio < 0.45`
/// - `FastGrowing`: `0.45 <= ratio < 0.85`
/// - `Runaway`: `0.85 <= ratio`
#[derive(Clone, Copy, Debug, PartialEq, Eq, Structural)]
pub enum RateBand {
    FastDraining,
    Draining,
    Steady,
    Growing,
    FastGrowing,
    Runaway,
}

/// The trend of a queue that holds `len` items now and held `previous_len` at
/// the last sample; `quiet` means that next to nothing arrives or leaves.
pub open spec fn queue_trend(
    len: int,
    previous_len: int,
    quiet: bool,
    band: RateBand,
) -> QueueTrend {
    if len == 0 && quiet {
        QueueTrend::Starved
    } else if len == 0 && previous_len == 0 {
        QueueTrend::Stable
    } else {
        match band {
            RateBand::FastDraining => QueueTrend::FastDraining,
            RateBand::Draining => QueueTrend::Draining,
            RateBand::Steady => if len - previous_len > 2 {
                QueueTrend::Growing
            } else {
                QueueTrend::Stable
            },
            RateBand::Growing => QueueTrend::Growing,
            RateBand::FastGrowing => QueueTrend::FastGrowing,
            RateBand::Runaway => if len > previous_len {
                QueueTrend::Runaway
            } else {
                QueueTrend::FastGrowing
            },
        }
    }
}

/// Classifies a queue from two lengths and its rates. `quiet` is true where
/// the arrival and drain rates together are under 0.01 items per second.
pub fn classify_queue_trend(
    len: usize,
    previous_len: usize,
    quiet: bool,
    band: RateBand,
) -> (trend: QueueTrend)
    requires
        len <= isize::MAX,
        previous_len <= isize::MAX,
    ensures
        trend == queue_trend(len as int, previous_len as int, quiet, band),
{
    if len == 0 && quiet {
        return QueueTrend::Starved;
    }
    if len == 0 && previous_len == 0 {
        return QueueTrend::Stable;
    }
    let length_delta: isize = len as isize - previous_len as isize;
    match band {
        RateBand::FastDraining => QueueTrend::FastDraining,
        RateBand::Draining => QueueTrend::Draining,
        RateBand::Steady => if length_delta > 2 {
            QueueTrend::Growing
        } else {
            QueueTrend::Stable
        },
        RateBand::Growing => QueueTrend::Growing,
        RateBand::FastGrowing => QueueTrend::FastGrowing,
        RateBand::Runaway => if length_delta > 0 {
            QueueTrend::Runaway
        } else {
            QueueTrend::FastGrowing
        },
    }
}

/// What the controller remembers of one link between two samples.
#[derive(Clone, Copy, Debug)]
pub struct LinkControl {
    pub last_arrivals: u64,
    pub last_drains: u64,
    pub len: usize,
    pub previous_len: usize,
    pub trend: QueueTrend,
}

impl Default for LinkControl {
    fn default() -> (control: Self)
        ensures
            control == idle_link(),
    {
        LinkControl {
            last_arrivals: 0,
            last_drains: 0,
            len: 0,
            previous_len: 0,
            trend: QueueTrend::Starved,
        }
    }
}

/// A link of which nothing has been seen yet.
pub open spec fn idle_link() -> LinkControl {
    LinkControl {
        last_arrivals: 0,
        last_drains: 0,
        len: 0,
        previous_len: 0,
        trend: QueueTrend::Starved,
    }
}

/// One reading of a link: its two running totals and its present length.
#[derive(Clone, Copy, Debug)]
pub struct LinkReading {
    pub arrivals: u64,
    pub drains: u64,
    pub len: usize,
}

/// What moved over a link since the reading before.
#[derive(Clone, Copy, Debug)]
pub struct LinkDelta {
    pub arrivals: u64,
    pub drains: u64,
}

/// What the rates of a link say, once they have been smoothed.
#[derive(Clone, Copy, Debug)]
pub struct LinkRates {
    pub quiet: bool,
    pub band: RateBand,
}

/// How far a running total rose, or zero where it was reset.
pub open spec fn rise(before: u64, after: u64) -> u64 {
    if after >= before {
        (after - before) as u64
    } else {
        0
    }
}

/// The memory of a link after a reading; the trend waits for the rates.
pub open spec fn link_after_reading(control: LinkControl, reading: LinkReading) -> LinkControl {
    LinkControl {
        last_arrivals: reading.arrivals,
        last_drains: reading.drains,
        len: reading.len,
        previous_len: control.len,
        trend: control.trend,
    }
}

/// The memory of a link once the rates have been judged.
pub open spec fn link_after_rates(control: LinkControl, rates: LinkRates) -> LinkControl {
    LinkControl {
        trend: queue_trend(
            control.len as int,
            control.previous_len as int,
            rates.quiet,
            rates.band,
        ),
        ..control
    }
}

/// Takes one reading per link into the links' memory and returns what moved
/// over each of them, from which the caller derives the rates.
pub fn sample_links(readings: &Vec<LinkReading>, controls: &mut Vec<LinkControl>) -> (deltas: Vec<
    LinkDelta,
>)
    requires
        readings@.len() <= old(controls)@.len(),
    ensures
        final(controls)@ == Seq::new(
            old(controls)@.len(),
            |i: int|
                if i < readings@.len() {
                    link_after_reading(old(controls)@[i], readings@[i])
                } else {
                    old(controls)@[i]
                },
        ),
        deltas@ == Seq::new(
            readings@.len(),
            |i: int|
                LinkDelta {
                    arrivals: rise(old(controls)@[i].last_arrivals, readings@[i].arrivals),
                    drains: rise(old(controls)@[i].last_drains, readings@[i].drains),
                },
        ),
{
    let mut deltas: Vec<LinkDelta> = Vec::new();
    let ghost before = controls@;
    let mut index: usize = 0;
    while index < readings.len()
        invariant
            index <= readings@.len() <= before.len(),
            controls@.len() == before.len(),
            deltas@.len() == index,
            forall|i: int|
                0 <= i < index ==> controls@[i] == link_after_reading(before[i], readings@[i]),
            forall|i: int| index <= i < before.len() ==> controls@[i] == before[i],
            forall|i: int|
                0 <= i < index ==> #[trigger] deltas@[i] == (LinkDelta {
                    arrivals: rise(before[i].last_arrivals, readings@[i].arrivals),
                    drains: rise(before[i].last_drains, readings@[i].drains),
                }),
        decreases readings@.len() - index,
    {
        let reading: LinkReading = readings[index];
        let control: LinkControl = controls[index];
        deltas.push(
            LinkDelta {
                arrivals: reading.arrivals.saturating_sub(control.last_arrivals),
                drains: reading.drains.saturating_sub(control.last_drains),
            },
        );
        controls[index].last_arrivals = reading.arrivals;
        controls[index].last_drains = reading.drains;
        controls[index].previous_len = control.len;
        controls[index].len = reading.len;
        index += 1;
    }
    deltas
}

/// Sets each link's trend from its two lengths and its smoothed rates.
pub fn classify_links(rates: &Vec<LinkRates>, controls: &mut Vec<LinkControl>)
    requires
        rates@.len() <= old(controls)@.len(),
        forall|i: int|
            0 <= i < rates@.len() ==> #[trigger] old(controls)@[i].len <= isize::MAX && old(
                controls,
            )@[i].previous_len <= isize::MAX,
    ensures
        final(controls)@ == Seq::new(
            old(controls)@.len(),
            |i: int|
                if i < rates@.len() {
                    link_after_rates(old(controls)@[i], rates@[i])
                } else {
                    old(controls)@[i]
                },
        ),
{
    let ghost before = controls@;
    let mut index: usize = 0;
    while index < rates.len()
        invariant
            index <= rates@.len() <= before.len(),
            controls@.len() == before.len(),
            forall|i: int|
                0 <= i < rates@.len() ==> #[trigger] before[i].len <= isize::MAX
                    && before[i].previous_len <= isize::MAX,
            forall|i: int|
                0 <= i < index ==> controls@[i] == link_after_rates(before[i], rates@[i]),
            forall|i: int| index <= i < before.len() ==> controls@[i] == before[i],
        decreases rates@.len() - index,
    {
        let control: LinkControl = controls[index];
        assert(before[index as int].len <= isize::MAX);
        controls[index].trend =
        classify_queue_trend(
            control.len,
            control.previous_len,
            rates[index].quiet,
            rates[index].band,
        );
        index += 1;
    }
}

/// A queue never drains and grows at once: draining trends are numbered below
/// `Stable`, growing ones above it.
pub proof fn law_draining_excludes_growing(trend: QueueTrend)
    ensures
        !(draining(trend) && growing(trend)),
        draining(trend) <==> trend_code(trend) < 3,
        growing(trend) <==> trend_code(trend) > 3,
{
}

/// Distinct trends have distinct numbers.
pub proof fn law_trend_codes_are_distinct(a: QueueTrend, b: QueueTrend)
    requires
        trend_code(a) == trend_code(b),
    ensures
        a == b,
{
}

/// A queue is called starved where it is empty and quiet, and only there; one that
/// was and is empty is starved or stable.
pub proof fn law_empty_queue_is_starved_or_stable(
    len: int,
    previous_len: int,
    quiet: bool,
    band: RateBand,
)
    ensures
        queue_trend(len, previous_len, quiet, band) is Starved <==> len == 0 && quiet,
        len == 0 && previous_len == 0 ==> {
            let trend = queue_trend(len, previous_len, quiet, band);
            trend is Starved || trend is Stable
        },
{
}

/// A queue that holds or held items is called by the rates: where more leaves than
/// comes it drains, and where more comes than leaves it grows, the faster the more.
pub proof fn law_moving_queue_is_called_by_its_rates(
    len: int,
    previous_len: int,
    quiet: bool,
    band: RateBand,
)
    requires
        !(len == 0 && quiet),
        !(len == 0 && previous_len == 0),
    ensures
        ({
            let trend = queue_trend(len, previous_len, quiet, band);
            &&& trend is FastDraining <==> band is FastDraining
            &&& trend is Draining <==> band is Draining
            &&& band is Growing ==> trend is Growing
            &&& band is FastGrowing ==> trend is FastGrowing
            &&& band is Runaway && len > previous_len ==> trend is Runaway
            &&& band is Runaway && len <= previous_len ==> trend is FastGrowing
            &&& band is Steady && len > previous_len + 2 ==> trend is Growing
            &&& band is Steady && len <= previous_len + 2 ==> trend is Stable
        }),
{
}

/// A longer queue is never called less growing: with the same rates and the same
/// length before, one more item does not move the trend down.
pub proof fn law_trend_follows_the_length(
    len: int,
    more: int,
    previous_len: int,
    quiet: bool,
    band: RateBand,
)
    requires
        0 < len <= more,
    ensures
        trend_code(queue_trend(len, previous_len, quiet, band)) <= trend_code(
            queue_trend(more, previous_len, quiet, band),
        ),
{
}

/// What moved over a link since the last reading is the rise of its total: the two
/// readings differ by it, and a total that was reset tells of nothing.
pub proof fn law_rise_is_the_difference(before: u64, after: u64)
    ensures
        after >= before ==> before + rise(before, after) == after,
        after < before ==> rise(before, after) == 0,
{
}

/// A reading becomes the link's memory, with the length before it, and the rates then
/// set the trend and nothing else.
pub proof fn law_reading_is_remembered(
    control: LinkControl,
    reading: LinkReading,
    next: LinkReading,
    rates: LinkRates,
)
    ensures
        ({
            let read = link_after_reading(control, reading);
            let judged = link_after_rates(read, rates);
            &&& read.last_arrivals == reading.arrivals
            &&& read.last_drains == reading.drains
            &&& read.len == reading.len
            &&& read.previous_len == control.len
            &&& read.trend == control.trend
            &&& judged == (LinkControl { trend: judged.trend, ..read })
            &&& judged.trend is Starved <==> reading.len == 0 && rates.quiet
            &&& link_after_reading(judged, next).previous_len == reading.len
        }),
{
}

/// A link of which nothing was seen is empty and starved.
pub proof fn law_unseen_link_is_starved()
    ensures
        idle_link().len == 0,
        idle_link().previous_len == 0,
        idle_link().last_arrivals == 0,
        idle_link().last_drains == 0,
        idle_link().trend is Starved,
{
}

/// A trend tells whether its queue shortens or lengthens, and its number rises from
/// starved, the least, over stable to runaway.
pub proof fn law_trend_is_told(trend: QueueTrend, code: u8, draining: bool, growing: bool)
    requires
        call_ensures(QueueTrend::code, (trend,), code),
        call_ensures(QueueTrend::is_draining, (trend,), draining),
        call_ensures(QueueTrend::is_growing, (trend,), growing),
    ensures
        draining <==> trend is Starved || trend is FastDraining || trend is Draining,
        growing <==> trend is Growing || trend is FastGrowing || trend is Runaway,
        trend is Starved <==> code == 0,
        trend is FastDraining <==> code == 1,
        trend is Draining <==> code == 2,
        trend is Stable <==> code == 3,
        trend is Growing <==> code == 4,
        trend is FastGrowing <==> code == 5,
        trend is Runaway <==> code == 6,
{
}

/// A queue is called what its lengths and rates say.
pub proof fn law_queue_is_called_so(
    len: usize,
    previous_len: usize,
    quiet: bool,
    band: RateBand,
    trend: QueueTrend,
)
    requires
        len <= isize::MAX,
        previous_len <= isize::MAX,
        call_ensures(classify_queue_trend, (len, previous_len, quiet, band), trend),
    ensures
        trend is Starved <==> len == 0 && quiet,
        len == 0 && previous_len == 0 && !quiet ==> trend is Stable,
        len > 0 || (previous_len > 0 && !quiet) ==> {
            &&& trend is FastDraining <==> band is FastDraining
            &&& trend is Draining <==> band is Draining
            &&& trend is Stable <==> band is Steady && len <= previous_len + 2
            &&& trend is Growing <==> band is Growing || (band is Steady && len > previous_len + 2)
            &&& trend is FastGrowing <==> band is FastGrowing || (band is Runaway && len
                <= previous_len)
            &&& trend is Runaway <==> band is Runaway && len > previous_len
        },
{
}

/// Each link that was read takes its own reading in and tells what moved over it; the
/// others are left.
pub proof fn law_readings_go_to_their_links(
    readings: Vec<LinkReading>,
    controls: &mut Vec<LinkControl>,
    deltas: Vec<LinkDelta>,
    i: int,
)
    requires
        readings@.len() <= old(controls)@.len(),
        0 <= i < old(controls)@.len(),
        call_ensures(sample_links, (&readings, controls), deltas),
    ensures
        ({
            let before = old(controls)@[i];
            let after = final(controls)@[i];
            &&& final(controls)@.len() == old(controls)@.len()
            &&& deltas@.len() == readings@.len()
            &&& i >= readings@.len() ==> after == before
            &&& i < readings@.len() ==> {
                &&& after.last_arrivals == readings@[i].arrivals
                &&& after.last_drains == readings@[i].drains
                &&& after.len == readings@[i].len
                &&& after.previous_len == before.len
                &&& after.trend == before.trend
                &&& readings@[i].arrivals >= before.last_arrivals ==> before.last_arrivals
                    + deltas@[i].arrivals == readings@[i].arrivals
                &&& readings@[i].arrivals < before.last_arrivals ==> deltas@[i].arrivals == 0
                &&& readings@[i].drains >= before.last_drains ==> before.last_drains
                    + deltas@[i].drains == readings@[i].drains
                &&& readings@[i].drains < before.last_drains ==> deltas@[i].drains == 0
            }
        }),
{
}

/// Each link that was judged has the trend of its own lengths and rates; nothing else
/// changes.
pub proof fn law_rates_go_to_their_links(
    rates: Vec<LinkRates>,
    controls: &mut Vec<LinkControl>,
    i: int,
)
    requires
        rates@.len() <= old(controls)@.len(),
        0 <= i < old(controls)@.len(),
        call_ensures(classify_links, (&rates, controls), ()),
    ensures
        ({
            let before = old(controls)@[i];
            let after = final(controls)@[i];
            &&& after == (LinkControl { trend: after.trend, ..before })
            &&& i >= rates@.len() ==> after.trend == before.trend
            &&& i < rates@.len() ==> after.trend == queue_trend(
                before.len as int,
                before.previous_len as int,
                rates@[i].quiet,
                rates@[i].band,
            )
        }),
{
}

} // verus!
