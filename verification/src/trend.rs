//! Trend classification of a daily price series. The price arithmetic
//! (moving averages, percentage change) is done on floating point by the
//! caller, which hands over the comparisons it made; what is decided from
//! them is decided here.
use vstd::prelude::*;

verus! {

/// Which way a series, or one day's move, points.
#[derive(PartialEq, Eq, Structural, Clone, Copy, Debug)]
pub enum TrendDirection {
    Up,
    Down,
    Flat,
}

impl TrendDirection {
    /// The label under which the direction is shown.
    pub fn label(&self) -> (s: &'static str)
        ensures
            *self == TrendDirection::Up ==> s@ == "上涨"@,
            *self == TrendDirection::Down ==> s@ == "下跌"@,
            *self == TrendDirection::Flat ==> s@ == "震荡"@,
    {
        match self {
            TrendDirection::Up => "上涨",
            TrendDirection::Down => "下跌",
            TrendDirection::Flat => "震荡",
        }
    }
}

/// The direction of the last day's move; flat when there is none.
pub open spec fn last_move(moves: Seq<TrendDirection>) -> TrendDirection {
    if moves.len() == 0 {
        TrendDirection::Flat
    } else {
        moves.last()
    }
}

/// How many of the last moves, counted back from the end, are all `dir`.
pub open spec fn trailing_run(moves: Seq<TrendDirection>, dir: TrendDirection) -> nat
    decreases moves.len(),
{
    if moves.len() > 0 && moves.last() == dir {
        trailing_run(moves.drop_last(), dir) + 1
    } else {
        0
    }
}

/// The number of consecutive days that the latest move has lasted: the run
/// of days moving the way the last day moved, or 0 when the last day was flat.
pub open spec fn consecutive_days(moves: Seq<TrendDirection>) -> nat {
    if last_move(moves) == TrendDirection::Flat {
        0
    } else {
        trailing_run(moves, last_move(moves))
    }
}

/// The overall direction: up when the 5-day average is above the 20-day
/// one and the price rose by more than 2% over the last 5 days; down in the
/// mirror case; flat otherwise.
pub open spec fn classify(averages: TrendDirection, rise: TrendDirection) -> TrendDirection {
    if averages == TrendDirection::Up && rise == TrendDirection::Up {
        TrendDirection::Up
    } else if averages == TrendDirection::Down && rise == TrendDirection::Down {
        TrendDirection::Down
    } else {
        TrendDirection::Flat
    }
}

/// The opposite direction; flat stays flat.
pub open spec fn mirror(d: TrendDirection) -> TrendDirection {
    match d {
        TrendDirection::Up => TrendDirection::Down,
        TrendDirection::Down => TrendDirection::Up,
        TrendDirection::Flat => TrendDirection::Flat,
    }
}

/// A rising verdict needs the 5-day average above the 20-day one and a
/// 5-day rise of more than 2%, and these two suffice; a falling verdict
/// mirrors it; and turning both inputs upside down turns the verdict upside
/// down.
pub proof fn law_classify_agreement(averages: TrendDirection, rise: TrendDirection)
    ensures
        classify(averages, rise) == TrendDirection::Up <==> averages == TrendDirection::Up
            && rise == TrendDirection::Up,
        classify(averages, rise) == TrendDirection::Down <==> averages == TrendDirection::Down
            && rise == TrendDirection::Down,
        classify(mirror(averages), mirror(rise)) == mirror(classify(averages, rise)),
{
}

/// The latest move never lasts longer than the series, and every one of the
/// days it counts moved the way the last day did.
pub proof fn law_streak_bounds(moves: Seq<TrendDirection>)
    ensures
        consecutive_days(moves) <= moves.len(),
        consecutive_days(moves) > 0 <==> last_move(moves) != TrendDirection::Flat,
        forall|i: int|
            moves.len() - consecutive_days(moves) <= i < moves.len() ==> #[trigger] moves[i]
                == last_move(moves),
{
    if last_move(moves) != TrendDirection::Flat {
        lemma_trailing_run(moves, last_move(moves));
    }
}

proof fn lemma_trailing_run(moves: Seq<TrendDirection>, dir: TrendDirection)
    ensures
        trailing_run(moves, dir) <= moves.len(),
        moves.len() > 0 && moves.last() == dir ==> trailing_run(moves, dir) > 0,
        forall|i: int| moves.len() - trailing_run(moves, dir) <= i < moves.len() ==> #[trigger] moves[i] == dir,
    decreases moves.len(),
{
    if moves.len() > 0 && moves.last() == dir {
        lemma_trailing_run(moves.drop_last(), dir);
        assert forall|i: int| moves.len() - trailing_run(moves, dir) <= i < moves.len() implies #[trigger] moves[i] == dir by {
            if i < moves.len() - 1 {
                assert(moves.drop_last()[i] == moves[i]);
            }
        }
    }
}

/// The fewest prices a trend is judged on.
pub const MIN_TREND_PRICES: usize = 20;

/// What the library decides of a trend.
#[derive(PartialEq, Eq, Structural, Clone, Copy, Debug)]
pub struct TrendVerdict {
    pub direction: TrendDirection,
    pub consecutive_days: u32,
    pub period_days: u32,
}

/// The latest move and how many days it has lasted, counting back from the
/// last move while the moves keep that direction.
pub fn latest_streak(moves: &[TrendDirection]) -> (r: (TrendDirection, u32))
    requires
        consecutive_days(moves@) <= u32::MAX,
    ensures
        r.0 == last_move(moves@),
        r.1 == consecutive_days(moves@),
{
    let len = moves.len();
    let direction = if len == 0 {
        TrendDirection::Flat
    } else {
        moves[len - 1]
    };
    let mut count: u32 = 0;
    if direction == TrendDirection::Flat {
        return (direction, 0);
    }
    let mut i: usize = len;
    assert(moves@.take(len as int) =~= moves@);
    while i > 0
        invariant
            i <= len == moves@.len(),
            direction != TrendDirection::Flat,
            direction == last_move(moves@),
            consecutive_days(moves@) <= u32::MAX,
            count + i == len,
            trailing_run(moves@, direction) == count + trailing_run(moves@.take(i as int), direction),
        ensures
            trailing_run(moves@, direction) == count,
        decreases i,
    {
        assert(moves@.take(i as int).drop_last() =~= moves@.take(i - 1));
        if moves[i - 1] != direction {
            assert(moves@.take(i as int).last() == moves@[i - 1]);
            assert(trailing_run(moves@.take(i as int), direction) == 0);
            break;
        }
        count += 1;
        i -= 1;
    }
    (direction, count)
}

/// The verdict on a series of `price_count` prices whose day-by-day moves
/// are `moves`, given how the 5-day moving average compares with the 20-day
/// one (`averages`) and whether the price rose by more than 2% over the last
/// 5 days (`Up`), fell by more than 2% (`Down`) or neither (`Flat`). The
/// streak of the latest move is reported beside the verdict. No verdict
/// below `MIN_TREND_PRICES` prices.
pub fn assess_trend(
    price_count: usize,
    moves: &[TrendDirection],
    averages: TrendDirection,
    rise: TrendDirection,
) -> (r: Option<TrendVerdict>)
    requires
        price_count >= MIN_TREND_PRICES ==> moves@.len() + 1 == price_count,
        consecutive_days(moves@) <= u32::MAX,
    ensures
        r is None <==> price_count < MIN_TREND_PRICES,
        r matches Some(v) ==> {
            &&& v.consecutive_days == consecutive_days(moves@)
            &&& v.direction == classify(averages, rise)
            &&& v.period_days == price_count as u32
        },
{
    if price_count < MIN_TREND_PRICES {
        return None;
    }
    let (_, consecutive) = latest_streak(moves);
    let direction = if averages == TrendDirection::Up && rise == TrendDirection::Up {
        TrendDirection::Up
    } else if averages == TrendDirection::Down && rise == TrendDirection::Down {
        TrendDirection::Down
    } else {
        TrendDirection::Flat
    };
    let period_days = price_count as u32;
    Some(TrendVerdict { direction, consecutive_days: consecutive, period_days })
}

} // verus!
