//! Which endpoint answers a refresh, and how long refreshes take.
use vstd::prelude::*;

verus! {

/// How a refresh is sent.
#[derive(Debug, Clone, Copy, PartialEq, Eq, Structural)]
pub enum Route {
    /// Over the WebSocket connection.
    WebSocket,
    /// To all endpoints at once, for the first answer.
    Race,
    /// To the only endpoint.
    Single,
}

/// How a refresh is sent: over the WebSocket connection if there is one, and otherwise to all
/// endpoints at once if there are several.
pub fn refresh_route(has_ws: bool, http_count: usize) -> (r: Route)
    requires
        has_ws || http_count >= 1,
    ensures
        r == if has_ws {
            Route::WebSocket
        } else if http_count > 1 {
            Route::Race
        } else {
            Route::Single
        },
{
    if has_ws {
        Route::WebSocket
    } else if http_count > 1 {
        Route::Race
    } else {
        Route::Single
    }
}

/// How a race stands after an endpoint answered.
#[derive(Debug, Clone, Copy, PartialEq, Eq, Structural)]
pub enum RaceState {
    /// The answer is taken.
    Won,
    /// The next answer is awaited.
    Open,
    /// No endpoint is left.
    Lost,
}

/// How a race stands: the first success wins, and it is lost when all have failed.
pub open spec fn race_state(succeeded: bool, remaining: int) -> RaceState {
    if succeeded {
        RaceState::Won
    } else if remaining > 0 {
        RaceState::Open
    } else {
        RaceState::Lost
    }
}

/// How a race stands after an endpoint answered, with the given number still to answer.
pub fn race_step(succeeded: bool, remaining: usize) -> (r: RaceState)
    ensures
        r == race_state(succeeded, remaining as int),
{
    if succeeded {
        RaceState::Won
    } else if remaining > 0 {
        RaceState::Open
    } else {
        RaceState::Lost
    }
}

/// How a race ends in which the endpoints answer in the given order: with the first success, by
/// its place, or with none.
pub open spec fn race_winner(answers: Seq<bool>, from: int) -> Option<int>
    decreases answers.len() - from,
{
    if from < 0 || from >= answers.len() {
        None
    } else {
        match race_state(answers[from], answers.len() - from - 1) {
            RaceState::Won => Some(from),
            RaceState::Open => race_winner(answers, from + 1),
            RaceState::Lost => None,
        }
    }
}

/// A race is won by the first success, and lost only where every endpoint fails.
pub proof fn law_race_takes_first_success(answers: Seq<bool>, from: int)
    requires
        0 <= from <= answers.len(),
    ensures
        match race_winner(answers, from) {
            Some(winner) => from <= winner < answers.len() && answers[winner] && forall|i: int|
                from <= i < winner ==> !answers[i],
            None => forall|i: int| from <= i < answers.len() ==> !answers[i],
        },
    decreases answers.len() - from,
{
    if from < answers.len() && !answers[from] {
        law_race_takes_first_success(answers, from + 1);
    }
}

/// The longest time that a duration holds, in nanoseconds.
pub const MAX_NANOS: u128 = 18_446_744_073_709_551_615_999_999_999;

/// How long refreshes have taken, in nanoseconds.
#[derive(Debug, Clone, Copy, PartialEq, Eq, Structural)]
pub struct RefreshTimes {
    pub count: u64,
    pub total: u128,
    pub min: u128,
    pub max: u128,
}

impl RefreshTimes {
    /// No refresh yet. The shortest time starts out of reach, at 999 seconds.
    pub fn new() -> (r: Self)
        ensures
            r == (RefreshTimes { count: 0, total: 0, min: 999_000_000_000, max: 0 }),
    {
        RefreshTimes { count: 0, total: 0, min: 999_000_000_000, max: 0 }
    }

    /// Takes in how long a refresh took, and says whether it is one to report, as every tenth is.
    pub fn record(&mut self, nanos: u128) -> (r: bool)
        requires
            old(self).count < u64::MAX,
            old(self).total + nanos <= MAX_NANOS,
        ensures
            final(self).count == old(self).count + 1,
            final(self).total == old(self).total + nanos,
            final(self).min == if nanos < old(self).min {
                nanos
            } else {
                old(self).min
            },
            final(self).max == if nanos > old(self).max {
                nanos
            } else {
                old(self).max
            },
            r == (final(self).count % 10 == 0),
    {
        self.count = self.count + 1;
        self.total = self.total + nanos;
        if nanos < self.min {
            self.min = nanos;
        }
        if nanos > self.max {
            self.max = nanos;
        }
        self.count % 10 == 0
    }

    /// The average time of a refresh. The count is taken modulo `2^32`.
    pub fn average(&self) -> (r: u128)
        requires
            self.count % 0x1_0000_0000 != 0,
        ensures
            r == self.total as int / (self.count % 0x1_0000_0000) as int,
    {
        self.total / (self.count % 0x1_0000_0000) as u128
    }
}

/// A success wins a race, and a failure loses it only where no endpoint is left to answer.
pub proof fn law_race_is_open_while_answers_remain(remaining: int)
    ensures
        race_state(true, remaining) == RaceState::Won,
        remaining > 0 ==> race_state(false, remaining) == RaceState::Open,
        remaining <= 0 ==> race_state(false, remaining) == RaceState::Lost,
{
}

} // verus!
