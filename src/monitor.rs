//! Clock ticks from observed block times.
use vstd::prelude::*;

verus! {

/// Turns the stream of observed block times into a strictly increasing
/// sequence of ticks: a block time is passed on only if it is later than
/// every tick passed on before.
#[derive(Clone, Copy, Debug)]
pub struct TickMonitor {
    /// The latest tick passed on, if any.
    pub last_tick: Option<i64>,
}

/// Whether `blocktime` is a new tick after the ticks ending with `last`.
pub open spec fn is_new_tick(last: Option<i64>, blocktime: i64) -> bool {
    match last {
        Some(l) => blocktime > l,
        None => true,
    }
}

impl TickMonitor {
    /// A monitor that has passed on no tick yet.
    pub fn new() -> (m: Self)
        ensures
            m.last_tick == None::<i64>,
    {
        TickMonitor { last_tick: None }
    }

    /// Reports one observed block time; returns it as the next tick when it
    /// is later than the last one, and `None` for a repeated or earlier time.
    pub fn observe(&mut self, blocktime: i64) -> (tick: Option<i64>)
        ensures
            is_new_tick(old(self).last_tick, blocktime) ==> tick == Some(blocktime)
                && final(self).last_tick == Some(blocktime),
            !is_new_tick(old(self).last_tick, blocktime) ==> tick == None::<i64>
                && final(self).last_tick == old(self).last_tick,
    {
        let fresh = match self.last_tick {
            Some(l) => blocktime > l,
            None => true,
        };
        if fresh {
            self.last_tick = Some(blocktime);
            Some(blocktime)
        } else {
            None
        }
    }
}

} // verus!
