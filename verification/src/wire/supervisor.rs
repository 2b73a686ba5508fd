//! The setup of supervisors as bytes.
use crate::supervisor::types::{ChildType, RestartType, ShutdownType, Strategy};
use crate::time::Duration;
use crate::wire::primitive::{lemma_tagged, Wire};
use vstd::prelude::*;

verus! {

impl DeepView for Strategy {
    type V = Strategy;

    open spec fn deep_view(&self) -> Strategy {
        *self
    }
}

impl Wire for Strategy {
    open spec fn bytes_of(model: Strategy) -> Seq<u8> {
        match model {
            Strategy::OneForOne => u32::bytes_of(0),
            Strategy::OneForAll => u32::bytes_of(1),
            Strategy::RestForOne => u32::bytes_of(2),
        }
    }

    open spec fn read(b: Seq<u8>) -> Option<(Strategy, Seq<u8>)> {
        match u32::read(b) {
            Some((tag, rest)) => if tag == 0 {
                Some((Strategy::OneForOne, rest))
            } else if tag == 1 {
                Some((Strategy::OneForAll, rest))
            } else if tag == 2 {
                Some((Strategy::RestForOne, rest))
            } else {
                None
            },
            None => None,
        }
    }

    open spec fn fits(model: Strategy) -> bool {
        true
    }

    proof fn round_trip(model: Strategy, rest: Seq<u8>) {
        match model {
            Strategy::OneForOne => {
                u32::round_trip(0, rest);
            },
            Strategy::OneForAll => {
                u32::round_trip(1, rest);
            },
            Strategy::RestForOne => {
                u32::round_trip(2, rest);
            },
        }
    }

    fn put(&self, out: &mut Vec<u8>) {
        match self {
            Strategy::OneForOne => 0u32.put(out),
            Strategy::OneForAll => 1u32.put(out),
            Strategy::RestForOne => 2u32.put(out),
        }
    }

    fn take<'a>(b: &'a [u8]) -> (r: Option<(Self, &'a [u8])>) {
        match u32::take(b) {
            Some((tag, rest)) => if tag == 0 {
                Some((Strategy::OneForOne, rest))
            } else if tag == 1 {
                Some((Strategy::OneForAll, rest))
            } else if tag == 2 {
                Some((Strategy::RestForOne, rest))
            } else {
                None
            },
            None => None,
        }
    }
}

impl DeepView for RestartType {
    type V = RestartType;

    open spec fn deep_view(&self) -> RestartType {
        *self
    }
}

impl Wire for RestartType {
    open spec fn bytes_of(model: RestartType) -> Seq<u8> {
        match model {
            RestartType::Permanent => u32::bytes_of(0),
            RestartType::Transient => u32::bytes_of(1),
            RestartType::Temporary => u32::bytes_of(2),
        }
    }

    open spec fn read(b: Seq<u8>) -> Option<(RestartType, Seq<u8>)> {
        match u32::read(b) {
            Some((tag, rest)) => if tag == 0 {
                Some((RestartType::Permanent, rest))
            } else if tag == 1 {
                Some((RestartType::Transient, rest))
            } else if tag == 2 {
                Some((RestartType::Temporary, rest))
            } else {
                None
            },
            None => None,
        }
    }

    open spec fn fits(model: RestartType) -> bool {
        true
    }

    proof fn round_trip(model: RestartType, rest: Seq<u8>) {
        match model {
            RestartType::Permanent => {
                u32::round_trip(0, rest);
            },
            RestartType::Transient => {
                u32::round_trip(1, rest);
            },
            RestartType::Temporary => {
                u32::round_trip(2, rest);
            },
        }
    }

    fn put(&self, out: &mut Vec<u8>) {
        match self {
            RestartType::Permanent => 0u32.put(out),
            RestartType::Transient => 1u32.put(out),
            RestartType::Temporary => 2u32.put(out),
        }
    }

    fn take<'a>(b: &'a [u8]) -> (r: Option<(Self, &'a [u8])>) {
        match u32::take(b) {
            Some((tag, rest)) => if tag == 0 {
                Some((RestartType::Permanent, rest))
            } else if tag == 1 {
                Some((RestartType::Transient, rest))
            } else if tag == 2 {
                Some((RestartType::Temporary, rest))
            } else {
                None
            },
            None => None,
        }
    }
}

impl DeepView for ChildType {
    type V = ChildType;

    open spec fn deep_view(&self) -> ChildType {
        *self
    }
}

impl Wire for ChildType {
    open spec fn bytes_of(model: ChildType) -> Seq<u8> {
        match model {
            ChildType::Worker => u32::bytes_of(0),
            ChildType::Supervisor => u32::bytes_of(1),
        }
    }

    open spec fn read(b: Seq<u8>) -> Option<(ChildType, Seq<u8>)> {
        match u32::read(b) {
            Some((tag, rest)) => if tag == 0 {
                Some((ChildType::Worker, rest))
            } else if tag == 1 {
                Some((ChildType::Supervisor, rest))
            } else {
                None
            },
            None => None,
        }
    }

    open spec fn fits(model: ChildType) -> bool {
        true
    }

    proof fn round_trip(model: ChildType, rest: Seq<u8>) {
        match model {
            ChildType::Worker => {
                u32::round_trip(0, rest);
            },
            ChildType::Supervisor => {
                u32::round_trip(1, rest);
            },
        }
    }

    fn put(&self, out: &mut Vec<u8>) {
        match self {
            ChildType::Worker => 0u32.put(out),
            ChildType::Supervisor => 1u32.put(out),
        }
    }

    fn take<'a>(b: &'a [u8]) -> (r: Option<(Self, &'a [u8])>) {
        match u32::take(b) {
            Some((tag, rest)) => if tag == 0 {
                Some((ChildType::Worker, rest))
            } else if tag == 1 {
                Some((ChildType::Supervisor, rest))
            } else {
                None
            },
            None => None,
        }
    }
}

impl DeepView for Duration {
    type V = Duration;

    open spec fn deep_view(&self) -> Duration {
        *self
    }
}

/// A span of time is its whole seconds and the nanoseconds behind them.
impl Wire for Duration {
    open spec fn bytes_of(model: Duration) -> Seq<u8> {
        u64::bytes_of((model.nanos / 1_000_000_000) as u64) + u32::bytes_of(
            (model.nanos % 1_000_000_000) as u32,
        )
    }

    open spec fn read(b: Seq<u8>) -> Option<(Duration, Seq<u8>)> {
        match <(u64, u32)>::read(b) {
            Some(((secs, nanos), rest)) => if secs + nanos / 1_000_000_000 <= u64::MAX {
                Some((Duration { nanos: (secs * 1_000_000_000 + nanos) as u128 }, rest))
            } else {
                None
            },
            None => None,
        }
    }

    open spec fn fits(model: Duration) -> bool {
        model.nanos / 1_000_000_000 <= u64::MAX
    }

    proof fn round_trip(model: Duration, rest: Seq<u8>) {
        let secs = (model.nanos / 1_000_000_000) as u64;
        let nanos = (model.nanos % 1_000_000_000) as u32;
        <(u64, u32)>::round_trip((secs, nanos), rest);
        assert(secs * 1_000_000_000 + nanos == model.nanos);
    }

    fn put(&self, out: &mut Vec<u8>) {
        let ghost before = out@;
        let secs: u64 = (self.nanos / 1_000_000_000u128) as u64;
        let nanos: u32 = (self.nanos % 1_000_000_000u128) as u32;
        secs.put(out);
        nanos.put(out);
        assert(out@ =~= before + Self::bytes_of(self.deep_view()));
    }

    fn take<'a>(b: &'a [u8]) -> (r: Option<(Self, &'a [u8])>) {
        match <(u64, u32)>::take(b) {
            Some(((secs, nanos), rest)) => {
                match secs.checked_add((nanos / 1_000_000_000u32) as u64) {
                    Some(_) => Some(
                        (
                            Duration {
                                nanos: secs as u128 * 1_000_000_000u128 + nanos as u128,
                            },
                            rest,
                        ),
                    ),
                    None => None,
                }
            },
            None => None,
        }
    }
}

impl DeepView for ShutdownType {
    type V = ShutdownType;

    open spec fn deep_view(&self) -> ShutdownType {
        *self
    }
}

impl Wire for ShutdownType {
    open spec fn bytes_of(model: ShutdownType) -> Seq<u8> {
        match model {
            ShutdownType::BrutalKill => u32::bytes_of(0),
            ShutdownType::Timeout(time) => u32::bytes_of(1) + Duration::bytes_of(time),
            ShutdownType::Infinity => u32::bytes_of(2),
        }
    }

    open spec fn read(b: Seq<u8>) -> Option<(ShutdownType, Seq<u8>)> {
        match u32::read(b) {
            Some((tag, rest)) => if tag == 0 {
                Some((ShutdownType::BrutalKill, rest))
            } else if tag == 1 {
                match Duration::read(rest) {
                    Some((time, rest)) => Some((ShutdownType::Timeout(time), rest)),
                    None => None,
                }
            } else if tag == 2 {
                Some((ShutdownType::Infinity, rest))
            } else {
                None
            },
            None => None,
        }
    }

    open spec fn fits(model: ShutdownType) -> bool {
        match model {
            ShutdownType::Timeout(time) => Duration::fits(time),
            _ => true,
        }
    }

    proof fn round_trip(model: ShutdownType, rest: Seq<u8>) {
        match model {
            ShutdownType::BrutalKill => {
                u32::round_trip(0, rest);
            },
            ShutdownType::Timeout(time) => {
                lemma_tagged::<Duration>(1, time, rest);
            },
            ShutdownType::Infinity => {
                u32::round_trip(2, rest);
            },
        }
    }

    fn put(&self, out: &mut Vec<u8>) {
        let ghost before = out@;
        match self {
            ShutdownType::BrutalKill => {
                0u32.put(out);
            },
            ShutdownType::Timeout(time) => {
                1u32.put(out);
                time.put(out);
            },
            ShutdownType::Infinity => {
                2u32.put(out);
            },
        }
        assert(out@ =~= before + Self::bytes_of(self.deep_view()));
    }

    fn take<'a>(b: &'a [u8]) -> (r: Option<(Self, &'a [u8])>) {
        let (tag, rest) = match u32::take(b) {
            Some(x) => x,
            None => {
                return None;
            },
        };
        if tag == 0 {
            Some((ShutdownType::BrutalKill, rest))
        } else if tag == 1 {
            match Duration::take(rest) {
                Some((time, rest)) => Some((ShutdownType::Timeout(time), rest)),
                None => None,
            }
        } else if tag == 2 {
            Some((ShutdownType::Infinity, rest))
        } else {
            None
        }
    }
}

} // verus!
