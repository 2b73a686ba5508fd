//! Messages of servers as bytes.
use crate::base::exit_reason::{ExitModel, ExitReason};
use crate::base::reference::Ref;
use crate::wire::identity::{PidModel, PortablePid};
use crate::wire::primitive::{lemma_tagged, Wire};
use vstd::prelude::*;

verus! {

/// A call that waits for a reply, known to any node.
#[derive(Debug)]
pub struct PortableFrom {
    /// The calling process.
    pub caller: PortablePid,
    /// The reference of the call.
    pub reference: Ref,
}

/// What it says.
pub struct FromModel {
    pub caller: PidModel,
    pub reference: Ref,
}

impl DeepView for PortableFrom {
    type V = FromModel;

    open spec fn deep_view(&self) -> FromModel {
        FromModel { caller: self.caller.deep_view(), reference: self.reference }
    }
}

impl Wire for PortableFrom {
    open spec fn bytes_of(model: FromModel) -> Seq<u8> {
        <(PortablePid, Ref)>::bytes_of((model.caller, model.reference))
    }

    open spec fn read(b: Seq<u8>) -> Option<(FromModel, Seq<u8>)> {
        match <(PortablePid, Ref)>::read(b) {
            Some(((caller, reference), rest)) => Some((FromModel { caller, reference }, rest)),
            None => None,
        }
    }

    open spec fn fits(model: FromModel) -> bool {
        PortablePid::fits(model.caller)
    }

    proof fn round_trip(model: FromModel, rest: Seq<u8>) {
        <(PortablePid, Ref)>::round_trip((model.caller, model.reference), rest);
    }

    fn put(&self, out: &mut Vec<u8>) {
        let ghost before = out@;
        self.caller.put(out);
        self.reference.put(out);
        assert(out@ =~= before + Self::bytes_of(self.deep_view()));
    }

    fn take<'a>(b: &'a [u8]) -> (r: Option<(Self, &'a [u8])>) {
        match <(PortablePid, Ref)>::take(b) {
            Some(((caller, reference), rest)) => Some((PortableFrom { caller, reference }, rest)),
            None => None,
        }
    }
}

/// A message of a server that any node can read.
#[derive(Debug)]
#[allow(inconsistent_fields)]
pub enum PortableServerMessage {
    Call { from: PortableFrom, payload: Vec<u8> },
    Cast { payload: Vec<u8> },
    Reply { reference: Ref, payload: Vec<u8> },
    Stop { reason: ExitReason, from: Option<PortableFrom> },
    Timeout,
    Continue { arg: Vec<u8> },
}

/// What it says.
#[allow(inconsistent_fields)]
pub enum PortableServerModel {
    Call { from: FromModel, payload: Seq<u8> },
    Cast { payload: Seq<u8> },
    Reply { reference: Ref, payload: Seq<u8> },
    Stop { reason: ExitModel, from: Option<FromModel> },
    Timeout,
    Continue { arg: Seq<u8> },
}

impl DeepView for PortableServerMessage {
    type V = PortableServerModel;

    open spec fn deep_view(&self) -> PortableServerModel {
        match self {
            PortableServerMessage::Call { from, payload } => PortableServerModel::Call {
                from: from.deep_view(),
                payload: payload.deep_view(),
            },
            PortableServerMessage::Cast { payload } => PortableServerModel::Cast {
                payload: payload.deep_view(),
            },
            PortableServerMessage::Reply { reference, payload } => PortableServerModel::Reply {
                reference: reference.deep_view(),
                payload: payload.deep_view(),
            },
            PortableServerMessage::Stop { reason, from } => PortableServerModel::Stop {
                reason: reason.deep_view(),
                from: from.deep_view(),
            },
            PortableServerMessage::Timeout => PortableServerModel::Timeout,
            PortableServerMessage::Continue { arg } => PortableServerModel::Continue {
                arg: arg.deep_view(),
            },
        }
    }
}

impl Wire for PortableServerMessage {
    open spec fn bytes_of(model: PortableServerModel) -> Seq<u8> {
        match model {
            PortableServerModel::Call { from, payload } => u32::bytes_of(0) + <(PortableFrom, Vec<u8>)>::bytes_of(
                (from, payload),
            ),
            PortableServerModel::Cast { payload } => u32::bytes_of(1) + <Vec<u8>>::bytes_of(
                payload,
            ),
            PortableServerModel::Reply { reference, payload } => u32::bytes_of(2) + <(Ref, Vec<u8>)>::bytes_of(
                (reference, payload),
            ),
            PortableServerModel::Stop { reason, from } => u32::bytes_of(3) + <(ExitReason, Option<PortableFrom>)>::bytes_of(
                (reason, from),
            ),
            PortableServerModel::Timeout => u32::bytes_of(4),
            PortableServerModel::Continue { arg } => u32::bytes_of(5) + <Vec<u8>>::bytes_of(
                arg,
            ),
        }
    }

    open spec fn read(b: Seq<u8>) -> Option<(PortableServerModel, Seq<u8>)> {
        match u32::read(b) {
            Some((tag, rest)) => if tag == 0 {
                match <(PortableFrom, Vec<u8>)>::read(rest) {
                    Some(((from, payload), rest)) => Some(
                        (PortableServerModel::Call { from, payload }, rest),
                    ),
                    None => None,
                }
            } else if tag == 1 {
                match <Vec<u8>>::read(rest) {
                    Some((payload, rest)) => Some(
                        (PortableServerModel::Cast { payload }, rest),
                    ),
                    None => None,
                }
            } else if tag == 2 {
                match <(Ref, Vec<u8>)>::read(rest) {
                    Some(((reference, payload), rest)) => Some(
                        (PortableServerModel::Reply { reference, payload }, rest),
                    ),
                    None => None,
                }
            } else if tag == 3 {
                match <(ExitReason, Option<PortableFrom>)>::read(rest) {
                    Some(((reason, from), rest)) => Some(
                        (PortableServerModel::Stop { reason, from }, rest),
                    ),
                    None => None,
                }
            } else if tag == 4 {
                Some((PortableServerModel::Timeout, rest))
            } else if tag == 5 {
                match <Vec<u8>>::read(rest) {
                    Some((arg, rest)) => Some(
                        (PortableServerModel::Continue { arg }, rest),
                    ),
                    None => None,
                }
            } else {
                None
            },
            None => None,
        }
    }

    open spec fn fits(model: PortableServerModel) -> bool {
        match model {
            PortableServerModel::Call { from, payload } => <(PortableFrom, Vec<u8>)>::fits(
                (from, payload),
            ),
            PortableServerModel::Cast { payload } => <Vec<u8>>::fits(
                payload,
            ),
            PortableServerModel::Reply { reference, payload } => <(Ref, Vec<u8>)>::fits(
                (reference, payload),
            ),
            PortableServerModel::Stop { reason, from } => <(ExitReason, Option<PortableFrom>)>::fits(
                (reason, from),
            ),
            PortableServerModel::Timeout => true,
            PortableServerModel::Continue { arg } => <Vec<u8>>::fits(
                arg,
            ),
        }
    }

    proof fn round_trip(model: PortableServerModel, rest: Seq<u8>) {
        match model {
            PortableServerModel::Call { from, payload } => {
                lemma_tagged::<(PortableFrom, Vec<u8>)>(0, (from, payload), rest);
            },
            PortableServerModel::Cast { payload } => {
                lemma_tagged::<Vec<u8>>(1, payload, rest);
            },
            PortableServerModel::Reply { reference, payload } => {
                lemma_tagged::<(Ref, Vec<u8>)>(2, (reference, payload), rest);
            },
            PortableServerModel::Stop { reason, from } => {
                lemma_tagged::<(ExitReason, Option<PortableFrom>)>(3, (reason, from), rest);
            },
            PortableServerModel::Timeout => {
                u32::round_trip(4, rest);
            },
            PortableServerModel::Continue { arg } => {
                lemma_tagged::<Vec<u8>>(5, arg, rest);
            },
        }
    }

    fn put(&self, out: &mut Vec<u8>) {
        let ghost before = out@;
        match self {
            PortableServerMessage::Call { from, payload } => {
                0u32.put(out);
                from.put(out);
                payload.put(out);
            },
            PortableServerMessage::Cast { payload } => {
                1u32.put(out);
                payload.put(out);
            },
            PortableServerMessage::Reply { reference, payload } => {
                2u32.put(out);
                reference.put(out);
                payload.put(out);
            },
            PortableServerMessage::Stop { reason, from } => {
                3u32.put(out);
                reason.put(out);
                from.put(out);
            },
            PortableServerMessage::Timeout => {
                4u32.put(out);
            },
            PortableServerMessage::Continue { arg } => {
                5u32.put(out);
                arg.put(out);
            },
        }
        assert(out@ =~= before + Self::bytes_of(self.deep_view()));
    }

    fn take<'a>(b: &'a [u8]) -> (r: Option<(Self, &'a [u8])>) {
        let (tag, rest) = match u32::take(b) {
            Some(x) => x,
            None => {
                return None;
            },
        };
        if tag == 0 {
            match <(PortableFrom, Vec<u8>)>::take(rest) {
                Some(((from, payload), rest)) => Some(
                    (PortableServerMessage::Call { from, payload }, rest),
                ),
                None => None,
            }
        } else if tag == 1 {
            match <Vec<u8>>::take(rest) {
                Some((payload, rest)) => Some(
                    (PortableServerMessage::Cast { payload }, rest),
                ),
                None => None,
            }
        } else if tag == 2 {
            match <(Ref, Vec<u8>)>::take(rest) {
                Some(((reference, payload), rest)) => Some(
                    (PortableServerMessage::Reply { reference, payload }, rest),
                ),
                None => None,
            }
        } else if tag == 3 {
            match <(ExitReason, Option<PortableFrom>)>::take(rest) {
                Some(((reason, from), rest)) => Some(
                    (PortableServerMessage::Stop { reason, from }, rest),
                ),
                None => None,
            }
        } else if tag == 4 {
            Some((PortableServerMessage::Timeout, rest))
        } else if tag == 5 {
            match <Vec<u8>>::take(rest) {
                Some((arg, rest)) => Some(
                    (PortableServerMessage::Continue { arg }, rest),
                ),
                None => None,
            }
        } else {
            None
        }
    }
}

} // verus!
