//! Routing decisions of the gateway that fronts one matcher per instrument: which worker
//! an instrument goes to, which commands a worker applies, and where a cancel goes.

use vstd::prelude::*;
use crate::distributed_wire::WireParseError;
use crate::engine::{AddOrderCommand, CancelByOrderIdCommand, OrderCommand};

verus! {

/// A command handed to an instrument's matcher.
#[derive(Debug, Clone, Copy)]
pub enum WorkerCmd {
    /// Add an order on an instrument.
    Add {
        /// Destination instrument.
        instrument_id: u32,
        /// The engine command.
        add: AddOrderCommand,
    },
    /// Cancel an order on an instrument.
    CancelById {
        /// Destination instrument.
        instrument_id: u32,
        /// The engine command.
        cancel: CancelByOrderIdCommand,
    },
}

/// The worker (0-based) that instrument `instrument_id` (1-based) is routed to among
/// `instruments` workers.
pub open spec fn worker_of(instrument_id: u32, instruments: usize) -> Result<usize, WireParseError> {
    if instrument_id == 0 || instrument_id > instruments {
        Err(WireParseError::InvalidInstrument)
    } else {
        Ok((instrument_id - 1) as usize)
    }
}

/// Routes an instrument to its worker; an instrument outside `1..=instruments` is invalid.
pub fn route_worker(instrument_id: u32, instruments: usize) -> (r: Result<usize, WireParseError>)
    ensures
        r == worker_of(instrument_id, instruments),
{
    if instrument_id == 0 || (instrument_id as u64) > (instruments as u64) {
        return Err(WireParseError::InvalidInstrument);
    }
    Ok((instrument_id - 1) as usize)
}

/// What a worker for `worker_instrument` applies of `cmd`: an add whose instrument and
/// symbol are the worker's, or a cancel for the worker's instrument; anything else is
/// dropped.
pub open spec fn applied_by(worker_instrument: u32, cmd: WorkerCmd) -> Option<OrderCommand> {
    match cmd {
        WorkerCmd::Add { instrument_id, add } => if add.symbol_id == worker_instrument
            && instrument_id == worker_instrument {
            Some(OrderCommand::Add(add))
        } else {
            None
        },
        WorkerCmd::CancelById { instrument_id, cancel } => if instrument_id == worker_instrument {
            Some(OrderCommand::CancelByOrderId(cancel))
        } else {
            None
        },
    }
}

/// The engine command a worker applies for `cmd`, if any.
pub fn worker_command(worker_instrument: u32, cmd: WorkerCmd) -> (r: Option<OrderCommand>)
    ensures
        r == applied_by(worker_instrument, cmd),
{
    match cmd {
        WorkerCmd::Add { instrument_id, add } => {
            if add.symbol_id == worker_instrument && instrument_id == worker_instrument {
                Some(OrderCommand::Add(add))
            } else {
                None
            }
        },
        WorkerCmd::CancelById { instrument_id, cancel } => {
            if instrument_id == worker_instrument {
                Some(OrderCommand::CancelByOrderId(cancel))
            } else {
                None
            }
        },
    }
}

/// Where a cancel goes: to the worker that holds the order, when the order is known and
/// that worker is the one its instrument routes to.
pub fn cancel_target(expected_worker: usize, indexed: Option<usize>) -> (r: Option<usize>)
    ensures
        r == match indexed {
            Some(w) => if w == expected_worker {
                Some(w)
            } else {
                None
            },
            None => None,
        },
{
    match indexed {
        Some(w) => {
            if w == expected_worker {
                Some(w)
            } else {
                None
            }
        },
        None => None,
    }
}

} // verus!
