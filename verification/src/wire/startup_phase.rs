//! The start of a connection: the client's requests and the database's answers are passed on as
//! they are until the database is ready for queries.
use vstd::prelude::*;
use vstd::slice::slice_subrange;
use crate::wire::data_phase::{take_until_ready, until_ready};
use crate::wire::message_framer::MessageFramer;
use crate::wire::types::{StateHandlingResult, WireProtocolStates};

verus! {

/// The database's answer that it does not encrypt, `N`.
pub const SSL_REFUSED: u8 = 0x4E;

/// The database's answer that it encrypts, `S`.
pub const SSL_ACCEPTED: u8 = 0x53;

pub const SSL_UNSUPPORTED: &'static str =
    "Pledge can't inspect the bytes if SSL is on, this feature will be enabled in the future however";

/// What comes next in the start of a connection: another exchange, or the end of the connection.
pub enum StartupStep {
    Next(WireProtocolStates),
    GivenUp(Seq<char>),
}

/// What comes next after an exchange in `state`. `first` is the first byte in the buffer that the
/// database's answer is read into, `pending` are the bytes of the database that were not handed
/// out as messages yet.
pub open spec fn after_exchange(
    state: WireProtocolStates,
    first: u8,
    pending: Seq<u8>,
) -> StartupStep {
    match state {
        WireProtocolStates::WaitingForSSL => if first == SSL_REFUSED {
            StartupStep::Next(WireProtocolStates::WaitingForStartup)
        } else if first == SSL_ACCEPTED {
            StartupStep::GivenUp(SSL_UNSUPPORTED@)
        } else {
            StartupStep::Next(WireProtocolStates::WaitingForSSL)
        },
        WireProtocolStates::WaitingForStartup => if until_ready(pending).0 {
            StartupStep::Next(WireProtocolStates::ReadyForQuery)
        } else {
            StartupStep::Next(WireProtocolStates::WaitingForStartup)
        },
        WireProtocolStates::ReadyForQuery => StartupStep::Next(WireProtocolStates::ReadyForQuery),
    }
}

/// Decides what comes next after an exchange in `state`, in which the first `read` bytes of
/// `db_buffer` were read from the database.
pub fn startup_state_handling(
    state: WireProtocolStates,
    startup_framer: &mut MessageFramer,
    db_buffer: &Vec<u8>,
    read: usize,
) -> (result: StateHandlingResult)
    requires
        old(startup_framer).wf(),
        0 < db_buffer.len(),
        read <= db_buffer.len(),
    ensures
        final(startup_framer).wf(),
        final(startup_framer)@ == if state == WireProtocolStates::WaitingForStartup {
            until_ready(old(startup_framer)@ + db_buffer@.take(read as int)).1
        } else {
            old(startup_framer)@
        },
        match (
            result,
            after_exchange(
                state,
                db_buffer@[0],
                old(startup_framer)@ + db_buffer@.take(read as int),
            ),
        ) {
            (StateHandlingResult::Continue(next), StartupStep::Next(expected)) => next == expected,
            (StateHandlingResult::Break(message), StartupStep::GivenUp(expected)) => message@
                == expected,
            _ => false,
        },
{
    match state {
        WireProtocolStates::WaitingForSSL => if db_buffer[0] == SSL_REFUSED {
            StateHandlingResult::Continue(WireProtocolStates::WaitingForStartup)
        } else if db_buffer[0] == SSL_ACCEPTED {
            StateHandlingResult::Break(SSL_UNSUPPORTED.to_string())
        } else {
            StateHandlingResult::Continue(WireProtocolStates::WaitingForSSL)
        },
        WireProtocolStates::WaitingForStartup => {
            startup_framer.add_buffer(slice_subrange(db_buffer.as_slice(), 0, read));
            assert(db_buffer@.subrange(0, read as int) =~= db_buffer@.take(read as int));
            if take_until_ready(startup_framer) {
                StateHandlingResult::Continue(WireProtocolStates::ReadyForQuery)
            } else {
                StateHandlingResult::Continue(WireProtocolStates::WaitingForStartup)
            }
        },
        WireProtocolStates::ReadyForQuery => StateHandlingResult::Continue(
            WireProtocolStates::ReadyForQuery,
        ),
    }
}

} // verus!
