//! The WHOIS exchange: the query line sent to the service, the
//! phase-tagged failures, and the per-call protocol state machine.
//!
//! One call opens one TCP connection to the WHOIS service, writes the
//! single ASCII line ` -v <ip>\r\n` — the service's verbose bulk-query
//! syntax — reads the reply to end of stream, and shapes it by dropping
//! the header line. The machine here decides every step; the caller only
//! performs the connect, write and read it is told to, and reports each
//! outcome back as a plain value.

use vstd::prelude::*;

use crate::ip::{ip_chars, IpAddress};
use crate::shape::{shape_response, shaped_response};

verus! {

/// The text of the query line for one address: a leading space, the `-v`
/// verbose flag, the address, and a CRLF terminator.
pub open spec fn query_chars(ip: IpAddress) -> Seq<char> {
    seq![' ', '-', 'v', ' '] + ip_chars(ip) + seq!['\r', '\n']
}

/// Builds the query line ` -v <ip>\r\n` to send to the WHOIS service.
pub fn build_query(ip: &IpAddress) -> (q: String)
    ensures
        q@ == query_chars(*ip),
{
    let mut s = String::from_str(" -v ");
    let text = ip.text();
    s.append(text.as_str());
    s.append("\r\n");
    proof {
        reveal_strlit(" -v ");
        reveal_strlit("\r\n");
        assert(s@ =~= query_chars(*ip));
    }
    s
}

/// A failure of the WHOIS exchange, tagged with the phase that failed and
/// carrying the reporter's short description of the cause.
#[derive(Debug)]
pub enum WhoisError {
    /// The TCP connection could not be opened.
    Connect { context: String },
    /// The query line could not be written.
    Write { context: String },
    /// The reply could not be read to end of stream.
    Read { context: String },
}

impl WhoisError {
    /// A one-line human-readable description: the failed phase, then the
    /// reported cause.
    pub fn message(&self) -> (r: String)
        ensures
            (self is Connect) ==> r@ == "WHOIS connection failed: "@ + self->Connect_context@,
            (self is Write) ==> r@ == "WHOIS write failed: "@ + self->Write_context@,
            (self is Read) ==> r@ == "WHOIS read failed: "@ + self->Read_context@,
    {
        match self {
            WhoisError::Connect { context } => {
                let mut s = String::from_str("WHOIS connection failed: ");
                s.append(context.as_str());
                s
            },
            WhoisError::Write { context } => {
                let mut s = String::from_str("WHOIS write failed: ");
                s.append(context.as_str());
                s
            },
            WhoisError::Read { context } => {
                let mut s = String::from_str("WHOIS read failed: ");
                s.append(context.as_str());
                s
            },
        }
    }
}

/// Where one WHOIS call stands. Each call walks
/// `Idle → Connecting → Connected → Sent → ReadingResponse` and ends in
/// `Complete` or `Failed`; there is no transition out of a terminal state.
pub enum WhoisState {
    /// Nothing has happened yet.
    Idle,
    /// The connection is being opened.
    Connecting,
    /// The connection is open; the query line is to be written.
    Connected,
    /// The query line has been written.
    Sent,
    /// The reply is being read to end of stream.
    ReadingResponse,
    /// The call succeeded; the shaped reply is available.
    Complete { shaped: Vec<u8> },
    /// The call failed in the recorded phase.
    Failed { error: WhoisError },
}

/// What the caller is to do next.
pub enum WhoisAction {
    /// Open a TCP connection to the WHOIS service.
    OpenConnection,
    /// Write this exact line to the connection.
    SendQuery { query: String },
    /// Read the connection to end of stream.
    ReadToEnd,
    /// The call is over; close the connection if one is open.
    Stop,
}

/// One WHOIS call for one address: the address queried and where the call
/// stands.
pub struct WhoisSession {
    pub ip: IpAddress,
    pub state: WhoisState,
}

impl WhoisSession {
    /// A fresh call for one address, not yet started.
    pub fn new(ip: IpAddress) -> (s: WhoisSession)
        ensures
            s.ip == ip,
            s.state is Idle,
    {
        WhoisSession { ip, state: WhoisState::Idle }
    }

    /// Starts the call: the connection is to be opened.
    pub fn begin(&mut self) -> (action: WhoisAction)
        requires
            old(self).state is Idle,
        ensures
            final(self).ip == old(self).ip,
            final(self).state is Connecting,
            action is OpenConnection,
    {
        self.state = WhoisState::Connecting;
        WhoisAction::OpenConnection
    }

    /// Records the outcome of opening the connection. On success the query
    /// line for this call's address is to be written; on failure the call
    /// ends in a connect failure carrying the reported cause.
    pub fn on_connect(&mut self, result: Result<(), String>) -> (action: WhoisAction)
        requires
            old(self).state is Connecting,
        ensures
            final(self).ip == old(self).ip,
            result is Ok ==> final(self).state is Connected,
            result is Ok ==> (action matches WhoisAction::SendQuery { query } && query@
                == query_chars(old(self).ip)),
            result matches Err(m) ==> (final(self).state matches WhoisState::Failed { error }
                && error matches WhoisError::Connect { context } && context == m),
            result is Err ==> action is Stop,
    {
        match result {
            Ok(()) => {
                self.state = WhoisState::Connected;
                let query = build_query(&self.ip);
                WhoisAction::SendQuery { query }
            },
            Err(context) => {
                self.state = WhoisState::Failed { error: WhoisError::Connect { context } };
                WhoisAction::Stop
            },
        }
    }

    /// Records the outcome of writing the query line. On success the reply
    /// is to be read; on failure the call ends in a write failure carrying
    /// the reported cause.
    pub fn on_write(&mut self, result: Result<(), String>) -> (action: WhoisAction)
        requires
            old(self).state is Connected,
        ensures
            final(self).ip == old(self).ip,
            result is Ok ==> final(self).state is Sent,
            result is Ok ==> action is ReadToEnd,
            result matches Err(m) ==> (final(self).state matches WhoisState::Failed { error }
                && error matches WhoisError::Write { context } && context == m),
            result is Err ==> action is Stop,
    {
        match result {
            Ok(()) => {
                self.state = WhoisState::Sent;
                WhoisAction::ReadToEnd
            },
            Err(context) => {
                self.state = WhoisState::Failed { error: WhoisError::Write { context } };
                WhoisAction::Stop
            },
        }
    }

    /// Marks the read as underway once the caller begins it.
    pub fn begin_read(&mut self)
        requires
            old(self).state is Sent,
        ensures
            final(self).ip == old(self).ip,
            final(self).state is ReadingResponse,
    {
        self.state = WhoisState::ReadingResponse;
    }

    /// Records the outcome of reading the reply. On success the call
    /// completes with the shaped reply — the raw bytes with their header
    /// line dropped; on failure it ends in a read failure carrying the
    /// reported cause.
    pub fn on_read(&mut self, result: Result<Vec<u8>, String>) -> (action: WhoisAction)
        requires
            old(self).state is ReadingResponse,
        ensures
            final(self).ip == old(self).ip,
            result matches Ok(raw) ==> (final(self).state matches WhoisState::Complete { shaped }
                && shaped@ == shaped_response(raw@)),
            result matches Err(m) ==> (final(self).state matches WhoisState::Failed { error }
                && error matches WhoisError::Read { context } && context == m),
            action is Stop,
    {
        match result {
            Ok(raw) => {
                let shaped = shape_response(raw.as_slice());
                self.state = WhoisState::Complete { shaped };
            },
            Err(context) => {
                self.state = WhoisState::Failed { error: WhoisError::Read { context } };
            },
        }
        WhoisAction::Stop
    }
}

} // verus!
