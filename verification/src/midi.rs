//! The MIDI connection lifecycle state machine.
//!
//! The machine owns the session's resources as plain tokens: port identifiers
//! and handle tokens that the unverified shell maps one-to-one onto the OS
//! MIDI subsystem's clients, ports and connections. All I/O happens outside
//! the verified core; its outcomes enter the transitions as arguments, and
//! every transition consumes the old state and either keeps each resource
//! token in the new state or hands it back to the caller for closing — no
//! token is ever duplicated or silently dropped while a connection is open.

use vstd::prelude::*;
use vstd::string::StringExecFns;

verus! {

/// Identifier of an input MIDI port as enumerated by the port registry.
/// Input and output ports are distinct types: an input port can never be
/// used where an output port is required.
#[derive(Debug, Clone, Copy, PartialEq, Eq, Structural)]
pub struct InputPortId {
    pub id: u64,
}

/// Identifier of an output MIDI port as enumerated by the port registry.
#[derive(Debug, Clone, Copy, PartialEq, Eq, Structural)]
pub struct OutputPortId {
    pub id: u64,
}

/// Token for an open MIDI input subsystem client.
#[derive(Debug, PartialEq, Eq, Structural)]
pub struct InputClient {
    pub id: u64,
}

/// Token for an open MIDI output subsystem client.
#[derive(Debug, PartialEq, Eq, Structural)]
pub struct OutputClient {
    pub id: u64,
}

/// Token for an open input connection with a registered listener callback.
#[derive(Debug, PartialEq, Eq, Structural)]
pub struct InputConn {
    pub id: u64,
}

/// Token for an open output connection used by the passthrough listener.
#[derive(Debug, PartialEq, Eq, Structural)]
pub struct OutputConn {
    pub id: u64,
}

/// The `Ready` stage of the lifecycle: both subsystem clients are open and
/// ports can be enumerated, but no connection exists.
#[derive(Debug, PartialEq, Eq, Structural)]
pub struct ReadyMidiState {
    pub input: InputClient,
    pub output: OutputClient,
}

/// The `Connected` stage of the lifecycle: one input and one output
/// connection are open; the listener owns the output connection for
/// passthrough, and both subsystem clients are absorbed into the
/// connections until disconnect returns them.
#[derive(Debug)]
pub struct ConnectedMidiState {
    pub input_port: (InputPortId, String),
    pub output_port: (OutputPortId, String),
    pub input_connection: InputConn,
    pub output_connection: OutputConn,
    pub input_client: InputClient,
    pub output_client: OutputClient,
}

/// What the two staged opens of a connect attempt produced. The output
/// connection is opened first; the input connection is attempted only once
/// the output open has succeeded.
#[derive(Debug)]
pub enum ConnectAttempt {
    /// Opening the output connection failed.
    OutputFailed(String),
    /// The output connection opened but opening the input connection failed;
    /// the opened output connection is carried here so it can be released.
    InputFailed { error: String, output: OutputConn },
    /// Both connections opened.
    Opened { output: OutputConn, input: InputConn },
}

/// Why a connect attempt failed, carrying every resource that the failed
/// attempt had already opened so that the caller can close it: a failed
/// connect retains no partial resources.
#[derive(Debug)]
pub enum ConnectError {
    /// The output connection could not be opened; nothing is left to close
    /// beyond the two subsystem clients consumed by the attempt.
    Output { error: String },
    /// The input connection could not be opened after the output connection
    /// had been; the output connection is handed back to be closed.
    Input { error: String, released_output: OutputConn },
}

/// The connection lifecycle: exactly one variant is live at any time, and
/// each transition consumes the old variant.
#[derive(Debug)]
pub enum MidiState {
    /// The MIDI subsystem is not open; an error from the last failed
    /// initialization may be retained for display.
    Uninit(Option<String>),
    /// The subsystem is open; port selections are independent and optional.
    Ready {
        state: ReadyMidiState,
        input_port: Option<InputPortId>,
        output_port: Option<OutputPortId>,
    },
    /// One input and one output connection are open.
    Connected(ConnectedMidiState),
}

impl Default for MidiState {
    /// The machine starts uninitialized with no retained error.
    fn default() -> (s: Self)
        ensures
            s matches MidiState::Uninit(e) && e is None,
    {
        MidiState::Uninit(None)
    }
}

impl MidiState {
    /// Drop back to `Uninit`, handing back the connections of a `Connected`
    /// state so the caller can close them: the input connection must be
    /// closed first, which stops the listener callback, and only then the
    /// output connection.
    pub fn uninit(&mut self) -> (released: Option<(InputConn, OutputConn)>)
        ensures
            *final(self) matches MidiState::Uninit(e) && e is None,
            match *old(self) {
                MidiState::Connected(c) => released matches Some(p) && p.0 == c.input_connection
                    && p.1 == c.output_connection,
                _ => released is None,
            },
    {
        let mut taken = MidiState::Uninit(None);
        core::mem::swap(self, &mut taken);
        match taken {
            MidiState::Connected(c) => Some((c.input_connection, c.output_connection)),
            _ => None,
        }
    }

    /// Apply the outcome of opening the two MIDI subsystem clients: on
    /// success the machine becomes `Ready` with no ports selected, on
    /// failure it stays `Uninit` and retains the error for display.
    pub fn init(&mut self, outcome: Result<ReadyMidiState, String>)
        requires
            *old(self) is Uninit,
        ensures
            match outcome {
                Ok(s) => *final(self) matches MidiState::Ready { state, input_port, output_port }
                    && state == s && input_port is None && output_port is None,
                Err(e) => *final(self) matches MidiState::Uninit(r) && r == Some(e),
            },
    {
        match outcome {
            Ok(state) => {
                *self = MidiState::Ready { state, input_port: None, output_port: None };
            },
            Err(e) => {
                *self = MidiState::Uninit(Some(e));
            },
        }
    }

    /// Tear a `Connected` machine down to `Ready`: the ports return to the
    /// unselected-but-rediscoverable state, the same two subsystem clients
    /// come back, and exactly the two open connections are handed out to be
    /// closed — the input connection first (stopping the listener), then
    /// the output connection.
    pub fn disconnect(&mut self) -> (released: (InputConn, OutputConn))
        requires
            *old(self) is Connected,
        ensures
            match *old(self) {
                MidiState::Connected(c) => {
                    &&& *final(self) matches MidiState::Ready { state, input_port, output_port }
                        && state.input == c.input_client && state.output == c.output_client
                        && input_port is None && output_port is None
                    &&& released.0 == c.input_connection
                    &&& released.1 == c.output_connection
                },
                _ => true,
            },
    {
        let mut taken = MidiState::Uninit(None);
        core::mem::swap(self, &mut taken);
        match taken {
            MidiState::Connected(c) => {
                let (ready, input_conn, output_conn) = c.disconnect();
                *self = MidiState::Ready { state: ready, input_port: None, output_port: None };
                (input_conn, output_conn)
            },
            _ => {
                proof {
                    assert(false);
                }
                (InputConn { id: 0 }, OutputConn { id: 0 })
            },
        }
    }

    /// Select (or clear) the input port: a pure field update of `Ready`.
    pub fn select_input(&mut self, port: Option<InputPortId>)
        requires
            *old(self) is Ready,
        ensures
            *old(self) matches MidiState::Ready { state, output_port, .. } ==> *final(self)
                matches MidiState::Ready {
                state: s2,
                input_port: ip2,
                output_port: op2,
            } && s2 == state && ip2 == port && op2 == output_port,
    {
        match self {
            MidiState::Ready { input_port, .. } => {
                *input_port = port;
            },
            _ => {},
        }
    }

    /// Select (or clear) the output port: a pure field update of `Ready`.
    pub fn select_output(&mut self, port: Option<OutputPortId>)
        requires
            *old(self) is Ready,
        ensures
            *old(self) matches MidiState::Ready { state, input_port, .. } ==> *final(self)
                matches MidiState::Ready {
                state: s2,
                input_port: ip2,
                output_port: op2,
            } && s2 == state && ip2 == input_port && op2 == port,
    {
        match self {
            MidiState::Ready { output_port, .. } => {
                *output_port = port;
            },
            _ => {},
        }
    }
}

impl ReadyMidiState {
    /// Package the two freshly opened subsystem clients.
    pub fn new(input: InputClient, output: OutputClient) -> (s: Self)
        ensures
            s.input == input,
            s.output == output,
    {
        ReadyMidiState { input, output }
    }

    /// Apply the outcome of a connect attempt on the two selected ports.
    ///
    /// On success the new `Connected` state holds exactly the two opened
    /// connections, the two selected ports with their names, and the two
    /// subsystem clients it consumed. On failure every connection the
    /// attempt opened is inside the returned error, to be closed by the
    /// caller: nothing is retained and nothing leaks.
    pub fn connect(
        self,
        input_port: InputPortId,
        input_port_name: String,
        output_port: OutputPortId,
        output_port_name: String,
        attempt: ConnectAttempt,
    ) -> (r: Result<ConnectedMidiState, ConnectError>)
        ensures
            match attempt {
                ConnectAttempt::OutputFailed(e) => r matches Err(ConnectError::Output { error })
                    && error == e,
                ConnectAttempt::InputFailed { error: e, output } => r matches Err(
                    ConnectError::Input { error, released_output },
                ) && error == e && released_output == output,
                ConnectAttempt::Opened { output, input } => r matches Ok(c) && c.input_port == (
                    input_port,
                    input_port_name,
                ) && c.output_port == (output_port, output_port_name) && c.input_connection
                    == input && c.output_connection == output && c.input_client == self.input
                    && c.output_client == self.output,
            },
    {
        match attempt {
            ConnectAttempt::OutputFailed(error) => Err(ConnectError::Output { error }),
            ConnectAttempt::InputFailed { error, output } => Err(
                ConnectError::Input { error, released_output: output },
            ),
            ConnectAttempt::Opened { output, input } => Ok(
                ConnectedMidiState {
                    input_port: (input_port, input_port_name),
                    output_port: (output_port, output_port_name),
                    input_connection: input,
                    output_connection: output,
                    input_client: self.input,
                    output_client: self.output,
                },
            ),
        }
    }
}

impl ConnectedMidiState {
    /// The connected input port and its display name.
    pub fn input_port(&self) -> (p: &(InputPortId, String))
        ensures
            *p == self.input_port,
    {
        &self.input_port
    }

    /// The connected output port and its display name.
    pub fn output_port(&self) -> (p: &(OutputPortId, String))
        ensures
            *p == self.output_port,
    {
        &self.output_port
    }

    /// Tear the connection down: the machine returns to `Ready` with the
    /// same two subsystem clients it entered `Connected` with, and exactly
    /// the two connections that were opened come back to be closed — the
    /// input connection first (stopping the listener), then the output
    /// connection.
    pub fn disconnect(self) -> (r: (ReadyMidiState, InputConn, OutputConn))
        ensures
            r.0.input == self.input_client,
            r.0.output == self.output_client,
            r.1 == self.input_connection,
            r.2 == self.output_connection,
    {
        (
            ReadyMidiState { input: self.input_client, output: self.output_client },
            self.input_connection,
            self.output_connection,
        )
    }
}

/// Display name for a port whose name the subsystem could not retrieve:
/// the registry substitutes this placeholder rather than failing a listing.
pub fn port_name_or_placeholder(name: Option<String>) -> (r: String)
    ensures
        match name {
            Some(n) => r == n,
            None => r@ == "<error>"@,
        },
{
    match name {
        Some(n) => n,
        None => String::from_str("<error>"),
    }
}

} // verus!
