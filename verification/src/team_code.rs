//! The client-side decision logic: what a thin client answers to each
//! server message.  Everything around it (sockets, timeouts, the reconnect
//! loop) is transport plumbing; the decision itself is a pure function of
//! the incoming message.

use vstd::prelude::*;
use crate::codec::{ClientMessages, ServerMessages, WireVec};

verus! {

/// Persistent client state between messages.
pub struct State {}

impl State {
    /// A client that has seen nothing yet.
    pub fn new() -> (r: State)
        ensures
            r == (State {  }),
    {
        State {  }
    }

    /// The reply to one server message: a map change needs no answer, a
    /// state broadcast is answered with a control message echoing the
    /// session secret, and a disconnect notice is answered by reconnecting.
    pub fn handle_message(&mut self, incoming: &ServerMessages) -> (r: Option<ClientMessages>)
        ensures
            r == (match *incoming {
                ServerMessages::MapChange { .. } => None::<ClientMessages>,
                ServerMessages::State { secret, .. } => Some(
                    ClientMessages::Control {
                        self_port: 0u16,
                        secret,
                        tracks_acceleration_target: WireVec { x: 0u32, y: 0u32 },
                        turret_acceleration_target: 0u32,
                        shoot: true,
                    },
                ),
                ServerMessages::Disconnected => Some(ClientMessages::Connect { self_port: 0u16 }),
            }),
    {
        match incoming {
            ServerMessages::MapChange { .. } => None,
            ServerMessages::State { secret, .. } => {
                let mut msg = ClientMessages::control(WireVec { x: 0, y: 0 }, 0, true);
                msg.set_secret(*secret);
                Some(msg)
            },
            ServerMessages::Disconnected => Some(ClientMessages::connect()),
        }
    }
}

} // verus!
