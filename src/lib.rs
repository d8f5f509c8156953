//! Session logic for sending one file through a magic wormhole: the short
//! code that the two sides share, the state machine that each side of a
//! transfer runs, the registry of running sessions, and the connection
//! defaults handed to the wormhole library.

pub mod code;
pub mod config;
pub mod registry;
pub mod session;

pub use code::{InputError, WormholeCode, parse_code};
pub use config::{BadRelayUrl, SessionConfig, gen_relay_hints};
pub use registry::{App, Update};
pub use session::{
    Action, FailReason, Fault, Input, Phase, Role, Session, SessionEvent, Step, Transport,
    reason_of,
};
