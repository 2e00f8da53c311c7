//! Trust Sentinel: the decision logic of an offline endpoint trust agent.
//!
//! The library holds what the agent computes from the text that system tools
//! print: the parsed system state, the comparison against a trusted baseline,
//! the attack detectors, the trust verdict, the request routing and response
//! framing of the local status endpoint, the authentication token and the
//! at-rest encryption, and the tray's presentation of the verdict.

pub mod text;
pub mod crypto;
pub mod state;
pub mod detect;
pub mod status;
pub mod guard;
pub mod tray;
