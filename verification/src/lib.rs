//! Decoding layer for the session listing of a virtual-network-hub
//! management tool: locale-aware numeric normalization, tabular decoding
//! of session summaries and per-session detail tables, and the argument
//! protocol for invoking the tool non-interactively.

pub mod softether_hub_session_reader;
pub mod softether_reader;
pub mod text;

pub use softether_hub_session_reader::HubSession;
pub use softether_hub_session_reader::HubSessionListEntry;
pub use softether_hub_session_reader::SoftEtherHubSessionReader;
pub use softether_reader::SoftEtherError;
pub use softether_reader::SoftEtherReader;
