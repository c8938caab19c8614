//! PacketLens core: packet summaries, flow tracking, process attribution,
//! pcapng framing and capture bookkeeping, each with a verified contract.

pub mod text;
pub mod model;
pub mod storage;
pub mod flow;
pub mod ranking;
pub mod clock;
pub mod protocol;
pub mod process;
pub mod capture;
pub mod service;
