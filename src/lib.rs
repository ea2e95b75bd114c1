//! Verified core of a radio-burst detector: radio planning, interestingness of
//! integer magnitude spectra, the squelch event buffer, the decisions of the
//! producer and consumer loops, and the capture file name.
pub mod events;
pub mod naming;
pub mod pipeline;
pub mod radio;
pub mod spectrum;
