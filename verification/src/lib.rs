//! Shows where vehicles are on a fixed track: position telemetry that
//! arrives irregularly and from several sources is mapped onto the markers of
//! the track, built into a time-ordered sequence of display frames, and played
//! back at a steady rate while more telemetry is fetched.
//!
//! - `track`: the markers, and the marker nearest to a position.
//! - `telemetry`: records of the source, and the samples made of them.
//! - `fetch`: the fetcher, a state machine over requests and responses.
//! - `time_order`: samples in the order of their timestamps.
//! - `participants`: the colour of each participant.
//! - `frame`, `sequence`: a display frame, and the sequence of them.
//! - `builder`: from samples to frames.
//! - `clock`: the elapsed time of the session.
//! - `scheduler`: the playback, a state machine over messages and actions.
//!
//! Nothing here reads a clock, opens a connection or draws: times come in as
//! milliseconds, responses of the source as values, and what is to be done
//! goes out as actions.

pub mod builder;
pub mod clock;
pub mod fetch;
pub mod frame;
pub mod participants;
pub mod scheduler;
pub mod sequence;
pub mod telemetry;
pub mod time_order;
pub mod track;
