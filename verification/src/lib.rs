//! Passive acoustic presence detection.
//!
//! The detector listens to what a machine is playing (the reference) and to
//! what its microphone hears, and decides from the echoes in between whether
//! somebody is in front of it. This crate holds the decisions: every
//! function is verified against its contract. Capturing audio, transforming
//! it to spectra and writing files are left to the program around it.
//!
//! Everything is counted in whole numbers. Samples are signed 16-bit PCM;
//! fractions, correlations, strengths and levels are millionths of one (of
//! full scale, for levels); distances are millimetres; times are
//! milliseconds unless a name says otherwise; features of a scan are
//! thousandths of their unit.
//!
//! - `ring`, `capture`: the bounded sample buffers and what fills them.
//! - `estimator`: one `(distance, strength)` candidate per pair of frames.
//! - `aggregator`, `hysteresis`, `scheduler`: votes over a sliding window,
//!   the present/absent state with its dwell, and the tick that drives both.
//! - `fingerprint`, `gated`: band-peak fingerprints, their similarity, and
//!   detection gated to the segments of an aligned track.
//! - `prescan`, `stats`: the layout of a scan, robust scoring of its windows
//!   and the choice of segments.
//! - `scansong`, `hex`, `text`: the scan table and the text it is made of.
//! - `impulse`: what the answer of a room to a click says about presence.
//! - `config`, `cli`, `logger`: options, the command line, and log lines.

pub mod aggregator;
pub mod capture;
pub mod cli;
pub mod config;
pub mod estimator;
pub mod fingerprint;
pub mod gated;
pub mod hex;
pub mod hysteresis;
pub mod impulse;
pub mod logger;
pub mod prescan;
pub mod ring;
pub mod scansong;
pub mod scheduler;
pub mod stats;
pub mod text;
pub mod units;
