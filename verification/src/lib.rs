//! Signing of Solana transfer transactions with a key held behind a PKCS#11
//! module: the payload builder, the key and signature rules, the benchmark
//! bookkeeping, the latency statistics and their report and chart.
//!
//! Everything here computes on plain values; loading the module, talking to it
//! and reading the clock is left to the program around the library.

pub mod chart;
pub mod decimal;
pub mod export;
pub mod histogram;
pub mod payload;
pub mod pkcs11;
pub mod random;
pub mod reading;
pub mod report;
pub mod run;
pub mod setup;
pub mod signer;
pub mod single;
pub mod solana;
pub mod spread;
pub mod stats;
pub mod svg;
pub mod text;
pub mod timeline;
pub mod wide;
