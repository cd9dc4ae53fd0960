//! Verified core of a reactor-criticality benchmark suite.

pub mod batches;
pub mod binary64;
pub mod burnup;
pub mod case_bundle;
pub mod case_loader;
pub mod const_transport;
pub mod csv_table;
pub mod data_files;
pub mod data_loader;
pub mod device_load;
pub mod eigen_plan;
pub mod executor;
pub mod features;
pub mod gamma_plan;
pub mod geometry;
pub mod icsbep;
pub mod json;
pub mod lattice;
pub mod materials;
pub mod parity;
pub mod photon_bench;
pub mod pipeline;
pub mod raybox;
pub mod region;
pub mod reports;
pub mod result_processor;
pub mod run_args;
pub mod runner_setup;
pub mod samples;
pub mod scene;
pub mod search;
pub mod spectrum;
pub mod stats;
pub mod telemetry;
pub mod text;
pub mod trace;
pub mod xs_compare;
