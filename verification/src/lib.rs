//! A coverage-guided fuzzer for Soroban smart contracts.
//!
//! [`orchestrator`] runs a fuzzing session: it draws inputs with [`input_gen`]
//! and [`mutation`], executes them on a [`persistent_vm`], follows the edges they
//! reach in a [`coverage_map`], keeps the interesting ones in a [`corpus`], and
//! sorts their crashes with [`crash_triage`]. [`wasm_instrumenter`] analyses the
//! binary under test, [`dashboard`] shows the state of a session, and
//! [`ci_integration`] makes it a step of continuous integration.
//!
//! What holds of these parts is proved in modules of its own: [`chances`] and
//! [`operators`] of mutation and selection, [`draws`] and [`reading`] of values,
//! [`coarse`] of minimisation, [`noise`], [`shapes`] and [`plain`] of error texts, and
//! [`binaries`] and [`walks`] of coverage.
pub mod base64;
pub mod binaries;
pub mod chances;
pub mod ci_integration;
pub mod clock;
pub mod coarse;
pub mod corpus;
pub mod coverage_map;
pub mod crash_triage;
pub mod dashboard;
pub mod delta_debug;
pub mod draws;
pub mod input_gen;
pub mod json;
pub mod mutation;
pub mod noise;
pub mod normalise;
pub mod operators;
pub mod orchestrator;
pub mod persistent_vm;
pub mod plain;
pub mod ratio;
pub mod reading;
pub mod rng;
pub mod shapes;
pub mod strkey;
pub mod sums;
pub mod text;
pub mod values;
pub mod walks;
pub mod wasm_instrumenter;

pub use ci_integration::{FuzzCiConfig, FuzzCiResult, FuzzCiRunner};
pub use corpus::{Corpus, CorpusEntry, CorpusStats};
pub use coverage_map::{CoverageMap, EdgeId, COVERAGE_MAP_SIZE};
pub use crash_triage::{CrashGroup, CrashReport, CrashTriageEngine};
pub use dashboard::{FuzzerDashboard, FuzzerStatus, FuzzerStatusSnapshot};
pub use input_gen::SorobanInputGen;
pub use mutation::{MutationScheduler, MutationStrategy, MutatorConfig};
pub use orchestrator::{CoverageFuzzer, FuzzerConfig, FuzzerReport};
pub use persistent_vm::{PersistentVm, VmResetError, VmSnapshot};
pub use values::{SorobanValue, SorobanValueType};
pub use wasm_instrumenter::{InstrumentationStats, WasmInstrumenter};
