//! Diagnosis of DLL-loading failures of Windows executables: PE import
//! parsing, a model of the loader's search order, the debug-event state of
//! one run, the loader-snaps text classifier and the fusion of all of them.
pub mod text;
pub mod emit;
pub mod order;
pub mod pe;
pub mod search;
pub mod debug_run;
pub mod snaps;
pub mod loader_snaps;
pub mod paths;
pub mod fusion;
pub mod report;
pub mod cli;
