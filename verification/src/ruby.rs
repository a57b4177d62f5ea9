//! Driving an external Ruby test runner and reading its output.

pub mod rspec;
