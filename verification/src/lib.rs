//! Velos: a control plane that schedules containers onto registered workers
//! and reconciles their observed state toward what was asked for.

pub mod scheduler;
pub mod text;
pub mod clock;
pub mod json;
pub mod runtime;
pub mod reconcile;
pub mod store;
pub mod controllers;
pub mod memory;
pub mod daemon;
pub mod host;
pub mod ctl;
pub mod auth;
pub mod server;
pub mod worker;
pub mod models;
