//! Core control plane of a cooling daemon: settings, profiles, functions, modes, alerts and the
//! main loop's decisions, with their behaviour stated as contracts.
pub mod alerts;
pub mod config;
pub mod device;
pub mod device_settings;
pub mod error;
pub mod function;
pub mod main_loop;
pub mod modes;
mod outside;
pub mod profile;
pub mod setting;
pub mod settings;
pub mod status;
