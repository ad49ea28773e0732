//! Tunnel: the verified core of a multi-host SSH port-forwarding tool.
//!
//! [`manager`] keeps the registry of running tunnels, [`runtime`] and [`session`]
//! decide each step of one run, [`forward`] and [`traffic`] pass bytes on and
//! count them, [`tray`] and [`icon`] say what is shown, [`config`], [`secret`] and
//! [`commands`] what is saved. The network, the clock and the windows stay with
//! the caller: it hands in what happened and does what it is told.
pub mod centre;
pub mod commands;
pub mod config;
pub mod drawing;
pub mod fixed;
pub mod forward;
pub mod icon;
pub mod keyed;
pub mod manager;
pub mod number;
pub mod precision;
pub mod runtime;
pub mod secret;
pub mod session;
pub mod text;
pub mod traffic;
pub mod tray;
