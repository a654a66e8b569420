//! Verified core of a terminal client for MeshCore companion radios reached
//! over Bluetooth Low Energy.
pub mod text;
pub mod ui;
pub mod bluetooth;
pub mod protocol;
