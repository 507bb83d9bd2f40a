//! A daemon library for convertible laptops: it compiles a configuration of
//! named actions into an indexed table and decides, event by event, which
//! actions run and which effects they have.

pub mod calibration;
pub mod config;
pub mod resolver;
pub mod runtime;
pub mod sensor_proxy;
pub mod variables;
