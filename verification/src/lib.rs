//! Core of a TCP-level HTTP reverse proxy: an upstream pool under active
//! health checks, random upstream selection with depth-one failover, a
//! per-client sliding-window rate limiter, and the per-connection request
//! loop's decisions — together with a few small verified text utilities.

pub mod pool;
pub mod selector;
pub mod health;
pub mod limiter;
pub mod handler;
pub mod hangman;
pub mod rwc;
pub mod rdiff;
pub mod debugger;
