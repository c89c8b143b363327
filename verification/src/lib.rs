//! The rules of a cluster-monitoring pipeline.
//!
//! Agents on compute nodes push timestamped measurements to a collector, which
//! batches them, groups them by calendar date and appends them to date-partitioned
//! save files. The heart of the crate is the collector's side: the save worker
//! ([`worker`]), the walk over unreadable save files ([`store`]), the table of the
//! agents that are alive ([`client`]), the handling of one connection
//! ([`connection`]) and the fan-out of the shutdown request ([`control`]).
//!
//! Around it stand the readers of what the tools of a node and of the scheduler
//! print ([`agent`], [`sacct`], [`slurm`], [`parse`], [`duration`]), the names of the
//! save files ([`filename`]), and what the reporting side needs to answer a query and
//! to draw a chart ([`datetime`], [`query`], [`chart`], [`matrix`]).
//!
//! Every function states what it returns; reading, writing, waiting and the system
//! clock are left to the program that uses the crate, or stand behind small
//! functions whose contracts are taken on trust and say so.

pub mod agent;
pub mod chart;
pub mod client;
pub mod connection;
pub mod control;
pub mod datetime;
pub mod duration;
pub mod filename;
pub mod matrix;
pub mod measurement;
pub mod parse;
pub mod query;
pub mod sacct;
pub mod slurm;
pub mod store;
pub mod time;
pub mod worker;
