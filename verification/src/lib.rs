//! Verified core of a flow-programming simulator: agents learn routes for
//! the virtual machine interfaces (VMIs) attached to them and to other
//! agents, turn pairs of routes into flows, and spread those flows over
//! hash partitions of a flow table; a datapath looks packets up in the
//! partition that their flow key hashes to.
pub mod agent;
pub mod prefix;
pub mod table;
pub mod flow;
pub mod config;
pub mod control;
pub mod packet;
