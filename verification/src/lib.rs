//! bsdkrun's engine logic: the DNS responder's wire format, the console
//! filters, machine domains, the flavor catalog and the decisions behind the
//! machine lifecycle commands, each with a contract checked by Verus.

pub mod text;
pub mod dns;
pub mod console;
pub mod domains;
pub mod flavors;
pub mod resolver;
pub mod host;
pub mod cp;
pub mod prune;
pub mod doctor;
pub mod guest;
pub mod solo5;
pub mod db;
pub mod ids;
pub mod snapshot;
pub mod machines;
pub mod docker;
pub mod boot;
pub mod flavor_cmd;
pub mod cache;
pub mod disk;
pub mod ci;
