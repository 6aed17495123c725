//! Health checks for a service: what each check reports, how the reports add
//! up to one answer, and what a health plugin may reach over the network.

pub mod address;
pub mod components;
pub mod config;
pub mod disk;
pub mod dns;
pub mod health;
pub mod http;
pub mod ldap;
pub mod listener;
pub mod loader;
pub mod notation;
pub mod permission;
pub mod ping;
pub mod plugin;
pub mod resources;
pub mod status;
pub mod text;
pub mod tls;
