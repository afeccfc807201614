//! Apple Silicon Machine Intelligence: the decisions of a cluster daemon.

pub mod admin;
pub mod adopt;
pub mod ane;
pub mod api;
pub mod argv;
pub mod autosetup;
pub mod bench;
pub mod bonjour;
pub mod bridge;
pub mod cli;
pub mod digest;
pub mod downloads;
pub mod graph;
pub mod hardware;
pub mod health;
pub mod hostfile;
pub mod hub;
pub mod jaccl;
pub mod json;
pub mod launchd;
pub mod links;
pub mod media;
pub mod models;
pub mod numeral;
pub mod order;
pub mod process;
pub mod rdma;
pub mod scan;
pub mod serve;
pub mod setup;
pub mod startup;
pub mod table;
pub mod text;
pub mod topology;
pub mod transfer;
pub mod wire;
