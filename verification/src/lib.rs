pub mod buffer;
pub mod cli;
pub mod connection;
pub mod cstructs;
pub mod daemon;
pub mod error;
pub mod ghclient;
pub mod message;
pub mod nss;
pub mod outside;
pub mod seqs;
pub mod structs;
pub mod text;
