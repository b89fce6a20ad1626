pub mod error;
pub mod seqs;
pub mod text;
pub mod mqtt;
pub mod config;
pub mod store;
pub mod projection;
pub mod supervisor;
pub mod keyed;
pub mod backpressure;
pub mod auth;
pub mod api;
pub mod health;
pub mod migrate;
pub mod order;
pub mod rows;
pub mod cache;
pub mod protocol;
pub mod projector;
pub mod reconciler;
pub mod service;
pub mod events;
pub mod startup;
pub mod proxy;
pub mod attach;
