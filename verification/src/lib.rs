//! The rules of a self-hosted VPM package shop.

pub mod archive;
pub mod checklist;
pub mod codec;
pub mod config;
pub mod demotion;
pub mod digest;
pub mod edits;
pub mod error;
pub mod jobs;
pub mod json;
pub mod manifest;
pub mod names;
pub mod paths;
pub mod registry;
pub mod replies;
pub mod repos;
pub mod request;
pub mod storage;
pub mod text;
pub mod upload;
pub mod urls;
