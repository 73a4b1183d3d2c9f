//! Light panels that stand for cloud resources: touch a panel and its resource is terminated.

pub mod board;
mod chance;
pub mod controller;
pub mod display;
pub mod dynamodb;
pub mod ec2;
pub mod frame;
pub mod laws;
pub mod legible;
pub mod panel;
pub mod passes;
pub mod resource;
pub mod room;
pub mod rounds;
pub mod s3;
pub mod show;
pub mod tasklog;
pub mod tasks;
pub mod text;
pub mod touch;
