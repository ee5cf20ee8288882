//! Orchestration rules for the daily maintenance of a fleet of game servers: the task graph
//! and its scheduler, the reference-counted suspension of GitOps applications, bounded
//! polling, and the configuration model. Everything here is pure logic over plain values;
//! the program around it performs the cluster calls and reports their outcomes back.

pub mod config;
pub mod kubernetes_objects;
pub mod routine;
pub mod scheduler;
pub mod text;
