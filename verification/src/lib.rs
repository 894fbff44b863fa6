//! Core of a protocol runtime in which protocols exchange requests, replies
//! and notifications through a central router.

pub mod builder;
pub mod counting;
pub mod dispatch;
pub mod dispatch_laws;
pub mod event;
pub mod handle;
pub mod ids;
pub mod laws;
pub mod plan;
pub mod router;
pub mod table;
