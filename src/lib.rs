//! Session engine of a chat client for a remote tutoring service: the message
//! log, the typing-reveal scheduler, the connection state machine and the
//! controller that ties them together.

pub mod animator;
pub mod chat;
pub mod connection;
pub mod log;
pub mod message;
