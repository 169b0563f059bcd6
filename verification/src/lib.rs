//! Verified core of small line- and frame-oriented network services: a
//! price store answering mean queries, a primality oracle and a chat room.
mod text;

pub mod chat_session;
pub mod means;
pub mod chat_room;
pub mod prime;
