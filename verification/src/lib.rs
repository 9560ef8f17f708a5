//! Core logic of a small HTTP gateway: request routing, an SSRF allow-list
//! guard for proxy targets, hop-by-hop header filtering, and response
//! construction, together with a collection of verified utility routines.

pub mod arith;
pub mod arrays;
pub mod frequency;
pub mod topk;
pub mod headers;
pub mod numparse;
pub mod packet;
pub mod query;
pub mod relay;
pub mod response;
pub mod router;
pub mod runs;
pub mod strutil;
pub mod text;
pub mod validate;
