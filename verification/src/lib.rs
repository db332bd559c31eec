//! A collection of small verified libraries, each built around one common
//! Rust programming pattern: generic functions, traits with default methods,
//! closures and memoization, state machines for a blog-post workflow,
//! string and collection utilities, and a handful of arithmetic helpers.

pub mod add_one;
pub mod advanced_functions;
pub mod areas;
pub mod blog;
pub mod borrowing;
pub mod closures;
pub mod collections;
pub mod control_flow;
pub mod generics;
pub mod gui;
pub mod iterators;
pub mod lifetimes;
pub mod ownership;
pub mod restaurant;
pub mod slices;
pub mod summaries;
pub mod test_organization;
pub mod test_running;
pub mod testing;
pub mod tracker;
pub mod typed_posts;
pub mod users;
