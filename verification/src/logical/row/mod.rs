//! Captured SQLite rows and their durable representation.

pub mod accept;
pub mod accepted;
pub mod apply;
pub mod audit;
pub mod balance;
pub mod bound;
pub mod capture;
pub mod cells;
pub mod changes;
pub mod codec;
pub mod collide;
pub mod compose;
pub mod context;
pub mod derive;
pub mod error;
pub mod exchange;
pub mod fixture;
pub mod fold;
pub mod folding;
pub mod hold;
pub mod image;
pub mod keys;
pub mod laws;
pub mod lower;
pub mod measure;
pub mod order;
pub mod outcome;
pub mod owners;
pub mod ownership;
pub mod position;
pub mod prefix;
pub mod presence;
pub mod reach;
pub mod replay;
pub mod rules;
pub mod set;
pub mod sound;
pub mod statement;
pub mod steps;
