//! A small personal podcast archive: parsing RSS feeds into podcast and
//! episode records, planning episode downloads with deduplication, and a
//! persistent store of podcasts with a binary load/save codec.

pub mod codec;
pub mod database;
pub mod date;
pub mod errors;
pub mod feed;
pub mod pod;
pub mod text;
pub mod xml;
