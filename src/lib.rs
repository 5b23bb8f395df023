//! Core of a turn-based dungeon crawler: a store of fixed-layout entity
//! records, digital lines, floor geometry with a move resolver, and the
//! status-message log.

pub mod raster;
pub mod storage;
pub mod messages;
pub mod geometry;
pub mod game;
