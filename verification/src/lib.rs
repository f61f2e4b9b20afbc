pub mod actions;
pub mod building;
pub mod calendar;
pub mod chat;
pub mod collect;
pub mod combat;
pub mod commands;
pub mod counts;
pub mod equip;
pub mod geometry;
pub mod grammar;
pub mod kinds;
pub mod llm;
pub mod measure;
pub mod mode;
pub mod order;
pub mod smoke;
pub mod stance;
pub mod structure;
pub mod targets;
pub mod text;
pub mod trace;
pub mod world;
