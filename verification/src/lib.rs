//! Core library of a desktop manager for local, isolated database instances.

pub mod dict;
pub mod engine;
pub mod i18n;
pub mod install;
pub mod manager;
pub mod mariadb;
pub mod mongodb;
pub mod pg;
pub mod ranking;
pub mod mysql;
pub mod redis;
pub mod store;
pub mod text;
pub mod versions;
