//! Article library logic for taz.de texts and LingQ lessons: text cleanup,
//! stable article identities, query sanitising, settings and job bookkeeping.

pub mod text;
pub mod numbers;
pub mod settings;
pub mod dates;
pub mod lingq;
pub mod database;
pub mod patterns;
pub mod identity;
pub mod taz;
pub mod gui;
