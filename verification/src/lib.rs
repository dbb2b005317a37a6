//! Verified building blocks of an asynchronous, leaderless Byzantine agreement.
pub mod alerts;
pub mod backup;
pub mod clock;
pub mod codec_error;
pub mod collections;
pub mod creation;
pub mod crypto;
pub mod dag;
pub mod data;
pub mod dissemination;
pub mod duration;
pub mod extension;
pub mod member;
pub mod mock;
pub mod nodes;
pub mod reconstruction;
pub mod rmc;
pub mod runway;
pub mod scale;
pub mod signed;
pub mod task_queue;
pub mod terminator;
pub mod text;
pub mod units;
