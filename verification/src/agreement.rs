//! The scheduler and its judge agree: a run of [`crate::model::ManagedScheduler`], recorded event by
//! event, replays in [`crate::oracle::ReferenceScheduler`] to the same answers, services, failures,
//! view and summary, and no check fails.

pub mod debts;
pub mod laws;
pub mod record;
pub mod relation;
pub mod requests;
pub mod step;
pub mod turn;
