//! Clinical record extraction and medication reconciliation.
//!
//! Documents are parsed into consultations, treatment plans are tokenized
//! into medication directives, and each patient's active medications are
//! derived by replaying those directives in chronological order.
pub mod text;
pub mod field;
pub mod directive;
pub mod replay;
pub mod number;
pub mod date;
pub mod record;
pub mod reconcile;
pub mod index;
pub mod entry;
pub mod browse;
