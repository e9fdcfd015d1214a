pub mod account;
pub mod backlog;
pub mod calendar;
pub mod clock;
pub mod command;
pub mod estimate;
pub mod history;
pub mod ingest;
pub mod json;
pub mod ledger;
pub mod local;
pub mod official;
pub mod pricing;
pub mod query;
pub mod quota;
pub mod recorder;
pub mod report;
pub mod scan;
pub mod schema;
pub mod session;
pub mod text;
pub mod usage;
pub mod web;
