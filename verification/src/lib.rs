//! A parallel recursive file searcher: the pattern language, option
//! grammar, filtering, ordering and rendering rules, verified.
pub mod text;
pub mod pattern;
pub mod number;
pub mod matcher;
pub mod options;
pub mod modes;
pub mod ignore;
pub mod walk;
pub mod order;
pub mod results;
pub mod sizes;
pub mod ranges;
pub mod render;
pub mod search;
pub mod mounts;
pub mod ledger;
pub mod output;
