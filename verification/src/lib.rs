//! sonda: hardware, OS and driver scanner. The library holds the parsers of
//! the system tools' output, the JSON contract's data model, the summary
//! renderer, the timestamp formatter and the update decisions.

pub mod text;
pub mod number;
pub mod model;
pub mod timefmt;
pub mod shell;
pub mod probe;
pub mod summary;
pub mod update;
pub mod cli;
pub mod run;
