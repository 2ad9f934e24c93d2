//! A small local package manager: the installed-package ledger and the
//! decisions of the install and remove workflows, verified.
//!
//! The library performs no I/O. The install and remove workflows are state
//! machines: a driver performs the work that each state asks for (unpack an
//! archive, run a script, copy or delete a file, write the ledger) and feeds
//! the outcome back as an [`Event`](machine::Event).

mod text;
pub mod ledger;
pub mod name;
pub mod machine;
pub mod laws;
