//! Seeding a source and answering a request, each as one unit: it is
//! written whole or not at all.

pub mod query;
pub mod seed_database;

use vstd::prelude::*;

verus! {

/// Why the store could not be set up or seeded.
#[derive(Debug, PartialEq, Eq, Structural, Clone, Copy)]
pub enum PgError {
    /// The address of the store is not configured.
    DatabaseURL,
    /// The pool of connections could not be built.
    PoolBuildError,
    /// Work handed to a connection did not come back.
    InteractionError,
    /// The pool gave no connection.
    ConnectionError,
    /// The path of the source to seed is not configured.
    SeedFilePath,
    /// The source to seed is no regular file, or not one of delimited text.
    SeedFileValidationError,
    /// Seeding was given up.
    SeedDatabaseError,
    /// The store refused what it was asked to do.
    DieselError,
}

} // verus!
