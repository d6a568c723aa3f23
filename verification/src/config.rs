use vstd::prelude::*;

verus! {

/// Explicit configuration handed to the callers that need a database
/// connection string; the application layer fills it from its environment
/// and passes it along instead of reading process-wide state.
pub struct Config {
    pub database_url: String,
}

impl Config {
    pub fn new(database_url: String) -> (c: Config)
        ensures
            c.database_url@ == database_url@,
    {
        Config { database_url }
    }

    /// The connection string this configuration was created with.
    pub fn get_database_url(&self) -> (r: &String)
        ensures
            r@ == self.database_url@,
    {
        &self.database_url
    }
}

} // verus!
