//! Location of the database file under the user's home directory.

use vstd::prelude::*;

verus! {

/// Knows where the database file lives. The home directory is handed in
/// by the caller, so this module itself touches no environment state.
pub struct Config {
    pub db_path: String,
}

impl Config {
    /// The database file sits at `<home>/.yawmak/db`.
    pub fn new(home_dir: &str) -> (c: Config)
        ensures
            c.db_path@ == home_dir@ + "/.yawmak/db"@,
    {
        let mut path = home_dir.to_owned();
        path.append("/.yawmak/db");
        Config { db_path: path }
    }

    pub fn get_db_path(&self) -> (p: &String)
        ensures
            p@ == self.db_path@,
    {
        &self.db_path
    }
}

} // verus!
