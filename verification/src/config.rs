use vstd::prelude::*;

verus! {

/// The server's configuration, as read from its TOML file.
pub struct Configuration {
    /// The directory whose files are served as notes.
    pub base_path: String,
    /// The CSV file of user logins.
    pub user_path: String,
    /// The directory of access files, one per user plus `default`.
    pub access_path: String,
    /// The address the server listens on.
    pub serve: String,
}

} // verus!
