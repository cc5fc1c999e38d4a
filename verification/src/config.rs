//! The persisted configuration: named Auth0 profiles, saved requests and
//! the vault password.
use vstd::prelude::*;
use crate::named::NamedMap;

verus! {

/// Name of the file that holds the configuration, relative to the working directory.
pub open spec fn config_file_name() -> Seq<char> {
    seq!['c', 'o', 'n', 'f', 'i', 'g', '.', 'j', 's', 'o', 'n']
}

/// The path of the configuration file.
pub fn config_path() -> (path: String)
    ensures
        path@ == config_file_name(),
{
    let path = "config.json".to_string();
    proof {
        reveal_strlit("config.json");
    }
    path
}

/// One named set of Auth0 client credentials.
#[derive(Clone, Debug)]
pub struct Auth0Config {
    pub domain: String,
    pub client_id: String,
    pub client_secret: String,
    pub audience: String,
    pub note: Option<String>,
}

/// The text of a profile's fields.
pub struct ProfileView {
    pub domain: Seq<char>,
    pub client_id: Seq<char>,
    pub client_secret: Seq<char>,
    pub audience: Seq<char>,
    pub note: Option<Seq<char>>,
}

impl View for Auth0Config {
    type V = ProfileView;

    open spec fn view(&self) -> ProfileView {
        ProfileView {
            domain: self.domain@,
            client_id: self.client_id@,
            client_secret: self.client_secret@,
            audience: self.audience@,
            note: match self.note {
                Some(n) => Some(n@),
                None => None,
            },
        }
    }
}

/// A stored request: its JSON value and the string under its `"name"` key, if any.
#[derive(Clone, Debug)]
pub struct SavedEntry<J> {
    pub name: Option<String>,
    pub value: J,
}

/// Whether a stored request carries the name `name`.
pub open spec fn entry_named<J>(entry: SavedEntry<J>, name: Seq<char>) -> bool {
    match entry.name {
        Some(n) => n@ == name,
        None => false,
    }
}

/// The whole configuration. `J` is the JSON value type of saved requests.
#[derive(Debug)]
pub struct AppConfig<J> {
    /// Named Auth0 credential profiles.
    pub profiles: NamedMap<Auth0Config>,
    /// Saved API requests, in the order they were saved.
    pub saved_requests: Vec<SavedEntry<J>>,
    /// Password handed to `ansible-vault`.
    pub vault_password: Option<String>,
}

impl<J> Default for AppConfig<J> {
    /// No profiles, no saved requests, no vault password.
    fn default() -> (cfg: Self)
        ensures
            cfg.profiles@ == Map::<Seq<char>, ProfileView>::empty(),
            cfg.saved_requests@.len() == 0,
            cfg.vault_password is None,
    {
        AppConfig { profiles: NamedMap::new(), saved_requests: Vec::new(), vault_password: None }
    }
}

} // verus!
