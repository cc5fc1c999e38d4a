//! Core logic of a local console for Auth0 client-credential profiles:
//! the profile store, the token cache, saved requests, request planning
//! for the HTTP proxy and the text handling of the vault decryption.
pub mod config;
pub mod laws;
pub mod named;
pub mod routes;
pub mod text;
pub mod token;
