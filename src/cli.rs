//! The commands of the program, as plain values.
use vstd::prelude::*;

verus! {

/// The parsed command line.
#[derive(Debug)]
pub struct Pimsync {
    pub command: Option<Commands>,
}

#[derive(Debug)]
pub enum Commands {
    /// Reconcile a player's playlists with the account's.
    Sync { player: Option<Players> },
    /// Log in to an account of a service instance.
    Login { name: String, password: String, instance: String },
    /// Forget the session.
    Logout,
}

#[derive(Debug)]
pub enum Players {
    /// A player that keeps its playlists in a database file at `db`.
    Vimusic { db: String },
}

} // verus!
