//! The closed set of servers a client installation can target, with their
//! display metadata and the match from a settings folder name to a server.
use vstd::prelude::*;
use crate::text::{contains, occurs_in};

verus! {

/// A deployment target of the game client.
#[derive(Clone, Copy, Debug, PartialEq, Eq, Hash, Structural)]
pub enum Server {
    Tranquility,
    Singularity,
    Thunderdome,
    Serenity,
}

/// What `str::to_lowercase` returns on a string.
pub uninterp spec fn lower_of(s: Seq<char>) -> Seq<char>;

/// Relies on `str::to_lowercase`: the lowercase mapping of every character,
/// which depends on the characters alone.
#[verifier::external_body]
fn lowercase(s: &str) -> (r: String)
    ensures
        r@ == lower_of(s@),
{
    s.to_lowercase()
}

/// The server whose lowercase name occurs in a lowercased folder name; the
/// servers are tried in their declaration order and the first match wins.
pub open spec fn server_for(lower: Seq<char>) -> Option<Server> {
    if occurs_in(lower, "tranquility"@) {
        Some(Server::Tranquility)
    } else if occurs_in(lower, "singularity"@) {
        Some(Server::Singularity)
    } else if occurs_in(lower, "thunderdome"@) {
        Some(Server::Thunderdome)
    } else if occurs_in(lower, "serenity"@) {
        Some(Server::Serenity)
    } else {
        None
    }
}

pub open spec fn spec_display_name(s: Server) -> Seq<char> {
    match s {
        Server::Tranquility => "Tranquility"@,
        Server::Singularity => "Singularity"@,
        Server::Thunderdome => "Thunderdome"@,
        Server::Serenity => "Serenity"@,
    }
}

pub open spec fn spec_short_name(s: Server) -> Seq<char> {
    match s {
        Server::Tranquility => "TQ"@,
        Server::Singularity => "SISI"@,
        Server::Thunderdome => "TD"@,
        Server::Serenity => "CN"@,
    }
}

pub open spec fn spec_color(s: Server) -> Seq<char> {
    match s {
        Server::Tranquility => "#00d4aa"@,
        Server::Singularity => "#f0b429"@,
        Server::Thunderdome => "#f85149"@,
        Server::Serenity => "#a78bfa"@,
    }
}

/// The servers in declaration order.
pub open spec fn spec_all_servers() -> Seq<Server> {
    seq![Server::Tranquility, Server::Singularity, Server::Thunderdome, Server::Serenity]
}

impl Server {
    /// The server named in an already lowercased folder name.
    pub fn from_lowercase_name(lower: &str) -> (r: Option<Server>)
        ensures
            r == server_for(lower@),
    {
        if contains(lower, "tranquility") {
            Some(Server::Tranquility)
        } else if contains(lower, "singularity") {
            Some(Server::Singularity)
        } else if contains(lower, "thunderdome") {
            Some(Server::Thunderdome)
        } else if contains(lower, "serenity") {
            Some(Server::Serenity)
        } else {
            None
        }
    }

    /// The server named in a folder name, compared without regard to case.
    pub fn from_folder_name(name: &str) -> (r: Option<Server>)
        ensures
            r == server_for(lower_of(name@)),
    {
        let lower = lowercase(name);
        Server::from_lowercase_name(lower.as_str())
    }

    /// Whether the remote identity service knows this server's characters.
    pub fn supports_esi(&self) -> (r: bool)
        ensures
            r == (*self == Server::Tranquility),
    {
        match self {
            Server::Tranquility => true,
            _ => false,
        }
    }

    pub fn display_name(&self) -> (r: &'static str)
        ensures
            r@ == spec_display_name(*self),
    {
        match self {
            Server::Tranquility => "Tranquility",
            Server::Singularity => "Singularity",
            Server::Thunderdome => "Thunderdome",
            Server::Serenity => "Serenity",
        }
    }

    pub fn short_name(&self) -> (r: &'static str)
        ensures
            r@ == spec_short_name(*self),
    {
        match self {
            Server::Tranquility => "TQ",
            Server::Singularity => "SISI",
            Server::Thunderdome => "TD",
            Server::Serenity => "CN",
        }
    }

    pub fn color(&self) -> (r: &'static str)
        ensures
            r@ == spec_color(*self),
    {
        match self {
            Server::Tranquility => "#00d4aa",
            Server::Singularity => "#f0b429",
            Server::Thunderdome => "#f85149",
            Server::Serenity => "#a78bfa",
        }
    }

    /// Every server, in declaration order.
    pub fn all() -> (r: Vec<Server>)
        ensures
            r@ == spec_all_servers(),
    {
        let r = vec![Server::Tranquility, Server::Singularity, Server::Thunderdome, Server::Serenity];
        assert(r@ =~= spec_all_servers());
        r
    }
}

} // verus!
