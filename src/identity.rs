//! The two peer roles of a channel.

use vstd::prelude::*;

verus! {

/// One of the two peer roles on a channel.
///
/// The extension is the producer: its latest message is kept so that a
/// browser that joins later still sees it. The browser consumes that cache.
#[derive(Debug, Clone, Copy, PartialEq, Eq, Structural)]
pub enum Identity {
    Extension,
    Browser,
}

/// The other role of a channel.
pub open spec fn counterpart_of(role: Identity) -> Identity {
    match role {
        Identity::Extension => Identity::Browser,
        Identity::Browser => Identity::Extension,
    }
}

/// Whether messages sent by `role` are kept as the channel's cached message.
pub open spec fn is_producer(role: Identity) -> bool {
    role == Identity::Extension
}

/// Whether a session of `role` is handed the cached message when it joins.
pub open spec fn is_cache_consumer(role: Identity) -> bool {
    role == Identity::Browser
}

/// The lower-case name of a role, as it appears in request paths and metric
/// labels.
pub open spec fn identity_name(role: Identity) -> Seq<char> {
    match role {
        Identity::Extension => seq!['e', 'x', 't', 'e', 'n', 's', 'i', 'o', 'n'],
        Identity::Browser => seq!['b', 'r', 'o', 'w', 's', 'e', 'r'],
    }
}

impl Identity {
    /// The lower-case name of the role.
    pub fn as_str(self) -> (r: &'static str)
        ensures
            r@ == identity_name(self),
    {
        match self {
            Identity::Extension => {
                let s = "extension";
                proof {
                    reveal_strlit("extension");
                }
                s
            },
            Identity::Browser => {
                let s = "browser";
                proof {
                    reveal_strlit("browser");
                }
                s
            },
        }
    }

    /// The other role of the channel.
    pub fn counterpart(self) -> (r: Identity)
        ensures
            r == counterpart_of(self),
            r != self,
    {
        match self {
            Identity::Extension => Identity::Browser,
            Identity::Browser => Identity::Extension,
        }
    }

    /// Whether this role's messages are cached for a late joiner.
    pub fn is_producer(self) -> (r: bool)
        ensures
            r == is_producer(self),
    {
        match self {
            Identity::Extension => true,
            Identity::Browser => false,
        }
    }

    /// Whether this role receives the cached message when it joins.
    pub fn is_cache_consumer(self) -> (r: bool)
        ensures
            r == is_cache_consumer(self),
    {
        match self {
            Identity::Extension => false,
            Identity::Browser => true,
        }
    }
}

} // verus!
