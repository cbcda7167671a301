use vstd::prelude::*;
use crate::host::{Host, HostView};
use crate::string_map::StringMap;

verus! {

/// The abstract value of a client policy.
pub struct ClientPolicyView {
    pub pool_size: usize,
    pub services_alternate: bool,
    pub ip_map: Option<Map<Seq<char>, Seq<char>>>,
    pub user_password: Option<(Seq<char>, Seq<char>)>,
}

/// The settings of a client that a node uses.
pub struct ClientPolicy {
    /// The most connections that a node keeps open.
    pub connection_pool_size_per_node: usize,
    /// Ask nodes for the alternate services list in place of the usual one.
    pub use_services_alternate: bool,
    /// Host names to use in place of those that the nodes announce.
    pub ip_map: Option<StringMap>,
    /// The user and password to log in with, if any.
    pub user_password: Option<(String, String)>,
}

impl View for ClientPolicy {
    type V = ClientPolicyView;

    open spec fn view(&self) -> ClientPolicyView {
        ClientPolicyView {
            pool_size: self.connection_pool_size_per_node,
            services_alternate: self.use_services_alternate,
            ip_map: match self.ip_map {
                Some(m) => Some(m@),
                None => None,
            },
            user_password: match self.user_password {
                Some(p) => Some((p.0@, p.1@)),
                None => None,
            },
        }
    }
}

/// What a first exchange with a server told about it: the facts a node is
/// created from.
pub struct NodeValidator {
    pub name: String,
    pub aliases: Vec<Host>,
    pub address: String,
    pub use_new_info: bool,
    pub supports_float: bool,
    pub supports_batch_index: bool,
    pub supports_replicas_all: bool,
    pub supports_geo: bool,
}

impl NodeValidator {
    /// The addresses, as plain values.
    pub open spec fn alias_views(&self) -> Seq<HostView> {
        self.aliases@.map_values(|h: Host| h@)
    }
}

} // verus!
