//! The configuration that the proxy core runs on: listeners, their route tables
//! and their fallback policy.
//!
//! A configuration is made once and not changed afterwards.

use crate::address::{address_views, clone_addresses, SocketAddress, SocketAddressView};
use vstd::prelude::*;

pub mod v1;

verus! {

/// The protocol version that a proxy announces when none is configured.
pub const DEFAULT_PROTOCOL_VERSION: usize = 761;

/// The port that a proxy listens on when none is configured.
pub const DEFAULT_PORT: u16 = 25565;

/// The server selection algorithm.
#[derive(Clone, Copy, Debug, PartialEq, Eq, Structural)]
pub enum SelectionAlgorithmKind {
    /// Pick a random target.
    Random,
    /// Pick the next target.
    RoundRobin,
}

impl Default for SelectionAlgorithmKind {
    fn default() -> (kind: Self)
        ensures
            kind == SelectionAlgorithmKind::RoundRobin,
    {
        SelectionAlgorithmKind::RoundRobin
    }
}

/// What to do with a connection that no route matches.
#[derive(Debug, PartialEq, Eq)]
pub enum FallbackMethod {
    /// Drop the connection.
    Drop,
    /// Return a status message to the client.
    Status(String),
}

/// A fallback policy as a mathematical value.
pub enum FallbackView {
    Drop,
    Status(Seq<char>),
}

impl View for FallbackMethod {
    type V = FallbackView;

    open spec fn view(&self) -> FallbackView {
        match self {
            FallbackMethod::Drop => FallbackView::Drop,
            FallbackMethod::Status(message) => FallbackView::Status(message@),
        }
    }
}

impl Default for FallbackMethod {
    fn default() -> (method: Self)
        ensures
            method@ == FallbackView::Drop,
    {
        FallbackMethod::Drop
    }
}

impl Clone for FallbackMethod {
    fn clone(&self) -> (copy: Self)
        ensures
            copy@ == self@,
    {
        match self {
            FallbackMethod::Drop => FallbackMethod::Drop,
            FallbackMethod::Status(message) => FallbackMethod::Status(message.clone()),
        }
    }
}

/// A server route configuration.
#[derive(Debug, PartialEq, Eq)]
pub struct Route {
    /// Where the server should accept connections from.
    pub from: String,
    /// Where the server should proxy connections to.
    pub to: Vec<SocketAddress>,
    /// The selection algorithm to use.
    pub selection_algorithm: SelectionAlgorithmKind,
}

/// A route as a mathematical value.
pub struct RouteView {
    pub from: Seq<char>,
    pub to: Seq<SocketAddressView>,
    pub selection_algorithm: SelectionAlgorithmKind,
}

impl View for Route {
    type V = RouteView;

    open spec fn view(&self) -> RouteView {
        RouteView {
            from: self.from@,
            to: address_views(self.to@),
            selection_algorithm: self.selection_algorithm,
        }
    }
}

impl Clone for Route {
    fn clone(&self) -> (copy: Self)
        ensures
            copy@ == self@,
    {
        Route {
            from: self.from.clone(),
            to: clone_addresses(&self.to),
            selection_algorithm: self.selection_algorithm,
        }
    }
}

impl Route {
    /// A route is well formed when it has somewhere to go.
    pub open spec fn wf(&self) -> bool {
        self.to@.len() > 0
    }

    /// A route from `from` to the targets `to`; `None` when there is no target.
    pub fn new(from: String, to: Vec<SocketAddress>, selection_algorithm: SelectionAlgorithmKind) -> (route:
        Option<Route>)
        ensures
            to@.len() == 0 ==> route is None,
            to@.len() > 0 ==> (route matches Some(r) && r.wf() && r@ == (RouteView {
                from: from@,
                to: address_views(to@),
                selection_algorithm,
            })),
    {
        if to.len() == 0 {
            None
        } else {
            Some(Route { from, to, selection_algorithm })
        }
    }
}

/// The routes of a list as mathematical values.
pub open spec fn route_views(routes: Seq<Route>) -> Seq<RouteView> {
    Seq::new(routes.len(), |i: int| routes[i]@)
}

/// The configuration for a proxy server.
#[derive(Debug, PartialEq, Eq)]
pub struct Proxy {
    /// The protocol version to broadcast.
    pub protocol_version: usize,
    /// The binding address of the server.
    pub listen_addr: SocketAddress,
    /// A list of routes this server uses.
    pub routes: Vec<Route>,
    /// The fallback method this server uses.
    pub fallback_method: FallbackMethod,
}

/// A proxy configuration as a mathematical value.
pub struct ProxyView {
    pub protocol_version: usize,
    pub listen_addr: SocketAddressView,
    pub routes: Seq<RouteView>,
    pub fallback_method: FallbackView,
}

impl View for Proxy {
    type V = ProxyView;

    open spec fn view(&self) -> ProxyView {
        ProxyView {
            protocol_version: self.protocol_version,
            listen_addr: self.listen_addr@,
            routes: route_views(self.routes@),
            fallback_method: self.fallback_method@,
        }
    }
}

impl Default for Proxy {
    fn default() -> (proxy: Self)
        ensures
            proxy@ == (ProxyView {
                protocol_version: DEFAULT_PROTOCOL_VERSION,
                listen_addr: SocketAddressView { host: "127.0.0.1"@, port: DEFAULT_PORT },
                routes: Seq::empty(),
                fallback_method: FallbackView::Drop,
            }),
    {
        let proxy = Proxy {
            protocol_version: DEFAULT_PROTOCOL_VERSION,
            listen_addr: SocketAddress::new("127.0.0.1".to_owned(), DEFAULT_PORT),
            routes: Vec::new(),
            fallback_method: FallbackMethod::Drop,
        };
        assert(route_views(proxy.routes@) =~= Seq::empty());
        proxy
    }
}

impl Proxy {
    /// Every route of the proxy has somewhere to go.
    pub open spec fn wf(&self) -> bool {
        forall|i: int| 0 <= i < self.routes@.len() ==> #[trigger] self.routes@[i].wf()
    }
}

/// The index of the first route for `virtual_host`, by exact comparison of the
/// host names.
pub open spec fn first_match(routes: Seq<RouteView>, virtual_host: Seq<char>) -> Option<int>
    decreases routes.len(),
{
    if routes.len() == 0 {
        None
    } else if routes.last().from == virtual_host && first_match(routes.drop_last(), virtual_host)
        is None {
        Some(routes.len() - 1)
    } else {
        first_match(routes.drop_last(), virtual_host)
    }
}

/// `first_match` finds a route for the host, and none stands before it; it
/// finds none only where there is none.
pub proof fn lemma_first_match(routes: Seq<RouteView>, virtual_host: Seq<char>)
    ensures
        match first_match(routes, virtual_host) {
            Some(i) => 0 <= i < routes.len() && routes[i].from == virtual_host && forall|j: int|
                0 <= j < i ==> (#[trigger] routes[j]).from != virtual_host,
            None => forall|j: int|
                0 <= j < routes.len() ==> (#[trigger] routes[j]).from != virtual_host,
        },
    decreases routes.len(),
{
    if routes.len() > 0 {
        let head = routes.drop_last();
        lemma_first_match(head, virtual_host);
        assert forall|j: int| 0 <= j < head.len() implies head[j] == routes[j] by {}
    }
}

/// The internal configuration definition.
#[derive(Debug, PartialEq, Eq)]
pub struct MagmaConfig {
    /// Whether to enable debug logging.
    pub debug: bool,
    /// A list of proxy servers.
    pub proxies: Vec<Proxy>,
}

} // verus!
