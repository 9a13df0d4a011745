//! Version one of the configuration format, and how it becomes the internal
//! configuration.
//!
//! An entry may name its addresses, domains and targets one at a time or as
//! lists; the single form wins where both are given. Entries that bind the
//! same address share one proxy, whose route table grows entry by entry.

use crate::address::{address_views, clone_addresses, SocketAddress, SocketAddressView};
use crate::config::{
    route_views, FallbackMethod, FallbackView, MagmaConfig, Proxy, ProxyView, Route, RouteView,
    SelectionAlgorithmKind, DEFAULT_PROTOCOL_VERSION,
};
use vstd::prelude::*;

verus! {

/// The latest configuration version.
pub const LATEST_CONFIG_VERSION: u8 = 1;

/// The selection algorithm as the configuration names it.
#[derive(Clone, Copy, Debug, PartialEq, Eq, Structural)]
pub enum SelectionAlgorithm {
    /// Pick a random target.
    Random,
    /// Pick the next target.
    RoundRobin,
}

impl Default for SelectionAlgorithm {
    fn default() -> (algorithm: Self)
        ensures
            algorithm == SelectionAlgorithm::RoundRobin,
    {
        SelectionAlgorithm::RoundRobin
    }
}

/// A server entry block.
#[derive(Debug)]
pub struct ProxyEntry {
    /// The proxy listening address.
    pub address: Option<SocketAddress>,
    /// A list of addresses to listen on.
    pub addresses: Vec<SocketAddress>,
    /// The proxy domain.
    pub domain: Option<String>,
    /// A list of valid domains.
    pub domains: Vec<String>,
    /// The target of this proxy
    pub target: Option<SocketAddress>,
    /// A list of target servers.
    pub targets: Vec<SocketAddress>,
    /// The selection algorithm to use.
    pub selection_algorithm: Option<SelectionAlgorithm>,
    /// What a client is told whose host has no route. Without it such a
    /// client is dropped.
    pub fallback: Option<String>,
}

/// An entry as a mathematical value, its single and list forms merged.
pub struct EntryView {
    pub addresses: Seq<SocketAddressView>,
    pub domains: Seq<Seq<char>>,
    pub targets: Seq<SocketAddressView>,
    pub selection_algorithm: SelectionAlgorithmKind,
    pub fallback_method: FallbackView,
}

/// The single value where there is one, the list where there is none.
pub open spec fn one_or_many<T>(one: Option<T>, many: Seq<T>) -> Seq<T> {
    match one {
        Some(value) => seq![value],
        None => many,
    }
}

/// The texts of a list of strings.
pub open spec fn text_views(texts: Seq<String>) -> Seq<Seq<char>> {
    Seq::new(texts.len(), |i: int| texts[i]@)
}

/// The algorithm that an entry asks for: round robin where it names none.
pub open spec fn kind_of(algorithm: Option<SelectionAlgorithm>) -> SelectionAlgorithmKind {
    match algorithm {
        Some(SelectionAlgorithm::Random) => SelectionAlgorithmKind::Random,
        Some(SelectionAlgorithm::RoundRobin) => SelectionAlgorithmKind::RoundRobin,
        None => SelectionAlgorithmKind::RoundRobin,
    }
}

impl View for ProxyEntry {
    type V = EntryView;

    open spec fn view(&self) -> EntryView {
        EntryView {
            addresses: one_or_many(
                match self.address {
                    Some(a) => Some(a@),
                    None => None,
                },
                address_views(self.addresses@),
            ),
            domains: one_or_many(
                match self.domain {
                    Some(d) => Some(d@),
                    None => None,
                },
                text_views(self.domains@),
            ),
            targets: one_or_many(
                match self.target {
                    Some(t) => Some(t@),
                    None => None,
                },
                address_views(self.targets@),
            ),
            selection_algorithm: kind_of(self.selection_algorithm),
            fallback_method: match self.fallback {
                Some(message) => FallbackView::Status(message@),
                None => FallbackView::Drop,
            },
        }
    }
}

/// The entries of a list as mathematical values.
pub open spec fn entry_views(entries: Seq<ProxyEntry>) -> Seq<EntryView> {
    Seq::new(entries.len(), |i: int| entries[i]@)
}

/// The proxies of a list as mathematical values.
pub open spec fn proxy_views(proxies: Seq<Proxy>) -> Seq<ProxyView> {
    Seq::new(proxies.len(), |i: int| proxies[i]@)
}

/// The routes that an entry makes: one for each of its domains, each to all of
/// its targets.
pub open spec fn entry_routes(entry: EntryView) -> Seq<RouteView> {
    Seq::new(
        entry.domains.len(),
        |i: int|
            RouteView {
                from: entry.domains[i],
                to: entry.targets,
                selection_algorithm: entry.selection_algorithm,
            },
    )
}

/// Whether a proxy listens on `address`.
pub open spec fn listens_on(proxy: ProxyView, address: SocketAddressView) -> bool {
    proxy.listen_addr == address
}

/// The index of the proxy that listens on `address`.
pub open spec fn listener_index(proxies: Seq<ProxyView>, address: SocketAddressView) -> Option<
    int,
>
    decreases proxies.len(),
{
    if proxies.len() == 0 {
        None
    } else if listener_index(proxies.drop_last(), address) is Some {
        listener_index(proxies.drop_last(), address)
    } else if listens_on(proxies.last(), address) {
        Some(proxies.len() - 1)
    } else {
        None
    }
}

/// Whether a proxy already has a route for one of `domains`.
pub open spec fn claims(proxy: ProxyView, domains: Seq<Seq<char>>) -> bool {
    exists|i: int, j: int|
        0 <= i < proxy.routes.len() && 0 <= j < domains.len() && (#[trigger] proxy.routes[i]).from
            == #[trigger] domains[j]
}

/// The proxies after an entry has been bound to one address.
///
/// An entry without domains or without targets binds nothing. A new address
/// gets a new proxy, behind those there are, with the entry's fallback policy.
/// An address that has a proxy gets the entry's routes behind its own, unless
/// the proxy has a route for one of the entry's domains already: then the
/// entry is passed over. The proxy keeps the fallback policy it has.
pub open spec fn bind(proxies: Seq<ProxyView>, address: SocketAddressView, entry: EntryView) -> Seq<
    ProxyView,
> {
    if entry.domains.len() == 0 || entry.targets.len() == 0 {
        proxies
    } else {
        match listener_index(proxies, address) {
            Some(i) => if claims(proxies[i], entry.domains) {
                proxies
            } else {
                proxies.update(
                    i,
                    ProxyView {
                        protocol_version: proxies[i].protocol_version,
                        listen_addr: proxies[i].listen_addr,
                        routes: proxies[i].routes + entry_routes(entry),
                        fallback_method: proxies[i].fallback_method,
                    },
                )
            },
            None => proxies.push(
                ProxyView {
                    protocol_version: DEFAULT_PROTOCOL_VERSION,
                    listen_addr: address,
                    routes: entry_routes(entry),
                    fallback_method: entry.fallback_method,
                },
            ),
        }
    }
}

/// The proxies after an entry has been bound to the first `count` of its addresses.
pub open spec fn bind_first(proxies: Seq<ProxyView>, entry: EntryView, count: nat) -> Seq<
    ProxyView,
>
    decreases count,
{
    if count == 0 {
        proxies
    } else {
        bind(
            bind_first(proxies, entry, (count - 1) as nat),
            entry.addresses[count - 1],
            entry,
        )
    }
}

/// The proxies that the first `count` entries make.
pub open spec fn built_from(entries: Seq<EntryView>, count: nat) -> Seq<ProxyView>
    decreases count,
{
    if count == 0 {
        Seq::empty()
    } else {
        let entry = entries[count - 1];
        bind_first(built_from(entries, (count - 1) as nat), entry, entry.addresses.len())
    }
}

/// No two proxies listen on the same address, and every route has a target.
pub open spec fn sound(proxies: Seq<ProxyView>) -> bool {
    &&& forall|i: int, j: int|
        0 <= i < j < proxies.len() ==> (#[trigger] proxies[i]).listen_addr
            != (#[trigger] proxies[j]).listen_addr
    &&& forall|i: int, k: int|
        0 <= i < proxies.len() && 0 <= k < proxies[i].routes.len() ==> (
        #[trigger] proxies[i].routes[k]).to.len() > 0
}

/// `listener_index` finds the proxy that listens on the address, where there is one.
pub proof fn lemma_listener_index(proxies: Seq<ProxyView>, address: SocketAddressView)
    ensures
        match listener_index(proxies, address) {
            Some(i) => 0 <= i < proxies.len() && proxies[i].listen_addr == address,
            None => forall|j: int|
                0 <= j < proxies.len() ==> (#[trigger] proxies[j]).listen_addr != address,
        },
    decreases proxies.len(),
{
    if proxies.len() > 0 {
        let head = proxies.drop_last();
        lemma_listener_index(head, address);
        assert forall|j: int| 0 <= j < head.len() implies head[j] == proxies[j] by {}
    }
}

/// Binding an entry keeps the proxies sound.
pub proof fn lemma_bind_sound(proxies: Seq<ProxyView>, address: SocketAddressView, entry: EntryView)
    requires
        sound(proxies),
    ensures
        sound(bind(proxies, address, entry)),
{
    lemma_listener_index(proxies, address);
    let after = bind(proxies, address, entry);
    if entry.domains.len() == 0 || entry.targets.len() == 0 {
    } else {
        match listener_index(proxies, address) {
            Some(i) => {
                if !claims(proxies[i], entry.domains) {
                    assert forall|a: int, k: int|
                        0 <= a < after.len() && 0 <= k < after[a].routes.len() implies (
                    #[trigger] after[a].routes[k]).to.len() > 0 by {
                        if a == i && k >= proxies[i].routes.len() {
                            assert(after[a].routes[k] == entry_routes(entry)[k
                                - proxies[i].routes.len()]);
                        } else if a == i {
                            assert(after[a].routes[k] == proxies[i].routes[k]);
                        } else {
                            assert(after[a].routes[k] == proxies[a].routes[k]);
                        }
                    }
                }
            },
            None => {
                assert forall|a: int, k: int|
                    0 <= a < after.len() && 0 <= k < after[a].routes.len() implies (
                #[trigger] after[a].routes[k]).to.len() > 0 by {
                    if a < proxies.len() {
                        assert(after[a].routes[k] == proxies[a].routes[k]);
                    }
                }
            },
        }
    }
}

/// Binding an entry to its addresses keeps the proxies sound.
pub proof fn lemma_bind_first_sound(proxies: Seq<ProxyView>, entry: EntryView, count: nat)
    requires
        sound(proxies),
    ensures
        sound(bind_first(proxies, entry, count)),
    decreases count,
{
    if count > 0 {
        lemma_bind_first_sound(proxies, entry, (count - 1) as nat);
        lemma_bind_sound(
            bind_first(proxies, entry, (count - 1) as nat),
            entry.addresses[count - 1],
            entry,
        );
    }
}

/// Whatever the entries, what is built from them is sound: every address has
/// one proxy, and every route has somewhere to go.
pub proof fn lemma_built_sound(entries: Seq<EntryView>, count: nat)
    ensures
        sound(built_from(entries, count)),
    decreases count,
{
    if count > 0 {
        lemma_built_sound(entries, (count - 1) as nat);
        let entry = entries[count - 1];
        lemma_bind_first_sound(
            built_from(entries, (count - 1) as nat),
            entry,
            entry.addresses.len(),
        );
    }
}

/// A configuration file of version one.
#[derive(Debug)]
pub struct ConfigV1 {
    /// The configuration version.
    pub version: u8,
    /// Whether to enable debug logging.
    pub debug: bool,
    /// A list of server entries.
    pub proxies: Vec<ProxyEntry>,
}

/// The internal configuration as a mathematical value.
pub struct ConfigView {
    pub debug: bool,
    pub proxies: Seq<ProxyView>,
}

impl View for MagmaConfig {
    type V = ConfigView;

    open spec fn view(&self) -> ConfigView {
        ConfigView { debug: self.debug, proxies: proxy_views(self.proxies@) }
    }
}

/// A configuration of some version of the format.
pub trait Config: Sized {
    /// Whether this configuration is of the latest version.
    spec fn latest(&self) -> bool;

    /// The internal configuration that this configuration stands for.
    spec fn built(&self) -> ConfigView;

    /// Test if this configuration is of the latest version.
    fn is_latest(&self) -> (latest: bool)
        ensures
            latest == self.latest(),
    ;

    /// Build this configuration into a list of proxy configurations. No two of
    /// them listen on the same address, and every route has a target.
    fn build(self) -> (config: MagmaConfig)
        ensures
            config@ == self.built(),
            sound(config@.proxies),
    ;
}

/// A copy of a list of strings.
fn clone_texts(texts: &Vec<String>) -> (copy: Vec<String>)
    ensures
        text_views(copy@) == text_views(texts@),
{
    let mut copy: Vec<String> = Vec::with_capacity(texts.len());
    let mut i: usize = 0;
    while i < texts.len()
        invariant
            i <= texts@.len(),
            copy@.len() == i,
            forall|j: int| 0 <= j < i ==> copy@[j]@ == texts@[j]@,
        decreases texts@.len() - i,
    {
        copy.push(texts[i].clone());
        i = i + 1;
    }
    assert(text_views(copy@) =~= text_views(texts@));
    copy
}

impl ProxyEntry {
    /// The addresses that the entry binds.
    pub fn bound_addresses(&self) -> (addresses: Vec<SocketAddress>)
        ensures
            address_views(addresses@) == self@.addresses,
    {
        match &self.address {
            Some(address) => {
                let mut one: Vec<SocketAddress> = Vec::new();
                one.push(address.clone());
                assert(address_views(one@) =~= seq![address@]);
                one
            },
            None => clone_addresses(&self.addresses),
        }
    }

    /// The domains that the entry serves.
    pub fn served_domains(&self) -> (domains: Vec<String>)
        ensures
            text_views(domains@) == self@.domains,
    {
        match &self.domain {
            Some(domain) => {
                let mut one: Vec<String> = Vec::new();
                one.push(domain.clone());
                assert(text_views(one@) =~= seq![domain@]);
                one
            },
            None => clone_texts(&self.domains),
        }
    }

    /// The targets that the entry routes to.
    pub fn routed_targets(&self) -> (targets: Vec<SocketAddress>)
        ensures
            address_views(targets@) == self@.targets,
    {
        match &self.target {
            Some(target) => {
                let mut one: Vec<SocketAddress> = Vec::new();
                one.push(target.clone());
                assert(address_views(one@) =~= seq![target@]);
                one
            },
            None => clone_addresses(&self.targets),
        }
    }

    /// The fallback policy of a proxy that the entry makes.
    pub fn fallback_method(&self) -> (method: FallbackMethod)
        ensures
            method@ == self@.fallback_method,
    {
        match &self.fallback {
            Some(message) => FallbackMethod::Status(message.clone()),
            None => FallbackMethod::Drop,
        }
    }

    /// The selection algorithm of the entry's routes.
    pub fn algorithm(&self) -> (kind: SelectionAlgorithmKind)
        ensures
            kind == self@.selection_algorithm,
    {
        match self.selection_algorithm {
            Some(SelectionAlgorithm::Random) => SelectionAlgorithmKind::Random,
            Some(SelectionAlgorithm::RoundRobin) => SelectionAlgorithmKind::RoundRobin,
            None => SelectionAlgorithmKind::default(),
        }
    }
}

/// The index of the proxy that listens on `address`.
fn find_listener(proxies: &Vec<Proxy>, address: &SocketAddress) -> (found: Option<usize>)
    ensures
        match listener_index(proxy_views(proxies@), address@) {
            Some(i) => found matches Some(k) && k == i && 0 <= i < proxies@.len(),
            None => found is None,
        },
{
    let ghost views = proxy_views(proxies@);
    let mut i: usize = 0;
    while i < proxies.len()
        invariant
            i <= proxies@.len(),
            views == proxy_views(proxies@),
            listener_index(views.take(i as int), address@) is None,
        decreases proxies@.len() - i,
    {
        proof {
            assert(views.take(i + 1).drop_last() =~= views.take(i as int));
            assert(views.take(i + 1).last() == proxies@[i as int]@);
        }
        if proxies[i].listen_addr == *address {
            proof {
                lemma_listener_index_extends(views, address@, i + 1);
            }
            return Some(i);
        }
        i = i + 1;
    }
    assert(views.take(i as int) =~= views);
    None
}

/// A listener among the first `n` proxies is the listener among all of them.
proof fn lemma_listener_index_extends(proxies: Seq<ProxyView>, address: SocketAddressView, n: int)
    requires
        0 <= n <= proxies.len(),
        listener_index(proxies.take(n), address) is Some,
    ensures
        listener_index(proxies, address) == listener_index(proxies.take(n), address),
    decreases proxies.len() - n,
{
    if n < proxies.len() {
        assert(proxies.take(n + 1).drop_last() =~= proxies.take(n));
        lemma_listener_index_extends(proxies, address, n + 1);
    } else {
        assert(proxies.take(n) =~= proxies);
    }
}

/// Whether `domains` holds `name`.
fn holds(domains: &Vec<String>, name: &String) -> (found: bool)
    ensures
        found == exists|j: int| 0 <= j < domains@.len() && name@ == #[trigger] text_views(
            domains@,
        )[j],
{
    let mut j: usize = 0;
    while j < domains.len()
        invariant
            j <= domains@.len(),
            forall|k: int| 0 <= k < j ==> name@ != #[trigger] text_views(domains@)[k],
        decreases domains@.len() - j,
    {
        if domains[j] == *name {
            assert(name@ == text_views(domains@)[j as int]);
            return true;
        }
        j = j + 1;
    }
    false
}

/// Whether `proxy` already has a route for one of `domains`.
fn has_claim(proxy: &Proxy, domains: &Vec<String>) -> (claimed: bool)
    ensures
        claimed == claims(proxy@, text_views(domains@)),
{
    let ghost names = text_views(domains@);
    let mut i: usize = 0;
    while i < proxy.routes.len()
        invariant
            i <= proxy.routes@.len(),
            names == text_views(domains@),
            forall|a: int, j: int|
                0 <= a < i && 0 <= j < names.len() ==> (#[trigger] proxy@.routes[a]).from
                    != #[trigger] names[j],
        decreases proxy.routes@.len() - i,
    {
        if holds(domains, &proxy.routes[i].from) {
            assert(proxy@.routes[i as int].from == proxy.routes@[i as int].from@);
            return true;
        }
        assert(proxy@.routes[i as int].from == proxy.routes@[i as int].from@);
        i = i + 1;
    }
    false
}

/// One route for each of `domains`, each to copies of all of `targets`.
fn make_routes(entry: &ProxyEntry, domains: &Vec<String>, targets: &Vec<SocketAddress>) -> (routes:
    Vec<Route>)
    requires
        text_views(domains@) == entry@.domains,
        address_views(targets@) == entry@.targets,
    ensures
        route_views(routes@) == entry_routes(entry@),
{
    let kind = entry.algorithm();
    let mut routes: Vec<Route> = Vec::with_capacity(domains.len());
    let mut i: usize = 0;
    while i < domains.len()
        invariant
            i <= domains@.len(),
            routes@.len() == i,
            text_views(domains@) == entry@.domains,
            address_views(targets@) == entry@.targets,
            kind == entry@.selection_algorithm,
            forall|j: int| 0 <= j < i ==> (#[trigger] routes@[j])@ == entry_routes(entry@)[j],
        decreases domains@.len() - i,
    {
        let route = Route {
            from: domains[i].clone(),
            to: clone_addresses(targets),
            selection_algorithm: kind,
        };
        assert(text_views(domains@)[i as int] == domains@[i as int]@);
        routes.push(route);
        i = i + 1;
    }
    assert(route_views(routes@) =~= entry_routes(entry@));
    routes
}

/// Binds `entry` to `address`.
fn bind_entry(
    proxies: &mut Vec<Proxy>,
    address: SocketAddress,
    entry: &ProxyEntry,
    domains: &Vec<String>,
    targets: &Vec<SocketAddress>,
)
    requires
        text_views(domains@) == entry@.domains,
        address_views(targets@) == entry@.targets,
    ensures
        proxy_views(final(proxies)@) == bind(proxy_views(old(proxies)@), address@, entry@),
{
    // ignore empty domains and empty targets
    if domains.len() == 0 || targets.len() == 0 {
        return ;
    }
    let ghost before = proxy_views(proxies@);
    // build routes
    let mut routes = make_routes(entry, domains, targets);
    match find_listener(proxies, &address) {
        Some(i) => {
            // ensure we are not about to overrite existing domains
            if has_claim(&proxies[i], domains) {
                return ;
            }
            let ghost old_routes = proxies@[i as int].routes@;
            let ghost new_routes = routes@;
            proxies[i].routes.append(&mut routes);
            proof {
                assert(route_views(old_routes + new_routes) =~= route_views(old_routes)
                    + route_views(new_routes));
                assert(proxy_views(proxies@) =~= bind(before, address@, entry@));
            }
        },
        None => {
            proxies.push(
                Proxy {
                    protocol_version: DEFAULT_PROTOCOL_VERSION,
                    listen_addr: address,
                    fallback_method: entry.fallback_method(),
                    routes,
                },
            );
            proof {
                assert(proxy_views(proxies@) =~= bind(before, address@, entry@));
            }
        },
    }
}

impl Config for ConfigV1 {
    open spec fn latest(&self) -> bool {
        true
    }

    open spec fn built(&self) -> ConfigView {
        ConfigView {
            debug: self.debug,
            proxies: built_from(entry_views(self.proxies@), self.proxies@.len()),
        }
    }

    fn is_latest(&self) -> (latest: bool) {
        true
    }

    fn build(self) -> (config: MagmaConfig) {
        let ghost entries = entry_views(self.proxies@);
        let mut proxies: Vec<Proxy> = Vec::new();
        let mut i: usize = 0;
        assert(proxy_views(proxies@) =~= built_from(entries, 0));
        while i < self.proxies.len()
            invariant
                i <= self.proxies@.len(),
                entries == entry_views(self.proxies@),
                proxy_views(proxies@) == built_from(entries, i as nat),
            decreases self.proxies@.len() - i,
        {
            let entry = &self.proxies[i];
            let addresses = entry.bound_addresses();
            let domains = entry.served_domains();
            let targets = entry.routed_targets();
            let ghost start = proxy_views(proxies@);
            let mut a: usize = 0;
            while a < addresses.len()
                invariant
                    a <= addresses@.len(),
                    address_views(addresses@) == entry@.addresses,
                    text_views(domains@) == entry@.domains,
                    address_views(targets@) == entry@.targets,
                    proxy_views(proxies@) == bind_first(start, entry@, a as nat),
                decreases addresses@.len() - a,
            {
                assert(address_views(addresses@)[a as int] == addresses@[a as int]@);
                bind_entry(&mut proxies, addresses[a].clone(), entry, &domains, &targets);
                a = a + 1;
            }
            assert(entries[i as int] == entry@);
            assert(address_views(addresses@).len() == addresses@.len());
            i = i + 1;
        }
        proof {
            lemma_built_sound(entries, self.proxies@.len());
        }
        MagmaConfig { debug: self.debug, proxies }
    }
}

} // verus!
