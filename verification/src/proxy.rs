//! Route lookup and the selection algorithms for routing.
//!
//! Each listener has a route table. Once a connection has said which virtual
//! host it wants, the table gives the route, and the route's selector picks
//! the upstream server among the route's targets.

use crate::address::{address_views, clone_addresses, SocketAddress, SocketAddressView};
use crate::config::{
    first_match, route_views, Proxy, ProxyView, Route, RouteView, SelectionAlgorithmKind,
};
use crate::error::RoutingError;
use crate::trusted::random_index;
use vstd::prelude::*;

verus! {

/// A selection algorithm for routing new connections to upstream servers.
///
/// There are two:
/// - [`RoundRobinSelector`] selects the next target in the list of targets.
/// - [`RandomSelector`] selects a random target from the list of targets.
pub trait SelectionAlgorithm: Sized {
    /// The targets to choose from.
    spec fn targets(&self) -> Seq<SocketAddressView>;

    /// Initialise the selection algorithm with a list of targets it can choose from.
    fn new(targets: Vec<SocketAddress>) -> (selector: Self)
        requires
            targets@.len() > 0,
        ensures
            selector.targets() == address_views(targets@),
    ;

    /// The kind of algorithm this implements.
    spec fn spec_kind(&self) -> SelectionAlgorithmKind;

    /// The kind of algorithm this implements.
    fn kind(&self) -> (kind: SelectionAlgorithmKind)
        ensures
            kind == self.spec_kind(),
    ;

    /// Compute the next target. It is one of the targets.
    fn next_target(&mut self) -> (target: SocketAddress)
        ensures
            final(self).targets() == old(self).targets(),
            old(self).targets().contains(target@),
    ;
}

/// A round-robin selection algorithm.
pub struct RoundRobinSelector {
    targets: Vec<SocketAddress>,
    index: usize,
}

impl RoundRobinSelector {
    #[verifier::type_invariant]
    spec fn well_formed(self) -> bool {
        self.index < self.targets@.len()
    }

    /// The index of the target that comes next.
    pub closed spec fn position(&self) -> nat {
        self.index as nat
    }
}

impl SelectionAlgorithm for RoundRobinSelector {
    closed spec fn targets(&self) -> Seq<SocketAddressView> {
        address_views(self.targets@)
    }

    fn new(targets: Vec<SocketAddress>) -> (selector: Self)
        ensures
            selector.position() == 0,
    {
        Self { targets, index: 0 }
    }

    open spec fn spec_kind(&self) -> SelectionAlgorithmKind {
        SelectionAlgorithmKind::RoundRobin
    }

    fn kind(&self) -> (kind: SelectionAlgorithmKind) {
        SelectionAlgorithmKind::RoundRobin
    }

    /// The target at the current position; the position then moves on by one
    /// and wraps at the end of the list.
    fn next_target(&mut self) -> (target: SocketAddress)
        ensures
            old(self).position() < old(self).targets().len(),
            target@ == old(self).targets()[old(self).position() as int],
            final(self).position() == (old(self).position() + 1) % old(self).targets().len(),
    {
        proof {
            use_type_invariant(&*self);
        }
        let len = self.targets.len();
        let target = self.targets[self.index].clone();
        self.index = (self.index + 1) % len;
        assert(old(self).targets()[old(self).index as int] == target@);
        target
    }
}

/// A random selection algorithm.
pub struct RandomSelector {
    targets: Vec<SocketAddress>,
}

impl RandomSelector {
    #[verifier::type_invariant]
    spec fn well_formed(self) -> bool {
        self.targets@.len() > 0
    }

    /// The number of targets to draw among. There is at least one.
    pub fn target_count(&self) -> (count: usize)
        ensures
            count == self.targets().len(),
            count > 0,
    {
        proof {
            use_type_invariant(self);
        }
        self.targets.len()
    }

    /// The target that a draw of `drawn` selects: the one at that index.
    pub fn target_for(&self, drawn: usize) -> (target: SocketAddress)
        requires
            drawn < self.targets().len(),
        ensures
            target@ == self.targets()[drawn as int],
    {
        pick(&self.targets, drawn)
    }
}

impl SelectionAlgorithm for RandomSelector {
    closed spec fn targets(&self) -> Seq<SocketAddressView> {
        address_views(self.targets@)
    }

    fn new(targets: Vec<SocketAddress>) -> (selector: Self) {
        Self { targets }
    }

    open spec fn spec_kind(&self) -> SelectionAlgorithmKind {
        SelectionAlgorithmKind::Random
    }

    fn kind(&self) -> (kind: SelectionAlgorithmKind) {
        SelectionAlgorithmKind::Random
    }

    fn next_target(&mut self) -> (target: SocketAddress) {
        proof {
            use_type_invariant(&*self);
        }
        let idx = random_index(self.targets.len());
        self.target_for(idx)
    }
}

/// The target that a draw of `index` selects: a copy of the target at `index`.
pub fn pick(targets: &Vec<SocketAddress>, index: usize) -> (target: SocketAddress)
    requires
        index < targets@.len(),
    ensures
        target@ == address_views(targets@)[index as int],
        address_views(targets@).contains(target@),
{
    targets[index].clone()
}

/// The selector of one route: the route's algorithm with the state it needs.
pub enum Selector {
    RoundRobin(RoundRobinSelector),
    Random(RandomSelector),
}

impl Selector {
    /// The targets to choose from.
    pub open spec fn targets(&self) -> Seq<SocketAddressView> {
        match self {
            Selector::RoundRobin(selector) => selector.targets(),
            Selector::Random(selector) => selector.targets(),
        }
    }

    /// The algorithm.
    pub open spec fn spec_kind(&self) -> SelectionAlgorithmKind {
        match self {
            Selector::RoundRobin(_) => SelectionAlgorithmKind::RoundRobin,
            Selector::Random(_) => SelectionAlgorithmKind::Random,
        }
    }

    /// The index of the target that comes next, where the algorithm keeps one.
    pub open spec fn position(&self) -> Option<nat> {
        match self {
            Selector::RoundRobin(selector) => Some(selector.position()),
            Selector::Random(_) => None,
        }
    }

    /// A fresh selector for `route`: of the route's algorithm, over copies of
    /// the route's targets, and for round robin at the first of them.
    pub fn for_route(route: &Route) -> (selector: Self)
        requires
            route.wf(),
        ensures
            selector.targets() == route@.to,
            selector.spec_kind() == route@.selection_algorithm,
            selector.position() is Some ==> selector.position() == Some(0nat),
    {
        let targets = clone_addresses(&route.to);
        assert(address_views(targets@).len() == targets@.len());
        match route.selection_algorithm {
            SelectionAlgorithmKind::RoundRobin => Selector::RoundRobin(
                RoundRobinSelector::new(targets),
            ),
            SelectionAlgorithmKind::Random => Selector::Random(RandomSelector::new(targets)),
        }
    }

    /// The kind of algorithm behind this selector.
    pub fn kind(&self) -> (kind: SelectionAlgorithmKind)
        ensures
            kind == self.spec_kind(),
    {
        match self {
            Selector::RoundRobin(selector) => selector.kind(),
            Selector::Random(selector) => selector.kind(),
        }
    }

    /// Select the target for a new connection.
    pub fn select(&mut self) -> (target: SocketAddress)
        ensures
            final(self).targets() == old(self).targets(),
            final(self).spec_kind() == old(self).spec_kind(),
            old(self).targets().contains(target@),
            old(self).position() matches Some(p) ==> p < old(self).targets().len() && target@
                == old(self).targets()[p as int] && final(self).position() == Some(
                (p + 1) % old(self).targets().len(),
            ),
    {
        match self {
            Selector::RoundRobin(selector) => selector.next_target(),
            Selector::Random(selector) => selector.next_target(),
        }
    }
}

/// The position of a round-robin selector after `count` selections.
pub open spec fn position_after(position: nat, len: nat, count: nat) -> nat
    decreases count,
{
    if count == 0 {
        position
    } else {
        (position_after(position, len, (count - 1) as nat) + 1) % len
    }
}

/// Round robin is cyclic: from position `p` in a list of `len` targets, the
/// selection after `count` others is of the target at `(p + count) mod len`.
/// From a fresh selector the targets so come in their order, again and again.
pub proof fn lemma_round_robin_cycle(position: nat, len: nat, count: nat)
    requires
        position < len,
    ensures
        position_after(position, len, count) == (position + count) % len,
    decreases count,
{
    if count == 0 {
        vstd::arithmetic::div_mod::lemma_small_mod(position, len);
    } else {
        lemma_round_robin_cycle(position, len, (count - 1) as nat);
        vstd::arithmetic::div_mod::lemma_add_mod_noop(
            (position + count - 1) as int,
            1,
            len as int,
        );
        vstd::arithmetic::div_mod::lemma_mod_twice((position + count - 1) as int, len as int);
        vstd::arithmetic::div_mod::lemma_add_mod_noop(
            ((position + count - 1) % (len as int)) as int,
            1,
            len as int,
        );
    }
}

/// The index of the first route of `routes` for `virtual_host`.
pub fn find_route(routes: &Vec<Route>, virtual_host: &String) -> (found: Option<usize>)
    ensures
        match first_match(route_views(routes@), virtual_host@) {
            Some(i) => found matches Some(k) && k == i && 0 <= i < routes@.len(),
            None => found is None,
        },
{
    let mut i: usize = 0;
    while i < routes.len()
        invariant
            i <= routes@.len(),
            first_match(route_views(routes@).take(i as int), virtual_host@) is None,
        decreases routes@.len() - i,
    {
        let ghost views = route_views(routes@);
        proof {
            assert(views.take(i + 1).drop_last() =~= views.take(i as int));
            assert(views.take(i + 1).last() == routes@[i as int]@);
        }
        if routes[i].from == *virtual_host {
            proof {
                lemma_first_match_extends(views, virtual_host@, i + 1);
            }
            return Some(i);
        }
        i = i + 1;
    }
    assert(route_views(routes@).take(i as int) =~= route_views(routes@));
    None
}

/// A match among the first `n` routes is the match among all of them.
pub proof fn lemma_first_match_extends(routes: Seq<RouteView>, virtual_host: Seq<char>, n: int)
    requires
        0 <= n <= routes.len(),
        first_match(routes.take(n), virtual_host) is Some,
    ensures
        first_match(routes, virtual_host) == first_match(routes.take(n), virtual_host),
    decreases routes.len() - n,
{
    if n < routes.len() {
        assert(routes.take(n + 1).drop_last() =~= routes.take(n));
        lemma_first_match_extends(routes, virtual_host, n + 1);
    } else {
        assert(routes.take(n) =~= routes);
    }
}

impl Proxy {
    /// The route for `virtual_host`: the first route of the table whose host is
    /// exactly `virtual_host`, or `None` where the table has none.
    pub fn resolve(&self, virtual_host: &String) -> (route: Option<&Route>)
        ensures
            match first_match(self@.routes, virtual_host@) {
                Some(i) => route == Some(&self.routes@[i]),
                None => route is None,
            },
    {
        match find_route(&self.routes, virtual_host) {
            Some(i) => Some(&self.routes[i]),
            None => None,
        }
    }
}

/// What one selection does: with no route for the host it fails and no
/// position moves; otherwise it gives one of the route's targets, for round
/// robin the one at the route's position, which moves on by one and wraps.
pub open spec fn selection(
    proxy: ProxyView,
    before: Seq<Option<nat>>,
    after: Seq<Option<nat>>,
    virtual_host: Seq<char>,
    outcome: Result<SocketAddressView, RoutingError>,
) -> bool {
    match first_match(proxy.routes, virtual_host) {
        None => outcome == Err::<SocketAddressView, RoutingError>(RoutingError::NoMatchingRoute)
            && after == before,
        Some(i) => {
            let route = proxy.routes[i];
            &&& 0 <= i < before.len()
            &&& outcome matches Ok(target)
            &&& route.to.contains(target)
            &&& match before[i] {
                Some(p) => p < route.to.len() && target == route.to[p as int] && after
                    == before.update(i, Some((p + 1) % route.to.len())),
                None => after == before,
            }
        },
    }
}

/// A listener's route table at run time: the configuration, which never
/// changes, and one selector for each route.
pub struct RouteTable {
    proxy: Proxy,
    selectors: Vec<Selector>,
}

impl RouteTable {
    /// There is one selector for each route, of the route's algorithm and over
    /// the route's targets, and every route has a target.
    pub closed spec fn wf(&self) -> bool {
        &&& self.proxy.wf()
        &&& self.selectors@.len() == self.proxy.routes@.len()
        &&& forall|i: int|
            0 <= i < self.selectors@.len() ==> {
                &&& (#[trigger] self.selectors@[i]).targets() == self.proxy.routes@[i]@.to
                &&& self.selectors@[i].spec_kind() == self.proxy.routes@[i]@.selection_algorithm
            }
    }

    /// The configuration behind the table.
    pub closed spec fn proxy(&self) -> ProxyView {
        self.proxy@
    }

    /// For each route, the index of the target that its selector gives next,
    /// where the route's algorithm keeps one.
    pub closed spec fn positions(&self) -> Seq<Option<nat>> {
        Seq::new(self.selectors@.len(), |i: int| self.selectors@[i].position())
    }

    /// A table for `proxy` with a fresh selector for every route; `None` when a
    /// route has no targets.
    pub fn new(proxy: Proxy) -> (table: Option<Self>)
        ensures
            proxy.wf() <==> table is Some,
            table matches Some(t) ==> {
                &&& t.wf()
                &&& t.proxy() == proxy@
                &&& t.positions().len() == proxy@.routes.len()
                &&& forall|i: int|
                    0 <= i < proxy@.routes.len() ==> #[trigger] t.positions()[i] == (
                    if proxy@.routes[i].selection_algorithm == SelectionAlgorithmKind::RoundRobin {
                        Some(0nat)
                    } else {
                        None
                    })
            },
    {
        let mut selectors: Vec<Selector> = Vec::with_capacity(proxy.routes.len());
        let mut i: usize = 0;
        while i < proxy.routes.len()
            invariant
                i <= proxy.routes@.len(),
                selectors@.len() == i,
                forall|j: int| 0 <= j < i ==> #[trigger] proxy.routes@[j].wf(),
                forall|j: int|
                    0 <= j < i ==> {
                        &&& (#[trigger] selectors@[j]).targets() == proxy.routes@[j]@.to
                        &&& selectors@[j].spec_kind() == proxy.routes@[j]@.selection_algorithm
                        &&& selectors@[j].position() is Some ==> selectors@[j].position() == Some(
                            0nat,
                        )
                    },
            decreases proxy.routes@.len() - i,
        {
            if proxy.routes[i].to.len() == 0 {
                assert(!proxy.routes@[i as int].wf());
                return None;
            }
            selectors.push(Selector::for_route(&proxy.routes[i]));
            i = i + 1;
        }
        let table = RouteTable { proxy, selectors };
        proof {
            assert forall|k: int| 0 <= k < proxy@.routes.len() implies #[trigger] table.positions()[k]
                == (if proxy@.routes[k].selection_algorithm == SelectionAlgorithmKind::RoundRobin {
                Some(0nat)
            } else {
                None
            }) by {
                assert(table.selectors@[k].spec_kind() == proxy.routes@[k]@.selection_algorithm);
            }
        }
        Some(table)
    }

    /// The listener's configuration.
    pub fn config(&self) -> (proxy: &Proxy)
        requires
            self.wf(),
        ensures
            proxy@ == self.proxy(),
            proxy.wf(),
    {
        &self.proxy
    }

    /// The upstream server for a connection that asks for `virtual_host`.
    ///
    /// The route is the first of the table whose host is exactly
    /// `virtual_host`; without one the call fails and nothing changes. The
    /// target is one of the route's targets: for round robin the one at the
    /// route's position, which then moves on by one and wraps.
    pub fn select(&mut self, virtual_host: &String) -> (r: Result<SocketAddress, RoutingError>)
        requires
            old(self).wf(),
        ensures
            final(self).wf(),
            final(self).proxy() == old(self).proxy(),
            final(self).positions().len() == old(self).positions().len(),
            selection(
                old(self).proxy(),
                old(self).positions(),
                final(self).positions(),
                virtual_host@,
                match r {
                    Ok(target) => Ok(target@),
                    Err(e) => Err(e),
                },
            ),
    {
        match find_route(&self.proxy.routes, virtual_host) {
            None => Err(RoutingError::NoMatchingRoute),
            Some(i) => {
                let ghost before = self.selectors@;
                let target = self.selectors[i].select();
                proof {
                    assert forall|j: int| 0 <= j < self.selectors@.len() && j != i implies self.selectors@[j]
                        == before[j] by {}
                    match before[i as int].position() {
                        Some(p) => {
                            assert(self.positions() =~= old(self).positions().update(
                                i as int,
                                Some((p + 1) % old(self).proxy().routes[i as int].to.len()),
                            ));
                        },
                        None => {
                            assert(self.positions() =~= old(self).positions());
                        },
                    }
                }
                Ok(target)
            },
        }
    }
}

} // verus!
