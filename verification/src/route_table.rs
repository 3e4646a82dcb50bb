//! The route table: which routes accept a request's host and port, the
//! locations they offer as candidates, and the ports to listen on.
//!
//! Both routers read the same things of a route, through `RouteShape`.
use vstd::prelude::*;
use crate::pattern::regex_matches;
use crate::routing::{Candidate, select_spec, lemma_select_characterized};
use crate::text::{views, holds_string, contains_string, dedup, lemma_dedup, push_unique};

verus! {

/// What the route table reads of a route: the ports and hosts it accepts, its
/// priority, and the patterns of its locations, in order.
pub trait RouteShape {
    /// The ports the route accepts.
    spec fn port_list(&self) -> Seq<String>;

    /// The hosts the route accepts.
    spec fn host_list(&self) -> Seq<String>;

    /// The route's priority.
    spec fn rank(&self) -> Option<usize>;

    /// The patterns of the route's locations, in order.
    spec fn location_patterns(&self) -> Seq<String>;

    /// The ports the route accepts.
    fn accepted_ports(&self) -> (r: &Vec<String>)
        ensures
            r@ == self.port_list(),
    ;

    /// The hosts the route accepts.
    fn accepted_hosts(&self) -> (r: &Vec<String>)
        ensures
            r@ == self.host_list(),
    ;

    /// The route's priority.
    fn priority_of(&self) -> (r: Option<usize>)
        ensures
            r == self.rank(),
    ;

    /// How many locations the route has.
    fn location_count(&self) -> (n: usize)
        ensures
            n == self.location_patterns().len(),
    ;

    /// The pattern of the route's location at position `k`.
    fn location_pattern(&self, k: usize) -> (p: &String)
        requires
            k < self.location_patterns().len(),
        ensures
            *p == self.location_patterns()[k as int],
    ;
}

/// The route accepts the host and the port.
pub open spec fn accepts<R: RouteShape>(route: R, host: Seq<char>, port: Seq<char>) -> bool {
    holds_string(route.port_list(), port) && holds_string(route.host_list(), host)
}

/// The locations of route `r`, as candidates.
pub open spec fn offered<R: RouteShape>(routes: Seq<(String, R)>, r: int) -> Seq<Candidate> {
    Seq::new(
        routes[r].1.location_patterns().len(),
        |p: int|
            Candidate {
                pattern: routes[r].1.location_patterns()[p],
                priority: routes[r].1.rank(),
                route: r as usize,
                location: p as usize,
            },
    )
}

/// The locations of the first `n` routes that accept the host and the port, in order.
pub open spec fn candidates_upto<R: RouteShape>(routes: Seq<(String, R)>, host: Seq<char>, port: Seq<char>, n: nat) -> Seq<Candidate>
    decreases n,
{
    if n == 0 {
        seq![]
    } else {
        candidates_upto(routes, host, port, (n - 1) as nat) + if accepts(routes[n - 1].1, host, port) {
            offered(routes, n - 1)
        } else {
            seq![]
        }
    }
}

/// The locations of the routes that accept the host and the port, in order.
pub open spec fn candidates<R: RouteShape>(routes: Seq<(String, R)>, host: Seq<char>, port: Seq<char>) -> Seq<Candidate> {
    candidates_upto(routes, host, port, routes.len())
}

/// Every candidate names one of the first `n` routes and one of its locations.
pub proof fn lemma_candidates_in_range<R: RouteShape>(routes: Seq<(String, R)>, host: Seq<char>, port: Seq<char>, n: nat)
    requires
        n <= routes.len() <= usize::MAX,
        forall|r: int| 0 <= r < routes.len() ==> #[trigger] routes[r].1.location_patterns().len() <= usize::MAX,
    ensures
        forall|k: int|
            0 <= k < candidates_upto(routes, host, port, n).len() ==> {
                let c = #[trigger] candidates_upto(routes, host, port, n)[k];
                &&& c.route < n
                &&& c.location < routes[c.route as int].1.location_patterns().len()
                &&& c.pattern == routes[c.route as int].1.location_patterns()[c.location as int]
                &&& c.priority == routes[c.route as int].1.rank()
                &&& accepts(routes[c.route as int].1, host, port)
            },
    decreases n,
{
    if n > 0 {
        lemma_candidates_in_range(routes, host, port, (n - 1) as nat);
        let prev = candidates_upto(routes, host, port, (n - 1) as nat);
        let all = candidates_upto(routes, host, port, n);
        assert forall|k: int| 0 <= k < all.len() implies {
            let c = #[trigger] all[k];
            &&& c.route < n
            &&& c.location < routes[c.route as int].1.location_patterns().len()
            &&& c.pattern == routes[c.route as int].1.location_patterns()[c.location as int]
            &&& c.priority == routes[c.route as int].1.rank()
            &&& accepts(routes[c.route as int].1, host, port)
        } by {
            if k < prev.len() {
                assert(all[k] == prev[k]);
            } else if accepts(routes[n - 1].1, host, port) {
                assert(all[k] == offered(routes, n - 1)[k - prev.len()]);
            } else {
                assert(all =~= prev);
            }
        }
    }
}

/// The chosen location belongs to a route that accepts the host and the port,
/// and its pattern matches the path.
pub proof fn lemma_chosen_route_accepts<R: RouteShape>(
    routes: Seq<(String, R)>,
    host: Seq<char>,
    port: Seq<char>,
    path: Seq<char>,
)
    requires
        routes.len() <= usize::MAX,
        forall|r: int| 0 <= r < routes.len() ==> #[trigger] routes[r].1.location_patterns().len() <= usize::MAX,
    ensures
        select_spec(candidates(routes, host, port), path) matches Some((i, _)) ==> {
            let c = candidates(routes, host, port)[i];
            &&& 0 <= c.route < routes.len()
            &&& accepts(routes[c.route as int].1, host, port)
            &&& 0 <= c.location < routes[c.route as int].1.location_patterns().len()
            &&& regex_matches(routes[c.route as int].1.location_patterns()[c.location as int]@, path)
        },
{
    let cands = candidates(routes, host, port);
    lemma_candidates_in_range(routes, host, port, routes.len());
    lemma_select_characterized(cands, path);
}

/// Collects the locations of the routes that accept the host and the port.
pub fn route_candidates<R: RouteShape>(routes: &Vec<(String, R)>, host: &String, port: &String) -> (cands: Vec<Candidate>)
    ensures
        cands@ == candidates(routes@, host@, port@),
{
    let mut cands: Vec<Candidate> = Vec::new();
    let mut r: usize = 0;
    while r < routes.len()
        invariant
            0 <= r <= routes@.len(),
            cands@ == candidates_upto(routes@, host@, port@, r as nat),
        decreases routes.len() - r,
    {
        let route = &routes[r].1;
        if contains_string(route.accepted_ports(), port) && contains_string(route.accepted_hosts(), host) {
            let ghost base = cands@;
            let count = route.location_count();
            let mut p: usize = 0;
            while p < count
                invariant
                    0 <= p <= count,
                    count == route.location_patterns().len(),
                    r < routes@.len(),
                    *route == routes@[r as int].1,
                    cands@ == base + offered(routes@, r as int).take(p as int),
                decreases count - p,
            {
                let ghost before = cands@;
                cands.push(
                    Candidate {
                        pattern: route.location_pattern(p).clone(),
                        priority: route.priority_of(),
                        route: r,
                        location: p,
                    },
                );
                assert(offered(routes@, r as int).take(p + 1) =~= offered(routes@, r as int).take(
                    p as int,
                ).push(offered(routes@, r as int)[p as int]));
                p += 1;
            }
            assert(offered(routes@, r as int).take(p as int) =~= offered(routes@, r as int));
        } else {
            assert(candidates_upto(routes@, host@, port@, (r + 1) as nat) =~= candidates_upto(
                routes@,
                host@,
                port@,
                r as nat,
            ));
        }
        r += 1;
    }
    cands
}

/// The ports named by the first `n` routes, in order, with repetitions.
pub open spec fn route_ports<R: RouteShape>(routes: Seq<(String, R)>, n: nat) -> Seq<Seq<char>>
    decreases n,
{
    if n == 0 {
        seq![]
    } else {
        route_ports(routes, (n - 1) as nat) + views(routes[n - 1].1.port_list())
    }
}

/// The ports to listen on: every port that some route names, once each.
pub fn listening_ports<R: RouteShape>(routes: &Vec<(String, R)>) -> (ports: Vec<String>)
    ensures
        views(ports@) == dedup(route_ports(routes@, routes@.len())),
        forall|i: int, j: int|
            0 <= i < j < ports@.len() ==> #[trigger] ports@[i]@ != #[trigger] ports@[j]@,
        forall|x: Seq<char>|
            #[trigger] views(ports@).contains(x) <==> route_ports(routes@, routes@.len()).contains(x),
{
    let mut ports: Vec<String> = Vec::new();
    let mut r: usize = 0;
    assert(views(ports@) =~= dedup(route_ports(routes@, 0)));
    while r < routes.len()
        invariant
            0 <= r <= routes@.len(),
            views(ports@) == dedup(route_ports(routes@, r as nat)),
        decreases routes.len() - r,
    {
        let list = routes[r].1.accepted_ports();
        let ghost base = route_ports(routes@, r as nat);
        let mut k: usize = 0;
        assert(base + views(list@).take(0) =~= base);
        while k < list.len()
            invariant
                0 <= k <= list@.len(),
                views(ports@) == dedup(base + views(list@).take(k as int)),
            decreases list.len() - k,
        {
            push_unique(&mut ports, &list[k]);
            assert((base + views(list@).take(k + 1)).drop_last() =~= base + views(list@).take(
                k as int,
            ));
            assert((base + views(list@).take(k + 1)).last() == list@[k as int]@);
            k += 1;
        }
        assert(base + views(list@).take(k as int) =~= route_ports(routes@, (r + 1) as nat));
        r += 1;
    }
    proof {
        lemma_dedup(route_ports(routes@, routes@.len()));
        assert forall|i: int, j: int| 0 <= i < j < ports@.len() implies #[trigger] ports@[i]@
            != #[trigger] ports@[j]@ by {
            assert(views(ports@)[i] == ports@[i]@ && views(ports@)[j] == ports@[j]@);
        }
    }
    ports
}

} // verus!
