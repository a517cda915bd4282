//! The routing table as a sequence of routes: what it means for it to be
//! well formed, and what an insertion and a removal make of it.
//!
//! The table holds at most one route per `(prefix, prefix_len)`. It is
//! ordered by metric, lowest first; routes of equal metric stand in the
//! order in which they were last inserted.

use crate::lpm::LpmCandidate;
use crate::types::{Ipv4Address, RouteEntry};
use vstd::prelude::*;

verus! {

/// Whether the route is the one for `prefix/prefix_len`.
pub open spec fn route_has_key(r: RouteEntry, prefix: Ipv4Address, prefix_len: u8) -> bool {
    r.prefix == prefix && r.prefix_len == prefix_len
}

/// Whether the table holds a route for `prefix/prefix_len`.
pub open spec fn has_route(routes: Seq<RouteEntry>, prefix: Ipv4Address, prefix_len: u8) -> bool {
    exists|i: int| 0 <= i < routes.len() && route_has_key(#[trigger] routes[i], prefix, prefix_len)
}

/// The position of the route for `prefix/prefix_len`, where there is one.
pub open spec fn route_index(routes: Seq<RouteEntry>, prefix: Ipv4Address, prefix_len: u8) -> int {
    choose|i: int| 0 <= i < routes.len() && route_has_key(#[trigger] routes[i], prefix, prefix_len)
}

/// A well-formed routing table: every prefix length is at most 32, no two
/// routes share `(prefix, prefix_len)`, and metrics never decrease along the
/// table.
pub open spec fn routes_wf(routes: Seq<RouteEntry>) -> bool {
    &&& forall|i: int| 0 <= i < routes.len() ==> (#[trigger] routes[i]).prefix_len <= 32
    &&& forall|i: int, j: int|
        0 <= i < routes.len() && 0 <= j < routes.len() && i != j ==> !route_has_key(
            #[trigger] routes[i],
            (#[trigger] routes[j]).prefix,
            routes[j].prefix_len,
        )
    &&& forall|i: int, j: int|
        0 <= i <= j < routes.len() ==> (#[trigger] routes[i]).metric <= (
        #[trigger] routes[j]).metric
}

/// The table without its route for `prefix/prefix_len`.
pub open spec fn without_route(routes: Seq<RouteEntry>, prefix: Ipv4Address, prefix_len: u8) -> Seq<
    RouteEntry,
> {
    if has_route(routes, prefix, prefix_len) {
        routes.remove(route_index(routes, prefix, prefix_len))
    } else {
        routes
    }
}

/// Whether `p` parts the table into the routes of metric at most `metric`,
/// before `p`, and those of a greater metric, from `p` on.
pub open spec fn is_metric_rank(routes: Seq<RouteEntry>, metric: u32, p: int) -> bool {
    &&& 0 <= p <= routes.len()
    &&& forall|i: int| 0 <= i < p ==> (#[trigger] routes[i]).metric <= metric
    &&& forall|i: int| p <= i < routes.len() ==> (#[trigger] routes[i]).metric > metric
}

/// The number of routes whose metric is at most `metric`, in a table ordered
/// by metric.
pub open spec fn metric_rank(routes: Seq<RouteEntry>, metric: u32) -> int {
    choose|p: int| is_metric_rank(routes, metric, p)
}

/// The table after `route` is inserted: a route with the same
/// `(prefix, prefix_len)` is taken out, and `route` is placed behind the last
/// route whose metric is not greater than its own.
pub open spec fn with_route(routes: Seq<RouteEntry>, route: RouteEntry) -> Seq<RouteEntry> {
    let base = without_route(routes, route.prefix, route.prefix_len);
    base.insert(metric_rank(base, route.metric), route)
}

/// What longest-prefix matching reads of each route of a table.
pub open spec fn route_candidates(routes: Seq<RouteEntry>) -> Seq<LpmCandidate> {
    routes.map_values(
        |r: RouteEntry|
            LpmCandidate { prefix: r.prefix.0, prefix_len: r.prefix_len, metric: r.metric },
    )
}

/// In a well-formed table a route is found at one position only.
pub proof fn lemma_route_index_unique(
    routes: Seq<RouteEntry>,
    prefix: Ipv4Address,
    prefix_len: u8,
    i: int,
)
    requires
        routes_wf(routes),
        0 <= i < routes.len(),
        route_has_key(routes[i], prefix, prefix_len),
    ensures
        has_route(routes, prefix, prefix_len),
        route_index(routes, prefix, prefix_len) == i,
{
    let j = route_index(routes, prefix, prefix_len);
    assert(route_has_key(routes[j], routes[i].prefix, routes[i].prefix_len));
}

/// The position that parts a table by a metric is unique.
pub proof fn lemma_metric_rank_unique(routes: Seq<RouteEntry>, metric: u32, p: int)
    requires
        is_metric_rank(routes, metric, p),
    ensures
        metric_rank(routes, metric) == p,
{
    let q = metric_rank(routes, metric);
    if q < p {
        assert(routes[q].metric <= metric);
    }
    if p < q {
        assert(routes[p].metric <= metric);
    }
}

/// Taking a route out of a well-formed table leaves a well-formed table that
/// has no route for that prefix and keeps every other route.
pub proof fn lemma_without_route(routes: Seq<RouteEntry>, prefix: Ipv4Address, prefix_len: u8)
    requires
        routes_wf(routes),
    ensures
        routes_wf(without_route(routes, prefix, prefix_len)),
        !has_route(without_route(routes, prefix, prefix_len), prefix, prefix_len),
        forall|r: RouteEntry|
            #![trigger without_route(routes, prefix, prefix_len).contains(r)]
            #![trigger routes.contains(r)]
            without_route(routes, prefix, prefix_len).contains(r) <==> routes.contains(r)
                && !route_has_key(r, prefix, prefix_len),
{
    let out = without_route(routes, prefix, prefix_len);
    if has_route(routes, prefix, prefix_len) {
        let k = route_index(routes, prefix, prefix_len);
        assert forall|i: int| 0 <= i < out.len() implies out[i] == routes[if i < k {
            i
        } else {
            i + 1
        }] by {}
        assert forall|i: int, j: int|
            0 <= i < out.len() && 0 <= j < out.len() && i != j implies !route_has_key(
            #[trigger] out[i],
            (#[trigger] out[j]).prefix,
            out[j].prefix_len,
        ) by {
            let a = if i < k { i } else { i + 1 };
            let b = if j < k { j } else { j + 1 };
            assert(!route_has_key(routes[a], routes[b].prefix, routes[b].prefix_len));
        }
        assert forall|i: int| 0 <= i < out.len() implies !route_has_key(
            #[trigger] out[i],
            prefix,
            prefix_len,
        ) by {
            let a = if i < k { i } else { i + 1 };
            assert(!route_has_key(routes[a], routes[k].prefix, routes[k].prefix_len));
        }
        assert forall|r: RouteEntry|
            out.contains(r) <==> routes.contains(r) && !route_has_key(r, prefix, prefix_len) by {
            if out.contains(r) {
                let i = choose|i: int| 0 <= i < out.len() && out[i] == r;
                let a = if i < k { i } else { i + 1 };
                assert(routes[a] == r);
            }
            if routes.contains(r) && !route_has_key(r, prefix, prefix_len) {
                let a = choose|a: int| 0 <= a < routes.len() && routes[a] == r;
                let i = if a < k { a } else { a - 1 };
                assert(out[i] == r);
            }
        }
    } else {
        assert forall|r: RouteEntry|
            out.contains(r) <==> routes.contains(r) && !route_has_key(r, prefix, prefix_len) by {
            if routes.contains(r) {
                let a = choose|a: int| 0 <= a < routes.len() && routes[a] == r;
                assert(!route_has_key(routes[a], prefix, prefix_len));
            }
        }
    }
}

/// A table ordered by metric is parted by every metric.
pub proof fn lemma_metric_rank_exists(routes: Seq<RouteEntry>, metric: u32)
    requires
        forall|i: int, j: int|
            0 <= i <= j < routes.len() ==> (#[trigger] routes[i]).metric <= (
            #[trigger] routes[j]).metric,
    ensures
        is_metric_rank(routes, metric, metric_rank(routes, metric)),
    decreases routes.len(),
{
    if routes.len() == 0 {
        assert(is_metric_rank(routes, metric, 0));
    } else {
        let rest = routes.drop_last();
        assert forall|i: int, j: int| 0 <= i <= j < rest.len() implies (#[trigger] rest[i]).metric
            <= (#[trigger] rest[j]).metric by {
            assert(rest[i] == routes[i] && rest[j] == routes[j]);
        }
        lemma_metric_rank_exists(rest, metric);
        let q = metric_rank(rest, metric);
        let last = routes.len() - 1;
        if routes[last].metric <= metric {
            assert forall|i: int| 0 <= i < routes.len() implies (#[trigger] routes[i]).metric
                <= metric by {
                assert(routes[i].metric <= routes[last].metric);
            }
            assert(is_metric_rank(routes, metric, routes.len() as int));
        } else {
            assert forall|i: int| 0 <= i < q implies (#[trigger] routes[i]).metric <= metric by {
                assert(routes[i] == rest[i]);
            }
            assert forall|i: int| q <= i < routes.len() implies (#[trigger] routes[i]).metric
                > metric by {
                if i < last {
                    assert(routes[i] == rest[i]);
                }
            }
            assert(is_metric_rank(routes, metric, q));
        }
    }
}

/// Inserting a route into a well-formed table leaves a well-formed table that
/// holds the route, no other route for its prefix, and every route that was
/// there for another prefix.
pub proof fn lemma_with_route(routes: Seq<RouteEntry>, route: RouteEntry)
    requires
        routes_wf(routes),
        route.prefix_len <= 32,
    ensures
        routes_wf(with_route(routes, route)),
        with_route(routes, route).len() == without_route(
            routes,
            route.prefix,
            route.prefix_len,
        ).len() + 1,
        with_route(routes, route).contains(route),
        forall|r: RouteEntry|
            #![trigger with_route(routes, route).contains(r)]
            #![trigger routes.contains(r)]
            with_route(routes, route).contains(r) <==> r == route || (routes.contains(r)
                && !route_has_key(r, route.prefix, route.prefix_len)),
{
    let base = without_route(routes, route.prefix, route.prefix_len);
    lemma_without_route(routes, route.prefix, route.prefix_len);
    lemma_metric_rank_exists(base, route.metric);
    let p = metric_rank(base, route.metric);
    let out = with_route(routes, route);
    assert(out == base.insert(p, route));
    assert forall|i: int| 0 <= i < out.len() implies out[i] == (if i < p {
        base[i]
    } else if i == p {
        route
    } else {
        base[i - 1]
    }) by {}
    assert forall|i: int| 0 <= i < out.len() implies (#[trigger] out[i]).prefix_len <= 32 by {
        if i < p {
            assert(out[i] == base[i]);
        } else if i > p {
            assert(out[i] == base[i - 1]);
        }
    }
    assert forall|i: int, j: int|
        0 <= i < out.len() && 0 <= j < out.len() && i != j implies !route_has_key(
        #[trigger] out[i],
        (#[trigger] out[j]).prefix,
        out[j].prefix_len,
    ) by {
        let a = if i < p { i } else { i - 1 };
        let b = if j < p { j } else { j - 1 };
        if i == p {
            assert(out[j] == base[b]);
            assert(!route_has_key(base[b], route.prefix, route.prefix_len));
        } else if j == p {
            assert(out[i] == base[a]);
            assert(!route_has_key(base[a], route.prefix, route.prefix_len));
        } else {
            assert(out[i] == base[a] && out[j] == base[b]);
            assert(!route_has_key(base[a], base[b].prefix, base[b].prefix_len));
        }
    }
    assert forall|i: int, j: int| 0 <= i <= j < out.len() implies (#[trigger] out[i]).metric <= (
    #[trigger] out[j]).metric by {
        let a = if i < p { i } else { i - 1 };
        let b = if j < p { j } else { j - 1 };
        if i == p && j == p {
        } else if i == p {
            assert(out[j] == base[b]);
            assert(base[b].metric > route.metric);
        } else if j == p {
            assert(out[i] == base[a]);
            assert(base[a].metric <= route.metric);
        } else {
            assert(out[i] == base[a] && out[j] == base[b]);
            assert(base[a].metric <= base[b].metric);
        }
    }
    assert forall|r: RouteEntry|
        out.contains(r) <==> r == route || (routes.contains(r) && !route_has_key(
            r,
            route.prefix,
            route.prefix_len,
        )) by {
        if out.contains(r) {
            let i = choose|i: int| 0 <= i < out.len() && out[i] == r;
            if i != p {
                let a = if i < p { i } else { i - 1 };
                assert(base[a] == r);
                assert(base.contains(r));
            }
        }
        if r == route {
            assert(out[p] == r);
        }
        if routes.contains(r) && !route_has_key(r, route.prefix, route.prefix_len) {
            assert(base.contains(r));
            let a = choose|a: int| 0 <= a < base.len() && base[a] == r;
            let i = if a < p { a } else { a + 1 };
            assert(out[i] == r);
        }
    }
}

/// Inserting two routes for one prefix, one after the other, leaves exactly
/// one route for that prefix: the second.
pub proof fn lemma_insert_twice_keeps_latest(
    routes: Seq<RouteEntry>,
    first: RouteEntry,
    second: RouteEntry,
)
    requires
        routes_wf(routes),
        first.prefix_len <= 32,
        route_has_key(second, first.prefix, first.prefix_len),
    ensures
        ({
            let out = with_route(with_route(routes, first), second);
            &&& routes_wf(out)
            &&& out.contains(second)
            &&& forall|i: int|
                0 <= i < out.len() && route_has_key(
                    #[trigger] out[i],
                    second.prefix,
                    second.prefix_len,
                ) ==> out[i] == second
            &&& out.len() == with_route(routes, first).len()
        }),
{
    let mid = with_route(routes, first);
    lemma_with_route(routes, first);
    lemma_with_route(mid, second);
    let out = with_route(mid, second);
    assert forall|i: int|
        0 <= i < out.len() && route_has_key(
            #[trigger] out[i],
            second.prefix,
            second.prefix_len,
        ) implies out[i] == second by {
        assert(out.contains(out[i]));
    }
    assert(mid.contains(first));
    let k = choose|k: int| 0 <= k < mid.len() && mid[k] == first;
    assert(route_has_key(mid[k], second.prefix, second.prefix_len));
    assert(has_route(mid, second.prefix, second.prefix_len));
}

/// Two routes for different prefixes may be inserted in either order: the
/// table holds the same set of routes afterwards.
pub proof fn lemma_insertion_order_irrelevant(
    routes: Seq<RouteEntry>,
    a: RouteEntry,
    b: RouteEntry,
)
    requires
        routes_wf(routes),
        a.prefix_len <= 32,
        b.prefix_len <= 32,
        !route_has_key(a, b.prefix, b.prefix_len),
    ensures
        with_route(with_route(routes, a), b).to_set() == with_route(
            with_route(routes, b),
            a,
        ).to_set(),
{
    let ra = with_route(routes, a);
    let rb = with_route(routes, b);
    lemma_with_route(routes, a);
    lemma_with_route(routes, b);
    lemma_with_route(ra, b);
    lemma_with_route(rb, a);
    let x = with_route(ra, b);
    let y = with_route(rb, a);
    assert forall|r: RouteEntry| x.contains(r) <==> y.contains(r) by {
        assert(ra.contains(r) <==> r == a || (routes.contains(r) && !route_has_key(
            r,
            a.prefix,
            a.prefix_len,
        )));
        assert(rb.contains(r) <==> r == b || (routes.contains(r) && !route_has_key(
            r,
            b.prefix,
            b.prefix_len,
        )));
    }
    assert(x.to_set() =~= y.to_set());
}

} // verus!
