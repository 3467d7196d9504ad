//! The dependency graph of a service, derived from the relationships that
//! services declare: gRPC servers and clients, HTTP servers and clients, and
//! queue publishers and subscribers.
use vstd::prelude::*;

use crate::models::{strs, Service, ServiceView};

verus! {

/// One edge of the graph: the other service, the kind of relation
/// (`grpc`, `http` or `queue`) and the name that links the two.
#[derive(Debug, Clone, PartialEq)]
pub struct Dependency {
    pub service: String,
    pub relation: String,
    pub via: String,
}

/// The mathematical value of a [`Dependency`].
pub struct DependencyView {
    pub service: Seq<char>,
    pub relation: Seq<char>,
    pub via: Seq<char>,
}

impl View for Dependency {
    type V = DependencyView;

    open spec fn view(&self) -> DependencyView {
        DependencyView { service: self.service@, relation: self.relation@, via: self.via@ }
    }
}

/// What a service depends on and what depends on it.
#[derive(Debug, Clone, PartialEq)]
pub struct DependencyGraph {
    pub service: String,
    pub depends_on: Vec<Dependency>,
    pub depended_by: Vec<Dependency>,
}

pub open spec fn deps(v: Seq<Dependency>) -> Seq<DependencyView> {
    v.map_values(|d: Dependency| d@)
}

pub open spec fn views(v: Seq<Service>) -> Seq<ServiceView> {
    v.map_values(|s: Service| s@)
}

pub open spec fn edge(partner: Seq<char>, rel: Seq<char>, via: Seq<char>) -> DependencyView {
    DependencyView { service: partner, relation: rel, via }
}

/// An edge to `partner` for each name of `names`, in order, that `pool` holds.
pub open spec fn member_links(
    names: Seq<Seq<char>>,
    pool: Seq<Seq<char>>,
    partner: Seq<char>,
    rel: Seq<char>,
) -> Seq<DependencyView>
    decreases names.len(),
{
    if names.len() == 0 {
        Seq::empty()
    } else {
        member_links(names.drop_last(), pool, partner, rel) + if pool.contains(names.last()) {
            seq![edge(partner, rel, names.last())]
        } else {
            Seq::empty()
        }
    }
}

/// An edge to `partner` for each name of `names`, in order, that equals
/// `wanted`, provided that `serves` holds.
pub open spec fn match_links(
    names: Seq<Seq<char>>,
    wanted: Seq<char>,
    serves: bool,
    partner: Seq<char>,
    rel: Seq<char>,
) -> Seq<DependencyView>
    decreases names.len(),
{
    if names.len() == 0 {
        Seq::empty()
    } else {
        match_links(names.drop_last(), wanted, serves, partner, rel) + if names.last() == wanted
            && serves {
            seq![edge(partner, rel, names.last())]
        } else {
            Seq::empty()
        }
    }
}

/// The edges from `t` to `o`: the gRPC servers of `o` that `t` calls, `o`
/// itself when `t` calls it over HTTP and it serves HTTP, and the queues
/// that `t` subscribes to and `o` publishes.
pub open spec fn outgoing(t: ServiceView, o: ServiceView) -> Seq<DependencyView> {
    member_links(t.grpc_clients, o.grpc_servers, o.name, "grpc"@) + match_links(
        t.http_clients,
        o.name,
        o.http_server,
        o.name,
        "http"@,
    ) + member_links(t.queue_subscribers, o.queue_publishers, o.name, "queue"@)
}

/// The edges from `o` into `t`: the gRPC servers of `t` that `o` calls,
/// `t` when `o` calls it over HTTP and it serves HTTP, and the queues that
/// `o` subscribes to and `t` publishes.
pub open spec fn incoming(t: ServiceView, o: ServiceView) -> Seq<DependencyView> {
    member_links(o.grpc_clients, t.grpc_servers, o.name, "grpc"@) + match_links(
        o.http_clients,
        t.name,
        t.http_server,
        o.name,
        "http"@,
    ) + member_links(o.queue_subscribers, t.queue_publishers, o.name, "queue"@)
}

/// The `outgoing` edges of `t` to every service of `svcs` in order, skipping
/// those named like `t`.
pub open spec fn depends_on_all(t: ServiceView, svcs: Seq<ServiceView>) -> Seq<DependencyView>
    decreases svcs.len(),
{
    if svcs.len() == 0 {
        Seq::empty()
    } else {
        depends_on_all(t, svcs.drop_last()) + if svcs.last().name == t.name {
            Seq::empty()
        } else {
            outgoing(t, svcs.last())
        }
    }
}

/// The `incoming` edges of `t` from every service of `svcs` in order,
/// skipping those named like `t`.
pub open spec fn depended_by_all(t: ServiceView, svcs: Seq<ServiceView>) -> Seq<DependencyView>
    decreases svcs.len(),
{
    if svcs.len() == 0 {
        Seq::empty()
    } else {
        depended_by_all(t, svcs.drop_last()) + if svcs.last().name == t.name {
            Seq::empty()
        } else {
            incoming(t, svcs.last())
        }
    }
}

/// The first service of `svcs` named `name`, if any.
pub open spec fn first_named(svcs: Seq<ServiceView>, name: Seq<char>) -> Option<ServiceView>
    decreases svcs.len(),
{
    if svcs.len() == 0 {
        None
    } else if svcs[0].name == name {
        Some(svcs[0])
    } else {
        first_named(svcs.drop_first(), name)
    }
}

/// The graph of the service named `target` among `svcs`: its `depends_on`
/// and `depended_by` edges, or `None` when no service has that name.
pub open spec fn dependency_graph(target: Seq<char>, svcs: Seq<ServiceView>) -> Option<
    (Seq<DependencyView>, Seq<DependencyView>),
> {
    match first_named(svcs, target) {
        None => None,
        Some(t) => Some((depends_on_all(t, svcs), depended_by_all(t, svcs))),
    }
}

/// Whether `pool` holds a string equal to `s`.
fn contains_str(pool: &Vec<String>, s: &String) -> (res: bool)
    ensures
        res == strs(pool@).contains(s@),
{
    let mut i: usize = 0;
    while i < pool.len()
        invariant
            i <= pool.len(),
            forall|k: int| 0 <= k < i ==> strs(pool@)[k] != s@,
        decreases pool.len() - i,
    {
        if pool[i] == *s {
            assert(strs(pool@)[i as int] == s@);
            return true;
        }
        i += 1;
    }
    false
}

/// Appends an edge to `partner` for each name of `names` that `pool` holds.
fn push_member_links(
    out: &mut Vec<Dependency>,
    names: &Vec<String>,
    pool: &Vec<String>,
    partner: &String,
    rel: &str,
)
    ensures
        deps(final(out)@) == deps(old(out)@) + member_links(
            strs(names@),
            strs(pool@),
            partner@,
            rel@,
        ),
{
    let ghost ns = strs(names@);
    let mut i: usize = 0;
    while i < names.len()
        invariant
            i <= names.len(),
            ns == strs(names@),
            deps(out@) == deps(old(out)@) + member_links(ns.take(i as int), strs(pool@), partner@, rel@),
        decreases names.len() - i,
    {
        let ghost before = deps(out@);
        assert(ns.take(i + 1).drop_last() =~= ns.take(i as int));
        if contains_str(pool, &names[i]) {
            let d = Dependency { service: partner.clone(), relation: rel.to_owned(), via: names[i].clone() };
            out.push(d);
            assert(deps(out@) =~= before.push(d@));
        } else {
            assert(deps(out@) =~= before);
        }
        i += 1;
    }
    assert(ns.take(names.len() as int) =~= ns);
}

/// Appends an edge to `partner` for each name of `names` equal to `wanted`,
/// provided that `serves` holds.
fn push_match_links(
    out: &mut Vec<Dependency>,
    names: &Vec<String>,
    wanted: &String,
    serves: bool,
    partner: &String,
    rel: &str,
)
    ensures
        deps(final(out)@) == deps(old(out)@) + match_links(
            strs(names@),
            wanted@,
            serves,
            partner@,
            rel@,
        ),
{
    let ghost ns = strs(names@);
    let mut i: usize = 0;
    while i < names.len()
        invariant
            i <= names.len(),
            ns == strs(names@),
            deps(out@) == deps(old(out)@) + match_links(ns.take(i as int), wanted@, serves, partner@, rel@),
        decreases names.len() - i,
    {
        let ghost before = deps(out@);
        assert(ns.take(i + 1).drop_last() =~= ns.take(i as int));
        if names[i] == *wanted && serves {
            let d = Dependency { service: partner.clone(), relation: rel.to_owned(), via: names[i].clone() };
            out.push(d);
            assert(deps(out@) =~= before.push(d@));
        } else {
            assert(deps(out@) =~= before);
        }
        i += 1;
    }
    assert(ns.take(names.len() as int) =~= ns);
}

/// The service that `first_named` finds carries the name, is one of `svcs`,
/// and no service before it has the name; it finds one whenever some
/// service has the name.
pub proof fn lemma_first_named(svcs: Seq<ServiceView>, name: Seq<char>)
    ensures
        first_named(svcs, name) is None <==> forall|i: int|
            0 <= i < svcs.len() ==> #[trigger] svcs[i].name != name,
        first_named(svcs, name) matches Some(s) ==> s.name == name && exists|i: int|
            0 <= i < svcs.len() && #[trigger] svcs[i] == s && forall|k: int|
                0 <= k < i ==> #[trigger] svcs[k].name != name,
    decreases svcs.len(),
{
    if svcs.len() > 0 {
        let rest = svcs.drop_first();
        lemma_first_named(rest, name);
        if svcs[0].name != name {
            assert forall|i: int| 0 <= i < rest.len() implies #[trigger] rest[i] == svcs[i + 1] by {}
            if first_named(rest, name) is None {
                assert forall|i: int| 0 <= i < svcs.len() implies #[trigger] svcs[i].name != name by {
                    if i > 0 {
                        assert(svcs[i] == rest[i - 1]);
                    }
                }
            } else {
                let s = first_named(rest, name)->0;
                let i = choose|i: int|
                    0 <= i < rest.len() && #[trigger] rest[i] == s && forall|k: int|
                        0 <= k < i ==> #[trigger] rest[k].name != name;
                assert(svcs[i + 1] == s);
                assert forall|k: int| 0 <= k < i + 1 implies #[trigger] svcs[k].name != name by {
                    if k > 0 {
                        assert(svcs[k] == rest[k - 1]);
                    }
                }
                assert(svcs[0].name != name);
            }
        } else {
            assert(svcs[0] == svcs[0]);
        }
    }
}

/// The index of the first service named `target`, if any.
fn find_service(target: &String, all_services: &[Service]) -> (res: Option<usize>)
    ensures
        match res {
            None => first_named(views(all_services@), target@) is None,
            Some(i) => i < all_services@.len() && first_named(views(all_services@), target@)
                == Some(all_services@[i as int]@),
        },
{
    let ghost vs = views(all_services@);
    assert(vs.skip(0) =~= vs);
    let mut i: usize = 0;
    while i < all_services.len()
        invariant
            i <= all_services.len(),
            vs == views(all_services@),
            first_named(vs, target@) == first_named(vs.skip(i as int), target@),
        decreases all_services.len() - i,
    {
        assert(vs.skip(i as int).drop_first() =~= vs.skip(i + 1));
        if all_services[i].name == *target {
            return Some(i);
        }
        i += 1;
    }
    None
}

/// The dependency graph of the service named `target` among
/// `all_services`, or `None` when no service has that name. Its service is
/// named first of all services with that name. `depends_on` lists, for each
/// other service in order (services named `target` are skipped), the gRPC
/// servers it offers that the target calls, an HTTP edge for each time the
/// target lists it as an HTTP client target while it serves HTTP, and the
/// queues it publishes that the target subscribes to. `depended_by` lists,
/// in the same order, the gRPC servers of the target that it calls, an HTTP
/// edge for each time it lists the target while the target serves HTTP, and
/// the queues of the target it subscribes to.
pub fn compute_dependencies(target: &str, all_services: &[Service]) -> (res: Option<
    DependencyGraph,
>)
    ensures
        match res {
            None => dependency_graph(target@, views(all_services@)) is None,
            Some(g) => g.service@ == target@ && dependency_graph(target@, views(all_services@))
                == Some((deps(g.depends_on@), deps(g.depended_by@))),
        },
{
    let target_name = target.to_owned();
    let found = find_service(&target_name, all_services);
    let ti = match found {
        None => return None,
        Some(i) => i,
    };
    let target_svc = &all_services[ti];
    let ghost t = target_svc@;
    proof {
        lemma_first_named(views(all_services@), target_name@);
    }
    let ghost vs = views(all_services@);
    let mut depends_on: Vec<Dependency> = Vec::new();
    let mut depended_by: Vec<Dependency> = Vec::new();
    let mut j: usize = 0;
    while j < all_services.len()
        invariant
            j <= all_services.len(),
            vs == views(all_services@),
            t == target_svc@,
            t.name == target_name@,
            deps(depends_on@) == depends_on_all(t, vs.take(j as int)),
            deps(depended_by@) == depended_by_all(t, vs.take(j as int)),
        decreases all_services.len() - j,
    {
        assert(vs.take(j + 1).drop_last() =~= vs.take(j as int));
        assert(vs.take(j + 1).last() == all_services@[j as int]@);
        let other = &all_services[j];
        let ghost prev_on = deps(depends_on@);
        let ghost prev_by = deps(depended_by@);
        if !(other.name == target_name) {
            push_member_links(
                &mut depends_on,
                &target_svc.grpc_clients,
                &other.grpc_servers,
                &other.name,
                "grpc",
            );
            push_match_links(
                &mut depends_on,
                &target_svc.http_clients,
                &other.name,
                other.http_server,
                &other.name,
                "http",
            );
            push_member_links(
                &mut depends_on,
                &target_svc.queue_subscribers,
                &other.queue_publishers,
                &other.name,
                "queue",
            );
            push_member_links(
                &mut depended_by,
                &other.grpc_clients,
                &target_svc.grpc_servers,
                &other.name,
                "grpc",
            );
            push_match_links(
                &mut depended_by,
                &other.http_clients,
                &target_name,
                target_svc.http_server,
                &other.name,
                "http",
            );
            push_member_links(
                &mut depended_by,
                &other.queue_subscribers,
                &target_svc.queue_publishers,
                &other.name,
                "queue",
            );
            let ghost o = other@;
            assert(deps(depends_on@) =~= prev_on + outgoing(t, o));
            assert(deps(depended_by@) =~= prev_by + incoming(t, o));
        }
        j += 1;
    }
    assert(vs.take(all_services.len() as int) =~= vs);
    Some(DependencyGraph { service: target_name, depends_on, depended_by })
}

} // verus!

verus! {

/// Membership in a concatenation is membership in either part.
pub proof fn lemma_add_contains<A>(a: Seq<A>, b: Seq<A>, x: A)
    ensures
        (a + b).contains(x) <==> a.contains(x) || b.contains(x),
{
    if (a + b).contains(x) {
        let i = choose|i: int| 0 <= i < (a + b).len() && (a + b)[i] == x;
        if i < a.len() {
            assert(a[i] == x);
        } else {
            assert(b[i - a.len()] == x);
        }
    }
    if a.contains(x) {
        let i = choose|i: int| 0 <= i < a.len() && a[i] == x;
        assert((a + b)[i] == x);
    }
    if b.contains(x) {
        let i = choose|i: int| 0 <= i < b.len() && b[i] == x;
        assert((a + b)[a.len() + i] == x);
    }
}

/// An edge of `member_links` goes to `partner` with relation `rel`, via a
/// name that both `names` and `pool` hold; each such name gives one.
pub proof fn lemma_member_links_contains(
    names: Seq<Seq<char>>,
    pool: Seq<Seq<char>>,
    partner: Seq<char>,
    rel: Seq<char>,
    e: DependencyView,
)
    ensures
        member_links(names, pool, partner, rel).contains(e) <==> e.service == partner
            && e.relation == rel && names.contains(e.via) && pool.contains(e.via),
    decreases names.len(),
{
    if names.len() > 0 {
        let init = names.drop_last();
        lemma_member_links_contains(init, pool, partner, rel, e);
        let tail = if pool.contains(names.last()) {
            seq![edge(partner, rel, names.last())]
        } else {
            Seq::<DependencyView>::empty()
        };
        lemma_add_contains(member_links(init, pool, partner, rel), tail, e);
        lemma_add_contains(init, seq![names.last()], e.via);
        assert(init + seq![names.last()] =~= names);
        if tail.contains(e) {
            assert(tail[0] == e);
        }
        if e.service == partner && e.relation == rel && pool.contains(e.via) && e.via
            == names.last() {
            assert(tail[0] == e);
        }
    }
}

/// An edge of `match_links` goes to `partner` with relation `rel`, via
/// `wanted`, when `names` holds `wanted` and `serves` holds.
pub proof fn lemma_match_links_contains(
    names: Seq<Seq<char>>,
    wanted: Seq<char>,
    serves: bool,
    partner: Seq<char>,
    rel: Seq<char>,
    e: DependencyView,
)
    ensures
        match_links(names, wanted, serves, partner, rel).contains(e) <==> e.service == partner
            && e.relation == rel && names.contains(e.via) && e.via == wanted && serves,
    decreases names.len(),
{
    if names.len() > 0 {
        let init = names.drop_last();
        lemma_match_links_contains(init, wanted, serves, partner, rel, e);
        let tail = if names.last() == wanted && serves {
            seq![edge(partner, rel, names.last())]
        } else {
            Seq::<DependencyView>::empty()
        };
        lemma_add_contains(match_links(init, wanted, serves, partner, rel), tail, e);
        lemma_add_contains(init, seq![names.last()], e.via);
        assert(init + seq![names.last()] =~= names);
        if tail.contains(e) {
            assert(tail[0] == e);
        }
        if e.service == partner && e.relation == rel && e.via == wanted && serves && e.via
            == names.last() {
            assert(tail[0] == e);
        }
    }
}

/// Whether `a` depends on `b` through relation `rel` via the name `via`:
/// `a` calls the gRPC server `via` that `b` offers, `a` calls `b` (named
/// `via`) over HTTP and `b` serves HTTP, or `a` subscribes to the queue
/// `via` that `b` publishes.
pub open spec fn links_to(a: ServiceView, b: ServiceView, rel: Seq<char>, via: Seq<char>) -> bool {
    ||| rel == "grpc"@ && a.grpc_clients.contains(via) && b.grpc_servers.contains(via)
    ||| rel == "http"@ && a.http_clients.contains(via) && via == b.name && b.http_server
    ||| rel == "queue"@ && a.queue_subscribers.contains(via) && b.queue_publishers.contains(via)
}

/// The edges from `t` to `o` are exactly the links from `t` to `o`, named
/// after `o`.
pub proof fn lemma_outgoing_contains(t: ServiceView, o: ServiceView, e: DependencyView)
    ensures
        outgoing(t, o).contains(e) <==> e.service == o.name && links_to(t, o, e.relation, e.via),
{
    let g = member_links(t.grpc_clients, o.grpc_servers, o.name, "grpc"@);
    let h = match_links(t.http_clients, o.name, o.http_server, o.name, "http"@);
    let q = member_links(t.queue_subscribers, o.queue_publishers, o.name, "queue"@);
    lemma_add_contains(g + h, q, e);
    lemma_add_contains(g, h, e);
    lemma_member_links_contains(t.grpc_clients, o.grpc_servers, o.name, "grpc"@, e);
    lemma_match_links_contains(t.http_clients, o.name, o.http_server, o.name, "http"@, e);
    lemma_member_links_contains(t.queue_subscribers, o.queue_publishers, o.name, "queue"@, e);
}

/// The edges from `o` into `t` are exactly the links from `o` to `t`, named
/// after `o`.
pub proof fn lemma_incoming_contains(t: ServiceView, o: ServiceView, e: DependencyView)
    ensures
        incoming(t, o).contains(e) <==> e.service == o.name && links_to(o, t, e.relation, e.via),
{
    let g = member_links(o.grpc_clients, t.grpc_servers, o.name, "grpc"@);
    let h = match_links(o.http_clients, t.name, t.http_server, o.name, "http"@);
    let q = member_links(o.queue_subscribers, t.queue_publishers, o.name, "queue"@);
    lemma_add_contains(g + h, q, e);
    lemma_add_contains(g, h, e);
    lemma_member_links_contains(o.grpc_clients, t.grpc_servers, o.name, "grpc"@, e);
    lemma_match_links_contains(o.http_clients, t.name, t.http_server, o.name, "http"@, e);
    lemma_member_links_contains(o.queue_subscribers, t.queue_publishers, o.name, "queue"@, e);
}

/// An edge of `depends_on_all` is an edge to some service of `svcs` not
/// named like `t`.
pub proof fn lemma_depends_on_all_contains(t: ServiceView, svcs: Seq<ServiceView>, e: DependencyView)
    ensures
        depends_on_all(t, svcs).contains(e) <==> exists|j: int|
            0 <= j < svcs.len() && svcs[j].name != t.name && #[trigger] outgoing(
                t,
                svcs[j],
            ).contains(e),
    decreases svcs.len(),
{
    if svcs.len() > 0 {
        let init = svcs.drop_last();
        lemma_depends_on_all_contains(t, init, e);
        let tail = if svcs.last().name == t.name {
            Seq::<DependencyView>::empty()
        } else {
            outgoing(t, svcs.last())
        };
        lemma_add_contains(depends_on_all(t, init), tail, e);
        if depends_on_all(t, svcs).contains(e) {
            if depends_on_all(t, init).contains(e) {
                let j = choose|j: int|
                    0 <= j < init.len() && init[j].name != t.name && #[trigger] outgoing(
                        t,
                        init[j],
                    ).contains(e);
                assert(svcs[j] == init[j]);
            } else {
                assert(outgoing(t, svcs[svcs.len() - 1]).contains(e));
            }
        }
        if exists|j: int|
            0 <= j < svcs.len() && svcs[j].name != t.name && #[trigger] outgoing(
                t,
                svcs[j],
            ).contains(e) {
            let j = choose|j: int|
                0 <= j < svcs.len() && svcs[j].name != t.name && #[trigger] outgoing(
                    t,
                    svcs[j],
                ).contains(e);
            if j < init.len() {
                assert(init[j] == svcs[j]);
            }
        }
    }
}

/// An edge of `depended_by_all` is an edge from some service of `svcs` not
/// named like `t`.
pub proof fn lemma_depended_by_all_contains(
    t: ServiceView,
    svcs: Seq<ServiceView>,
    e: DependencyView,
)
    ensures
        depended_by_all(t, svcs).contains(e) <==> exists|j: int|
            0 <= j < svcs.len() && svcs[j].name != t.name && #[trigger] incoming(
                t,
                svcs[j],
            ).contains(e),
    decreases svcs.len(),
{
    if svcs.len() > 0 {
        let init = svcs.drop_last();
        lemma_depended_by_all_contains(t, init, e);
        let tail = if svcs.last().name == t.name {
            Seq::<DependencyView>::empty()
        } else {
            incoming(t, svcs.last())
        };
        lemma_add_contains(depended_by_all(t, init), tail, e);
        if depended_by_all(t, svcs).contains(e) {
            if depended_by_all(t, init).contains(e) {
                let j = choose|j: int|
                    0 <= j < init.len() && init[j].name != t.name && #[trigger] incoming(
                        t,
                        init[j],
                    ).contains(e);
                assert(svcs[j] == init[j]);
            } else {
                assert(incoming(t, svcs[svcs.len() - 1]).contains(e));
            }
        }
        if exists|j: int|
            0 <= j < svcs.len() && svcs[j].name != t.name && #[trigger] incoming(
                t,
                svcs[j],
            ).contains(e) {
            let j = choose|j: int|
                0 <= j < svcs.len() && svcs[j].name != t.name && #[trigger] incoming(
                    t,
                    svcs[j],
                ).contains(e);
            if j < init.len() {
                assert(init[j] == svcs[j]);
            }
        }
    }
}

/// No two services of `svcs` share a name.
pub open spec fn unique_names(svcs: Seq<ServiceView>) -> bool {
    forall|i: int, j: int|
        0 <= i < svcs.len() && 0 <= j < svcs.len() && i != j ==> #[trigger] svcs[i].name
            != #[trigger] svcs[j].name
}

/// A graph exists exactly for the names that some service carries.
pub proof fn law_graph_exists_iff_named(target: Seq<char>, svcs: Seq<ServiceView>)
    ensures
        dependency_graph(target, svcs) is Some <==> exists|i: int|
            0 <= i < svcs.len() && #[trigger] svcs[i].name == target,
{
    lemma_first_named(svcs, target);
}

/// Every edge of a graph names another service of the registry: never the
/// service itself, always a service that exists, and it links the two in the
/// direction the edge says.
pub proof fn law_edges_name_other_services(
    target: Seq<char>,
    svcs: Seq<ServiceView>,
    e: DependencyView,
)
    requires
        dependency_graph(target, svcs) is Some,
    ensures
        dependency_graph(target, svcs).unwrap().0.contains(e) ==> e.service != target && exists|j: int|
            0 <= j < svcs.len() && #[trigger] svcs[j].name == e.service && links_to(
                first_named(svcs, target)->0,
                svcs[j],
                e.relation,
                e.via,
            ),
        dependency_graph(target, svcs).unwrap().1.contains(e) ==> e.service != target && exists|j: int|
            0 <= j < svcs.len() && #[trigger] svcs[j].name == e.service && links_to(
                svcs[j],
                first_named(svcs, target)->0,
                e.relation,
                e.via,
            ),
{
    lemma_first_named(svcs, target);
    let t = first_named(svcs, target)->0;
    lemma_depends_on_all_contains(t, svcs, e);
    lemma_depended_by_all_contains(t, svcs, e);
    if depends_on_all(t, svcs).contains(e) {
        let j = choose|j: int|
            0 <= j < svcs.len() && svcs[j].name != t.name && #[trigger] outgoing(
                t,
                svcs[j],
            ).contains(e);
        lemma_outgoing_contains(t, svcs[j], e);
    }
    if depended_by_all(t, svcs).contains(e) {
        let j = choose|j: int|
            0 <= j < svcs.len() && svcs[j].name != t.name && #[trigger] incoming(
                t,
                svcs[j],
            ).contains(e);
        lemma_incoming_contains(t, svcs[j], e);
    }
}

/// When service names are unique, dependencies are symmetric: `a` depends on
/// `b` through relation `rel` via `via` in the graph of `a` exactly when `b`
/// is depended on by `a` through the same relation and name in the graph of
/// `b`.
pub proof fn law_dependency_symmetry(
    svcs: Seq<ServiceView>,
    a: int,
    b: int,
    rel: Seq<char>,
    via: Seq<char>,
)
    requires
        unique_names(svcs),
        0 <= a < svcs.len(),
        0 <= b < svcs.len(),
        a != b,
    ensures
        dependency_graph(svcs[a].name, svcs) is Some,
        dependency_graph(svcs[b].name, svcs) is Some,
        dependency_graph(svcs[a].name, svcs).unwrap().0.contains(edge(svcs[b].name, rel, via))
            <==> dependency_graph(svcs[b].name, svcs).unwrap().1.contains(edge(svcs[a].name, rel, via)),
        dependency_graph(svcs[a].name, svcs).unwrap().0.contains(edge(svcs[b].name, rel, via))
            <==> links_to(svcs[a], svcs[b], rel, via),
{
    let sa = svcs[a];
    let sb = svcs[b];
    lemma_first_named(svcs, sa.name);
    lemma_first_named(svcs, sb.name);
    assert(first_named(svcs, sa.name) == Some(sa)) by {
        let s = first_named(svcs, sa.name)->0;
        let i = choose|i: int|
            0 <= i < svcs.len() && #[trigger] svcs[i] == s && forall|k: int|
                0 <= k < i ==> #[trigger] svcs[k].name != sa.name;
        assert(svcs[i].name == svcs[a].name);
    }
    assert(first_named(svcs, sb.name) == Some(sb)) by {
        let s = first_named(svcs, sb.name)->0;
        let i = choose|i: int|
            0 <= i < svcs.len() && #[trigger] svcs[i] == s && forall|k: int|
                0 <= k < i ==> #[trigger] svcs[k].name != sb.name;
        assert(svcs[i].name == svcs[b].name);
    }
    let ea = edge(sb.name, rel, via);
    let eb = edge(sa.name, rel, via);
    lemma_depends_on_all_contains(sa, svcs, ea);
    lemma_depended_by_all_contains(sb, svcs, eb);
    lemma_outgoing_contains(sa, sb, ea);
    lemma_incoming_contains(sb, sa, eb);
    if depends_on_all(sa, svcs).contains(ea) {
        let j = choose|j: int|
            0 <= j < svcs.len() && svcs[j].name != sa.name && #[trigger] outgoing(
                sa,
                svcs[j],
            ).contains(ea);
        lemma_outgoing_contains(sa, svcs[j], ea);
        assert(svcs[j].name == svcs[b].name);
        assert(j == b);
    }
    if depended_by_all(sb, svcs).contains(eb) {
        let j = choose|j: int|
            0 <= j < svcs.len() && svcs[j].name != sb.name && #[trigger] incoming(
                sb,
                svcs[j],
            ).contains(eb);
        lemma_incoming_contains(sb, svcs[j], eb);
        assert(svcs[j].name == svcs[a].name);
        assert(j == a);
    }
    if links_to(sa, sb, rel, via) {
        assert(outgoing(sa, svcs[b]).contains(ea));
        assert(incoming(sb, svcs[a]).contains(eb));
    }
}

/// How many times `e` occurs in `es`.
pub open spec fn edge_count(es: Seq<DependencyView>, e: DependencyView) -> nat
    decreases es.len(),
{
    if es.len() == 0 {
        0
    } else {
        edge_count(es.drop_last(), e) + if es.last() == e {
            1nat
        } else {
            0nat
        }
    }
}

/// Counts add up over a concatenation.
pub proof fn lemma_edge_count_add(a: Seq<DependencyView>, b: Seq<DependencyView>, e: DependencyView)
    ensures
        edge_count(a + b, e) == edge_count(a, e) + edge_count(b, e),
    decreases b.len(),
{
    if b.len() == 0 {
        assert(a + b =~= a);
    } else {
        lemma_edge_count_add(a, b.drop_last(), e);
        assert((a + b).drop_last() =~= a + b.drop_last());
    }
}

/// An edge that does not occur has count 0.
pub proof fn lemma_edge_count_absent(es: Seq<DependencyView>, e: DependencyView)
    requires
        !es.contains(e),
    ensures
        edge_count(es, e) == 0,
    decreases es.len(),
{
    if es.len() > 0 {
        assert(es.drop_last().contains(e) ==> es.contains(e)) by {
            if es.drop_last().contains(e) {
                let i = choose|i: int| 0 <= i < es.drop_last().len() && es.drop_last()[i] == e;
                assert(es[i] == e);
            }
        }
        assert(es[es.len() - 1] == es.last());
        lemma_edge_count_absent(es.drop_last(), e);
    }
}

/// Renaming the partner of member links keeps the count of each edge.
proof fn lemma_member_links_rename(
    names: Seq<Seq<char>>,
    pool: Seq<Seq<char>>,
    x: Seq<char>,
    y: Seq<char>,
    rel: Seq<char>,
    r: Seq<char>,
    v: Seq<char>,
)
    ensures
        edge_count(member_links(names, pool, x, rel), edge(x, r, v)) == edge_count(
            member_links(names, pool, y, rel),
            edge(y, r, v),
        ),
    decreases names.len(),
{
    if names.len() > 0 {
        let init = names.drop_last();
        lemma_member_links_rename(init, pool, x, y, rel, r, v);
        let tx = if pool.contains(names.last()) {
            seq![edge(x, rel, names.last())]
        } else {
            Seq::empty()
        };
        let ty = if pool.contains(names.last()) {
            seq![edge(y, rel, names.last())]
        } else {
            Seq::empty()
        };
        lemma_edge_count_add(member_links(init, pool, x, rel), tx, edge(x, r, v));
        lemma_edge_count_add(member_links(init, pool, y, rel), ty, edge(y, r, v));
        if pool.contains(names.last()) {
            assert(edge_count(Seq::<DependencyView>::empty(), edge(x, r, v)) == 0);
            assert(edge_count(Seq::<DependencyView>::empty(), edge(y, r, v)) == 0);
            assert(tx.last() == edge(x, rel, names.last()));
            assert(ty.last() == edge(y, rel, names.last()));
            assert((edge(x, rel, names.last()) == edge(x, r, v)) <==> (rel == r && names.last() == v));
            assert((edge(y, rel, names.last()) == edge(y, r, v)) <==> (rel == r && names.last() == v));
            assert(tx.drop_last() =~= Seq::<DependencyView>::empty());
            assert(ty.drop_last() =~= Seq::<DependencyView>::empty());
        }
    }
}

/// Renaming the partner of matching links keeps the count of each edge.
proof fn lemma_match_links_rename(
    names: Seq<Seq<char>>,
    wanted: Seq<char>,
    serves: bool,
    x: Seq<char>,
    y: Seq<char>,
    rel: Seq<char>,
    r: Seq<char>,
    v: Seq<char>,
)
    ensures
        edge_count(match_links(names, wanted, serves, x, rel), edge(x, r, v)) == edge_count(
            match_links(names, wanted, serves, y, rel),
            edge(y, r, v),
        ),
    decreases names.len(),
{
    if names.len() > 0 {
        let init = names.drop_last();
        lemma_match_links_rename(init, wanted, serves, x, y, rel, r, v);
        let c = names.last() == wanted && serves;
        let tx = if c {
            seq![edge(x, rel, names.last())]
        } else {
            Seq::empty()
        };
        let ty = if c {
            seq![edge(y, rel, names.last())]
        } else {
            Seq::empty()
        };
        lemma_edge_count_add(match_links(init, wanted, serves, x, rel), tx, edge(x, r, v));
        lemma_edge_count_add(match_links(init, wanted, serves, y, rel), ty, edge(y, r, v));
        if c {
            assert(edge_count(Seq::<DependencyView>::empty(), edge(x, r, v)) == 0);
            assert(edge_count(Seq::<DependencyView>::empty(), edge(y, r, v)) == 0);
            assert(tx.last() == edge(x, rel, names.last()));
            assert(ty.last() == edge(y, rel, names.last()));
            assert((edge(x, rel, names.last()) == edge(x, r, v)) <==> (rel == r && names.last() == v));
            assert((edge(y, rel, names.last()) == edge(y, r, v)) <==> (rel == r && names.last() == v));
            assert(tx.drop_last() =~= Seq::<DependencyView>::empty());
            assert(ty.drop_last() =~= Seq::<DependencyView>::empty());
        }
    }
}

/// The edges from `a` to `b` counted in the graph of `a` are the edges
/// from `a` into `b` counted in the graph of `b`.
proof fn lemma_outgoing_incoming_count(a: ServiceView, b: ServiceView, r: Seq<char>, v: Seq<char>)
    ensures
        edge_count(outgoing(a, b), edge(b.name, r, v)) == edge_count(
            incoming(b, a),
            edge(a.name, r, v),
        ),
{
    let eb = edge(b.name, r, v);
    let ea = edge(a.name, r, v);
    let g1 = member_links(a.grpc_clients, b.grpc_servers, b.name, "grpc"@);
    let h1 = match_links(a.http_clients, b.name, b.http_server, b.name, "http"@);
    let q1 = member_links(a.queue_subscribers, b.queue_publishers, b.name, "queue"@);
    let g2 = member_links(a.grpc_clients, b.grpc_servers, a.name, "grpc"@);
    let h2 = match_links(a.http_clients, b.name, b.http_server, a.name, "http"@);
    let q2 = member_links(a.queue_subscribers, b.queue_publishers, a.name, "queue"@);
    lemma_edge_count_add(g1 + h1, q1, eb);
    lemma_edge_count_add(g1, h1, eb);
    lemma_edge_count_add(g2 + h2, q2, ea);
    lemma_edge_count_add(g2, h2, ea);
    lemma_member_links_rename(a.grpc_clients, b.grpc_servers, b.name, a.name, "grpc"@, r, v);
    lemma_match_links_rename(a.http_clients, b.name, b.http_server, b.name, a.name, "http"@, r, v);
    lemma_member_links_rename(
        a.queue_subscribers,
        b.queue_publishers,
        b.name,
        a.name,
        "queue"@,
        r,
        v,
    );
}

/// With unique names, the edges to the service at `kb` in the `depends_on`
/// edges of `t` over the first `n` services are those of `outgoing(t,
/// svcs[kb])` once `kb` is among them, else none.
proof fn lemma_depends_on_count(
    t: ServiceView,
    svcs: Seq<ServiceView>,
    kb: int,
    n: int,
    r: Seq<char>,
    v: Seq<char>,
)
    requires
        unique_names(svcs),
        0 <= kb < svcs.len(),
        svcs[kb].name != t.name,
        0 <= n <= svcs.len(),
    ensures
        edge_count(depends_on_all(t, svcs.take(n)), edge(svcs[kb].name, r, v)) == if kb < n {
            edge_count(outgoing(t, svcs[kb]), edge(svcs[kb].name, r, v))
        } else {
            0
        },
    decreases n,
{
    let e = edge(svcs[kb].name, r, v);
    if n == 0 {
        assert(svcs.take(0) =~= Seq::<ServiceView>::empty());
    } else {
        let m = n - 1;
        lemma_depends_on_count(t, svcs, kb, m, r, v);
        let p = svcs.take(n);
        assert(p.drop_last() =~= svcs.take(m));
        assert(p.last() == svcs[m]);
        let o = svcs[m];
        let tail = if o.name == t.name {
            Seq::<DependencyView>::empty()
        } else {
            outgoing(t, o)
        };
        lemma_edge_count_add(depends_on_all(t, svcs.take(m)), tail, e);
        if o.name == t.name {
            assert(tail.len() == 0);
        } else if m != kb {
            assert(o.name != svcs[kb].name);
            lemma_outgoing_contains(t, o, e);
            lemma_edge_count_absent(tail, e);
        }
    }
}

/// With unique names, the edges from the service at `ka` in the
/// `depended_by` edges of `t` over the first `n` services are those of
/// `incoming(t, svcs[ka])` once `ka` is among them, else none.
proof fn lemma_depended_by_count(
    t: ServiceView,
    svcs: Seq<ServiceView>,
    ka: int,
    n: int,
    r: Seq<char>,
    v: Seq<char>,
)
    requires
        unique_names(svcs),
        0 <= ka < svcs.len(),
        svcs[ka].name != t.name,
        0 <= n <= svcs.len(),
    ensures
        edge_count(depended_by_all(t, svcs.take(n)), edge(svcs[ka].name, r, v)) == if ka < n {
            edge_count(incoming(t, svcs[ka]), edge(svcs[ka].name, r, v))
        } else {
            0
        },
    decreases n,
{
    let e = edge(svcs[ka].name, r, v);
    if n == 0 {
        assert(svcs.take(0) =~= Seq::<ServiceView>::empty());
    } else {
        let m = n - 1;
        lemma_depended_by_count(t, svcs, ka, m, r, v);
        let p = svcs.take(n);
        assert(p.drop_last() =~= svcs.take(m));
        assert(p.last() == svcs[m]);
        let o = svcs[m];
        let tail = if o.name == t.name {
            Seq::<DependencyView>::empty()
        } else {
            incoming(t, o)
        };
        lemma_edge_count_add(depended_by_all(t, svcs.take(m)), tail, e);
        if o.name == t.name {
            assert(tail.len() == 0);
        } else if m != ka {
            assert(o.name != svcs[ka].name);
            lemma_incoming_contains(t, o, e);
            lemma_edge_count_absent(tail, e);
        }
    }
}

/// When service names are unique, dependencies are symmetric edge for edge:
/// the graph of `a` lists `b` with a relation and name exactly as many times
/// as the graph of `b` lists `a` among what depends on it with the same
/// relation and name.
pub proof fn law_dependency_counts(
    svcs: Seq<ServiceView>,
    a: int,
    b: int,
    rel: Seq<char>,
    via: Seq<char>,
)
    requires
        unique_names(svcs),
        0 <= a < svcs.len(),
        0 <= b < svcs.len(),
        a != b,
    ensures
        edge_count(
            dependency_graph(svcs[a].name, svcs).unwrap().0,
            edge(svcs[b].name, rel, via),
        ) == edge_count(
            dependency_graph(svcs[b].name, svcs).unwrap().1,
            edge(svcs[a].name, rel, via),
        ),
{
    law_dependency_symmetry(svcs, a, b, rel, via);
    let sa = svcs[a];
    let sb = svcs[b];
    lemma_first_named(svcs, sa.name);
    lemma_first_named(svcs, sb.name);
    assert(first_named(svcs, sa.name) == Some(sa)) by {
        let s = first_named(svcs, sa.name)->0;
        let i = choose|i: int|
            0 <= i < svcs.len() && #[trigger] svcs[i] == s && forall|k: int|
                0 <= k < i ==> #[trigger] svcs[k].name != sa.name;
        assert(svcs[i].name == svcs[a].name);
    }
    assert(first_named(svcs, sb.name) == Some(sb)) by {
        let s = first_named(svcs, sb.name)->0;
        let i = choose|i: int|
            0 <= i < svcs.len() && #[trigger] svcs[i] == s && forall|k: int|
                0 <= k < i ==> #[trigger] svcs[k].name != sb.name;
        assert(svcs[i].name == svcs[b].name);
    }
    assert(svcs.take(svcs.len() as int) =~= svcs);
    lemma_depends_on_count(sa, svcs, b, svcs.len() as int, rel, via);
    lemma_depended_by_count(sb, svcs, a, svcs.len() as int, rel, via);
    lemma_outgoing_incoming_count(sa, sb, rel, via);
}

} // verus!
