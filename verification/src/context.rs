//! Everything about one service in one answer: the service, the tables it
//! owns, the queues it publishes or subscribes to, the proto contracts of
//! its gRPC servers (and clients), and its HTTP contract when it serves HTTP.
use vstd::prelude::*;
use vstd::string::StringSliceAdditionalSpecFns;
use vstd::utf8::*;
use vstd::seq_lib::seq_to_set_distributes_over_add;

use crate::db::queries::{
    in_list_sql,
    get_http_contract, get_protos_by_servers, get_queues_by_names, get_service,
    get_tables_by_names, names_lookup, service_lookup, QueueRow, GET_HTTP_SQL, GET_SERVICE_SQL,
    PROTOS_BY_SERVERS_SQL, QUEUES_BY_NAMES_SQL, TABLES_BY_NAMES_SQL,
};
use crate::db::sql::{
    text_params, extends, first_record_of, lemma_since_join, lemma_since_none, ran, record_texts, since, SqlValue,
};
use crate::db::statement::{Db, SqlCall};
use crate::error::AppError;
use crate::models::{strs, HttpContract, ProtoContract, Service, ServiceView, Table};

verus! {

broadcast use vstd::utf8::encode_utf8_decode_utf8;

/// The bundled context of a service.
#[derive(Debug, Clone, PartialEq)]
pub struct ServiceContext {
    pub service: Service,
    pub tables: Vec<Table>,
    pub queue_contracts: Vec<QueueRow>,
    pub proto_contracts: Vec<ProtoContract>,
    pub http_contracts: Vec<HttpContract>,
}

/// Lexicographic order of byte strings: the first differing byte decides,
/// and a proper prefix comes first.
pub open spec fn bytes_lt(a: Seq<u8>, b: Seq<u8>) -> bool
    decreases a.len(),
{
    if a.len() == 0 {
        b.len() > 0
    } else if b.len() == 0 {
        false
    } else if a[0] != b[0] {
        a[0] < b[0]
    } else {
        bytes_lt(a.drop_first(), b.drop_first())
    }
}

/// The order of `String`: lexicographic on the UTF-8 bytes.
pub open spec fn str_lt(a: Seq<char>, b: Seq<char>) -> bool {
    bytes_lt(encode_utf8(a), encode_utf8(b))
}

/// Every item comes before the next, in the order of `String`: sorted, with
/// no item twice.
pub open spec fn strictly_sorted(s: Seq<Seq<char>>) -> bool {
    forall|i: int, j: int| 0 <= i < j < s.len() ==> str_lt(#[trigger] s[i], #[trigger] s[j])
}

/// No byte string comes before itself.
pub proof fn lemma_bytes_lt_irreflexive(a: Seq<u8>)
    ensures
        !bytes_lt(a, a),
    decreases a.len(),
{
    if a.len() > 0 {
        lemma_bytes_lt_irreflexive(a.drop_first());
    }
}

/// The order of byte strings is transitive.
pub proof fn lemma_bytes_lt_transitive(a: Seq<u8>, b: Seq<u8>, c: Seq<u8>)
    requires
        bytes_lt(a, b),
        bytes_lt(b, c),
    ensures
        bytes_lt(a, c),
    decreases a.len(),
{
    if a.len() > 0 && b.len() > 0 && c.len() > 0 {
        if a[0] == b[0] && b[0] == c[0] {
            lemma_bytes_lt_transitive(a.drop_first(), b.drop_first(), c.drop_first());
        }
    }
}

/// Of two different byte strings, one comes before the other.
pub proof fn lemma_bytes_lt_total(a: Seq<u8>, b: Seq<u8>)
    ensures
        a == b || bytes_lt(a, b) || bytes_lt(b, a),
    decreases a.len(),
{
    if a.len() > 0 && b.len() > 0 && a[0] == b[0] {
        lemma_bytes_lt_total(a.drop_first(), b.drop_first());
        if a.drop_first() == b.drop_first() {
            assert(a =~= seq![a[0]] + a.drop_first());
            assert(b =~= seq![b[0]] + b.drop_first());
        }
    } else if a.len() == 0 && b.len() == 0 {
        assert(a =~= b);
    }
}

/// The order of `String` is a strict total order.
pub proof fn lemma_str_lt_order(a: Seq<char>, b: Seq<char>, c: Seq<char>)
    ensures
        !str_lt(a, a),
        str_lt(a, b) && str_lt(b, c) ==> str_lt(a, c),
        a == b || str_lt(a, b) || str_lt(b, a),
{
    lemma_bytes_lt_irreflexive(encode_utf8(a));
    if str_lt(a, b) && str_lt(b, c) {
        lemma_bytes_lt_transitive(encode_utf8(a), encode_utf8(b), encode_utf8(c));
    }
    lemma_bytes_lt_total(encode_utf8(a), encode_utf8(b));
    assert(decode_utf8(encode_utf8(a)) == a);
    assert(decode_utf8(encode_utf8(b)) == b);
}

/// Whether `a` comes before `b` in the order of `String`.
pub fn less_than(a: &String, b: &String) -> (res: bool)
    ensures
        res == str_lt(a@, b@),
{
    let x = a.as_str().as_bytes();
    let y = b.as_str().as_bytes();
    let ghost xs = x@;
    let ghost ys = y@;
    assert(xs == encode_utf8(a@));
    assert(ys == encode_utf8(b@));
    assert(xs.skip(0) =~= xs);
    assert(ys.skip(0) =~= ys);
    let mut i: usize = 0;
    while i < x.len() && i < y.len()
        invariant
            i <= x@.len(),
            i <= y@.len(),
            xs == x@,
            ys == y@,
            xs == encode_utf8(a@),
            ys == encode_utf8(b@),
            bytes_lt(xs, ys) == bytes_lt(xs.skip(i as int), ys.skip(i as int)),
        decreases x.len() - i,
    {
        if x[i] != y[i] {
            let ghost sx = xs.skip(i as int);
            let ghost sy = ys.skip(i as int);
            assert(sx.len() > 0 && sy.len() > 0);
            assert(sx[0] == xs[i as int]);
            assert(sy[0] == ys[i as int]);
            assert(bytes_lt(sx, sy) == (sx[0] < sy[0]));
            return x[i] < y[i];
        }
        assert(xs.skip(i as int).drop_first() =~= xs.skip(i + 1));
        assert(ys.skip(i as int).drop_first() =~= ys.skip(i + 1));
        i += 1;
    }
    i < y.len()
}

/// Adds `s` to a strictly sorted list, where it belongs, unless it is there.
fn insert_sorted(v: &mut Vec<String>, s: &String)
    requires
        strictly_sorted(strs(old(v)@)),
    ensures
        strictly_sorted(strs(final(v)@)),
        strs(final(v)@).to_set() == strs(old(v)@).to_set().insert(s@),
{
    let ghost old_s = strs(v@);
    let mut i: usize = 0;
    while i < v.len() && less_than(&v[i], s)
        invariant
            i <= v@.len(),
            strs(v@) == old_s,
            strictly_sorted(old_s),
            forall|j: int| 0 <= j < i ==> str_lt(#[trigger] old_s[j], s@),
        decreases v.len() - i,
    {
        i += 1;
    }
    if i < v.len() && v[i] == *s {
        assert(old_s.to_set() =~= old_s.to_set().insert(s@)) by {
            assert(old_s[i as int] == s@);
        }
        return;
    }
    proof {
        if i < old_s.len() {
            lemma_str_lt_order(old_s[i as int], s@, s@);
            assert(str_lt(s@, old_s[i as int]));
            assert forall|j: int| i <= j < old_s.len() implies str_lt(s@, #[trigger] old_s[j]) by {
                if j > i {
                    lemma_str_lt_order(s@, old_s[i as int], old_s[j]);
                }
            }
        }
    }
    v.insert(i, s.clone());
    let ghost new_s = strs(v@);
    assert(new_s =~= old_s.insert(i as int, s@));
    assert forall|a: int, b: int| 0 <= a < b < new_s.len() implies str_lt(
        #[trigger] new_s[a],
        #[trigger] new_s[b],
    ) by {
        if a < i && b == i {
        } else if a < i && b > i {
            assert(new_s[b] == old_s[b - 1]);
            assert(str_lt(old_s[a], s@));
            assert(str_lt(s@, old_s[b - 1]));
            lemma_str_lt_order(old_s[a], s@, old_s[b - 1]);
        } else if a == i {
            assert(new_s[b] == old_s[b - 1]);
        } else if a < i {
        } else {
            assert(new_s[a] == old_s[a - 1]);
            assert(new_s[b] == old_s[b - 1]);
        }
    }
    assert(new_s.to_set() =~= old_s.to_set().insert(s@)) by {
        assert forall|x: Seq<char>| new_s.to_set().contains(x) implies old_s.to_set().insert(
            s@,
        ).contains(x) by {
            let k = choose|k: int| 0 <= k < new_s.len() && new_s[k] == x;
            if k < i {
                assert(old_s[k] == x);
            } else if k > i {
                assert(old_s[k - 1] == x);
            }
        }
        assert forall|x: Seq<char>| old_s.to_set().insert(s@).contains(x) implies new_s.to_set().contains(
            x,
        ) by {
            if x == s@ {
                assert(new_s[i as int] == x);
            } else {
                let k = choose|k: int| 0 <= k < old_s.len() && old_s[k] == x;
                if k < i {
                    assert(new_s[k] == x);
                } else {
                    assert(new_s[k + 1] == x);
                }
            }
        }
    }
}

/// The names of `a` and `b` together, sorted in the order of `String`, each
/// once.
pub fn sorted_union(a: &Vec<String>, b: &Vec<String>) -> (res: Vec<String>)
    ensures
        strictly_sorted(strs(res@)),
        strs(res@).to_set() == strs(a@).to_set().union(strs(b@).to_set()),
{
    let mut res: Vec<String> = Vec::new();
    assert(strs(res@).to_set() =~= Set::<Seq<char>>::empty());
    let mut i: usize = 0;
    while i < a.len()
        invariant
            i <= a@.len(),
            strictly_sorted(strs(res@)),
            strs(res@).to_set() == strs(a@).take(i as int).to_set(),
        decreases a.len() - i,
    {
        insert_sorted(&mut res, &a[i]);
        assert(strs(a@).take(i + 1) =~= strs(a@).take(i as int) + seq![a@[i as int]@]);
        proof {
            Seq::<Seq<char>>::lemma_to_set_insert_commutes(strs(a@).take(i as int), a@[i as int]@);
        }
        i += 1;
    }
    assert(strs(a@).take(a.len() as int) =~= strs(a@));
    let mut j: usize = 0;
    while j < b.len()
        invariant
            j <= b@.len(),
            strictly_sorted(strs(res@)),
            strs(res@).to_set() == strs(a@).to_set().union(strs(b@).take(j as int).to_set()),
        decreases b.len() - j,
    {
        insert_sorted(&mut res, &b[j]);
        assert(strs(b@).take(j + 1) =~= strs(b@).take(j as int) + seq![b@[j as int]@]);
        proof {
            Seq::<Seq<char>>::lemma_to_set_insert_commutes(strs(b@).take(j as int), b@[j as int]@);
        }
        assert(strs(res@).to_set() =~= strs(a@).to_set().union(strs(b@).take(j + 1).to_set()));
        j += 1;
    }
    assert(strs(b@).take(b.len() as int) =~= strs(b@));
    res
}

/// Two strictly sorted lists of the same names are the same list: a sorted
/// union is determined by its names.
pub proof fn law_strictly_sorted_unique(s: Seq<Seq<char>>, t: Seq<Seq<char>>)
    requires
        strictly_sorted(s),
        strictly_sorted(t),
        s.to_set() == t.to_set(),
    ensures
        s == t,
    decreases s.len(),
{
    if s.len() == 0 {
        if t.len() > 0 {
            assert(t.to_set().contains(t[0]));
        }
        assert(t =~= s);
    } else if t.len() == 0 {
        assert(s.to_set().contains(s[0]));
    } else {
        let n = s.len();
        let m = t.len();
        // The last items are the greatest names of both lists.
        assert(t.to_set().contains(s[n - 1]));
        assert(s.to_set().contains(t[m - 1]));
        let p = choose|p: int| 0 <= p < m && t[p] == s[n - 1];
        let q = choose|q: int| 0 <= q < n && s[q] == t[m - 1];
        if p < m - 1 {
            if q < n - 1 {
                lemma_str_lt_order(s[q], s[n - 1], t[m - 1]);
                lemma_str_lt_order(t[m - 1], t[m - 1], t[m - 1]);
            } else {
                lemma_str_lt_order(t[p], t[m - 1], t[p]);
            }
        }
        assert(s[n - 1] == t[m - 1]) by {
            if p < m - 1 {
                lemma_str_lt_order(t[p], t[m - 1], s[q]);
                if q < n - 1 {
                    lemma_str_lt_order(s[q], s[n - 1], s[q]);
                }
            }
        }
        let x = s[n - 1];
        let s2 = s.drop_last();
        let t2 = t.drop_last();
        assert(s2.to_set() =~= t2.to_set()) by {
            assert forall|y: Seq<char>| s2.to_set().contains(y) implies t2.to_set().contains(y) by {
                let k = choose|k: int| 0 <= k < s2.len() && s2[k] == y;
                assert(str_lt(s[k], s[n - 1]));
                lemma_str_lt_order(y, x, y);
                assert(t.to_set().contains(y));
                let l = choose|l: int| 0 <= l < m && t[l] == y;
                if l == m - 1 {
                    lemma_str_lt_order(y, y, y);
                }
                assert(t2[l] == y);
            }
            assert forall|y: Seq<char>| t2.to_set().contains(y) implies s2.to_set().contains(y) by {
                let k = choose|k: int| 0 <= k < t2.len() && t2[k] == y;
                assert(str_lt(t[k], t[m - 1]));
                assert(s.to_set().contains(y));
                let l = choose|l: int| 0 <= l < n && s[l] == y;
                if l == n - 1 {
                    lemma_str_lt_order(y, y, y);
                }
                assert(s2[l] == y);
            }
        }
        assert forall|i: int, j: int| 0 <= i < j < s2.len() implies str_lt(
            #[trigger] s2[i],
            #[trigger] s2[j],
        ) by {
            assert(s2[i] == s[i] && s2[j] == s[j]);
        }
        assert forall|i: int, j: int| 0 <= i < j < t2.len() implies str_lt(
            #[trigger] t2[i],
            #[trigger] t2[j],
        ) by {
            assert(t2[i] == t[i] && t2[j] == t[j]);
        }
        law_strictly_sorted_unique(s2, t2);
        assert(s =~= s2.push(x));
        assert(t =~= t2.push(x));
    }
}

/// The names of `a` and `b` together, sorted in the order of `String`, each
/// once (the one such list: see `law_strictly_sorted_unique`).
pub open spec fn union_sorted(a: Seq<Seq<char>>, b: Seq<Seq<char>>) -> Seq<Seq<char>> {
    choose|ns: Seq<Seq<char>>| strictly_sorted(ns) && ns.to_set() == a.to_set().union(b.to_set())
}

/// How many of the first names of `ns` come before `x`.
spec fn lead_below(ns: Seq<Seq<char>>, x: Seq<char>) -> nat
    decreases ns.len(),
{
    if ns.len() > 0 && str_lt(ns[0], x) {
        1 + lead_below(ns.drop_first(), x)
    } else {
        0
    }
}

/// The names before `lead_below` come before `x`; the one at it does not.
proof fn lemma_lead_below(ns: Seq<Seq<char>>, x: Seq<char>)
    ensures
        lead_below(ns, x) <= ns.len(),
        forall|j: int| 0 <= j < lead_below(ns, x) ==> str_lt(#[trigger] ns[j], x),
        lead_below(ns, x) < ns.len() ==> !str_lt(ns[lead_below(ns, x) as int], x),
    decreases ns.len(),
{
    if ns.len() > 0 && str_lt(ns[0], x) {
        let rest = ns.drop_first();
        lemma_lead_below(rest, x);
        assert forall|j: int| 0 <= j < lead_below(ns, x) implies str_lt(#[trigger] ns[j], x) by {
            if j > 0 {
                assert(ns[j] == rest[j - 1]);
            }
        }
        if lead_below(ns, x) < ns.len() {
            assert(ns[lead_below(ns, x) as int] == rest[lead_below(rest, x) as int]);
        }
    }
}

/// A strictly sorted list with `x` added where it belongs, unless it is
/// there.
proof fn lemma_sorted_insert(ns: Seq<Seq<char>>, x: Seq<char>) -> (r: Seq<Seq<char>>)
    requires
        strictly_sorted(ns),
    ensures
        strictly_sorted(r),
        r.to_set() == ns.to_set().insert(x),
{
    lemma_lead_below(ns, x);
    let i = lead_below(ns, x) as int;
    if i < ns.len() && ns[i] == x {
        assert(ns.to_set() =~= ns.to_set().insert(x)) by {
            assert(ns.to_set().contains(ns[i]));
        }
        ns
    } else {
        if i < ns.len() {
            lemma_str_lt_order(ns[i], x, x);
            assert(str_lt(x, ns[i]));
            assert forall|j: int| i <= j < ns.len() implies str_lt(x, #[trigger] ns[j]) by {
                if j > i {
                    lemma_str_lt_order(x, ns[i], ns[j]);
                }
            }
        }
        let r = ns.insert(i, x);
        assert forall|a: int, b: int| 0 <= a < b < r.len() implies str_lt(
            #[trigger] r[a],
            #[trigger] r[b],
        ) by {
            if a < i && b == i {
            } else if a < i && b > i {
                assert(r[b] == ns[b - 1]);
                lemma_str_lt_order(ns[a], x, ns[b - 1]);
            } else if a == i {
                assert(r[b] == ns[b - 1]);
            } else if a < i {
            } else {
                assert(r[a] == ns[a - 1]);
                assert(r[b] == ns[b - 1]);
            }
        }
        assert(r.to_set() =~= ns.to_set().insert(x)) by {
            assert forall|y: Seq<char>| r.to_set().contains(y) implies ns.to_set().insert(x).contains(
                y,
            ) by {
                let k = choose|k: int| 0 <= k < r.len() && r[k] == y;
                if k < i {
                    assert(ns[k] == y);
                } else if k > i {
                    assert(ns[k - 1] == y);
                }
            }
            assert forall|y: Seq<char>| ns.to_set().insert(x).contains(y) implies r.to_set().contains(
                y,
            ) by {
                if y == x {
                    assert(r[i] == y);
                } else {
                    let k = choose|k: int| 0 <= k < ns.len() && ns[k] == y;
                    if k < i {
                        assert(r[k] == y);
                    } else {
                        assert(r[k + 1] == y);
                    }
                }
            }
        }
        r
    }
}

/// Every list of names has a strictly sorted list of the same names.
proof fn lemma_sorted_of(s: Seq<Seq<char>>) -> (ns: Seq<Seq<char>>)
    ensures
        strictly_sorted(ns),
        ns.to_set() == s.to_set(),
    decreases s.len(),
{
    if s.len() == 0 {
        let e = Seq::<Seq<char>>::empty();
        assert(e.to_set() =~= s.to_set()) by {
            assert(s =~= e);
        }
        e
    } else {
        let init = s.drop_last();
        let n0 = lemma_sorted_of(init);
        let r = lemma_sorted_insert(n0, s.last());
        assert(s =~= init + seq![s.last()]);
        Seq::<Seq<char>>::lemma_to_set_insert_commutes(init, s.last());
        r
    }
}

/// `union_sorted` is strictly sorted and holds exactly the names of `a`
/// and `b`.
pub proof fn lemma_union_sorted_holds(a: Seq<Seq<char>>, b: Seq<Seq<char>>)
    ensures
        strictly_sorted(union_sorted(a, b)),
        union_sorted(a, b).to_set() == a.to_set().union(b.to_set()),
{
    let ns = lemma_sorted_of(a + b);
    seq_to_set_distributes_over_add(a, b);
    assert(strictly_sorted(ns) && ns.to_set() == a.to_set().union(b.to_set()));
}

/// A strictly sorted list of the names of `a` and `b` is their `union_sorted`.
proof fn lemma_union_sorted(ns: Seq<Seq<char>>, a: Seq<Seq<char>>, b: Seq<Seq<char>>)
    requires
        strictly_sorted(ns),
        ns.to_set() == a.to_set().union(b.to_set()),
    ensures
        ns == union_sorted(a, b),
{
    let u = union_sorted(a, b);
    assert(strictly_sorted(u) && u.to_set() == a.to_set().union(b.to_set()));
    law_strictly_sorted_unique(ns, u);
}

/// The queue names whose contracts belong to a service's context: those it
/// publishes and subscribes to, sorted, each once.
pub fn context_queue_names(s: &Service) -> (res: Vec<String>)
    ensures
        strictly_sorted(strs(res@)),
        strs(res@).to_set() == s@.queue_publishers.to_set().union(s@.queue_subscribers.to_set()),
        strs(res@) == union_sorted(s@.queue_publishers, s@.queue_subscribers),
{
    let res = sorted_union(&s.queue_publishers, &s.queue_subscribers);
    proof {
        lemma_union_sorted(strs(res@), s@.queue_publishers, s@.queue_subscribers);
    }
    res
}

/// The gRPC server names whose proto contracts belong to a service's
/// context: those it serves and calls, sorted, each once.
pub fn context_grpc_names(s: &Service) -> (res: Vec<String>)
    ensures
        strictly_sorted(strs(res@)),
        strs(res@).to_set() == s@.grpc_servers.to_set().union(s@.grpc_clients.to_set()),
        strs(res@) == union_sorted(s@.grpc_servers, s@.grpc_clients),
{
    let res = sorted_union(&s.grpc_servers, &s.grpc_clients);
    proof {
        lemma_union_sorted(strs(res@), s@.grpc_servers, s@.grpc_clients);
    }
    res
}

/// The mathematical value of a context: the service, and the texts of each
/// table, queue row, proto contract and HTTP contract, in order.
pub struct ContextView {
    pub service: ServiceView,
    pub tables: Seq<Seq<Seq<char>>>,
    pub queue_contracts: Seq<Seq<Seq<char>>>,
    pub proto_contracts: Seq<Seq<Seq<char>>>,
    pub http_contracts: Seq<Seq<Seq<char>>>,
}

pub open spec fn context_view(c: ServiceContext) -> ContextView {
    ContextView {
        service: c.service@,
        tables: record_texts(c.tables@),
        queue_contracts: record_texts(c.queue_contracts@),
        proto_contracts: record_texts(c.proto_contracts@),
        http_contracts: record_texts(c.http_contracts@),
    }
}

/// The gRPC server names whose proto contracts a context holds: those the
/// service serves and calls (sorted, each once) when `with_grpc_clients`
/// holds, else its gRPC servers as listed.
pub open spec fn proto_names(s: ServiceView, with_grpc_clients: bool) -> Seq<Seq<char>> {
    if with_grpc_clients {
        union_sorted(s.grpc_servers, s.grpc_clients)
    } else {
        s.grpc_servers
    }
}

/// The lookup of a service's HTTP contract: none and no statement when it
/// does not serve HTTP, else the query keyed by its name, whose first row,
/// if any, is the one contract. Gives the rest of the trace and the
/// contracts.
pub open spec fn http_lookup(t: Seq<SqlCall>, s: ServiceView) -> Option<
    (Seq<SqlCall>, Result<Seq<Seq<Seq<char>>>, AppError>),
> {
    if !s.http_server {
        Some((t, Ok(Seq::empty())))
    } else if t.len() > 0 && ran(t[0], GET_HTTP_SQL@, seq![SqlValue::Text(s.name)]) {
        Some(
            (
                t.drop_first(),
                match first_record_of(t[0].answer(), 3) {
                    Ok(None) => Ok(Seq::empty()),
                    Ok(Some(ts)) => Ok(seq![ts]),
                    Err(e) => Err(e),
                },
            ),
        )
    } else {
        None
    }
}

/// The context that the trace `t` of the lookups after the service `s` was
/// found gives: its tables (by `s.tables`), its queue contracts (by the
/// sorted union of the queues it publishes and subscribes to), its proto
/// contracts (by `proto_names`) and its HTTP contract, looked up in that
/// order; the first failure stops the lookups and is the result. `None`
/// when `t` is not such a trace.
pub open spec fn context_of(t: Seq<SqlCall>, s: ServiceView, with_grpc_clients: bool) -> Option<
    Result<ContextView, AppError>,
> {
    match names_lookup(t, TABLES_BY_NAMES_SQL@, s.tables, 5) {
        None => None,
        Some((t1, Err(e))) => if t1.len() == 0 { Some(Err(e)) } else { None },
        Some((t1, Ok(tables))) => match names_lookup(
            t1,
            QUEUES_BY_NAMES_SQL@,
            union_sorted(s.queue_publishers, s.queue_subscribers),
            3,
        ) {
            None => None,
            Some((t2, Err(e))) => if t2.len() == 0 { Some(Err(e)) } else { None },
            Some((t2, Ok(queues))) => match names_lookup(
                t2,
                PROTOS_BY_SERVERS_SQL@,
                proto_names(s, with_grpc_clients),
                3,
            ) {
                None => None,
                Some((t3, Err(e))) => if t3.len() == 0 { Some(Err(e)) } else { None },
                Some((t3, Ok(protos))) => match http_lookup(t3, s) {
                    None => None,
                    Some((t4, r)) => if t4.len() != 0 {
                        None
                    } else {
                        match r {
                            Err(e) => Some(Err(e)),
                            Ok(https) => Some(
                                Ok(
                                    ContextView {
                                        service: s,
                                        tables,
                                        queue_contracts: queues,
                                        proto_contracts: protos,
                                        http_contracts: https,
                                    },
                                ),
                            ),
                        }
                    },
                },
            },
        },
    }
}

/// Whether `c` is the lookup of the rows keyed by the names of `names`,
/// each once and sorted, in the table that `prefix` selects from.
pub open spec fn looks_up_sorted(c: SqlCall, prefix: Seq<char>, names: Set<Seq<char>>) -> bool {
    exists|ns: Seq<Seq<char>>|
        #![trigger text_params(ns)]
        strictly_sorted(ns) && ns.to_set() == names && c.sql() == in_list_sql(prefix, ns.len())
            && c.params() == text_params(ns)
}

/// A context's lookups bind exactly the names the service declares: the
/// tables it owns, as listed; every queue it publishes or subscribes to
/// (each once, sorted, and no other); the gRPC servers it serves and, when
/// `with_grpc_clients` holds, the servers it calls (each once, sorted, and
/// no other), else its gRPC servers as listed; and its own name for its
/// HTTP contract, only when it serves HTTP. A list with no names runs no
/// lookup.
pub proof fn law_context_lookups(t: Seq<SqlCall>, s: ServiceView, with_grpc_clients: bool)
    requires
        context_of(t, s, with_grpc_clients) matches Some(Ok(_)),
    ensures
        s.tables.len() > 0 ==> t.len() > 0 && t[0].sql() == in_list_sql(
            TABLES_BY_NAMES_SQL@,
            s.tables.len(),
        ) && t[0].params() == text_params(s.tables),
        (s.queue_publishers.len() > 0 || s.queue_subscribers.len() > 0) ==> exists|i: int|
            0 <= i < t.len() && looks_up_sorted(
                #[trigger] t[i],
                QUEUES_BY_NAMES_SQL@,
                s.queue_publishers.to_set().union(s.queue_subscribers.to_set()),
            ),
        with_grpc_clients && (s.grpc_servers.len() > 0 || s.grpc_clients.len() > 0) ==> exists|
            i: int,
        |
            0 <= i < t.len() && looks_up_sorted(
                #[trigger] t[i],
                PROTOS_BY_SERVERS_SQL@,
                s.grpc_servers.to_set().union(s.grpc_clients.to_set()),
            ),
        !with_grpc_clients && s.grpc_servers.len() > 0 ==> exists|i: int|
            0 <= i < t.len() && (#[trigger] t[i]).sql() == in_list_sql(
                PROTOS_BY_SERVERS_SQL@,
                s.grpc_servers.len(),
            ) && t[i].params() == text_params(s.grpc_servers),
        s.http_server <==> exists|i: int|
            0 <= i < t.len() && ran(#[trigger] t[i], GET_HTTP_SQL@, seq![SqlValue::Text(s.name)]),
{
    let pubs = s.queue_publishers;
    let subs = s.queue_subscribers;
    lemma_union_sorted_holds(pubs, subs);
    lemma_union_sorted_holds(s.grpc_servers, s.grpc_clients);
    let qn = union_sorted(pubs, subs);
    let pn = proto_names(s, with_grpc_clients);
    let (t1, _) = names_lookup(t, TABLES_BY_NAMES_SQL@, s.tables, 5)->Some_0;
    let (t2, _) = names_lookup(t1, QUEUES_BY_NAMES_SQL@, qn, 3)->Some_0;
    let (t3, _) = names_lookup(t2, PROTOS_BY_SERVERS_SQL@, pn, 3)->Some_0;
    let (t4, _) = http_lookup(t3, s)->Some_0;
    assert(t4.len() == 0);
    let k1: int = if s.tables.len() > 0 { 1 } else { 0 };
    let k2: int = if qn.len() > 0 { 1 } else { 0 };
    let k3: int = if pn.len() > 0 { 1 } else { 0 };
    assert(t1 =~= t.skip(k1));
    assert(t2 =~= t.skip(k1 + k2));
    assert(t3 =~= t.skip(k1 + k2 + k3));
    if pubs.len() > 0 || subs.len() > 0 {
        let x = if pubs.len() > 0 { pubs[0] } else { subs[0] };
        assert(pubs.to_set().union(subs.to_set()).contains(x));
        assert(qn.to_set().contains(x));
        assert(t1[0] == t[k1]);
        assert(looks_up_sorted(t[k1], QUEUES_BY_NAMES_SQL@, pubs.to_set().union(subs.to_set())));
    }
    if with_grpc_clients && (s.grpc_servers.len() > 0 || s.grpc_clients.len() > 0) {
        let x = if s.grpc_servers.len() > 0 { s.grpc_servers[0] } else { s.grpc_clients[0] };
        assert(s.grpc_servers.to_set().union(s.grpc_clients.to_set()).contains(x));
        assert(pn.to_set().contains(x));
        assert(t2[0] == t[k1 + k2]);
        assert(looks_up_sorted(
            t[k1 + k2],
            PROTOS_BY_SERVERS_SQL@,
            s.grpc_servers.to_set().union(s.grpc_clients.to_set()),
        ));
    }
    if !with_grpc_clients && s.grpc_servers.len() > 0 {
        assert(t2[0] == t[k1 + k2]);
    }
    if s.http_server {
        assert(t3[0] == t[k1 + k2 + k3]);
    } else {
        assert(t3.len() == 0);
        if exists|i: int| 0 <= i < t.len() && ran(#[trigger] t[i], GET_HTTP_SQL@, seq![SqlValue::Text(s.name)]) {
            let i = choose|i: int| 0 <= i < t.len() && ran(#[trigger] t[i], GET_HTTP_SQL@, seq![SqlValue::Text(s.name)]);
            lemma_lookup_sqls_differ(qn.len(), pn.len(), s.tables.len());
            assert(i < k1 + k2 + k3);
            if i < k1 {
                assert(t[i].sql() == in_list_sql(TABLES_BY_NAMES_SQL@, s.tables.len()));
            } else if i < k1 + k2 {
                assert(t1[i - k1] == t[i]);
                assert(t[i].sql() == in_list_sql(QUEUES_BY_NAMES_SQL@, qn.len()));
            } else {
                assert(t2[i - k1 - k2] == t[i]);
                assert(t[i].sql() == in_list_sql(PROTOS_BY_SERVERS_SQL@, pn.len()));
            }
        }
    }
}

/// The `IN` lookups never run the HTTP contract's statement.
proof fn lemma_lookup_sqls_differ(a: nat, b: nat, c: nat)
    ensures
        in_list_sql(TABLES_BY_NAMES_SQL@, c) != GET_HTTP_SQL@,
        in_list_sql(QUEUES_BY_NAMES_SQL@, a) != GET_HTTP_SQL@,
        in_list_sql(PROTOS_BY_SERVERS_SQL@, b) != GET_HTTP_SQL@,
{
    reveal_strlit("SELECT name, database, owner, description, ddl FROM tables WHERE name IN (");
    reveal_strlit("SELECT name, description, schema_json FROM queue_contracts WHERE name IN (");
    reveal_strlit("SELECT server, description, proto_raw FROM proto_contracts WHERE server IN (");
    reveal_strlit("SELECT service, description, spec_raw FROM http_contracts WHERE service=?1");
    let h = GET_HTTP_SQL@;
    assert(h[7] == 's');
    assert(in_list_sql(TABLES_BY_NAMES_SQL@, c)[7] == TABLES_BY_NAMES_SQL@[7]);
    assert(in_list_sql(QUEUES_BY_NAMES_SQL@, a)[7] == QUEUES_BY_NAMES_SQL@[7]);
    assert(in_list_sql(PROTOS_BY_SERVERS_SQL@, b)[12] == PROTOS_BY_SERVERS_SQL@[12]);
    assert(TABLES_BY_NAMES_SQL@[7] == 'n');
    assert(QUEUES_BY_NAMES_SQL@[7] == 'n');
    assert(PROTOS_BY_SERVERS_SQL@[12] == 'r' && h[12] == 'c');
}

/// A lookup that uses all of its trace uses the same part of a longer one.
proof fn lemma_names_lookup_append(
    a: Seq<SqlCall>,
    b: Seq<SqlCall>,
    prefix: Seq<char>,
    names: Seq<Seq<char>>,
    n: nat,
)
    requires
        names_lookup(a, prefix, names, n) matches Some((rest, _)) && rest.len() == 0,
    ensures
        names_lookup(a + b, prefix, names, n) == (match names_lookup(a, prefix, names, n) {
            Some((_, r)) => Some((b, r)),
            None => None,
        }),
{
    if names.len() == 0 {
        assert(a =~= Seq::<SqlCall>::empty());
        assert(a + b =~= b);
    } else {
        assert((a + b)[0] == a[0]);
        assert((a + b).drop_first() =~= b);
    }
}

/// The HTTP lookup that uses all of its trace uses the same part of a
/// longer one.
proof fn lemma_http_lookup_append(a: Seq<SqlCall>, b: Seq<SqlCall>, s: ServiceView)
    requires
        http_lookup(a, s) matches Some((rest, _)) && rest.len() == 0,
    ensures
        http_lookup(a + b, s) == (match http_lookup(a, s) {
            Some((_, r)) => Some((b, r)),
            None => None,
        }),
{
    if !s.http_server {
        assert(a =~= Seq::<SqlCall>::empty());
        assert(a + b =~= b);
    } else {
        assert((a + b)[0] == a[0]);
        assert((a + b).drop_first() =~= b);
    }
}

/// A context built from its parts.
pub fn assemble_context(
    service: Service,
    tables: Vec<Table>,
    queue_contracts: Vec<QueueRow>,
    proto_contracts: Vec<ProtoContract>,
    http_contract: Option<HttpContract>,
) -> (res: ServiceContext)
    ensures
        res.service == service,
        res.tables == tables,
        res.queue_contracts == queue_contracts,
        res.proto_contracts == proto_contracts,
        res.http_contracts@ == match http_contract {
            Some(h) => seq![h],
            None => Seq::empty(),
        },
{
    let mut http_contracts: Vec<HttpContract> = Vec::new();
    match http_contract {
        Some(h) => http_contracts.push(h),
        None => {},
    }
    ServiceContext { service, tables, queue_contracts, proto_contracts, http_contracts }
}

/// The context of the service `name`. The service is looked up first; a
/// failed lookup is the result, and a missing service gives `NotFound`,
/// with no further statement. Then come, in order and each only after the
/// one before succeeded: the tables it owns, the queue contracts of the
/// queues it publishes or subscribes to (sorted, each once), the proto
/// contracts of its gRPC servers and, when `with_grpc_clients` holds, of the
/// servers it calls (sorted, each once; else of its gRPC servers as
/// listed), and its HTTP contract when it serves HTTP (see `context_of`).
/// An empty list of names runs no statement and gives no entries.
#[verifier::spinoff_prover]
#[verifier::rlimit(60)]
pub fn service_context(db: &mut Db, name: &str, with_grpc_clients: bool) -> (res: Result<
    ServiceContext,
    AppError,
>)
    ensures
        extends(*old(db), *final(db)),
        since(*old(db), *final(db)).len() >= 1,
        ran(since(*old(db), *final(db))[0], GET_SERVICE_SQL@, seq![SqlValue::Text(name@)]),
        match service_lookup(since(*old(db), *final(db))[0].answer()) {
            Err(e) => since(*old(db), *final(db)).len() == 1 && res == Err::<ServiceContext, AppError>(e),
            Ok(None) => since(*old(db), *final(db)).len() == 1 && res == Err::<ServiceContext, AppError>(
                AppError::NotFound,
            ),
            Ok(Some(s)) => match context_of(since(*old(db), *final(db)).drop_first(), s, with_grpc_clients) {
                Some(Ok(cv)) => res matches Ok(ctx) && context_view(ctx) == cv,
                Some(Err(e)) => res == Err::<ServiceContext, AppError>(e),
                None => false,
            },
        },
{
    let ghost d0 = *db;
    let r0 = get_service(db, name);
    let ghost d1 = *db;
    let ghost g0 = since(d0, d1);
    let service = match r0 {
        Err(e) => return Err(e),
        Ok(None) => return Err(AppError::NotFound),
        Ok(Some(s)) => s,
    };
    let ghost sv = service@;
    assert(g0 =~= seq![g0[0]]);
    let r1 = get_tables_by_names(db, service.tables.as_slice());
    let ghost d2 = *db;
    let ghost g1 = since(d1, d2);
    proof {
        lemma_since_join(d0, d1, d2);
        lemma_names_lookup_append(g1, Seq::empty(), TABLES_BY_NAMES_SQL@, sv.tables, 5);
        assert(g1 + Seq::<SqlCall>::empty() =~= g1);
        assert((g0 + g1).drop_first() =~= g1);
    }
    let tables = match r1 {
        Err(e) => return Err(e),
        Ok(v) => v,
    };
    let queue_names = context_queue_names(&service);
    let r2 = get_queues_by_names(db, queue_names.as_slice());
    let ghost d3 = *db;
    let ghost g2 = since(d2, d3);
    proof {
        lemma_since_join(d0, d2, d3);
        lemma_names_lookup_append(g1, g2, TABLES_BY_NAMES_SQL@, sv.tables, 5);
        lemma_names_lookup_append(
            g2,
            Seq::empty(),
            QUEUES_BY_NAMES_SQL@,
            union_sorted(sv.queue_publishers, sv.queue_subscribers),
            3,
        );
        assert(g2 + Seq::<SqlCall>::empty() =~= g2);
        assert((g0 + g1 + g2).drop_first() =~= g1 + g2);
    }
    let queue_contracts = match r2 {
        Err(e) => return Err(e),
        Ok(v) => v,
    };
    let r3 = if with_grpc_clients {
        let grpc_names = context_grpc_names(&service);
        get_protos_by_servers(db, grpc_names.as_slice())
    } else {
        get_protos_by_servers(db, service.grpc_servers.as_slice())
    };
    let ghost d4 = *db;
    let ghost g3 = since(d3, d4);
    let ghost pn = proto_names(sv, with_grpc_clients);
    proof {
        lemma_since_join(d0, d3, d4);
        lemma_names_lookup_append(g1, g2 + g3, TABLES_BY_NAMES_SQL@, sv.tables, 5);
        lemma_names_lookup_append(
            g2,
            g3,
            QUEUES_BY_NAMES_SQL@,
            union_sorted(sv.queue_publishers, sv.queue_subscribers),
            3,
        );
        lemma_names_lookup_append(g3, Seq::empty(), PROTOS_BY_SERVERS_SQL@, pn, 3);
        assert(g3 + Seq::<SqlCall>::empty() =~= g3);
        assert((g0 + g1 + g2 + g3).drop_first() =~= g1 + (g2 + g3));
    }
    let proto_contracts = match r3 {
        Err(e) => return Err(e),
        Ok(v) => v,
    };
    let mut http_contract: Option<HttpContract> = None;
    if service.http_server {
        let r4 = get_http_contract(db, service.name.as_str());
        match r4 {
            Err(e) => {
                proof {
                    let g = since(d4, *db);
                    lemma_since_join(d0, d4, *db);
                    lemma_http_lookup_append(g, Seq::empty(), sv);
                    assert(g + Seq::<SqlCall>::empty() =~= g);
                    lemma_names_lookup_append(g1, g2 + (g3 + g), TABLES_BY_NAMES_SQL@, sv.tables, 5);
                    lemma_names_lookup_append(
                        g2,
                        g3 + g,
                        QUEUES_BY_NAMES_SQL@,
                        union_sorted(sv.queue_publishers, sv.queue_subscribers),
                        3,
                    );
                    lemma_names_lookup_append(g3, g, PROTOS_BY_SERVERS_SQL@, pn, 3);
                    assert((g0 + g1 + g2 + g3 + g).drop_first() =~= g1 + (g2 + (g3 + g)));
                }
                return Err(e);
            },
            Ok(h) => {
                http_contract = h;
            },
        }
    } else {
        proof {
            lemma_since_none(*db);
        }
    }
    let ghost d5 = *db;
    let ghost g4 = since(d4, d5);
    let ctx = assemble_context(service, tables, queue_contracts, proto_contracts, http_contract);
    proof {
        lemma_since_join(d0, d4, d5);
        lemma_http_lookup_append(g4, Seq::empty(), sv);
        assert(g4 + Seq::<SqlCall>::empty() =~= g4);
        lemma_names_lookup_append(g1, g2 + (g3 + g4), TABLES_BY_NAMES_SQL@, sv.tables, 5);
        lemma_names_lookup_append(
            g2,
            g3 + g4,
            QUEUES_BY_NAMES_SQL@,
            union_sorted(sv.queue_publishers, sv.queue_subscribers),
            3,
        );
        lemma_names_lookup_append(g3, g4, PROTOS_BY_SERVERS_SQL@, pn, 3);
        assert((g0 + g1 + g2 + g3 + g4).drop_first() =~= g1 + (g2 + (g3 + g4)));
        assert(record_texts(ctx.http_contracts@) =~= http_lookup(g4, sv)->Some_0.1->Ok_0);
    }
    Ok(ctx)
}

} // verus!
