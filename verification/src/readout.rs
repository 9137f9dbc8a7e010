//! The readout of a built gameplay fabric registry: its digests, its module,
//! event and subscription ids, its owners and providers, its distinct
//! ordering edges, and its topology edges in canonical order.

use vstd::prelude::*;
use vstd::relations::{sorted_by, total_ordering};
use vstd::utf8::{encode_utf8, encode_utf8_decode_utf8};
use crate::fabric_filter::{
    bytes_lt, lemma_bytes_lt_asymmetric, lemma_bytes_lt_irreflexive, lemma_bytes_lt_total, lemma_bytes_lt_transitive,
};
use crate::topology::{
    distinct_edges, distinct_values, dump_text, module_edges, pair_view, sort_strings, sorted_texts, text_leq, text_less,
    texts, topology_dump, topology_lines, TopologyFacts, TopologyModule, TopologyOrdering, TopologyOwned,
    TopologyPublished, TopologyReadView, TopologySubscription, TopologyViewProvider,
};
use crate::fabric_codec::stable_digest;
use crate::fnv::{fnv_bytes, FNV_OFFSET};
use crate::text::fnv_label_text;

verus! {

// ---------------------------------------------------------------------------
// The order of topology edges.

/// Byte order of text, strict.
pub open spec fn text_lt(a: Seq<char>, b: Seq<char>) -> bool {
    bytes_lt(encode_utf8(a), encode_utf8(b))
}

pub proof fn lemma_text_lt(a: Seq<char>, b: Seq<char>, c: Seq<char>)
    ensures
        !text_lt(a, a),
        !(text_lt(a, b) && text_lt(b, a)),
        text_lt(a, b) && text_lt(b, c) ==> text_lt(a, c),
        a == b || text_lt(a, b) || text_lt(b, a),
{
    lemma_bytes_lt_irreflexive(encode_utf8(a));
    lemma_bytes_lt_asymmetric(encode_utf8(a), encode_utf8(b));
    if text_lt(a, b) && text_lt(b, c) {
        lemma_bytes_lt_transitive(encode_utf8(a), encode_utf8(b), encode_utf8(c));
    }
    lemma_bytes_lt_total(encode_utf8(a), encode_utf8(b));
    if encode_utf8(a) == encode_utf8(b) {
        encode_utf8_decode_utf8(a);
        encode_utf8_decode_utf8(b);
    }
}

/// A topology edge of the readout: its kind, its endpoints and the
/// contract it goes through, if any.
#[derive(Debug, Clone, PartialEq, Eq)]
pub struct TopologyEdge {
    pub kind: String,
    pub from: String,
    pub to: String,
    pub contract: Option<String>,
}

pub open spec fn opt_text(o: Option<String>) -> Option<Seq<char>> {
    match o {
        Some(s) => Some(s@),
        None => None,
    }
}

pub open spec fn edge_view(e: TopologyEdge) -> (Seq<char>, Seq<char>, Seq<char>, Option<Seq<char>>) {
    (e.kind@, e.from@, e.to@, opt_text(e.contract))
}

/// `None` before any contract; contracts by bytes.
pub open spec fn opt_lt(a: Option<Seq<char>>, b: Option<Seq<char>>) -> bool {
    match (a, b) {
        (None, Some(_)) => true,
        (Some(x), Some(y)) => text_lt(x, y),
        _ => false,
    }
}

/// Edges ordered by kind, then from, then to, then contract.
pub open spec fn edge_lt(a: (Seq<char>, Seq<char>, Seq<char>, Option<Seq<char>>), b: (Seq<char>, Seq<char>, Seq<char>, Option<Seq<char>>)) -> bool {
    ||| text_lt(a.0, b.0)
    ||| a.0 == b.0 && text_lt(a.1, b.1)
    ||| a.0 == b.0 && a.1 == b.1 && text_lt(a.2, b.2)
    ||| a.0 == b.0 && a.1 == b.1 && a.2 == b.2 && opt_lt(a.3, b.3)
}

pub open spec fn edge_leq(a: (Seq<char>, Seq<char>, Seq<char>, Option<Seq<char>>), b: (Seq<char>, Seq<char>, Seq<char>, Option<Seq<char>>)) -> bool {
    a == b || edge_lt(a, b)
}

proof fn lemma_opt_lt(a: Option<Seq<char>>, b: Option<Seq<char>>, c: Option<Seq<char>>)
    ensures
        !opt_lt(a, a),
        !(opt_lt(a, b) && opt_lt(b, a)),
        opt_lt(a, b) && opt_lt(b, c) ==> opt_lt(a, c),
        a == b || opt_lt(a, b) || opt_lt(b, a),
{
    match (a, b, c) {
        (Some(x), Some(y), Some(z)) => lemma_text_lt(x, y, z),
        (Some(x), Some(y), None) => lemma_text_lt(x, y, x),
        (Some(x), None, Some(z)) => lemma_text_lt(x, z, x),
        (None, Some(y), Some(z)) => lemma_text_lt(y, z, y),
        (Some(x), None, None) => lemma_text_lt(x, x, x),
        (None, Some(y), None) => lemma_text_lt(y, y, y),
        (None, None, Some(z)) => lemma_text_lt(z, z, z),
        (None, None, None) => {},
    }
}

proof fn lemma_edge_lt(
    a: (Seq<char>, Seq<char>, Seq<char>, Option<Seq<char>>),
    b: (Seq<char>, Seq<char>, Seq<char>, Option<Seq<char>>),
    c: (Seq<char>, Seq<char>, Seq<char>, Option<Seq<char>>),
)
    ensures
        !edge_lt(a, a),
        !(edge_lt(a, b) && edge_lt(b, a)),
        edge_lt(a, b) && edge_lt(b, c) ==> edge_lt(a, c),
        a == b || edge_lt(a, b) || edge_lt(b, a),
{
    lemma_text_lt(a.0, b.0, c.0);
    lemma_text_lt(a.1, b.1, c.1);
    lemma_text_lt(a.2, b.2, c.2);
    lemma_opt_lt(a.3, b.3, c.3);
    lemma_text_lt(b.0, a.0, c.0);
    lemma_text_lt(b.1, a.1, c.1);
    lemma_text_lt(b.2, a.2, c.2);
    lemma_opt_lt(b.3, a.3, c.3);
    lemma_text_lt(a.0, c.0, b.0);
    lemma_text_lt(a.1, c.1, b.1);
    lemma_text_lt(a.2, c.2, b.2);
    lemma_opt_lt(a.3, c.3, b.3);
}

pub proof fn lemma_edge_leq_total()
    ensures
        total_ordering(|a: (Seq<char>, Seq<char>, Seq<char>, Option<Seq<char>>), b: (Seq<char>, Seq<char>, Seq<char>, Option<Seq<char>>)| edge_leq(a, b)),
{
    let leq = |a: (Seq<char>, Seq<char>, Seq<char>, Option<Seq<char>>), b: (Seq<char>, Seq<char>, Seq<char>, Option<Seq<char>>)| edge_leq(a, b);
    assert forall|x: (Seq<char>, Seq<char>, Seq<char>, Option<Seq<char>>)| #[trigger] leq(x, x) by {}
    assert forall|x: (Seq<char>, Seq<char>, Seq<char>, Option<Seq<char>>), y: (Seq<char>, Seq<char>, Seq<char>, Option<Seq<char>>)|
        #[trigger] leq(x, y) && #[trigger] leq(y, x) implies x == y by {
        lemma_edge_lt(x, y, x);
    }
    assert forall|x: (Seq<char>, Seq<char>, Seq<char>, Option<Seq<char>>), y: (Seq<char>, Seq<char>, Seq<char>, Option<Seq<char>>), z: (Seq<char>, Seq<char>, Seq<char>, Option<Seq<char>>)|
        #[trigger] leq(x, y) && #[trigger] leq(y, z) implies leq(x, z) by {
        lemma_edge_lt(x, y, z);
    }
    assert forall|x: (Seq<char>, Seq<char>, Seq<char>, Option<Seq<char>>), y: (Seq<char>, Seq<char>, Seq<char>, Option<Seq<char>>)|
        #[trigger] leq(x, y) || #[trigger] leq(y, x) by {
        lemma_edge_lt(x, y, x);
    }
}

pub open spec fn edge_views(v: Seq<TopologyEdge>) -> Seq<(Seq<char>, Seq<char>, Seq<char>, Option<Seq<char>>)> {
    v.map_values(|e: TopologyEdge| edge_view(e))
}

/// The edges in canonical order.
pub open spec fn sorted_edges(xs: Seq<(Seq<char>, Seq<char>, Seq<char>, Option<Seq<char>>)>) -> Seq<(Seq<char>, Seq<char>, Seq<char>, Option<Seq<char>>)> {
    xs.sort_by(|a: (Seq<char>, Seq<char>, Seq<char>, Option<Seq<char>>), b: (Seq<char>, Seq<char>, Seq<char>, Option<Seq<char>>)| edge_leq(a, b))
}

fn edge_less(a: &TopologyEdge, b: &TopologyEdge) -> (r: bool)
    ensures
        r == edge_lt(edge_view(*a), edge_view(*b)),
{
    if text_less(&a.kind, &b.kind) {
        return true;
    }
    if a.kind != b.kind {
        return false;
    }
    if text_less(&a.from, &b.from) {
        return true;
    }
    if a.from != b.from {
        return false;
    }
    if text_less(&a.to, &b.to) {
        return true;
    }
    if a.to != b.to {
        return false;
    }
    match (&a.contract, &b.contract) {
        (None, Some(_)) => true,
        (Some(x), Some(y)) => text_less(x, y),
        _ => false,
    }
}

/// The edges in canonical order.
pub fn sort_edges(v: Vec<TopologyEdge>) -> (r: Vec<TopologyEdge>)
    ensures
        edge_views(r@) == sorted_edges(edge_views(v@)),
{
    let ghost leq = |a: (Seq<char>, Seq<char>, Seq<char>, Option<Seq<char>>), b: (Seq<char>, Seq<char>, Seq<char>, Option<Seq<char>>)| edge_leq(a, b);
    let ghost input = edge_views(v@);
    let mut src = v;
    let mut out: Vec<TopologyEdge> = Vec::new();
    proof {
        broadcast use vstd::seq_lib::group_to_multiset_ensures;
        lemma_edge_leq_total();
        assert(edge_views(out@) =~= Seq::<(Seq<char>, Seq<char>, Seq<char>, Option<Seq<char>>)>::empty());
        assert(edge_views(out@).to_multiset().add(edge_views(src@).to_multiset()) =~= input.to_multiset());
    }
    while src.len() > 0
        invariant
            leq == (|a: (Seq<char>, Seq<char>, Seq<char>, Option<Seq<char>>), b: (Seq<char>, Seq<char>, Seq<char>, Option<Seq<char>>)| edge_leq(a, b)),
            total_ordering(leq),
            sorted_by(edge_views(out@), leq),
            edge_views(out@).to_multiset().add(edge_views(src@).to_multiset()) == input.to_multiset(),
        decreases src@.len(),
    {
        let ghost src0 = edge_views(src@);
        let ghost out0 = edge_views(out@);
        let x = src.pop().unwrap();
        proof {
            assert(src0 =~= edge_views(src@).push(edge_view(x)));
            vstd::seq_lib::to_multiset_build(edge_views(src@), edge_view(x));
        }
        let mut p: usize = 0;
        while p < out.len() && edge_less(&out[p], &x)
            invariant
                p <= out@.len(),
                out0 == edge_views(out@),
                forall|t: int| 0 <= t < p ==> edge_lt(#[trigger] out0[t], edge_view(x)),
            decreases out@.len() - p,
        {
            p = p + 1;
        }
        proof {
            if p < out@.len() {
                lemma_edge_lt(out0[p as int], edge_view(x), out0[p as int]);
            }
        }
        out.insert(p, x);
        proof {
            let o = edge_views(out@);
            assert(o =~= out0.insert(p as int, edge_view(x)));
            vstd::seq_lib::to_multiset_insert(out0, p as int, edge_view(x));
            assert forall|i: int, j: int| 0 <= i < j < o.len() implies #[trigger] leq(o[i], o[j]) by {
                if j < p {
                    assert(o[i] == out0[i] && o[j] == out0[j]);
                } else if j == p {
                    assert(o[i] == out0[i]);
                } else if i == p {
                    assert(o[j] == out0[j - 1]);
                    assert(leq(edge_view(x), out0[p as int]));
                    assert(leq(out0[p as int], out0[j - 1]));
                } else if i < p {
                    assert(o[i] == out0[i] && o[j] == out0[j - 1]);
                } else {
                    assert(o[i] == out0[i - 1] && o[j] == out0[j - 1]);
                }
            }
            assert(o.to_multiset().add(edge_views(src@).to_multiset()) =~= input.to_multiset());
        }
    }
    proof {
        broadcast use vstd::seq_lib::group_to_multiset_ensures;
        assert(edge_views(src@) =~= Seq::<(Seq<char>, Seq<char>, Seq<char>, Option<Seq<char>>)>::empty());
        assert(edge_views(out@).to_multiset() =~= input.to_multiset());
        input.lemma_sort_by_ensures(leq);
        vstd::seq_lib::lemma_sorted_unique(edge_views(out@), input.sort_by(leq), leq);
    }
    out
}

// ---------------------------------------------------------------------------
// The edges.

pub open spec fn some_text(s: String) -> Option<Seq<char>> {
    Some(s@)
}

pub open spec fn published_edge(m: TopologyModule, p: TopologyPublished) -> (Seq<char>, Seq<char>, Seq<char>, Option<Seq<char>>) {
    ("publishes"@, m.module_id@, p.event_key@, Some(p.codec_id@))
}

pub open spec fn subscription_edge(m: TopologyModule, s: TopologySubscription) -> (Seq<char>, Seq<char>, Seq<char>, Option<Seq<char>>) {
    ("subscription"@, m.module_id@, s.event_key@, Some(s.invocation_id@))
}

pub open spec fn reads_edge(m: TopologyModule, v: TopologyReadView) -> (Seq<char>, Seq<char>, Seq<char>, Option<Seq<char>>) {
    ("reads"@, m.module_id@, v.view_key@, Some(v.provider_id@))
}

pub open spec fn owner_edge(kind: Seq<char>, o: TopologyOwned) -> (Seq<char>, Seq<char>, Seq<char>, Option<Seq<char>>) {
    (kind, o.contract.key@, o.owner_id@, Some(o.provider_id@))
}

pub open spec fn provider_edge(p: TopologyViewProvider) -> (Seq<char>, Seq<char>, Seq<char>, Option<Seq<char>>) {
    ("viewProvider"@, p.view.view_key@, p.view.provider_id@, None)
}

pub open spec fn order_edge(e: (Seq<char>, Seq<char>)) -> (Seq<char>, Seq<char>, Seq<char>, Option<Seq<char>>) {
    ("order"@, e.0, e.1, None)
}

/// The edges of one module: what it publishes, subscribes to and reads.
pub open spec fn module_topology_edges(m: TopologyModule) -> Seq<(Seq<char>, Seq<char>, Seq<char>, Option<Seq<char>>)> {
    m.published_events@.map_values(|p: TopologyPublished| published_edge(m, p))
        + m.subscriptions@.map_values(|s: TopologySubscription| subscription_edge(m, s))
        + m.read_views@.map_values(|v: TopologyReadView| reads_edge(m, v))
}

pub open spec fn modules_topology_edges(ms: Seq<TopologyModule>) -> Seq<(Seq<char>, Seq<char>, Seq<char>, Option<Seq<char>>)>
    decreases ms.len(),
{
    if ms.len() == 0 {
        Seq::empty()
    } else {
        modules_topology_edges(ms.drop_last()) + module_topology_edges(ms.last())
    }
}

/// Every topology edge of the registry, before ordering.
pub open spec fn topology_edges(f: TopologyFacts) -> Seq<(Seq<char>, Seq<char>, Seq<char>, Option<Seq<char>>)> {
    modules_topology_edges(f.modules@)
        + f.proposal_owners@.map_values(|o: TopologyOwned| owner_edge("proposalOwner"@, o))
        + f.view_providers@.map_values(|p: TopologyViewProvider| provider_edge(p))
        + f.state_owners@.map_values(|o: TopologyOwned| owner_edge("stateOwner"@, o))
        + distinct_values(module_edges(f.modules@)).map_values(|e: (Seq<char>, Seq<char>)| order_edge(e))
}

fn edge(kind: &str, from: &String, to: &String, contract: Option<&String>) -> (r: TopologyEdge)
    ensures
        edge_view(r) == (kind@, from@, to@, match contract {
            Some(c) => Some(c@),
            None => None,
        }),
{
    let mut k = String::new();
    k.append(kind);
    let c = match contract {
        Some(c) => Some(c.clone()),
        None => None,
    };
    TopologyEdge { kind: k, from: from.clone(), to: to.clone(), contract: c }
}

fn published_edge_exec(m: &TopologyModule, p: &TopologyPublished) -> (r: TopologyEdge)
    ensures
        edge_view(r) == published_edge(*m, *p),
{
    edge("publishes", &m.module_id, &p.event_key, Some(&p.codec_id))
}

fn subscription_edge_exec(m: &TopologyModule, s: &TopologySubscription) -> (r: TopologyEdge)
    ensures
        edge_view(r) == subscription_edge(*m, *s),
{
    edge("subscription", &m.module_id, &s.event_key, Some(&s.invocation_id))
}

fn reads_edge_exec(m: &TopologyModule, v: &TopologyReadView) -> (r: TopologyEdge)
    ensures
        edge_view(r) == reads_edge(*m, *v),
{
    edge("reads", &m.module_id, &v.view_key, Some(&v.provider_id))
}

fn owner_edge_exec(kind: &str, o: &TopologyOwned) -> (r: TopologyEdge)
    ensures
        edge_view(r) == owner_edge(kind@, *o),
{
    edge(kind, &o.contract.key, &o.owner_id, Some(&o.provider_id))
}

fn provider_edge_exec(p: &TopologyViewProvider) -> (r: TopologyEdge)
    ensures
        edge_view(r) == provider_edge(*p),
{
    edge("viewProvider", &p.view.view_key, &p.view.provider_id, None)
}

fn order_edge_exec(o: &TopologyOrdering) -> (r: TopologyEdge)
    ensures
        edge_view(r) == order_edge(pair_view(*o)),
{
    edge("order", &o.before_module, &o.after_module, None)
}

fn push_module_edges(edges: &mut Vec<TopologyEdge>, m: &TopologyModule)
    ensures
        edge_views(final(edges)@) == edge_views(old(edges)@) + module_topology_edges(*m),
{
    let ghost b0 = edge_views(edges@);
    let ghost b1 = edge_views(edges@);
    let mut k: usize = 0;
    while k < m.published_events.len()
        invariant
            k <= m.published_events@.len(),
            edge_views(edges@) == b1 + m.published_events@.take(k as int).map_values(|x: TopologyPublished| published_edge(*m, x)),
        decreases m.published_events@.len() - k,
    {
        let ghost before = edge_views(edges@);
        edges.push(published_edge_exec(m, &m.published_events[k]));
        proof {
            assert(edge_views(edges@) =~= before.push(published_edge(*m, m.published_events@[k as int])));
            assert(m.published_events@.take(k + 1).map_values(|x: TopologyPublished| published_edge(*m, x))
                =~= m.published_events@.take(k as int).map_values(|x: TopologyPublished| published_edge(*m, x)).push(published_edge(*m, m.published_events@[k as int])));
        }
        k = k + 1;
    }
    assert(m.published_events@.take(k as int) =~= m.published_events@);
    let ghost b2 = edge_views(edges@);
    let mut k: usize = 0;
    while k < m.subscriptions.len()
        invariant
            k <= m.subscriptions@.len(),
            edge_views(edges@) == b2 + m.subscriptions@.take(k as int).map_values(|x: TopologySubscription| subscription_edge(*m, x)),
        decreases m.subscriptions@.len() - k,
    {
        let ghost before = edge_views(edges@);
        edges.push(subscription_edge_exec(m, &m.subscriptions[k]));
        proof {
            assert(edge_views(edges@) =~= before.push(subscription_edge(*m, m.subscriptions@[k as int])));
            assert(m.subscriptions@.take(k + 1).map_values(|x: TopologySubscription| subscription_edge(*m, x))
                =~= m.subscriptions@.take(k as int).map_values(|x: TopologySubscription| subscription_edge(*m, x)).push(subscription_edge(*m, m.subscriptions@[k as int])));
        }
        k = k + 1;
    }
    assert(m.subscriptions@.take(k as int) =~= m.subscriptions@);
    let ghost b3 = edge_views(edges@);
    let mut k: usize = 0;
    while k < m.read_views.len()
        invariant
            k <= m.read_views@.len(),
            edge_views(edges@) == b3 + m.read_views@.take(k as int).map_values(|x: TopologyReadView| reads_edge(*m, x)),
        decreases m.read_views@.len() - k,
    {
        let ghost before = edge_views(edges@);
        edges.push(reads_edge_exec(m, &m.read_views[k]));
        proof {
            assert(edge_views(edges@) =~= before.push(reads_edge(*m, m.read_views@[k as int])));
            assert(m.read_views@.take(k + 1).map_values(|x: TopologyReadView| reads_edge(*m, x))
                =~= m.read_views@.take(k as int).map_values(|x: TopologyReadView| reads_edge(*m, x)).push(reads_edge(*m, m.read_views@[k as int])));
        }
        k = k + 1;
    }
    assert(m.read_views@.take(k as int) =~= m.read_views@);
    assert(edge_views(edges@) =~= b0 + module_topology_edges(*m));
}

/// Every topology edge of the registry, before ordering, and the distinct
/// ordering edges.
fn collect_edges(f: &TopologyFacts) -> (r: (Vec<TopologyEdge>, Vec<TopologyOrdering>))
    ensures
        edge_views(r.0@) == topology_edges(*f),
        r.1@.map_values(|x: TopologyOrdering| pair_view(x)) == distinct_values(module_edges(f.modules@)),
{
    let mut edges: Vec<TopologyEdge> = Vec::new();
    let mut i: usize = 0;
    while i < f.modules.len()
        invariant
            i <= f.modules@.len(),
            edge_views(edges@) == modules_topology_edges(f.modules@.take(i as int)),
        decreases f.modules@.len() - i,
    {
        push_module_edges(&mut edges, &f.modules[i]);
        proof {
            assert(f.modules@.take(i + 1).drop_last() =~= f.modules@.take(i as int));
            assert(f.modules@.take(i + 1).last() == f.modules@[i as int]);
        }
        i = i + 1;
    }
    assert(f.modules@.take(i as int) =~= f.modules@);
    let pairs = distinct_edges(&f.modules);
    let ghost c1 = edge_views(edges@);
    let mut k: usize = 0;
    while k < f.proposal_owners.len()
        invariant
            k <= f.proposal_owners@.len(),
            edge_views(edges@) == c1 + f.proposal_owners@.take(k as int).map_values(|x: TopologyOwned| owner_edge("proposalOwner"@, x)),
        decreases f.proposal_owners@.len() - k,
    {
        let ghost before = edge_views(edges@);
        edges.push(owner_edge_exec("proposalOwner", &f.proposal_owners[k]));
        proof {
            assert(edge_views(edges@) =~= before.push(owner_edge("proposalOwner"@, f.proposal_owners@[k as int])));
            assert(f.proposal_owners@.take(k + 1).map_values(|x: TopologyOwned| owner_edge("proposalOwner"@, x))
                =~= f.proposal_owners@.take(k as int).map_values(|x: TopologyOwned| owner_edge("proposalOwner"@, x)).push(owner_edge("proposalOwner"@, f.proposal_owners@[k as int])));
        }
        k = k + 1;
    }
    assert(f.proposal_owners@.take(k as int) =~= f.proposal_owners@);
    let ghost c2 = edge_views(edges@);
    let mut k: usize = 0;
    while k < f.view_providers.len()
        invariant
            k <= f.view_providers@.len(),
            edge_views(edges@) == c2 + f.view_providers@.take(k as int).map_values(|x: TopologyViewProvider| provider_edge(x)),
        decreases f.view_providers@.len() - k,
    {
        let ghost before = edge_views(edges@);
        edges.push(provider_edge_exec(&f.view_providers[k]));
        proof {
            assert(edge_views(edges@) =~= before.push(provider_edge(f.view_providers@[k as int])));
            assert(f.view_providers@.take(k + 1).map_values(|x: TopologyViewProvider| provider_edge(x))
                =~= f.view_providers@.take(k as int).map_values(|x: TopologyViewProvider| provider_edge(x)).push(provider_edge(f.view_providers@[k as int])));
        }
        k = k + 1;
    }
    assert(f.view_providers@.take(k as int) =~= f.view_providers@);
    let ghost c3 = edge_views(edges@);
    let mut k: usize = 0;
    while k < f.state_owners.len()
        invariant
            k <= f.state_owners@.len(),
            edge_views(edges@) == c3 + f.state_owners@.take(k as int).map_values(|x: TopologyOwned| owner_edge("stateOwner"@, x)),
        decreases f.state_owners@.len() - k,
    {
        let ghost before = edge_views(edges@);
        edges.push(owner_edge_exec("stateOwner", &f.state_owners[k]));
        proof {
            assert(edge_views(edges@) =~= before.push(owner_edge("stateOwner"@, f.state_owners@[k as int])));
            assert(f.state_owners@.take(k + 1).map_values(|x: TopologyOwned| owner_edge("stateOwner"@, x))
                =~= f.state_owners@.take(k as int).map_values(|x: TopologyOwned| owner_edge("stateOwner"@, x)).push(owner_edge("stateOwner"@, f.state_owners@[k as int])));
        }
        k = k + 1;
    }
    assert(f.state_owners@.take(k as int) =~= f.state_owners@);
    let ghost c4 = edge_views(edges@);
    let mut k: usize = 0;
    while k < pairs.len()
        invariant
            k <= pairs@.len(),
            edge_views(edges@) == c4 + pairs@.take(k as int).map_values(|x: TopologyOrdering| order_edge(pair_view(x))),
        decreases pairs@.len() - k,
    {
        let ghost before = edge_views(edges@);
        edges.push(order_edge_exec(&pairs[k]));
        proof {
            assert(edge_views(edges@) =~= before.push(order_edge(pair_view(pairs@[k as int]))));
            assert(pairs@.take(k + 1).map_values(|x: TopologyOrdering| order_edge(pair_view(x)))
                =~= pairs@.take(k as int).map_values(|x: TopologyOrdering| order_edge(pair_view(x))).push(order_edge(pair_view(pairs@[k as int]))));
        }
        k = k + 1;
    }
    assert(pairs@.take(k as int) =~= pairs@);
    proof {
        let pv = pairs@.map_values(|x: TopologyOrdering| pair_view(x));
        assert(pairs@.map_values(|x: TopologyOrdering| order_edge(pair_view(x)))
            =~= pv.map_values(|e: (Seq<char>, Seq<char>)| order_edge(e)));
        assert(edge_views(edges@) =~= topology_edges(*f));
    }
    (edges, pairs)
}

// ---------------------------------------------------------------------------
// The readout.

/// The readout of a built registry. Read-view provider details are the
/// caller's: their selector capabilities are ordered by the protocol enum.
#[derive(Debug, Clone, PartialEq, Eq)]
pub struct RegistryReadout {
    pub registry_digest: String,
    pub semantic_compatibility_digest: String,
    pub artifact_provenance_digest: String,
    pub module_ids: Vec<String>,
    pub event_kinds: Vec<String>,
    pub subscription_ids: Vec<String>,
    pub proposal_owners: Vec<String>,
    pub read_view_providers: Vec<String>,
    pub state_owners: Vec<String>,
    pub ordering: Vec<TopologyOrdering>,
    pub topology: Vec<TopologyEdge>,
    pub topology_dump: String,
}

pub open spec fn subscription_ids_of(ms: Seq<TopologyModule>) -> Seq<Seq<char>>
    decreases ms.len(),
{
    if ms.len() == 0 {
        Seq::empty()
    } else {
        subscription_ids_of(ms.drop_last()) + ms.last().subscriptions@.map_values(|s: TopologySubscription| s.subscription_id@)
    }
}

/// `key=owner`.
pub open spec fn owner_text(o: TopologyOwned) -> Seq<char> {
    o.contract.key@ + "="@ + o.owner_id@
}

/// `view=provider`.
pub open spec fn provider_text(p: TopologyViewProvider) -> Seq<char> {
    p.view.view_key@ + "="@ + p.view.provider_id@
}

pub open spec fn order_edges_of(ps: Seq<TopologyOrdering>) -> Seq<(Seq<char>, Seq<char>, Seq<char>, Option<Seq<char>>)> {
    ps.map_values(|o: TopologyOrdering| order_edge(pair_view(o)))
}

fn owner_texts(os: &Vec<TopologyOwned>) -> (r: Vec<String>)
    ensures
        texts(r@) == os@.map_values(|o: TopologyOwned| owner_text(o)),
{
    let mut out: Vec<String> = Vec::new();
    let mut i: usize = 0;
    while i < os.len()
        invariant
            i <= os@.len(),
            texts(out@) == os@.take(i as int).map_values(|o: TopologyOwned| owner_text(o)),
        decreases os@.len() - i,
    {
        let mut t = String::new();
        t.append(os[i].contract.key.as_str());
        t.append("=");
        t.append(os[i].owner_id.as_str());
        let ghost before = texts(out@);
        out.push(t);
        proof {
            assert(texts(out@) =~= before.push(owner_text(os@[i as int])));
            assert(os@.take(i + 1).map_values(|o: TopologyOwned| owner_text(o))
                =~= os@.take(i as int).map_values(|o: TopologyOwned| owner_text(o)).push(owner_text(os@[i as int])));
        }
        i = i + 1;
    }
    assert(os@.take(i as int) =~= os@);
    out
}

fn provider_texts(ps: &Vec<TopologyViewProvider>) -> (r: Vec<String>)
    ensures
        texts(r@) == ps@.map_values(|p: TopologyViewProvider| provider_text(p)),
{
    let mut out: Vec<String> = Vec::new();
    let mut i: usize = 0;
    while i < ps.len()
        invariant
            i <= ps@.len(),
            texts(out@) == ps@.take(i as int).map_values(|p: TopologyViewProvider| provider_text(p)),
        decreases ps@.len() - i,
    {
        let mut t = String::new();
        t.append(ps[i].view.view_key.as_str());
        t.append("=");
        t.append(ps[i].view.provider_id.as_str());
        let ghost before = texts(out@);
        out.push(t);
        proof {
            assert(texts(out@) =~= before.push(provider_text(ps@[i as int])));
            assert(ps@.take(i + 1).map_values(|p: TopologyViewProvider| provider_text(p))
                =~= ps@.take(i as int).map_values(|p: TopologyViewProvider| provider_text(p)).push(provider_text(ps@[i as int])));
        }
        i = i + 1;
    }
    assert(ps@.take(i as int) =~= ps@);
    out
}

fn module_ids_of(ms: &Vec<TopologyModule>) -> (r: Vec<String>)
    ensures
        texts(r@) == ms@.map_values(|m: TopologyModule| m.module_id@),
{
    let mut out: Vec<String> = Vec::new();
    let mut i: usize = 0;
    while i < ms.len()
        invariant
            i <= ms@.len(),
            texts(out@) == ms@.take(i as int).map_values(|m: TopologyModule| m.module_id@),
        decreases ms@.len() - i,
    {
        let ghost before = texts(out@);
        out.push(ms[i].module_id.clone());
        proof {
            assert(texts(out@) =~= before.push(ms@[i as int].module_id@));
            assert(ms@.take(i + 1).map_values(|m: TopologyModule| m.module_id@)
                =~= ms@.take(i as int).map_values(|m: TopologyModule| m.module_id@).push(ms@[i as int].module_id@));
        }
        i = i + 1;
    }
    assert(ms@.take(i as int) =~= ms@);
    out
}

fn event_keys_of(es: &Vec<crate::topology::TopologyEvent>) -> (r: Vec<String>)
    ensures
        texts(r@) == es@.map_values(|e: crate::topology::TopologyEvent| e.key@),
{
    let mut out: Vec<String> = Vec::new();
    let mut i: usize = 0;
    while i < es.len()
        invariant
            i <= es@.len(),
            texts(out@) == es@.take(i as int).map_values(|e: crate::topology::TopologyEvent| e.key@),
        decreases es@.len() - i,
    {
        let ghost before = texts(out@);
        out.push(es[i].key.clone());
        proof {
            assert(texts(out@) =~= before.push(es@[i as int].key@));
            assert(es@.take(i + 1).map_values(|e: crate::topology::TopologyEvent| e.key@)
                =~= es@.take(i as int).map_values(|e: crate::topology::TopologyEvent| e.key@).push(es@[i as int].key@));
        }
        i = i + 1;
    }
    assert(es@.take(i as int) =~= es@);
    out
}

fn subscription_ids(ms: &Vec<TopologyModule>) -> (r: Vec<String>)
    ensures
        texts(r@) == subscription_ids_of(ms@),
{
    let mut out: Vec<String> = Vec::new();
    let mut i: usize = 0;
    while i < ms.len()
        invariant
            i <= ms@.len(),
            texts(out@) == subscription_ids_of(ms@.take(i as int)),
        decreases ms@.len() - i,
    {
        let subs = &ms[i].subscriptions;
        let ghost base = texts(out@);
        let mut k: usize = 0;
        while k < subs.len()
            invariant
                k <= subs@.len(),
                texts(out@) == base + subs@.take(k as int).map_values(|s: TopologySubscription| s.subscription_id@),
            decreases subs@.len() - k,
        {
            let ghost before = texts(out@);
            out.push(subs[k].subscription_id.clone());
            proof {
                assert(texts(out@) =~= before.push(subs@[k as int].subscription_id@));
                assert(subs@.take(k + 1).map_values(|s: TopologySubscription| s.subscription_id@)
                    =~= subs@.take(k as int).map_values(|s: TopologySubscription| s.subscription_id@).push(subs@[k as int].subscription_id@));
            }
            k = k + 1;
        }
        proof {
            assert(subs@.take(k as int) =~= subs@);
            assert(ms@.take(i + 1).drop_last() =~= ms@.take(i as int));
            assert(ms@.take(i + 1).last() == ms@[i as int]);
        }
        i = i + 1;
    }
    assert(ms@.take(i as int) =~= ms@);
    out
}

/// The ordering pairs in canonical order: by `before`, then `after`.
fn sorted_ordering(pairs: &Vec<TopologyOrdering>) -> (r: Vec<TopologyOrdering>)
    ensures
        order_edges_of(r@) == sorted_edges(order_edges_of(pairs@)),
{
    let mut es: Vec<TopologyEdge> = Vec::new();
    let mut i: usize = 0;
    while i < pairs.len()
        invariant
            i <= pairs@.len(),
            edge_views(es@) == order_edges_of(pairs@.take(i as int)),
        decreases pairs@.len() - i,
    {
        let ghost before = edge_views(es@);
        es.push(order_edge_exec(&pairs[i]));
        proof {
            assert(edge_views(es@) =~= before.push(order_edge(pair_view(pairs@[i as int]))));
            assert(order_edges_of(pairs@.take(i + 1)) =~= order_edges_of(pairs@.take(i as int)).push(order_edge(pair_view(pairs@[i as int]))));
        }
        i = i + 1;
    }
    assert(pairs@.take(i as int) =~= pairs@);
    let sorted = sort_edges(es);
    proof {
        let leq = |a: (Seq<char>, Seq<char>, Seq<char>, Option<Seq<char>>), b: (Seq<char>, Seq<char>, Seq<char>, Option<Seq<char>>)| edge_leq(a, b);
        lemma_edge_leq_total();
        order_edges_of(pairs@).lemma_sort_by_ensures(leq);
        assert forall|x: (Seq<char>, Seq<char>, Seq<char>, Option<Seq<char>>)| edge_views(sorted@).contains(x)
            implies x.0 == "order"@ && x.3 is None by {
            broadcast use vstd::seq_lib::group_to_multiset_ensures;
            assert(edge_views(sorted@).to_multiset().count(x) > 0);
            assert(order_edges_of(pairs@).contains(x));
        }
    }
    let mut out: Vec<TopologyOrdering> = Vec::new();
    let mut k: usize = 0;
    while k < sorted.len()
        invariant
            k <= sorted@.len(),
            order_edges_of(out@) == edge_views(sorted@).take(k as int),
            forall|x: (Seq<char>, Seq<char>, Seq<char>, Option<Seq<char>>)| edge_views(sorted@).contains(x) ==> x.0 == "order"@ && x.3 is None,
        decreases sorted@.len() - k,
    {
        let ghost before = order_edges_of(out@);
        assert(edge_views(sorted@)[k as int] == edge_view(sorted@[k as int]));
        assert(edge_views(sorted@).contains(edge_view(sorted@[k as int])));
        out.push(TopologyOrdering { before_module: sorted[k].from.clone(), after_module: sorted[k].to.clone() });
        proof {
            assert(order_edges_of(out@) =~= before.push(edge_view(sorted@[k as int])));
            assert(edge_views(sorted@).take(k + 1) =~= edge_views(sorted@).take(k as int).push(edge_view(sorted@[k as int])));
        }
        k = k + 1;
    }
    assert(edge_views(sorted@).take(k as int) =~= edge_views(sorted@));
    out
}

/// The readout of a registry: the digests of its dump with and without
/// provenance, its module ids, event kinds and subscription ids sorted by
/// bytes, its proposal owners, view providers and state owners as
/// `key=owner` in registration order, its distinct ordering edges and its
/// topology edges in canonical order, and the dump.
pub fn registry_readout(f: &TopologyFacts) -> (r: RegistryReadout)
    ensures
        r.topology_dump@ == dump_text(sorted_texts(topology_lines(*f, true))),
        r.registry_digest@ == fnv_label_text(fnv_bytes(FNV_OFFSET, encode_utf8(r.topology_dump@))),
        r.semantic_compatibility_digest@
            == fnv_label_text(fnv_bytes(FNV_OFFSET, encode_utf8(dump_text(sorted_texts(topology_lines(*f, false)))))),
        r.artifact_provenance_digest@ == r.registry_digest@,
        texts(r.module_ids@) == sorted_texts(f.modules@.map_values(|m: TopologyModule| m.module_id@)),
        texts(r.event_kinds@) == sorted_texts(f.events@.map_values(|e: crate::topology::TopologyEvent| e.key@)),
        texts(r.subscription_ids@) == sorted_texts(subscription_ids_of(f.modules@)),
        texts(r.proposal_owners@) == f.proposal_owners@.map_values(|o: TopologyOwned| owner_text(o)),
        texts(r.read_view_providers@) == f.view_providers@.map_values(|p: TopologyViewProvider| provider_text(p)),
        texts(r.state_owners@) == f.state_owners@.map_values(|o: TopologyOwned| owner_text(o)),
        order_edges_of(r.ordering@)
            == sorted_edges(distinct_values(module_edges(f.modules@)).map_values(|e: (Seq<char>, Seq<char>)| order_edge(e))),
        edge_views(r.topology@) == sorted_edges(topology_edges(*f)),
{
    let dump = topology_dump(f, true);
    let semantic = topology_dump(f, false);
    let digest = stable_digest(dump.as_str());
    let semantic_digest = stable_digest(semantic.as_str());
    let provenance_digest = digest.clone();
    let (edges, pairs) = collect_edges(f);
    let topology = sort_edges(edges);
    let ordering = sorted_ordering(&pairs);
    proof {
        let pv = pairs@.map_values(|x: TopologyOrdering| pair_view(x));
        assert(order_edges_of(pairs@) =~= pv.map_values(|e: (Seq<char>, Seq<char>)| order_edge(e)));
    }
    RegistryReadout {
        registry_digest: digest,
        semantic_compatibility_digest: semantic_digest,
        artifact_provenance_digest: provenance_digest,
        module_ids: sort_strings(module_ids_of(&f.modules)),
        event_kinds: sort_strings(event_keys_of(&f.events)),
        subscription_ids: sort_strings(subscription_ids(&f.modules)),
        proposal_owners: owner_texts(&f.proposal_owners),
        read_view_providers: provider_texts(&f.view_providers),
        state_owners: owner_texts(&f.state_owners),
        ordering,
        topology,
        topology_dump: dump,
    }
}

} // verus!
