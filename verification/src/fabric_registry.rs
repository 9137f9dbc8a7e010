//! Registry-side checks of the gameplay fabric that do not depend on module
//! manifests: the identity of linked providers, duplicate providers, the link
//! between a provider and the module it serves, and overlapping namespaces.

use vstd::prelude::*;
use vstd::string::StringSliceAdditionalSpecFns;
use crate::readout::text_lt;
use crate::topology::{lemma_text_leq_total, sort_strings, sorted_texts, text_leq, texts};
use vstd::relations::{sorted_by, total_ordering};
use crate::topology::text_less;
use crate::fabric_filter::lemma_bytes_lt_irreflexive;
use vstd::utf8::encode_utf8;
use crate::ids::{
    is_hash, is_hash_bytes, is_namespace_bytes, is_stable_id, is_version, has_no_white_space,
    namespace_owns, owns_bytes, is_namespace, is_kebab_segment, is_kebab,
};

verus! {

/// A statically linked gameplay provider and the hashes it was built with.
#[derive(Debug, Clone, PartialEq, Eq)]
pub struct GameplayLinkedProvider {
    pub provider_id: String,
    pub module_id: String,
    pub version: String,
    pub contract_hash: String,
    pub artifact_hash: String,
    pub sdk_hash: String,
    pub source_hash: String,
}

/// A provider's identity is valid: stable provider and module ids, a
/// version label, and well-formed contract and artifact hashes.
pub open spec fn provider_identity_ok(p: GameplayLinkedProvider) -> bool {
    &&& is_namespace_bytes(vstd::utf8::encode_utf8(p.provider_id@))
    &&& is_namespace_bytes(vstd::utf8::encode_utf8(p.module_id@))
    &&& p.version@.len() > 0 && has_no_white_space(p.version@)
    &&& is_hash_bytes(vstd::utf8::encode_utf8(p.contract_hash@))
    &&& is_hash_bytes(vstd::utf8::encode_utf8(p.artifact_hash@))
}

impl GameplayLinkedProvider {
    /// Whether the provider's ids, version and hashes are well formed.
    pub fn identity_is_valid(&self) -> (r: bool)
        ensures
            r == provider_identity_ok(*self),
    {
        is_stable_id(self.provider_id.as_str()) && is_stable_id(self.module_id.as_str())
            && is_version(self.version.as_str()) && is_hash(self.contract_hash.as_str())
            && is_hash(self.artifact_hash.as_str())
    }

    /// Whether this provider is the one a module manifest names: same
    /// module id, version, contract, artifact, SDK and source hashes.
    pub fn matches_module(
        &self,
        module_id: &String,
        version: &String,
        contract_hash: &String,
        artifact_hash: &String,
        sdk_hash: &String,
        source_hash: &String,
    ) -> (r: bool)
        ensures
            r == (self.module_id@ == module_id@ && self.version@ == version@ && self.contract_hash@
                == contract_hash@ && self.artifact_hash@ == artifact_hash@ && self.sdk_hash@
                == sdk_hash@ && self.source_hash@ == source_hash@),
    {
        self.module_id == *module_id && self.version == *version && self.contract_hash
            == *contract_hash && self.artifact_hash == *artifact_hash && self.sdk_hash == *sdk_hash
            && self.source_hash == *source_hash
    }
}

/// A problem with one entry of the linked provider list.
#[derive(Debug, Clone, Copy, PartialEq, Eq, Structural)]
pub enum ProviderDiagnostic {
    /// `providers[index]` has an invalid identity, version or hash.
    InvalidIdentity { index: usize },
    /// `providers[index]` repeats the id of an earlier provider.
    DuplicateProvider { index: usize },
}

/// Some provider before `i` has the id of provider `i`.
pub open spec fn provider_id_seen(ps: Seq<GameplayLinkedProvider>, i: int) -> bool {
    exists|j: int| 0 <= j < i && (#[trigger] ps[j]).provider_id@ == ps[i].provider_id@
}

/// The diagnostics of provider `i`: first an invalid identity, then a
/// repeated id.
pub open spec fn provider_diagnostics_at(ps: Seq<GameplayLinkedProvider>, i: int) -> Seq<
    ProviderDiagnostic,
> {
    (if !provider_identity_ok(ps[i]) {
        seq![ProviderDiagnostic::InvalidIdentity { index: i as usize }]
    } else {
        Seq::empty()
    }) + (if provider_id_seen(ps, i) {
        seq![ProviderDiagnostic::DuplicateProvider { index: i as usize }]
    } else {
        Seq::empty()
    })
}

/// The diagnostics of the first `n` providers, in order.
pub open spec fn provider_diagnostics_upto(ps: Seq<GameplayLinkedProvider>, n: int) -> Seq<
    ProviderDiagnostic,
>
    decreases n,
{
    if n <= 0 {
        Seq::empty()
    } else {
        provider_diagnostics_upto(ps, n - 1) + provider_diagnostics_at(ps, n - 1)
    }
}

fn provider_id_seen_exec(providers: &[GameplayLinkedProvider], i: usize) -> (r: bool)
    requires
        i < providers@.len(),
    ensures
        r == provider_id_seen(providers@, i as int),
{
    let mut j: usize = 0;
    while j < i
        invariant
            j <= i < providers@.len(),
            forall|t: int| 0 <= t < j ==> (#[trigger] providers@[t]).provider_id@ != providers@[i as int].provider_id@,
        decreases i - j,
    {
        if providers[j].provider_id == providers[i].provider_id {
            return true;
        }
        j = j + 1;
    }
    false
}

/// Check the linked provider list: each provider with an invalid identity,
/// and each that repeats an earlier provider's id, in list order.
pub fn provider_diagnostics(providers: &[GameplayLinkedProvider]) -> (r: Vec<ProviderDiagnostic>)
    ensures
        r@ == provider_diagnostics_upto(providers@, providers@.len() as int),
{
    let mut r: Vec<ProviderDiagnostic> = Vec::new();
    let mut i: usize = 0;
    while i < providers.len()
        invariant
            i <= providers@.len(),
            r@ == provider_diagnostics_upto(providers@, i as int),
        decreases providers@.len() - i,
    {
        let ghost before = r@;
        if !providers[i].identity_is_valid() {
            r.push(ProviderDiagnostic::InvalidIdentity { index: i });
        }
        if provider_id_seen_exec(providers, i) {
            r.push(ProviderDiagnostic::DuplicateProvider { index: i });
        }
        assert(r@ =~= before + provider_diagnostics_at(providers@, i as int));
        i = i + 1;
    }
    r
}

/// Two namespaces overlap when either owns the other.
pub open spec fn namespaces_overlap(a: Seq<u8>, b: Seq<u8>) -> bool {
    owns_bytes(a, b) || owns_bytes(b, a)
}

/// The overlapping pairs `(i, j)` with `j` in `i+1..end`, in order of `j`.
pub open spec fn overlap_row(ns: Seq<Seq<u8>>, i: int, end: int) -> Seq<(usize, usize)>
    decreases end - i,
{
    if end <= i + 1 {
        Seq::empty()
    } else {
        overlap_row(ns, i, end - 1) + (if namespaces_overlap(ns[i], ns[end - 1]) {
            seq![(i as usize, (end - 1) as usize)]
        } else {
            Seq::empty()
        })
    }
}

/// The overlapping pairs `(i, j)`, `i < j`, with `i` below `end`, in
/// lexicographic order.
pub open spec fn overlap_pairs(ns: Seq<Seq<u8>>, end: int) -> Seq<(usize, usize)>
    decreases end,
{
    if end <= 0 {
        Seq::empty()
    } else {
        overlap_pairs(ns, end - 1) + overlap_row(ns, end - 1, ns.len() as int)
    }
}

/// The UTF-8 bytes of a list of strings.
pub open spec fn namespace_bytes(ns: Seq<&str>) -> Seq<Seq<u8>> {
    ns.map_values(|s: &str| s.spec_bytes())
}

/// Every pair of module namespaces where one owns the other (is equal to it
/// or a dotted sub-namespace of it), as index pairs `(i, j)` with `i < j`,
/// in lexicographic order.
pub fn overlapping_namespaces(namespaces: &[&str]) -> (r: Vec<(usize, usize)>)
    ensures
        r@ == overlap_pairs(namespace_bytes(namespaces@), namespaces@.len() as int),
{
    let ghost ns = namespace_bytes(namespaces@);
    let n = namespaces.len();
    let mut r: Vec<(usize, usize)> = Vec::new();
    let mut i: usize = 0;
    while i < n
        invariant
            i <= n == namespaces@.len() == ns.len(),
            ns == namespace_bytes(namespaces@),
            r@ == overlap_pairs(ns, i as int),
        decreases n - i,
    {
        let ghost row_start = r@;
        let mut j: usize = i + 1;
        assert(overlap_row(ns, i as int, j as int) =~= Seq::<(usize, usize)>::empty());
        while j < n
            invariant
                i < j <= n == namespaces@.len() == ns.len(),
                ns == namespace_bytes(namespaces@),
                row_start == overlap_pairs(ns, i as int),
                r@ == row_start + overlap_row(ns, i as int, j as int),
            decreases n - j,
        {
            let ghost before = r@;
            let a = namespaces[i];
            let b = namespaces[j];
            if namespace_owns(a, b) || namespace_owns(b, a) {
                r.push((i, j));
            }
            assert(r@ =~= row_start + overlap_row(ns, i as int, j + 1));
            j = j + 1;
        }
        assert(r@ =~= overlap_pairs(ns, i + 1));
        i = i + 1;
    }
    r
}

proof fn lemma_concat_contains<A>(s1: Seq<A>, s2: Seq<A>, x: A)
    ensures
        (s1 + s2).contains(x) <==> s1.contains(x) || s2.contains(x),
{
    let s = s1 + s2;
    if s.contains(x) {
        let k = choose|k: int| 0 <= k < s.len() && s[k] == x;
        if k < s1.len() {
            assert(s1[k] == x);
        } else {
            assert(s2[k - s1.len()] == x);
        }
    }
    if s1.contains(x) {
        let k = choose|k: int| 0 <= k < s1.len() && s1[k] == x;
        assert(s[k] == x);
    }
    if s2.contains(x) {
        let k = choose|k: int| 0 <= k < s2.len() && s2[k] == x;
        assert(s[s1.len() + k] == x);
    }
}

proof fn lemma_overlap_row(ns: Seq<Seq<u8>>, i: int, end: int, a: usize, b: usize)
    requires
        0 <= i,
        end <= ns.len() <= usize::MAX,
    ensures
        overlap_row(ns, i, end).contains((a, b)) <==> (a == i && i < b < end && namespaces_overlap(
            ns[i],
            ns[b as int],
        )),
    decreases end - i,
{
    if end > i + 1 {
        lemma_overlap_row(ns, i, end - 1, a, b);
        let single = if namespaces_overlap(ns[i], ns[end - 1]) {
            seq![(i as usize, (end - 1) as usize)]
        } else {
            Seq::empty()
        };
        lemma_concat_contains(overlap_row(ns, i, end - 1), single, (a, b));
        if single.contains((a, b)) {
            assert(single[0] == (a, b));
        }
        if a == i && b == end - 1 && namespaces_overlap(ns[i], ns[b as int]) {
            assert(single[0] == (a, b));
        }
    }
}

proof fn lemma_overlap_pairs(ns: Seq<Seq<u8>>, end: int, a: usize, b: usize)
    requires
        end <= ns.len() <= usize::MAX,
    ensures
        overlap_pairs(ns, end).contains((a, b)) <==> (a < end && a < b < ns.len()
            && namespaces_overlap(ns[a as int], ns[b as int])),
    decreases end,
{
    if end > 0 {
        lemma_overlap_pairs(ns, end - 1, a, b);
        lemma_overlap_row(ns, end - 1, ns.len() as int, a, b);
        lemma_concat_contains(overlap_pairs(ns, end - 1), overlap_row(ns, end - 1, ns.len() as int), (a, b));
    }
}

/// The overlaps reported are exactly the pairs `i < j` of namespaces where
/// one owns the other.
pub proof fn law_overlaps_are_exact(ns: Seq<Seq<u8>>, i: usize, j: usize)
    requires
        ns.len() <= usize::MAX,
    ensures
        overlap_pairs(ns, ns.len() as int).contains((i, j)) <==> (i < j < ns.len()
            && namespaces_overlap(ns[i as int], ns[j as int])),
{
    lemma_overlap_pairs(ns, ns.len() as int, i, j);
}

/// Every ordering edge names modules below `n`.
pub open spec fn edges_in_range(n: int, edges: Seq<(usize, usize)>) -> bool {
    forall|k: int| 0 <= k < edges.len() ==> (#[trigger] edges[k]).0 < n && edges[k].1 < n
}

/// Module `v` can be placed after the modules `done`: it is not placed yet
/// and every module ordered before it is.
pub open spec fn ready_after(n: int, edges: Seq<(usize, usize)>, done: Seq<usize>, v: int) -> bool {
    &&& 0 <= v < n
    &&& !done.contains(v as usize)
    &&& forall|k: int| 0 <= k < edges.len() && (#[trigger] edges[k]).1 == v ==> done.contains(edges[k].0)
}

/// `o` is the module order the registry uses: at every step the
/// lowest-numbered module whose predecessors are all placed.
pub open spec fn is_greedy_order(n: int, edges: Seq<(usize, usize)>, o: Seq<usize>) -> bool {
    &&& o.len() == n
    &&& forall|k: int| 0 <= k < n ==> ready_after(n, edges, o.take(k), #[trigger] o[k] as int)
    &&& forall|k: int, v: int| 0 <= k < n && #[trigger] ready_after(n, edges, o.take(k), v) ==> o[k] <= v
}

/// `o` lists every module below `n` exactly once, each ordering edge's first
/// module before its second.
pub open spec fn respects_edges(n: int, edges: Seq<(usize, usize)>, o: Seq<usize>) -> bool {
    &&& o.len() == n
    &&& o.no_duplicates()
    &&& forall|k: int| 0 <= k < o.len() ==> #[trigger] o[k] < n
    &&& forall|e: int| 0 <= e < edges.len() ==> comes_before(o, (#[trigger] edges[e]).0, edges[e].1)
}

/// `a` appears in `o` before `b`.
pub open spec fn comes_before(o: Seq<usize>, a: usize, b: usize) -> bool {
    exists|i: int, j: int| 0 <= i < j < o.len() && o[i] == a && o[j] == b
}

/// Module `u` is among `done`.
pub open spec fn placed(done: Seq<usize>, u: int) -> bool {
    done.contains(u as usize)
}

/// When every unplaced module still waits for another unplaced module, no
/// order of all modules respects the edges.
proof fn lemma_stuck_means_cycle(n: int, edges: Seq<(usize, usize)>, done: Seq<usize>, o: Seq<usize>)
    requires
        n <= usize::MAX,
        done.len() < n,
        forall|k: int| 0 <= k < done.len() ==> #[trigger] done[k] < n,
        done.no_duplicates(),
        forall|v: int| 0 <= v < n ==> !ready_after(n, edges, done, v),
    ensures
        !respects_edges(n, edges, o),
{
    if respects_edges(n, edges, o) {
        lemma_stuck_contradiction(n, edges, done, o);
    }
}

proof fn lemma_stuck_contradiction(n: int, edges: Seq<(usize, usize)>, done: Seq<usize>, o: Seq<usize>)
    requires
        n <= usize::MAX,
        done.len() < n,
        forall|k: int| 0 <= k < done.len() ==> #[trigger] done[k] < n,
        done.no_duplicates(),
        forall|v: int| 0 <= v < n ==> !ready_after(n, edges, done, v),
        respects_edges(n, edges, o),
    ensures
        done.len() >= n,
{
    // Some module is unplaced.
    assert(exists|u: int| 0 <= u < n && !#[trigger] placed(done, u)) by {
        if forall|u: int| 0 <= u < n ==> #[trigger] placed(done, u) {
            let dn = done.map_values(|x: usize| x as int);
            assert forall|a: int, b: int| 0 <= a < dn.len() && 0 <= b < dn.len() && a != b implies dn[a] != dn[b] by {
                assert(done[a] != done[b]);
            }
            dn.unique_seq_to_set();
            vstd::set_lib::lemma_int_range(0, n);
            assert(vstd::set_lib::set_int_range(0, n).subset_of(dn.to_set())) by {
                assert forall|v: int| vstd::set_lib::set_int_range(0, n).contains(v) implies dn.to_set().contains(v) by {
                    assert(placed(done, v));
                    let i = choose|i: int| 0 <= i < done.len() && done[i] == v as usize;
                    assert(dn[i] == v);
                }
            }
            vstd::set_lib::lemma_len_subset(vstd::set_lib::set_int_range(0, n), dn.to_set());
        }
    }
    let u = choose|u: int| 0 <= u < n && !#[trigger] placed(done, u);
    // The first position of `o` that holds an unplaced module.
    let first = lemma_first_unplaced(done, o, n, u);
    let w = o[first];
    assert(!ready_after(n, edges, done, w as int));
    let k = choose|k: int| 0 <= k < edges.len() && edges[k].1 == w && !done.contains(edges[k].0);
    assert(comes_before(o, edges[k].0, edges[k].1));
    let (i, j) = choose|i: int, j: int| 0 <= i < j < o.len() && o[i] == edges[k].0 && o[j] == edges[k].1;
    assert(o[j] == o[first]);
    assert(j == first) by {
        if j != first {
            assert(o[j] != o[first]);
        }
    }
    assert(done.contains(o[i]));
}

/// The first position of `o` holding a module not in `done`, given that `u`
/// is such a module and `o` lists every module below `n`.
proof fn lemma_first_unplaced(done: Seq<usize>, o: Seq<usize>, n: int, u: int) -> (first: int)
    requires
        n <= usize::MAX,
        0 <= u < n,
        !done.contains(u as usize),
        o.len() == n,
        o.no_duplicates(),
        forall|k: int| 0 <= k < o.len() ==> #[trigger] o[k] < n,
    ensures
        0 <= first < o.len(),
        !done.contains(o[first]),
        forall|t: int| 0 <= t < first ==> done.contains(#[trigger] o[t]),
{
    // `o` holds every module below `n`, `u` among them.
    assert(o.contains(u as usize)) by {
        let on = o.map_values(|x: usize| x as int);
        assert forall|a: int, b: int| 0 <= a < on.len() && 0 <= b < on.len() && a != b implies on[a] != on[b] by {
            assert(o[a] != o[b]);
        }
        on.unique_seq_to_set();
        vstd::set_lib::lemma_int_range(0, n);
        assert(on.to_set().subset_of(vstd::set_lib::set_int_range(0, n))) by {
            assert forall|v: int| on.to_set().contains(v) implies vstd::set_lib::set_int_range(0, n).contains(v) by {
                let i = choose|i: int| 0 <= i < on.len() && on[i] == v;
                assert(o[i] < n);
            }
        }
        vstd::set_lib::lemma_subset_equality(on.to_set(), vstd::set_lib::set_int_range(0, n));
        assert(on.to_set().contains(u));
        let i = choose|i: int| 0 <= i < on.len() && on[i] == u;
        assert(o[i] == u as usize);
    }
    lemma_first_unplaced_from(done, o, 0)
}

proof fn lemma_first_unplaced_from(done: Seq<usize>, o: Seq<usize>, t0: int) -> (first: int)
    requires
        0 <= t0 <= o.len(),
        forall|t: int| 0 <= t < t0 ==> done.contains(#[trigger] o[t]),
        exists|t: int| 0 <= t < o.len() && !done.contains(o[t]),
    ensures
        0 <= first < o.len(),
        !done.contains(o[first]),
        forall|t: int| 0 <= t < first ==> done.contains(#[trigger] o[t]),
    decreases o.len() - t0,
{
    if t0 < o.len() && !done.contains(o[t0]) {
        t0
    } else {
        if t0 == o.len() {
            let t = choose|t: int| 0 <= t < o.len() && !done.contains(o[t]);
            assert(done.contains(o[t]));
        }
        lemma_first_unplaced_from(done, o, t0 + 1)
    }
}

/// Every module ordered before `v` is placed.
fn predecessors_placed(edges: &[(usize, usize)], placed: &Vec<bool>, v: usize) -> (r: bool)
    requires
        edges_in_range(placed@.len() as int, edges@),
    ensures
        r == (forall|k: int| 0 <= k < edges@.len() && (#[trigger] edges@[k]).1 == v ==> placed@[edges@[k].0 as int]),
{
    let mut k: usize = 0;
    while k < edges.len()
        invariant
            k <= edges@.len(),
            edges_in_range(placed@.len() as int, edges@),
            forall|t: int| 0 <= t < k && (#[trigger] edges@[t]).1 == v ==> placed@[edges@[t].0 as int],
        decreases edges@.len() - k,
    {
        let (before, after) = edges[k];
        if after == v && !placed[before] {
            return false;
        }
        k = k + 1;
    }
    true
}

/// A greedy order respects every edge.
pub proof fn law_greedy_order_respects_edges(n: int, edges: Seq<(usize, usize)>, o: Seq<usize>)
    requires
        n <= usize::MAX,
        edges_in_range(n, edges),
        is_greedy_order(n, edges, o),
    ensures
        respects_edges(n, edges, o),
{
    assert forall|a: int, b: int| 0 <= a < o.len() && 0 <= b < o.len() && a != b implies o[a] != o[b] by {
        if a < b {
            assert(ready_after(n, edges, o.take(b), o[b] as int));
            assert(o.take(b)[a] == o[a]);
        } else {
            assert(ready_after(n, edges, o.take(a), o[a] as int));
            assert(o.take(a)[b] == o[b]);
        }
    }
    assert forall|k: int| 0 <= k < o.len() implies #[trigger] o[k] < n by {
        assert(ready_after(n, edges, o.take(k), o[k] as int));
    }
    assert forall|e: int| 0 <= e < edges.len() implies comes_before(o, (#[trigger] edges[e]).0, edges[e].1) by {
        let b = edges[e].1;
        let all: Seq<usize> = o;
        // `o` holds `b`: it lists `n` distinct modules below `n`.
        assert(o.contains(b)) by {
            if !o.contains(b) {
                let on = o.map_values(|x: usize| x as int);
                assert forall|x: int, y: int| 0 <= x < on.len() && 0 <= y < on.len() && x != y implies on[x] != on[y] by {
                    assert(o[x] != o[y]);
                }
                on.unique_seq_to_set();
                let r = vstd::set_lib::set_int_range(0, n).remove(b as int);
                vstd::set_lib::lemma_int_range(0, n);
                assert(on.to_set().subset_of(r)) by {
                    assert forall|v: int| on.to_set().contains(v) implies r.contains(v) by {
                        let i = choose|i: int| 0 <= i < on.len() && on[i] == v;
                        assert(o[i] < n);
                        assert(o[i] != b);
                    }
                }
                vstd::set_lib::lemma_len_subset(on.to_set(), r);
            }
        }
        let j = choose|j: int| 0 <= j < o.len() && o[j] == b;
        assert(ready_after(n, edges, o.take(j), o[j] as int));
        assert(o.take(j).contains(edges[e].0));
        let i = choose|i: int| 0 <= i < o.take(j).len() && o.take(j)[i] == edges[e].0;
        assert(o[i] == edges[e].0);
        assert(0 <= i < j < o.len() && o[i] == edges[e].0 && o[j] == edges[e].1);
    }
}

/// With the modules numbered in ascending byte order of their ids (as the
/// registry keeps them), a greedy order places, at every step, the ready
/// module with the smallest id.
pub proof fn law_greedy_order_takes_smallest_id(ids: Seq<Seq<char>>, edges: Seq<(usize, usize)>, o: Seq<usize>)
    requires
        forall|i: int, j: int| 0 <= i < j < ids.len() ==> text_lt(#[trigger] ids[i], #[trigger] ids[j]),
        is_greedy_order(ids.len() as int, edges, o),
    ensures
        forall|k: int, v: int|
            0 <= k < ids.len() && #[trigger] ready_after(ids.len() as int, edges, o.take(k), v) && v != o[k]
                ==> text_lt(ids[o[k] as int], ids[v]),
{
    let n = ids.len() as int;
    assert forall|k: int, v: int|
        0 <= k < n && #[trigger] ready_after(n, edges, o.take(k), v) && v != o[k] implies text_lt(ids[o[k] as int], ids[v]) by {
        assert(ready_after(n, edges, o.take(k), o[k] as int));
        assert(o[k] <= v);
    }
}

/// The order in which the registry runs its modules: repeatedly the
/// lowest-numbered module whose ordering predecessors have all run.
/// `None` when the edges contain a cycle, that is, when no order of all
/// modules respects them.
pub fn module_order(n: usize, edges: &[(usize, usize)]) -> (r: Option<Vec<usize>>)
    requires
        edges_in_range(n as int, edges@),
    ensures
        r matches Some(o) ==> is_greedy_order(n as int, edges@, o@) && respects_edges(n as int, edges@, o@),
        r is None ==> forall|o: Seq<usize>| !respects_edges(n as int, edges@, o),
{
    let mut placed: Vec<bool> = Vec::new();
    let mut t: usize = 0;
    while t < n
        invariant
            t <= n,
            placed@.len() == t,
            forall|j: int| 0 <= j < t ==> !placed@[j],
        decreases n - t,
    {
        placed.push(false);
        t = t + 1;
    }
    let mut order: Vec<usize> = Vec::new();
    while order.len() < n
        invariant
            placed@.len() == n,
            edges_in_range(n as int, edges@),
            order@.len() <= n,
            order@.no_duplicates(),
            forall|k: int| 0 <= k < order@.len() ==> #[trigger] order@[k] < n,
            forall|v: int| 0 <= v < n ==> (#[trigger] placed@[v] <==> order@.contains(v as usize)),
            forall|k: int| 0 <= k < order@.len() ==> ready_after(n as int, edges@, order@.take(k), #[trigger] order@[k] as int),
            forall|k: int, v: int| 0 <= k < order@.len() && #[trigger] ready_after(n as int, edges@, order@.take(k), v) ==> order@[k] <= v,
        decreases n - order@.len(),
    {
        let mut v: usize = 0;
        let mut found = false;
        while v < n
            invariant
                v <= n,
                placed@.len() == n,
                edges_in_range(n as int, edges@),
                forall|v: int| 0 <= v < n ==> (#[trigger] placed@[v] <==> order@.contains(v as usize)),
                forall|w: int| 0 <= w < v ==> !ready_after(n as int, edges@, order@, w),
                found ==> v < n && ready_after(n as int, edges@, order@, v as int),
            ensures
                found ==> v < n && ready_after(n as int, edges@, order@, v as int),
                !found ==> forall|w: int| 0 <= w < n ==> !ready_after(n as int, edges@, order@, w),
            decreases n - v,
        {
            if !placed[v] && predecessors_placed(edges, &placed, v) {
                assert forall|k: int| 0 <= k < edges@.len() && (#[trigger] edges@[k]).1 == v implies order@.contains(edges@[k].0) by {
                    assert(placed@[edges@[k].0 as int]);
                }
                found = true;
                break;
            }
            proof {
                if placed@[v as int] {
                    assert(order@.contains(v));
                } else {
                    let k = choose|k: int| 0 <= k < edges@.len() && (#[trigger] edges@[k]).1 == v && !placed@[edges@[k].0 as int];
                    assert(!order@.contains(edges@[k].0));
                }
            }
            v = v + 1;
        }
        if !found {
            proof {
                assert forall|o: Seq<usize>| !respects_edges(n as int, edges@, o) by {
                    lemma_stuck_means_cycle(n as int, edges@, order@, o);
                }
            }
            return None;
        }
        let ghost old_order = order@;
        order.push(v);
        placed.set(v, true);
        proof {
            assert(order@.take(old_order.len() as int) =~= old_order);
            assert forall|k: int| 0 <= k < old_order.len() implies #[trigger] order@.take(k) == old_order.take(k) by {
                assert(order@.take(k) =~= old_order.take(k));
            }
            assert(order@.no_duplicates()) by {
                assert forall|a: int, b: int| 0 <= a < order@.len() && 0 <= b < order@.len() && a != b implies order@[a] != order@[b] by {
                    if a == old_order.len() {
                        assert(!old_order.contains(v));
                        assert(old_order[b] == order@[b]);
                    } else if b == old_order.len() {
                        assert(!old_order.contains(v));
                        assert(old_order[a] == order@[a]);
                    }
                }
            }
            assert forall|w: int| 0 <= w < n implies (#[trigger] placed@[w] <==> order@.contains(w as usize)) by {
                if w == v {
                    assert(order@[old_order.len() as int] == v);
                } else {
                    if old_order.contains(w as usize) {
                        let i = choose|i: int| 0 <= i < old_order.len() && old_order[i] == w as usize;
                        assert(order@[i] == w as usize);
                    }
                    if order@.contains(w as usize) {
                        let i = choose|i: int| 0 <= i < order@.len() && order@[i] == w as usize;
                        assert(i < old_order.len());
                        assert(old_order[i] == w as usize);
                    }
                }
            }
            assert forall|k: int| 0 <= k < order@.len() implies ready_after(n as int, edges@, order@.take(k), #[trigger] order@[k] as int) by {
                if k < old_order.len() {
                    assert(order@[k] == old_order[k]);
                    assert(order@.take(k) == old_order.take(k));
                }
            }
            assert forall|k: int, w: int| 0 <= k < order@.len() && #[trigger] ready_after(n as int, edges@, order@.take(k), w) implies order@[k] <= w by {
                if k < old_order.len() {
                    assert(order@.take(k) == old_order.take(k));
                    assert(order@[k] == old_order[k]);
                    assert(ready_after(n as int, edges@, old_order.take(k), w));
                } else {
                    assert(ready_after(n as int, edges@, old_order, w));
                }
            }
        }
    }
    proof {
        law_greedy_order_respects_edges(n as int, edges@, order@);
    }
    Some(order)
}

/// Some module is named `id`.
pub open spec fn names_module(ids: Seq<String>, id: Seq<char>) -> bool {
    exists|i: int| 0 <= i < ids.len() && (#[trigger] ids[i])@ == id
}

/// `i` is the first module named `id`.
pub open spec fn first_module_at(ids: Seq<String>, id: Seq<char>, i: int) -> bool {
    &&& 0 <= i < ids.len()
    &&& ids[i]@ == id
    &&& forall|j: int| 0 <= j < i ==> (#[trigger] ids[j])@ != id
}

/// The index of the first module named `id` (when `names_module`).
pub open spec fn module_index_of(ids: Seq<String>, id: Seq<char>) -> int {
    choose|i: int| first_module_at(ids, id, i)
}

/// The ordering edges among the first `n` that name known modules, as
/// module indices, and the positions of those that do not, both in order.
pub open spec fn resolve_edges_upto(
    ids: Seq<String>,
    edges: Seq<(String, String)>,
    n: int,
) -> (Seq<(usize, usize)>, Seq<usize>)
    decreases n,
{
    if n <= 0 {
        (Seq::empty(), Seq::empty())
    } else {
        let (known, unknown) = resolve_edges_upto(ids, edges, n - 1);
        let e = edges[n - 1];
        if names_module(ids, e.0@) && names_module(ids, e.1@) {
            (
                known.push(
                    (module_index_of(ids, e.0@) as usize, module_index_of(ids, e.1@) as usize),
                ),
                unknown,
            )
        } else {
            (known, unknown.push((n - 1) as usize))
        }
    }
}

fn find_module(ids: &[String], id: &String) -> (r: Option<usize>)
    ensures
        r matches Some(i) ==> first_module_at(ids@, id@, i as int),
        r is None ==> !names_module(ids@, id@),
{
    let mut i: usize = 0;
    while i < ids.len()
        invariant
            i <= ids@.len(),
            forall|j: int| 0 <= j < i ==> (#[trigger] ids@[j])@ != id@,
        decreases ids@.len() - i,
    {
        if ids[i] == *id {
            return Some(i);
        }
        i = i + 1;
    }
    None
}

proof fn lemma_first_module_unique(ids: Seq<String>, id: Seq<char>, a: int)
    requires
        first_module_at(ids, id, a),
    ensures
        module_index_of(ids, id) == a,
{
    let b = module_index_of(ids, id);
    assert(first_module_at(ids, id, b));
    if b < a {
        assert(ids[b]@ == id);
    } else if a < b {
        assert(ids[a]@ == id);
    }
}

/// Resolve ordering edges `(before, after)` given by module id against the
/// registered modules: the edges between known modules as module indices,
/// and the positions of the edges that name an unknown module.
pub fn resolve_ordering_edges(ids: &[String], edges: &[(String, String)]) -> (r: (
    Vec<(usize, usize)>,
    Vec<usize>,
))
    ensures
        (r.0@, r.1@) == resolve_edges_upto(ids@, edges@, edges@.len() as int),
        edges_in_range(ids@.len() as int, r.0@),
{
    let mut known: Vec<(usize, usize)> = Vec::new();
    let mut unknown: Vec<usize> = Vec::new();
    let mut k: usize = 0;
    while k < edges.len()
        invariant
            k <= edges@.len(),
            (known@, unknown@) == resolve_edges_upto(ids@, edges@, k as int),
            edges_in_range(ids@.len() as int, known@),
        decreases edges@.len() - k,
    {
        let before = find_module(ids, &edges[k].0);
        let after = find_module(ids, &edges[k].1);
        match (before, after) {
            (Some(b), Some(a)) => {
                proof {
                    lemma_first_module_unique(ids@, edges@[k as int].0@, b as int);
                    lemma_first_module_unique(ids@, edges@[k as int].1@, a as int);
                }
                known.push((b, a));
            },
            _ => {
                unknown.push(k);
            },
        }
        k = k + 1;
    }
    (known, unknown)
}

/// Module ids in ascending byte order, when none repeats, are strictly ascending.
proof fn lemma_sorted_distinct_ascending(xs: Seq<Seq<char>>)
    requires
        xs.no_duplicates(),
    ensures
        forall|i: int, j: int| 0 <= i < j < sorted_texts(xs).len() ==> text_lt(#[trigger] sorted_texts(xs)[i], #[trigger] sorted_texts(xs)[j]),
{
    let leq = |a: Seq<char>, b: Seq<char>| text_leq(a, b);
    let s = sorted_texts(xs);
    lemma_text_leq_total();
    xs.lemma_sort_by_ensures(leq);
    xs.lemma_multiset_has_no_duplicates();
    assert(s.to_multiset() == xs.to_multiset());
    s.lemma_multiset_has_no_duplicates_conv();
    assert forall|i: int, j: int| 0 <= i < j < s.len() implies text_lt(#[trigger] s[i], #[trigger] s[j]) by {
        assert(leq(s[i], s[j]));
        assert(s[i] != s[j]);
    }
}

/// The registry's module order by id: the modules in ascending byte order
/// of their ids, and, unless the ordering edges between known modules form a
/// cycle, the order they run in. That order is the greedy one over the
/// ascending numbering: at every step the ready module with the smallest id,
/// each edge's `before` ahead of its `after`. Edges naming an unknown module
/// are left out (they are reported separately).
pub fn ordered_module_ids(ids: Vec<String>, edges: &[(String, String)]) -> (r: (Vec<String>, Option<(Vec<usize>, Vec<String>)>))
    ensures
        texts(r.0@) == sorted_texts(texts(ids@)),
        texts(ids@).no_duplicates() ==> forall|i: int, j: int|
            0 <= i < j < r.0@.len() ==> text_lt(#[trigger] r.0@[i]@, #[trigger] r.0@[j]@),
        ({
            let n = r.0@.len() as int;
            let known = resolve_edges_upto(r.0@, edges@, edges@.len() as int).0;
            &&& r.1 is None ==> forall|o: Seq<usize>| !respects_edges(n, known, o)
            &&& r.1 matches Some((ord, names)) ==> {
                &&& is_greedy_order(n, known, ord@)
                &&& respects_edges(n, known, ord@)
                &&& names@.len() == n
                &&& forall|k: int| 0 <= k < n ==> (#[trigger] names@[k])@ == r.0@[ord@[k] as int]@
                &&& texts(ids@).no_duplicates() ==> forall|k: int, v: int|
                    0 <= k < n && #[trigger] ready_after(n, known, ord@.take(k), v) && v != ord@[k]
                        ==> text_lt(r.0@[ord@[k] as int]@, r.0@[v]@)
            }
        }),
{
    let sorted = sort_strings(ids);
    let (known, _unknown) = resolve_ordering_edges(sorted.as_slice(), edges);
    let n = sorted.len();
    proof {
        if texts(ids@).no_duplicates() {
            lemma_sorted_distinct_ascending(texts(ids@));
            assert forall|i: int, j: int| 0 <= i < j < sorted@.len() implies text_lt(#[trigger] sorted@[i]@, #[trigger] sorted@[j]@) by {
                assert(texts(sorted@)[i] == sorted@[i]@);
                assert(texts(sorted@)[j] == sorted@[j]@);
            }
        }
    }
    match module_order(n, known.as_slice()) {
        None => (sorted, None),
        Some(order) => {
            let mut names: Vec<String> = Vec::new();
            let mut k: usize = 0;
            while k < order.len()
                invariant
                    k <= order@.len(),
                    order@.len() == n,
                    n == sorted@.len(),
                    forall|t: int| 0 <= t < order@.len() ==> #[trigger] order@[t] < n,
                    names@.len() == k,
                    forall|t: int| 0 <= t < k ==> (#[trigger] names@[t])@ == sorted@[order@[t] as int]@,
                decreases order@.len() - k,
            {
                names.push(sorted[order[k]].clone());
                k = k + 1;
            }
            proof {
                if texts(ids@).no_duplicates() {
                    let ts = texts(sorted@);
                    assert forall|i: int, j: int| 0 <= i < j < ts.len() implies text_lt(#[trigger] ts[i], #[trigger] ts[j]) by {
                        assert(ts[i] == sorted@[i]@ && ts[j] == sorted@[j]@);
                    }
                    law_greedy_order_takes_smallest_id(ts, known@, order@);
                    assert forall|k: int, v: int|
                        0 <= k < n && #[trigger] ready_after(n as int, known@, order@.take(k), v) && v != order@[k]
                            implies text_lt(sorted@[order@[k] as int]@, sorted@[v]@) by {
                        assert(ready_after(n as int, known@, order@.take(k), order@[k] as int));
                        assert(ts[order@[k] as int] == sorted@[order@[k] as int]@);
                        assert(ts[v] == sorted@[v]@);
                    }
                }
            }
            (sorted, Some((order, names)))
        },
    }
}

/// The provider identity a module manifest declares.
#[derive(Debug, Clone, PartialEq, Eq)]
pub struct ModuleProviderRef {
    pub module_id: String,
    pub provider_id: String,
    pub version: String,
    pub contract_hash: String,
    pub artifact_hash: String,
    pub sdk_hash: String,
    pub source_hash: String,
}

/// A problem with the provider link of one module.
#[derive(Debug, Clone, Copy, PartialEq, Eq, Structural)]
pub enum ProviderLinkDiagnostic {
    /// No linked provider has the id that `modules[index]` names.
    MissingProvider { index: usize },
    /// The linked provider of `modules[index]` disagrees with its manifest.
    ProviderManifestMismatch { index: usize },
}

/// The provider registered last under `id`, the one a registry keyed by
/// provider id keeps.
pub open spec fn last_provider_at(ps: Seq<GameplayLinkedProvider>, id: Seq<char>, i: int) -> bool {
    &&& 0 <= i < ps.len()
    &&& ps[i].provider_id@ == id
    &&& forall|j: int| i < j < ps.len() ==> (#[trigger] ps[j]).provider_id@ != id
}

/// Some provider is registered under `id`.
pub open spec fn has_provider(ps: Seq<GameplayLinkedProvider>, id: Seq<char>) -> bool {
    exists|i: int| 0 <= i < ps.len() && (#[trigger] ps[i]).provider_id@ == id
}

pub open spec fn last_provider(ps: Seq<GameplayLinkedProvider>, id: Seq<char>) -> int {
    choose|i: int| last_provider_at(ps, id, i)
}

/// The provider matches the module's manifest in every identity field.
pub open spec fn provider_matches(p: GameplayLinkedProvider, m: ModuleProviderRef) -> bool {
    &&& p.module_id@ == m.module_id@
    &&& p.version@ == m.version@
    &&& p.contract_hash@ == m.contract_hash@
    &&& p.artifact_hash@ == m.artifact_hash@
    &&& p.sdk_hash@ == m.sdk_hash@
    &&& p.source_hash@ == m.source_hash@
}

/// The link diagnostics of the first `n` modules, in order.
pub open spec fn link_diagnostics_upto(
    ms: Seq<ModuleProviderRef>,
    ps: Seq<GameplayLinkedProvider>,
    n: int,
) -> Seq<ProviderLinkDiagnostic>
    decreases n,
{
    if n <= 0 {
        Seq::empty()
    } else {
        let rest = link_diagnostics_upto(ms, ps, n - 1);
        let m = ms[n - 1];
        if !has_provider(ps, m.provider_id@) {
            rest.push(ProviderLinkDiagnostic::MissingProvider { index: (n - 1) as usize })
        } else if !provider_matches(ps[last_provider(ps, m.provider_id@)], m) {
            rest.push(ProviderLinkDiagnostic::ProviderManifestMismatch { index: (n - 1) as usize })
        } else {
            rest
        }
    }
}

fn find_last_provider(providers: &[GameplayLinkedProvider], id: &String) -> (r: Option<usize>)
    ensures
        r matches Some(i) ==> last_provider_at(providers@, id@, i as int),
        r is None ==> !has_provider(providers@, id@),
{
    let mut i: usize = providers.len();
    while i > 0
        invariant
            i <= providers@.len(),
            forall|j: int| i <= j < providers@.len() ==> (#[trigger] providers@[j]).provider_id@ != id@,
        decreases i,
    {
        if providers[i - 1].provider_id == *id {
            return Some(i - 1);
        }
        i = i - 1;
    }
    None
}

/// Check that every module's provider is linked and matches the module's
/// manifest: a missing provider, else a mismatching one, per module in order.
pub fn provider_link_diagnostics(
    modules: &[ModuleProviderRef],
    providers: &[GameplayLinkedProvider],
) -> (r: Vec<ProviderLinkDiagnostic>)
    ensures
        r@ == link_diagnostics_upto(modules@, providers@, modules@.len() as int),
{
    let mut r: Vec<ProviderLinkDiagnostic> = Vec::new();
    let mut k: usize = 0;
    while k < modules.len()
        invariant
            k <= modules@.len(),
            r@ == link_diagnostics_upto(modules@, providers@, k as int),
        decreases modules@.len() - k,
    {
        let m = &modules[k];
        match find_last_provider(providers, &m.provider_id) {
            None => {
                r.push(ProviderLinkDiagnostic::MissingProvider { index: k });
            },
            Some(i) => {
                proof {
                    let j = last_provider(providers@, m.provider_id@);
                    assert(last_provider_at(providers@, m.provider_id@, j));
                    if j < i {
                        assert(providers@[i as int].provider_id@ == m.provider_id@);
                    } else if i < j {
                        assert(providers@[j].provider_id@ == m.provider_id@);
                    }
                }
                if !providers[i].matches_module(
                    &m.module_id,
                    &m.version,
                    &m.contract_hash,
                    &m.artifact_hash,
                    &m.sdk_hash,
                    &m.source_hash,
                ) {
                    r.push(ProviderLinkDiagnostic::ProviderManifestMismatch { index: k });
                }
            },
        }
        k = k + 1;
    }
    r
}

/// What is wrong with a contract's identity: its namespace or name is not
/// well formed (first), or its version is zero or its schema hash is not a
/// hash label (second).
pub fn contract_identity_problems(
    namespace: &str,
    name: &str,
    version: u32,
    schema_hash: &str,
) -> (r: (bool, bool))
    ensures
        r.0 == !(is_namespace_bytes(namespace.spec_bytes()) && is_kebab(name.spec_bytes())),
        r.1 == (version == 0 || !is_hash_bytes(schema_hash.spec_bytes())),
{
    let bad_name = !(is_namespace(namespace) && is_kebab_segment(name));
    let bad_version = version == 0 || !is_hash(schema_hash);
    (bad_name, bad_version)
}

/// The identity a module manifest declares, and its execution budget
/// (waves, events, proposals and invocations per root, payload bytes per
/// root).
#[derive(Debug, Clone, PartialEq, Eq)]
pub struct ModuleIdentity {
    pub module_id: String,
    pub provider_id: String,
    pub namespace: String,
    pub version: String,
    pub sdk_hash: String,
    pub contract_hash: String,
    pub artifact_hash: String,
    pub source_hash: String,
    pub budget: [u32; 5],
}

/// A problem with one module manifest.
#[derive(Debug, Clone, Copy, PartialEq, Eq, Structural)]
pub enum ModuleDiagnostic {
    InvalidModuleId { index: usize },
    InvalidProviderId { index: usize },
    InvalidNamespace { index: usize },
    InvalidVersion { index: usize },
    DuplicateModule { index: usize },
    InvalidHashes { index: usize },
    InvalidBudget { index: usize },
}

pub open spec fn utf8(s: String) -> Seq<u8> {
    vstd::utf8::encode_utf8(s@)
}

/// Some module before `i` has the id of module `i`.
pub open spec fn module_id_seen(ms: Seq<ModuleIdentity>, i: int) -> bool {
    exists|j: int| 0 <= j < i && (#[trigger] ms[j]).module_id@ == ms[i].module_id@
}

pub open spec fn hashes_ok(m: ModuleIdentity) -> bool {
    &&& is_hash_bytes(utf8(m.sdk_hash))
    &&& is_hash_bytes(utf8(m.contract_hash))
    &&& is_hash_bytes(utf8(m.artifact_hash))
    &&& is_hash_bytes(utf8(m.source_hash))
}

pub open spec fn budget_ok(m: ModuleIdentity) -> bool {
    forall|k: int| 0 <= k < 5 ==> #[trigger] m.budget[k] > 0
}

pub open spec fn flag(b: bool, d: ModuleDiagnostic) -> Seq<ModuleDiagnostic> {
    if b {
        seq![d]
    } else {
        Seq::empty()
    }
}

/// The diagnostics of module `i`, in check order.
pub open spec fn module_diagnostics_at(ms: Seq<ModuleIdentity>, i: int) -> Seq<ModuleDiagnostic> {
    let m = ms[i];
    let x = i as usize;
    flag(!is_namespace_bytes(utf8(m.module_id)), ModuleDiagnostic::InvalidModuleId { index: x })
        + flag(!is_namespace_bytes(utf8(m.provider_id)), ModuleDiagnostic::InvalidProviderId { index: x })
        + flag(!is_namespace_bytes(utf8(m.namespace)), ModuleDiagnostic::InvalidNamespace { index: x })
        + flag(!(m.version@.len() > 0 && has_no_white_space(m.version@)), ModuleDiagnostic::InvalidVersion { index: x })
        + flag(module_id_seen(ms, i), ModuleDiagnostic::DuplicateModule { index: x })
        + flag(!hashes_ok(m), ModuleDiagnostic::InvalidHashes { index: x })
        + flag(!budget_ok(m), ModuleDiagnostic::InvalidBudget { index: x })
}

pub open spec fn module_diagnostics_upto(ms: Seq<ModuleIdentity>, n: int) -> Seq<ModuleDiagnostic>
    decreases n,
{
    if n <= 0 {
        Seq::empty()
    } else {
        module_diagnostics_upto(ms, n - 1) + module_diagnostics_at(ms, n - 1)
    }
}

fn module_id_seen_exec(modules: &[ModuleIdentity], i: usize) -> (r: bool)
    requires
        i < modules@.len(),
    ensures
        r == module_id_seen(modules@, i as int),
{
    let mut j: usize = 0;
    while j < i
        invariant
            j <= i < modules@.len(),
            forall|t: int| 0 <= t < j ==> (#[trigger] modules@[t]).module_id@ != modules@[i as int].module_id@,
        decreases i - j,
    {
        if modules[j].module_id == modules[i].module_id {
            return true;
        }
        j = j + 1;
    }
    false
}

fn push_if(r: &mut Vec<ModuleDiagnostic>, cond: bool, d: ModuleDiagnostic)
    ensures
        final(r)@ == old(r)@ + flag(cond, d),
{
    if cond {
        r.push(d);
    }
    assert(r@ =~= old(r)@ + flag(cond, d));
}

/// The diagnostics of module `i`, in check order.
fn diagnostics_of_module(modules: &[ModuleIdentity], i: usize) -> (r: Vec<ModuleDiagnostic>)
    requires
        i < modules@.len(),
    ensures
        r@ == module_diagnostics_at(modules@, i as int),
{
    let m = &modules[i];
    let ghost mi = modules@[i as int];
    let mut r: Vec<ModuleDiagnostic> = Vec::new();
    push_if(&mut r, !is_stable_id(m.module_id.as_str()), ModuleDiagnostic::InvalidModuleId { index: i });
    push_if(&mut r, !is_stable_id(m.provider_id.as_str()), ModuleDiagnostic::InvalidProviderId { index: i });
    push_if(&mut r, !is_namespace(m.namespace.as_str()), ModuleDiagnostic::InvalidNamespace { index: i });
    push_if(&mut r, !is_version(m.version.as_str()), ModuleDiagnostic::InvalidVersion { index: i });
    push_if(&mut r, module_id_seen_exec(modules, i), ModuleDiagnostic::DuplicateModule { index: i });
    let hashes = is_hash(m.sdk_hash.as_str()) && is_hash(m.contract_hash.as_str()) && is_hash(
        m.artifact_hash.as_str(),
    ) && is_hash(m.source_hash.as_str());
    push_if(&mut r, !hashes, ModuleDiagnostic::InvalidHashes { index: i });
    let b = m.budget;
    let budget = b[0] > 0 && b[1] > 0 && b[2] > 0 && b[3] > 0 && b[4] > 0;
    proof {
        assert(budget_ok(mi) <==> budget) by {
            if budget {
                assert forall|k: int| 0 <= k < 5 implies #[trigger] mi.budget[k] > 0 by {
                    assert(k == 0 || k == 1 || k == 2 || k == 3 || k == 4);
                }
            }
        }
    }
    push_if(&mut r, !budget, ModuleDiagnostic::InvalidBudget { index: i });
    r
}

/// Check the module manifests: each module's ids, namespace, version,
/// uniqueness, hashes and budget, in list order.
pub fn module_diagnostics(modules: &[ModuleIdentity]) -> (r: Vec<ModuleDiagnostic>)
    ensures
        r@ == module_diagnostics_upto(modules@, modules@.len() as int),
{
    let mut r: Vec<ModuleDiagnostic> = Vec::new();
    let mut i: usize = 0;
    while i < modules.len()
        invariant
            i <= modules@.len(),
            r@ == module_diagnostics_upto(modules@, i as int),
        decreases modules@.len() - i,
    {
        let mut d = diagnostics_of_module(modules, i);
        r.append(&mut d);
        i = i + 1;
    }
    r
}

/// What the owner registrations of one declared contract come to.
#[derive(Debug, Clone, Copy, PartialEq, Eq, Structural)]
pub enum OwnerVerdict {
    /// Exactly one registration, and it names the declared contract and owner.
    Exact,
    /// No registration.
    Missing,
    /// More than one registration.
    Multiple,
    /// One registration, for another contract or owner.
    Mismatch,
}

/// Judge the owner registrations of a declared contract, given for each
/// registration under its key whether it names exactly the declared
/// contract and owner.
pub fn exact_owner_verdict(matches: &[bool]) -> (r: OwnerVerdict)
    ensures
        matches@.len() == 0 ==> r == OwnerVerdict::Missing,
        matches@.len() > 1 ==> r == OwnerVerdict::Multiple,
        matches@.len() == 1 ==> r == (if matches@[0] {
            OwnerVerdict::Exact
        } else {
            OwnerVerdict::Mismatch
        }),
{
    if matches.len() == 0 {
        OwnerVerdict::Missing
    } else if matches.len() != 1 {
        OwnerVerdict::Multiple
    } else if matches[0] {
        OwnerVerdict::Exact
    } else {
        OwnerVerdict::Mismatch
    }
}

// ---------------------------------------------------------------------------
// Canonical order of registry diagnostics.

/// A registry diagnostic as the canonical order reads it: its path, the
/// rank of its code (the code's place in declaration order) and its message.
#[derive(Debug, Clone, PartialEq, Eq)]
pub struct RegistryDiagnostic {
    pub path: String,
    pub code_rank: u32,
    pub message: String,
}

pub open spec fn diag_view(d: RegistryDiagnostic) -> (Seq<char>, u32, Seq<char>) {
    (d.path@, d.code_rank, d.message@)
}

pub open spec fn diag_views(ds: Seq<RegistryDiagnostic>) -> Seq<(Seq<char>, u32, Seq<char>)> {
    ds.map_values(|d: RegistryDiagnostic| diag_view(d))
}

/// Diagnostics are ordered by path, then code, then message.
pub open spec fn diag_leq(a: (Seq<char>, u32, Seq<char>), b: (Seq<char>, u32, Seq<char>)) -> bool {
    ||| a.0 != b.0 && text_leq(a.0, b.0)
    ||| a.0 == b.0 && a.1 < b.1
    ||| a.0 == b.0 && a.1 == b.1 && text_leq(a.2, b.2)
}

/// The diagnostics in canonical order.
pub open spec fn sorted_diagnostics(xs: Seq<(Seq<char>, u32, Seq<char>)>) -> Seq<(Seq<char>, u32, Seq<char>)> {
    xs.sort_by(|a: (Seq<char>, u32, Seq<char>), b: (Seq<char>, u32, Seq<char>)| diag_leq(a, b))
}

proof fn lemma_diag_leq_total()
    ensures
        total_ordering(|a: (Seq<char>, u32, Seq<char>), b: (Seq<char>, u32, Seq<char>)| diag_leq(a, b)),
{
    let leq = |a: (Seq<char>, u32, Seq<char>), b: (Seq<char>, u32, Seq<char>)| diag_leq(a, b);
    let tl = |a: Seq<char>, b: Seq<char>| text_leq(a, b);
    lemma_text_leq_total();
    assert forall|x: (Seq<char>, u32, Seq<char>)| #[trigger] leq(x, x) by {
        assert(tl(x.2, x.2));
    }
    assert forall|x: (Seq<char>, u32, Seq<char>), y: (Seq<char>, u32, Seq<char>)|
        #[trigger] leq(x, y) && #[trigger] leq(y, x) implies x == y by {
        assert(tl(x.0, y.0) ==> (tl(y.0, x.0) ==> x.0 == y.0));
        assert(tl(x.2, y.2) ==> (tl(y.2, x.2) ==> x.2 == y.2));
    }
    assert forall|x: (Seq<char>, u32, Seq<char>), y: (Seq<char>, u32, Seq<char>), z: (Seq<char>, u32, Seq<char>)|
        #[trigger] leq(x, y) && #[trigger] leq(y, z) implies leq(x, z) by {
        assert(tl(x.0, y.0) && tl(y.0, z.0) ==> tl(x.0, z.0));
        assert(tl(x.2, y.2) && tl(y.2, z.2) ==> tl(x.2, z.2));
        assert(tl(x.0, y.0) && tl(y.0, x.0) ==> x.0 == y.0);
        assert(tl(y.0, z.0) && tl(z.0, y.0) ==> y.0 == z.0);
        assert(tl(x.0, z.0) && tl(z.0, x.0) ==> x.0 == z.0);
    }
    assert forall|x: (Seq<char>, u32, Seq<char>), y: (Seq<char>, u32, Seq<char>)|
        #[trigger] leq(x, y) || #[trigger] leq(y, x) by {
        assert(tl(x.0, y.0) || tl(y.0, x.0));
        assert(tl(x.2, y.2) || tl(y.2, x.2));
    }
}

/// `a` comes strictly before `b`.
fn diag_less(a: &RegistryDiagnostic, b: &RegistryDiagnostic) -> (r: bool)
    ensures
        r ==> diag_leq(diag_view(*a), diag_view(*b)) && diag_view(*a) != diag_view(*b),
        !r ==> diag_leq(diag_view(*b), diag_view(*a)),
{
    proof {
        lemma_diag_leq_total();
        lemma_bytes_lt_irreflexive(encode_utf8(a.path@));
        lemma_bytes_lt_irreflexive(encode_utf8(a.message@));
        let leq = |a: (Seq<char>, u32, Seq<char>), b: (Seq<char>, u32, Seq<char>)| diag_leq(a, b);
        assert(leq(diag_view(*a), diag_view(*b)) || leq(diag_view(*b), diag_view(*a)));
    }
    if a.path != b.path {
        let r = text_less(&a.path, &b.path);
        proof {
            let tl = |x: Seq<char>, y: Seq<char>| text_leq(x, y);
            lemma_text_leq_total();
            assert(tl(a.path@, b.path@) || tl(b.path@, a.path@));
        }
        return r;
    }
    if a.code_rank != b.code_rank {
        return a.code_rank < b.code_rank;
    }
    let r = text_less(&a.message, &b.message);
    proof {
        let tl = |x: Seq<char>, y: Seq<char>| text_leq(x, y);
        lemma_text_leq_total();
        assert(tl(a.message@, b.message@) || tl(b.message@, a.message@));
    }
    r
}

/// The diagnostics in canonical order: by path, then code, then message.
pub fn canonicalize_diagnostics(v: Vec<RegistryDiagnostic>) -> (r: Vec<RegistryDiagnostic>)
    ensures
        diag_views(r@) == sorted_diagnostics(diag_views(v@)),
{
    let ghost leq = |a: (Seq<char>, u32, Seq<char>), b: (Seq<char>, u32, Seq<char>)| diag_leq(a, b);
    let ghost input = diag_views(v@);
    let mut src = v;
    let mut out: Vec<RegistryDiagnostic> = Vec::new();
    proof {
        broadcast use vstd::seq_lib::group_to_multiset_ensures;
        lemma_diag_leq_total();
        assert(diag_views(out@) =~= Seq::<(Seq<char>, u32, Seq<char>)>::empty());
        assert(diag_views(out@).to_multiset().add(diag_views(src@).to_multiset()) =~= input.to_multiset());
    }
    while src.len() > 0
        invariant
            leq == (|a: (Seq<char>, u32, Seq<char>), b: (Seq<char>, u32, Seq<char>)| diag_leq(a, b)),
            total_ordering(leq),
            sorted_by(diag_views(out@), leq),
            diag_views(out@).to_multiset().add(diag_views(src@).to_multiset()) == input.to_multiset(),
        decreases src@.len(),
    {
        let ghost src0 = diag_views(src@);
        let ghost out0 = diag_views(out@);
        let x = src.pop().unwrap();
        proof {
            assert(src0 =~= diag_views(src@).push(diag_view(x)));
            vstd::seq_lib::to_multiset_build(diag_views(src@), diag_view(x));
        }
        let mut p: usize = 0;
        while p < out.len() && diag_less(&out[p], &x)
            invariant
                p <= out@.len(),
                out0 == diag_views(out@),
                forall|t: int| 0 <= t < p ==> diag_leq(#[trigger] out0[t], diag_view(x)),
            decreases out@.len() - p,
        {
            assert(out0[p as int] == diag_view(out@[p as int]));
            p = p + 1;
        }
        proof {
            if p < out@.len() {
                assert(out0[p as int] == diag_view(out@[p as int]));
            }
        }
        out.insert(p, x);
        proof {
            let o = diag_views(out@);
            assert(o =~= out0.insert(p as int, diag_view(x)));
            vstd::seq_lib::to_multiset_insert(out0, p as int, diag_view(x));
            assert forall|i: int, j: int| 0 <= i < j < o.len() implies #[trigger] leq(o[i], o[j]) by {
                if j < p {
                    assert(o[i] == out0[i] && o[j] == out0[j]);
                } else if j == p {
                    assert(o[i] == out0[i]);
                } else if i == p {
                    assert(o[j] == out0[j - 1]);
                    assert(leq(diag_view(x), out0[p as int]));
                    assert(leq(out0[p as int], out0[j - 1]));
                } else if i < p {
                    assert(o[i] == out0[i] && o[j] == out0[j - 1]);
                } else {
                    assert(o[i] == out0[i - 1] && o[j] == out0[j - 1]);
                }
            }
            assert(o.to_multiset().add(diag_views(src@).to_multiset()) =~= input.to_multiset());
        }
    }
    proof {
        broadcast use vstd::seq_lib::group_to_multiset_ensures;
        assert(diag_views(src@) =~= Seq::<(Seq<char>, u32, Seq<char>)>::empty());
        assert(diag_views(out@).to_multiset() =~= input.to_multiset());
        input.lemma_sort_by_ensures(leq);
        vstd::seq_lib::lemma_sorted_unique(diag_views(out@), input.sort_by(leq), leq);
    }
    out
}

} // verus!
