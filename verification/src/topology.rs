//! The canonical topology dump of a gameplay fabric registry: one line per
//! declaration, lines sorted by bytes and joined by newlines. The registry
//! digest is taken over this text.
//!
//! Contract keys, read-view kinds, selector capabilities and invocation
//! families arrive already rendered as text.

use vstd::prelude::*;
use vstd::relations::{sorted_by, total_ordering};
use vstd::utf8::{decode_utf8, encode_utf8, encode_utf8_decode_utf8};
use crate::fabric_filter::{
    bytes_less, bytes_lt, lemma_bytes_lt_asymmetric, lemma_bytes_lt_irreflexive, lemma_bytes_lt_total,
    lemma_bytes_lt_transitive,
};
use crate::text::{dec_digits, fnv_label_text, push_dec};
use crate::fabric_codec::stable_digest;
use crate::fnv::{fnv_bytes, FNV_OFFSET};

verus! {

// ---------------------------------------------------------------------------
// Text order, sorting and joining.

/// Byte order of UTF-8 text, as `Ord` on `String` compares.
pub open spec fn text_leq(a: Seq<char>, b: Seq<char>) -> bool {
    a == b || bytes_lt(encode_utf8(a), encode_utf8(b))
}

pub open spec fn texts(v: Seq<String>) -> Seq<Seq<char>> {
    v.map_values(|s: String| s@)
}

/// The texts in byte order.
pub open spec fn sorted_texts(xs: Seq<Seq<char>>) -> Seq<Seq<char>> {
    xs.sort_by(|a: Seq<char>, b: Seq<char>| text_leq(a, b))
}

/// The texts joined by `sep`.
pub open spec fn join_with(xs: Seq<Seq<char>>, sep: Seq<char>) -> Seq<char>
    decreases xs.len(),
{
    if xs.len() == 0 {
        Seq::empty()
    } else if xs.len() == 1 {
        xs[0]
    } else {
        join_with(xs.drop_last(), sep) + sep + xs.last()
    }
}

/// The texts sorted and joined by commas.
pub open spec fn sorted_list(xs: Seq<Seq<char>>) -> Seq<char> {
    join_with(sorted_texts(xs), ","@)
}

pub proof fn lemma_text_leq_total()
    ensures
        total_ordering(|a: Seq<char>, b: Seq<char>| text_leq(a, b)),
{
    let leq = |a: Seq<char>, b: Seq<char>| text_leq(a, b);
    assert forall|x: Seq<char>| #[trigger] leq(x, x) by {}
    assert forall|x: Seq<char>, y: Seq<char>| #[trigger] leq(x, y) && #[trigger] leq(y, x) implies x == y by {
        lemma_bytes_lt_asymmetric(encode_utf8(x), encode_utf8(y));
    }
    assert forall|x: Seq<char>, y: Seq<char>, z: Seq<char>| #[trigger] leq(x, y) && #[trigger] leq(y, z) implies leq(x, z) by {
        if x != y && y != z {
            lemma_bytes_lt_transitive(encode_utf8(x), encode_utf8(y), encode_utf8(z));
        }
    }
    assert forall|x: Seq<char>, y: Seq<char>| #[trigger] leq(x, y) || #[trigger] leq(y, x) by {
        lemma_bytes_lt_total(encode_utf8(x), encode_utf8(y));
        if encode_utf8(x) == encode_utf8(y) {
            encode_utf8_decode_utf8(x);
            encode_utf8_decode_utf8(y);
        }
    }
}

proof fn lemma_sorted_is_sorted_texts(s: Seq<Seq<char>>, xs: Seq<Seq<char>>)
    requires
        sorted_by(s, |a: Seq<char>, b: Seq<char>| text_leq(a, b)),
        s.to_multiset() == xs.to_multiset(),
    ensures
        s == sorted_texts(xs),
{
    let leq = |a: Seq<char>, b: Seq<char>| text_leq(a, b);
    lemma_text_leq_total();
    xs.lemma_sort_by_ensures(leq);
    vstd::seq_lib::lemma_sorted_unique(s, xs.sort_by(leq), leq);
}

pub(crate) fn text_less(a: &String, b: &String) -> (r: bool)
    ensures
        r == bytes_lt(encode_utf8(a@), encode_utf8(b@)),
{
    bytes_less(a.as_str().as_bytes(), b.as_str().as_bytes())
}

/// The strings in byte order.
pub fn sort_strings(v: Vec<String>) -> (r: Vec<String>)
    ensures
        texts(r@) == sorted_texts(texts(v@)),
{
    let ghost leq = |a: Seq<char>, b: Seq<char>| text_leq(a, b);
    let ghost input = texts(v@);
    let mut src = v;
    let mut out: Vec<String> = Vec::new();
    proof {
        broadcast use vstd::seq_lib::group_to_multiset_ensures;
        lemma_text_leq_total();
        assert(texts(out@) =~= Seq::<Seq<char>>::empty());
        assert(texts(out@).to_multiset().add(texts(src@).to_multiset()) =~= input.to_multiset());
    }
    while src.len() > 0
        invariant
            leq == (|a: Seq<char>, b: Seq<char>| text_leq(a, b)),
            total_ordering(leq),
            sorted_by(texts(out@), leq),
            texts(out@).to_multiset().add(texts(src@).to_multiset()) == input.to_multiset(),
        decreases src@.len(),
    {
        let ghost src0 = texts(src@);
        let ghost out0 = texts(out@);
        let x = src.pop().unwrap();
        proof {
            assert(src0 =~= texts(src@).push(x@));
            vstd::seq_lib::to_multiset_build(texts(src@), x@);
        }
        // First position whose text is not below x.
        let mut p: usize = 0;
        while p < out.len() && text_less(&out[p], &x)
            invariant
                p <= out@.len(),
                out0 == texts(out@),
                forall|t: int| 0 <= t < p ==> bytes_lt(encode_utf8(#[trigger] out0[t]), encode_utf8(x@)),
            decreases out@.len() - p,
        {
            p = p + 1;
        }
        proof {
            if p < out@.len() {
                lemma_bytes_lt_total(encode_utf8(out0[p as int]), encode_utf8(x@));
                if encode_utf8(out0[p as int]) == encode_utf8(x@) {
                    encode_utf8_decode_utf8(out0[p as int]);
                    encode_utf8_decode_utf8(x@);
                }
            }
        }
        out.insert(p, x);
        proof {
            let o = texts(out@);
            assert(o =~= out0.insert(p as int, x@));
            vstd::seq_lib::to_multiset_insert(out0, p as int, x@);
            assert forall|i: int, j: int| 0 <= i < j < o.len() implies #[trigger] leq(o[i], o[j]) by {
                if j < p {
                    assert(o[i] == out0[i] && o[j] == out0[j]);
                } else if j == p {
                    assert(o[i] == out0[i]);
                } else if i == p {
                    assert(o[j] == out0[j - 1]);
                    assert(leq(x@, out0[p as int]));
                    assert(leq(out0[p as int], out0[j - 1]));
                } else if i < p {
                    assert(o[i] == out0[i] && o[j] == out0[j - 1]);
                } else {
                    assert(o[i] == out0[i - 1] && o[j] == out0[j - 1]);
                }
            }
            assert(o.to_multiset().add(texts(src@).to_multiset()) =~= input.to_multiset());
        }
    }
    proof {
        broadcast use vstd::seq_lib::group_to_multiset_ensures;
        assert(texts(src@) =~= Seq::<Seq<char>>::empty());
        assert(texts(src@).to_multiset() =~= vstd::multiset::Multiset::empty());
        assert(texts(out@).to_multiset() =~= input.to_multiset());
        lemma_sorted_is_sorted_texts(texts(out@), input);
    }
    out
}

/// Append the texts joined by `sep`.
pub fn push_joined(out: &mut String, xs: &Vec<String>, sep: &str)
    ensures
        final(out)@ == old(out)@ + join_with(texts(xs@), sep@),
{
    let ghost start = out@;
    let mut i: usize = 0;
    while i < xs.len()
        invariant
            i <= xs@.len(),
            out@ == start + join_with(texts(xs@.take(i as int)), sep@),
        decreases xs@.len() - i,
    {
        let ghost t = texts(xs@.take(i + 1));
        assert(t.drop_last() =~= texts(xs@.take(i as int)));
        assert(t.last() == xs@[i as int]@);
        if i > 0 {
            out.append(sep);
        }
        out.append(xs[i].as_str());
        proof {
            if i == 0 {
                assert(t.len() == 1);
                assert(texts(xs@.take(0)) =~= Seq::<Seq<char>>::empty());
            }
            assert(out@ =~= start + join_with(t, sep@));
        }
        i = i + 1;
    }
    assert(xs@.take(i as int) =~= xs@);
}

// ---------------------------------------------------------------------------
// What the dump reads.

/// A contract as the dump shows it: its key and its schema hash.
#[derive(Debug, Clone, PartialEq, Eq)]
pub struct ContractText {
    pub key: String,
    pub schema_hash: String,
}

#[derive(Debug, Clone, Copy, PartialEq, Eq, Structural)]
pub struct TopologyBudget {
    pub max_waves: u32,
    pub max_events_per_root: u32,
    pub max_proposals_per_root: u32,
    pub max_invocations_per_root: u32,
    pub max_payload_bytes_per_root: u32,
}

#[derive(Debug, Clone, PartialEq, Eq)]
pub struct TopologyRead {
    pub request_id: String,
    pub view: ContractText,
}

#[derive(Debug, Clone, PartialEq, Eq)]
pub struct TopologyInvocation {
    pub invocation_id: String,
    pub family: String,
    pub input: ContractText,
    pub output: ContractText,
    pub reads: Vec<TopologyRead>,
    pub max_outputs: u32,
    pub max_payload_bytes: u32,
}

/// A subscription; `source` and `target` are the selector's entity ids.
#[derive(Debug, Clone, PartialEq, Eq)]
pub struct TopologySubscription {
    pub subscription_id: String,
    pub event_key: String,
    pub invocation_id: String,
    pub max_deliveries_per_root: u32,
    pub source: Option<u64>,
    pub target: Option<u64>,
    pub scope: Option<String>,
    pub required_tags: Vec<String>,
}

/// A read view a module requires, or one a provider registers.
#[derive(Debug, Clone, PartialEq, Eq)]
pub struct TopologyReadView {
    pub view_key: String,
    pub provider_id: String,
    pub kind: String,
    pub max_items: u32,
    pub fields: Vec<String>,
    pub selectors: Vec<String>,
}

/// An owned declaration: the schema or proposal key, its hash, and its owner.
#[derive(Debug, Clone, PartialEq, Eq)]
pub struct TopologyOwned {
    pub contract: ContractText,
    pub owner_id: String,
    pub provider_id: String,
}

#[derive(Debug, Clone, PartialEq, Eq)]
pub struct TopologyOrdering {
    pub before_module: String,
    pub after_module: String,
}

/// An event a module publishes: its key and codec.
#[derive(Debug, Clone, PartialEq, Eq)]
pub struct TopologyPublished {
    pub event_key: String,
    pub codec_id: String,
}

/// One module manifest, as the dump and the readout read it.
#[derive(Debug, Clone, PartialEq, Eq)]
pub struct TopologyModule {
    pub module_id: String,
    pub namespace: String,
    pub version: String,
    pub provider_id: String,
    pub sdk_hash: String,
    pub contract_hash: String,
    pub artifact_hash: String,
    pub source_hash: String,
    pub budget: TopologyBudget,
    pub deterministic_requirements: Vec<String>,
    pub published_events: Vec<TopologyPublished>,
    pub invocations: Vec<TopologyInvocation>,
    pub subscriptions: Vec<TopologySubscription>,
    pub read_views: Vec<TopologyReadView>,
    pub state_schemas: Vec<TopologyOwned>,
    pub fact_schemas: Vec<TopologyOwned>,
    pub proposal_kinds: Vec<TopologyOwned>,
    pub ordering: Vec<TopologyOrdering>,
}

/// A published event: its key, the publishing module, its schema hash and
/// codec.
#[derive(Debug, Clone, PartialEq, Eq)]
pub struct TopologyEvent {
    pub key: String,
    pub publisher: String,
    pub schema_hash: String,
    pub codec_id: String,
}

/// A registered view provider, with its ordering.
#[derive(Debug, Clone, PartialEq, Eq)]
pub struct TopologyViewProvider {
    pub view: TopologyReadView,
    pub ordering: String,
}

/// Everything the dump reads: the modules, the events, and the registered
/// proposal owners, view providers and state owners.
#[derive(Debug, Clone, PartialEq, Eq)]
pub struct TopologyFacts {
    pub modules: Vec<TopologyModule>,
    pub events: Vec<TopologyEvent>,
    pub proposal_owners: Vec<TopologyOwned>,
    pub view_providers: Vec<TopologyViewProvider>,
    pub state_owners: Vec<TopologyOwned>,
}

// ---------------------------------------------------------------------------
// The lines.

pub open spec fn num(x: u32) -> Seq<char> {
    dec_digits(x as nat)
}

/// An entity id, or `-`.
pub open spec fn entity_text(e: Option<u64>) -> Seq<char> {
    match e {
        Some(id) => dec_digits(id as nat),
        None => "-"@,
    }
}

pub open spec fn contract_text(c: ContractText) -> Seq<char> {
    c.key@ + "@"@ + c.schema_hash@
}

pub open spec fn module_line(m: TopologyModule, include_provenance: bool) -> Seq<char> {
    let base = "module "@ + m.module_id@ + " namespace="@ + m.namespace@ + " version="@ + m.version@
        + " provider="@ + m.provider_id@ + " sdk="@ + m.sdk_hash@ + " contract="@ + m.contract_hash@;
    if include_provenance {
        base + " artifact="@ + m.artifact_hash@ + " source="@ + m.source_hash@
    } else {
        base
    }
}

pub open spec fn budget_line(m: TopologyModule) -> Seq<char> {
    "budget module="@ + m.module_id@ + " waves="@ + num(m.budget.max_waves) + " events="@
        + num(m.budget.max_events_per_root) + " proposals="@ + num(m.budget.max_proposals_per_root)
        + " invocations="@ + num(m.budget.max_invocations_per_root) + " payloadBytes="@
        + num(m.budget.max_payload_bytes_per_root)
}

pub open spec fn determinism_line(m: TopologyModule) -> Seq<char> {
    "determinism module="@ + m.module_id@ + " requirements="@ + sorted_list(texts(m.deterministic_requirements@))
}

pub open spec fn read_text(r: TopologyRead) -> Seq<char> {
    r.request_id@ + "="@ + contract_text(r.view)
}

pub open spec fn invocation_line(m: TopologyModule, i: TopologyInvocation) -> Seq<char> {
    "invocation "@ + i.invocation_id@ + " module="@ + m.module_id@ + " family="@ + i.family@
        + " input="@ + contract_text(i.input) + " output="@ + contract_text(i.output)
        + " reads="@ + sorted_list(i.reads@.map_values(|r: TopologyRead| read_text(r)))
        + " maxOutputs="@ + num(i.max_outputs) + " maxPayloadBytes="@ + num(i.max_payload_bytes)
}

pub open spec fn subscription_line(m: TopologyModule, s: TopologySubscription) -> Seq<char> {
    "subscription "@ + s.subscription_id@ + " module="@ + m.module_id@ + " event="@ + s.event_key@
        + " invocation="@ + s.invocation_id@ + " maxDeliveries="@ + num(s.max_deliveries_per_root)
        + " source="@ + entity_text(s.source) + " target="@ + entity_text(s.target)
        + " scope="@ + (match s.scope {
            Some(sc) => sc@,
            None => "-"@,
        }) + " tags="@ + sorted_list(texts(s.required_tags@))
}

/// `kind=… maxItems=…` and the sorted fields and selectors of a read view.
pub open spec fn view_shape(v: TopologyReadView) -> Seq<char> {
    " kind="@ + v.kind@ + " maxItems="@ + num(v.max_items)
}

pub open spec fn view_lists(v: TopologyReadView) -> Seq<char> {
    " fields="@ + sorted_list(texts(v.fields@)) + " selectors="@ + sorted_list(texts(v.selectors@))
}

pub open spec fn requirement_line(m: TopologyModule, v: TopologyReadView) -> Seq<char> {
    "viewRequirement module="@ + m.module_id@ + " view="@ + v.view_key@ + " provider="@ + v.provider_id@
        + view_shape(v) + view_lists(v)
}

pub open spec fn declaration_line(word: Seq<char>, m: TopologyModule, d: TopologyOwned) -> Seq<char> {
    word + " module="@ + m.module_id@ + " schema="@ + d.contract.key@ + " owner="@ + d.owner_id@
        + " provider="@ + d.provider_id@
}

pub open spec fn proposal_declaration_line(m: TopologyModule, d: TopologyOwned) -> Seq<char> {
    "proposalDeclaration module="@ + m.module_id@ + " proposal="@ + d.contract.key@ + " schema="@
        + d.contract.schema_hash@ + " owner="@ + d.owner_id@ + " provider="@ + d.provider_id@
}

/// The lines of one module, in the order it writes them.
pub open spec fn module_lines(m: TopologyModule, include_provenance: bool) -> Seq<Seq<char>> {
    seq![module_line(m, include_provenance), budget_line(m), determinism_line(m)]
        + m.invocations@.map_values(|i: TopologyInvocation| invocation_line(m, i))
        + m.subscriptions@.map_values(|s: TopologySubscription| subscription_line(m, s))
        + m.read_views@.map_values(|v: TopologyReadView| requirement_line(m, v))
        + m.state_schemas@.map_values(|d: TopologyOwned| declaration_line("stateDeclaration"@, m, d))
        + m.fact_schemas@.map_values(|d: TopologyOwned| declaration_line("factDeclaration"@, m, d))
        + m.proposal_kinds@.map_values(|d: TopologyOwned| proposal_declaration_line(m, d))
}

pub open spec fn modules_lines(ms: Seq<TopologyModule>, include_provenance: bool) -> Seq<Seq<char>>
    decreases ms.len(),
{
    if ms.len() == 0 {
        Seq::empty()
    } else {
        modules_lines(ms.drop_last(), include_provenance) + module_lines(ms.last(), include_provenance)
    }
}

pub open spec fn event_line(e: TopologyEvent) -> Seq<char> {
    "event "@ + e.key@ + " publisher="@ + e.publisher@ + " schema="@ + e.schema_hash@ + " codec="@ + e.codec_id@
}

pub open spec fn owner_line(word: Seq<char>, o: TopologyOwned) -> Seq<char> {
    word + o.contract.key@ + " owner="@ + o.owner_id@ + " provider="@ + o.provider_id@
}

pub open spec fn provider_line(p: TopologyViewProvider) -> Seq<char> {
    "view "@ + p.view.view_key@ + " provider="@ + p.view.provider_id@ + view_shape(p.view) + " ordering="@
        + p.ordering@ + view_lists(p.view)
}

pub open spec fn pair_view(o: TopologyOrdering) -> (Seq<char>, Seq<char>) {
    (o.before_module@, o.after_module@)
}

/// The ordering edges of the modules, in order.
pub open spec fn module_edges(ms: Seq<TopologyModule>) -> Seq<(Seq<char>, Seq<char>)>
    decreases ms.len(),
{
    if ms.len() == 0 {
        Seq::empty()
    } else {
        module_edges(ms.drop_last()) + ms.last().ordering@.map_values(|o: TopologyOrdering| pair_view(o))
    }
}

/// Each distinct element once, at its first occurrence.
pub open spec fn distinct_values<A>(xs: Seq<A>) -> Seq<A>
    decreases xs.len(),
{
    if xs.len() == 0 {
        Seq::empty()
    } else {
        let d = distinct_values(xs.drop_last());
        if d.contains(xs.last()) {
            d
        } else {
            d.push(xs.last())
        }
    }
}

pub open spec fn order_line(e: (Seq<char>, Seq<char>)) -> Seq<char> {
    "order "@ + e.0 + " -> "@ + e.1
}

/// Every line of the dump, before sorting.
pub open spec fn topology_lines(f: TopologyFacts, include_provenance: bool) -> Seq<Seq<char>> {
    modules_lines(f.modules@, include_provenance)
        + f.events@.map_values(|e: TopologyEvent| event_line(e))
        + f.proposal_owners@.map_values(|o: TopologyOwned| owner_line("proposal "@, o))
        + f.view_providers@.map_values(|p: TopologyViewProvider| provider_line(p))
        + f.state_owners@.map_values(|o: TopologyOwned| owner_line("state "@, o))
        + distinct_values(module_edges(f.modules@)).map_values(|e: (Seq<char>, Seq<char>)| order_line(e))
}

/// The dump of sorted lines: each line followed by a newline, the last one
/// too; a lone newline when there are none.
pub open spec fn dump_text(lines: Seq<Seq<char>>) -> Seq<char> {
    join_with(lines, "\n"@) + "\n"@
}

// ---------------------------------------------------------------------------
// Writing the lines.

fn push_num(out: &mut String, x: u32)
    ensures
        final(out)@ == old(out)@ + num(x),
{
    push_dec(out, x as u64);
}

fn push_contract(out: &mut String, c: &ContractText)
    ensures
        final(out)@ == old(out)@ + contract_text(*c),
{
    out.append(c.key.as_str());
    out.append("@");
    out.append(c.schema_hash.as_str());
    assert(out@ =~= old(out)@ + contract_text(*c));
}

fn copy_strings(xs: &Vec<String>) -> (r: Vec<String>)
    ensures
        texts(r@) == texts(xs@),
{
    let mut out: Vec<String> = Vec::new();
    let mut i: usize = 0;
    while i < xs.len()
        invariant
            i <= xs@.len(),
            texts(out@) == texts(xs@.take(i as int)),
        decreases xs@.len() - i,
    {
        let ghost before = out@;
        out.push(xs[i].clone());
        assert(texts(out@) =~= texts(before).push(xs@[i as int]@));
        assert(texts(xs@.take(i + 1)) =~= texts(xs@.take(i as int)).push(xs@[i as int]@));
        i = i + 1;
    }
    assert(xs@.take(i as int) =~= xs@);
    out
}

/// Append the texts sorted and joined by commas.
fn push_sorted(out: &mut String, xs: Vec<String>)
    ensures
        final(out)@ == old(out)@ + sorted_list(texts(xs@)),
{
    let sorted = sort_strings(xs);
    push_joined(out, &sorted, ",");
}

fn read_texts(reads: &Vec<TopologyRead>) -> (r: Vec<String>)
    ensures
        texts(r@) == reads@.map_values(|x: TopologyRead| read_text(x)),
{
    let mut out: Vec<String> = Vec::new();
    let mut i: usize = 0;
    while i < reads.len()
        invariant
            i <= reads@.len(),
            texts(out@) == reads@.take(i as int).map_values(|x: TopologyRead| read_text(x)),
        decreases reads@.len() - i,
    {
        let r = &reads[i];
        let mut t = String::new();
        t.append(r.request_id.as_str());
        t.append("=");
        push_contract(&mut t, &r.view);
        let ghost before = out@;
        out.push(t);
        proof {
            assert(out@.last()@ =~= read_text(reads@[i as int]));
            assert(texts(out@) =~= texts(before).push(read_text(reads@[i as int])));
            assert(reads@.take(i + 1).map_values(|x: TopologyRead| read_text(x))
                =~= reads@.take(i as int).map_values(|x: TopologyRead| read_text(x)).push(read_text(reads@[i as int])));
        }
        i = i + 1;
    }
    assert(reads@.take(i as int) =~= reads@);
    out
}

fn push_entity(out: &mut String, e: Option<u64>)
    ensures
        final(out)@ == old(out)@ + entity_text(e),
{
    match e {
        Some(id) => push_dec(out, id),
        None => out.append("-"),
    }
}

fn module_line_exec(m: &TopologyModule, include_provenance: bool) -> (r: String)
    ensures
        r@ == module_line(*m, include_provenance),
{
    let mut t = String::new();
    t.append("module ");
    t.append(m.module_id.as_str());
    t.append(" namespace=");
    t.append(m.namespace.as_str());
    t.append(" version=");
    t.append(m.version.as_str());
    t.append(" provider=");
    t.append(m.provider_id.as_str());
    t.append(" sdk=");
    t.append(m.sdk_hash.as_str());
    t.append(" contract=");
    t.append(m.contract_hash.as_str());
    if include_provenance {
        t.append(" artifact=");
        t.append(m.artifact_hash.as_str());
        t.append(" source=");
        t.append(m.source_hash.as_str());
    }
    assert(t@ =~= module_line(*m, include_provenance));
    t
}

fn budget_line_exec(m: &TopologyModule) -> (r: String)
    ensures
        r@ == budget_line(*m),
{
    let mut t = String::new();
    t.append("budget module=");
    t.append(m.module_id.as_str());
    t.append(" waves=");
    push_num(&mut t, m.budget.max_waves);
    t.append(" events=");
    push_num(&mut t, m.budget.max_events_per_root);
    t.append(" proposals=");
    push_num(&mut t, m.budget.max_proposals_per_root);
    t.append(" invocations=");
    push_num(&mut t, m.budget.max_invocations_per_root);
    t.append(" payloadBytes=");
    push_num(&mut t, m.budget.max_payload_bytes_per_root);
    assert(t@ =~= budget_line(*m));
    t
}

fn determinism_line_exec(m: &TopologyModule) -> (r: String)
    ensures
        r@ == determinism_line(*m),
{
    let mut t = String::new();
    t.append("determinism module=");
    t.append(m.module_id.as_str());
    t.append(" requirements=");
    push_sorted(&mut t, copy_strings(&m.deterministic_requirements));
    assert(t@ =~= determinism_line(*m));
    t
}

fn invocation_line_exec(m: &TopologyModule, i: &TopologyInvocation) -> (r: String)
    ensures
        r@ == invocation_line(*m, *i),
{
    let mut t = String::new();
    t.append("invocation ");
    t.append(i.invocation_id.as_str());
    t.append(" module=");
    t.append(m.module_id.as_str());
    t.append(" family=");
    t.append(i.family.as_str());
    t.append(" input=");
    push_contract(&mut t, &i.input);
    t.append(" output=");
    push_contract(&mut t, &i.output);
    t.append(" reads=");
    push_sorted(&mut t, read_texts(&i.reads));
    t.append(" maxOutputs=");
    push_num(&mut t, i.max_outputs);
    t.append(" maxPayloadBytes=");
    push_num(&mut t, i.max_payload_bytes);
    assert(t@ =~= invocation_line(*m, *i));
    t
}

fn subscription_line_exec(m: &TopologyModule, s: &TopologySubscription) -> (r: String)
    ensures
        r@ == subscription_line(*m, *s),
{
    let mut t = String::new();
    t.append("subscription ");
    t.append(s.subscription_id.as_str());
    t.append(" module=");
    t.append(m.module_id.as_str());
    t.append(" event=");
    t.append(s.event_key.as_str());
    t.append(" invocation=");
    t.append(s.invocation_id.as_str());
    t.append(" maxDeliveries=");
    push_num(&mut t, s.max_deliveries_per_root);
    t.append(" source=");
    push_entity(&mut t, s.source);
    t.append(" target=");
    push_entity(&mut t, s.target);
    t.append(" scope=");
    match &s.scope {
        Some(sc) => t.append(sc.as_str()),
        None => t.append("-"),
    }
    t.append(" tags=");
    push_sorted(&mut t, copy_strings(&s.required_tags));
    assert(t@ =~= subscription_line(*m, *s));
    t
}

fn push_view_shape(t: &mut String, v: &TopologyReadView)
    ensures
        final(t)@ == old(t)@ + view_shape(*v),
{
    t.append(" kind=");
    t.append(v.kind.as_str());
    t.append(" maxItems=");
    push_num(t, v.max_items);
    assert(t@ =~= old(t)@ + view_shape(*v));
}

fn push_view_lists(t: &mut String, v: &TopologyReadView)
    ensures
        final(t)@ == old(t)@ + view_lists(*v),
{
    t.append(" fields=");
    push_sorted(t, copy_strings(&v.fields));
    t.append(" selectors=");
    push_sorted(t, copy_strings(&v.selectors));
    assert(t@ =~= old(t)@ + view_lists(*v));
}

fn requirement_line_exec(m: &TopologyModule, v: &TopologyReadView) -> (r: String)
    ensures
        r@ == requirement_line(*m, *v),
{
    let mut t = String::new();
    t.append("viewRequirement module=");
    t.append(m.module_id.as_str());
    t.append(" view=");
    t.append(v.view_key.as_str());
    t.append(" provider=");
    t.append(v.provider_id.as_str());
    push_view_shape(&mut t, v);
    push_view_lists(&mut t, v);
    assert(t@ =~= requirement_line(*m, *v));
    t
}

fn declaration_line_exec(word: &str, m: &TopologyModule, d: &TopologyOwned) -> (r: String)
    ensures
        r@ == declaration_line(word@, *m, *d),
{
    let mut t = String::new();
    t.append(word);
    t.append(" module=");
    t.append(m.module_id.as_str());
    t.append(" schema=");
    t.append(d.contract.key.as_str());
    t.append(" owner=");
    t.append(d.owner_id.as_str());
    t.append(" provider=");
    t.append(d.provider_id.as_str());
    assert(t@ =~= declaration_line(word@, *m, *d));
    t
}

fn proposal_declaration_line_exec(m: &TopologyModule, d: &TopologyOwned) -> (r: String)
    ensures
        r@ == proposal_declaration_line(*m, *d),
{
    let mut t = String::new();
    t.append("proposalDeclaration module=");
    t.append(m.module_id.as_str());
    t.append(" proposal=");
    t.append(d.contract.key.as_str());
    t.append(" schema=");
    t.append(d.contract.schema_hash.as_str());
    t.append(" owner=");
    t.append(d.owner_id.as_str());
    t.append(" provider=");
    t.append(d.provider_id.as_str());
    assert(t@ =~= proposal_declaration_line(*m, *d));
    t
}

fn event_line_exec(e: &TopologyEvent) -> (r: String)
    ensures
        r@ == event_line(*e),
{
    let mut t = String::new();
    t.append("event ");
    t.append(e.key.as_str());
    t.append(" publisher=");
    t.append(e.publisher.as_str());
    t.append(" schema=");
    t.append(e.schema_hash.as_str());
    t.append(" codec=");
    t.append(e.codec_id.as_str());
    assert(t@ =~= event_line(*e));
    t
}

fn owner_line_exec(word: &str, o: &TopologyOwned) -> (r: String)
    ensures
        r@ == owner_line(word@, *o),
{
    let mut t = String::new();
    t.append(word);
    t.append(o.contract.key.as_str());
    t.append(" owner=");
    t.append(o.owner_id.as_str());
    t.append(" provider=");
    t.append(o.provider_id.as_str());
    assert(t@ =~= owner_line(word@, *o));
    t
}

fn provider_line_exec(p: &TopologyViewProvider) -> (r: String)
    ensures
        r@ == provider_line(*p),
{
    let mut t = String::new();
    t.append("view ");
    t.append(p.view.view_key.as_str());
    t.append(" provider=");
    t.append(p.view.provider_id.as_str());
    push_view_shape(&mut t, &p.view);
    t.append(" ordering=");
    t.append(p.ordering.as_str());
    push_view_lists(&mut t, &p.view);
    assert(t@ =~= provider_line(*p));
    t
}

fn order_line_exec(o: &TopologyOrdering) -> (r: String)
    ensures
        r@ == order_line(pair_view(*o)),
{
    let mut t = String::new();
    t.append("order ");
    t.append(o.before_module.as_str());
    t.append(" -> ");
    t.append(o.after_module.as_str());
    assert(t@ =~= order_line(pair_view(*o)));
    t
}

fn push_module_lines(lines: &mut Vec<String>, m: &TopologyModule, include_provenance: bool)
    ensures
        texts(final(lines)@) == texts(old(lines)@) + module_lines(*m, include_provenance),
{
    let ghost b0 = texts(lines@);
    lines.push(module_line_exec(m, include_provenance));
    lines.push(budget_line_exec(m));
    lines.push(determinism_line_exec(m));
    assert(texts(lines@) =~= b0 + seq![module_line(*m, include_provenance), budget_line(*m), determinism_line(*m)]);
    let ghost b1 = texts(lines@);
    let mut k: usize = 0;
    while k < m.invocations.len()
        invariant
            k <= m.invocations@.len(),
            texts(lines@) == b1 + m.invocations@.take(k as int).map_values(|x: TopologyInvocation| invocation_line(*m, x)),
        decreases m.invocations@.len() - k,
    {
        let ghost before = texts(lines@);
        lines.push(invocation_line_exec(m, &m.invocations[k]));
        proof {
            assert(texts(lines@) =~= before.push(invocation_line(*m, m.invocations@[k as int])));
            assert(m.invocations@.take(k + 1).map_values(|x: TopologyInvocation| invocation_line(*m, x))
                =~= m.invocations@.take(k as int).map_values(|x: TopologyInvocation| invocation_line(*m, x)).push(invocation_line(*m, m.invocations@[k as int])));
        }
        k = k + 1;
    }
    assert(m.invocations@.take(k as int) =~= m.invocations@);
    let ghost b2 = texts(lines@);
    let mut k: usize = 0;
    while k < m.subscriptions.len()
        invariant
            k <= m.subscriptions@.len(),
            texts(lines@) == b2 + m.subscriptions@.take(k as int).map_values(|x: TopologySubscription| subscription_line(*m, x)),
        decreases m.subscriptions@.len() - k,
    {
        let ghost before = texts(lines@);
        lines.push(subscription_line_exec(m, &m.subscriptions[k]));
        proof {
            assert(texts(lines@) =~= before.push(subscription_line(*m, m.subscriptions@[k as int])));
            assert(m.subscriptions@.take(k + 1).map_values(|x: TopologySubscription| subscription_line(*m, x))
                =~= m.subscriptions@.take(k as int).map_values(|x: TopologySubscription| subscription_line(*m, x)).push(subscription_line(*m, m.subscriptions@[k as int])));
        }
        k = k + 1;
    }
    assert(m.subscriptions@.take(k as int) =~= m.subscriptions@);
    let ghost b3 = texts(lines@);
    let mut k: usize = 0;
    while k < m.read_views.len()
        invariant
            k <= m.read_views@.len(),
            texts(lines@) == b3 + m.read_views@.take(k as int).map_values(|x: TopologyReadView| requirement_line(*m, x)),
        decreases m.read_views@.len() - k,
    {
        let ghost before = texts(lines@);
        lines.push(requirement_line_exec(m, &m.read_views[k]));
        proof {
            assert(texts(lines@) =~= before.push(requirement_line(*m, m.read_views@[k as int])));
            assert(m.read_views@.take(k + 1).map_values(|x: TopologyReadView| requirement_line(*m, x))
                =~= m.read_views@.take(k as int).map_values(|x: TopologyReadView| requirement_line(*m, x)).push(requirement_line(*m, m.read_views@[k as int])));
        }
        k = k + 1;
    }
    assert(m.read_views@.take(k as int) =~= m.read_views@);
    let ghost b4 = texts(lines@);
    let mut k: usize = 0;
    while k < m.state_schemas.len()
        invariant
            k <= m.state_schemas@.len(),
            texts(lines@) == b4 + m.state_schemas@.take(k as int).map_values(|x: TopologyOwned| declaration_line("stateDeclaration"@, *m, x)),
        decreases m.state_schemas@.len() - k,
    {
        let ghost before = texts(lines@);
        lines.push(declaration_line_exec("stateDeclaration", m, &m.state_schemas[k]));
        proof {
            assert(texts(lines@) =~= before.push(declaration_line("stateDeclaration"@, *m, m.state_schemas@[k as int])));
            assert(m.state_schemas@.take(k + 1).map_values(|x: TopologyOwned| declaration_line("stateDeclaration"@, *m, x))
                =~= m.state_schemas@.take(k as int).map_values(|x: TopologyOwned| declaration_line("stateDeclaration"@, *m, x)).push(declaration_line("stateDeclaration"@, *m, m.state_schemas@[k as int])));
        }
        k = k + 1;
    }
    assert(m.state_schemas@.take(k as int) =~= m.state_schemas@);
    let ghost b5 = texts(lines@);
    let mut k: usize = 0;
    while k < m.fact_schemas.len()
        invariant
            k <= m.fact_schemas@.len(),
            texts(lines@) == b5 + m.fact_schemas@.take(k as int).map_values(|x: TopologyOwned| declaration_line("factDeclaration"@, *m, x)),
        decreases m.fact_schemas@.len() - k,
    {
        let ghost before = texts(lines@);
        lines.push(declaration_line_exec("factDeclaration", m, &m.fact_schemas[k]));
        proof {
            assert(texts(lines@) =~= before.push(declaration_line("factDeclaration"@, *m, m.fact_schemas@[k as int])));
            assert(m.fact_schemas@.take(k + 1).map_values(|x: TopologyOwned| declaration_line("factDeclaration"@, *m, x))
                =~= m.fact_schemas@.take(k as int).map_values(|x: TopologyOwned| declaration_line("factDeclaration"@, *m, x)).push(declaration_line("factDeclaration"@, *m, m.fact_schemas@[k as int])));
        }
        k = k + 1;
    }
    assert(m.fact_schemas@.take(k as int) =~= m.fact_schemas@);
    let ghost b6 = texts(lines@);
    let mut k: usize = 0;
    while k < m.proposal_kinds.len()
        invariant
            k <= m.proposal_kinds@.len(),
            texts(lines@) == b6 + m.proposal_kinds@.take(k as int).map_values(|x: TopologyOwned| proposal_declaration_line(*m, x)),
        decreases m.proposal_kinds@.len() - k,
    {
        let ghost before = texts(lines@);
        lines.push(proposal_declaration_line_exec(m, &m.proposal_kinds[k]));
        proof {
            assert(texts(lines@) =~= before.push(proposal_declaration_line(*m, m.proposal_kinds@[k as int])));
            assert(m.proposal_kinds@.take(k + 1).map_values(|x: TopologyOwned| proposal_declaration_line(*m, x))
                =~= m.proposal_kinds@.take(k as int).map_values(|x: TopologyOwned| proposal_declaration_line(*m, x)).push(proposal_declaration_line(*m, m.proposal_kinds@[k as int])));
        }
        k = k + 1;
    }
    assert(m.proposal_kinds@.take(k as int) =~= m.proposal_kinds@);
    assert(texts(lines@) =~= b0 + module_lines(*m, include_provenance));
}

fn holds_pair(edges: &Vec<TopologyOrdering>, o: &TopologyOrdering) -> (r: bool)
    ensures
        r == edges@.map_values(|x: TopologyOrdering| pair_view(x)).contains(pair_view(*o)),
{
    let ghost ps = edges@.map_values(|x: TopologyOrdering| pair_view(x));
    let mut i: usize = 0;
    while i < edges.len()
        invariant
            i <= edges@.len(),
            ps == edges@.map_values(|x: TopologyOrdering| pair_view(x)),
            forall|j: int| 0 <= j < i ==> ps[j] != pair_view(*o),
        decreases edges@.len() - i,
    {
        if edges[i].before_module == o.before_module && edges[i].after_module == o.after_module {
            assert(ps[i as int] == pair_view(*o));
            return true;
        }
        i = i + 1;
    }
    false
}

/// The distinct ordering edges of the modules, first occurrences in order.
pub(crate) fn distinct_edges(ms: &Vec<TopologyModule>) -> (r: Vec<TopologyOrdering>)
    ensures
        r@.map_values(|x: TopologyOrdering| pair_view(x)) == distinct_values(module_edges(ms@)),
{
    let mut edges: Vec<TopologyOrdering> = Vec::new();
    let mut i: usize = 0;
    while i < ms.len()
        invariant
            i <= ms@.len(),
            edges@.map_values(|x: TopologyOrdering| pair_view(x)) == distinct_values(module_edges(ms@.take(i as int))),
        decreases ms@.len() - i,
    {
        let os = &ms[i].ordering;
        let ghost prefix = module_edges(ms@.take(i as int));
        let mut k: usize = 0;
        while k < os.len()
            invariant
                i < ms@.len(),
                os == &ms@[i as int].ordering,
                k <= os@.len(),
                prefix == module_edges(ms@.take(i as int)),
                edges@.map_values(|x: TopologyOrdering| pair_view(x))
                    == distinct_values(prefix + os@.take(k as int).map_values(|x: TopologyOrdering| pair_view(x))),
            decreases os@.len() - k,
        {
            let ghost cur = prefix + os@.take(k as int).map_values(|x: TopologyOrdering| pair_view(x));
            let ghost next = prefix + os@.take(k + 1).map_values(|x: TopologyOrdering| pair_view(x));
            assert(next.drop_last() =~= cur);
            assert(next.last() == pair_view(os@[k as int]));
            if !holds_pair(&edges, &os[k]) {
                let ghost before = edges@;
                edges.push(TopologyOrdering { before_module: os[k].before_module.clone(), after_module: os[k].after_module.clone() });
                assert(edges@.map_values(|x: TopologyOrdering| pair_view(x))
                    =~= before.map_values(|x: TopologyOrdering| pair_view(x)).push(pair_view(os@[k as int])));
            }
            k = k + 1;
        }
        proof {
            assert(ms@.take(i + 1).drop_last() =~= ms@.take(i as int));
            assert(ms@.take(i + 1).last() == ms@[i as int]);
            assert(os@.take(k as int) =~= os@);
        }
        i = i + 1;
    }
    assert(ms@.take(i as int) =~= ms@);
    edges
}

/// The topology dump: every line of the modules, events, owners, providers
/// and distinct ordering edges, sorted by bytes, each followed by a newline.
/// With `include_provenance` the module lines also carry the artifact and
/// source hashes; without, the dump is the semantic one.
pub fn topology_dump(f: &TopologyFacts, include_provenance: bool) -> (r: String)
    ensures
        r@ == dump_text(sorted_texts(topology_lines(*f, include_provenance))),
{
    let mut lines: Vec<String> = Vec::new();
    let mut i: usize = 0;
    while i < f.modules.len()
        invariant
            i <= f.modules@.len(),
            texts(lines@) == modules_lines(f.modules@.take(i as int), include_provenance),
        decreases f.modules@.len() - i,
    {
        push_module_lines(&mut lines, &f.modules[i], include_provenance);
        proof {
            assert(f.modules@.take(i + 1).drop_last() =~= f.modules@.take(i as int));
            assert(f.modules@.take(i + 1).last() == f.modules@[i as int]);
        }
        i = i + 1;
    }
    assert(f.modules@.take(i as int) =~= f.modules@);
    let edges = distinct_edges(&f.modules);
    let ghost c1 = texts(lines@);
    let mut k: usize = 0;
    while k < f.events.len()
        invariant
            k <= f.events@.len(),
            texts(lines@) == c1 + f.events@.take(k as int).map_values(|x: TopologyEvent| event_line(x)),
        decreases f.events@.len() - k,
    {
        let ghost before = texts(lines@);
        lines.push(event_line_exec(&f.events[k]));
        proof {
            assert(texts(lines@) =~= before.push(event_line(f.events@[k as int])));
            assert(f.events@.take(k + 1).map_values(|x: TopologyEvent| event_line(x))
                =~= f.events@.take(k as int).map_values(|x: TopologyEvent| event_line(x)).push(event_line(f.events@[k as int])));
        }
        k = k + 1;
    }
    assert(f.events@.take(k as int) =~= f.events@);
    let ghost c2 = texts(lines@);
    let mut k: usize = 0;
    while k < f.proposal_owners.len()
        invariant
            k <= f.proposal_owners@.len(),
            texts(lines@) == c2 + f.proposal_owners@.take(k as int).map_values(|x: TopologyOwned| owner_line("proposal "@, x)),
        decreases f.proposal_owners@.len() - k,
    {
        let ghost before = texts(lines@);
        lines.push(owner_line_exec("proposal ", &f.proposal_owners[k]));
        proof {
            assert(texts(lines@) =~= before.push(owner_line("proposal "@, f.proposal_owners@[k as int])));
            assert(f.proposal_owners@.take(k + 1).map_values(|x: TopologyOwned| owner_line("proposal "@, x))
                =~= f.proposal_owners@.take(k as int).map_values(|x: TopologyOwned| owner_line("proposal "@, x)).push(owner_line("proposal "@, f.proposal_owners@[k as int])));
        }
        k = k + 1;
    }
    assert(f.proposal_owners@.take(k as int) =~= f.proposal_owners@);
    let ghost c3 = texts(lines@);
    let mut k: usize = 0;
    while k < f.view_providers.len()
        invariant
            k <= f.view_providers@.len(),
            texts(lines@) == c3 + f.view_providers@.take(k as int).map_values(|x: TopologyViewProvider| provider_line(x)),
        decreases f.view_providers@.len() - k,
    {
        let ghost before = texts(lines@);
        lines.push(provider_line_exec(&f.view_providers[k]));
        proof {
            assert(texts(lines@) =~= before.push(provider_line(f.view_providers@[k as int])));
            assert(f.view_providers@.take(k + 1).map_values(|x: TopologyViewProvider| provider_line(x))
                =~= f.view_providers@.take(k as int).map_values(|x: TopologyViewProvider| provider_line(x)).push(provider_line(f.view_providers@[k as int])));
        }
        k = k + 1;
    }
    assert(f.view_providers@.take(k as int) =~= f.view_providers@);
    let ghost c4 = texts(lines@);
    let mut k: usize = 0;
    while k < f.state_owners.len()
        invariant
            k <= f.state_owners@.len(),
            texts(lines@) == c4 + f.state_owners@.take(k as int).map_values(|x: TopologyOwned| owner_line("state "@, x)),
        decreases f.state_owners@.len() - k,
    {
        let ghost before = texts(lines@);
        lines.push(owner_line_exec("state ", &f.state_owners[k]));
        proof {
            assert(texts(lines@) =~= before.push(owner_line("state "@, f.state_owners@[k as int])));
            assert(f.state_owners@.take(k + 1).map_values(|x: TopologyOwned| owner_line("state "@, x))
                =~= f.state_owners@.take(k as int).map_values(|x: TopologyOwned| owner_line("state "@, x)).push(owner_line("state "@, f.state_owners@[k as int])));
        }
        k = k + 1;
    }
    assert(f.state_owners@.take(k as int) =~= f.state_owners@);
    let ghost c5 = texts(lines@);
    let mut k: usize = 0;
    while k < edges.len()
        invariant
            k <= edges@.len(),
            texts(lines@) == c5 + edges@.take(k as int).map_values(|x: TopologyOrdering| order_line(pair_view(x))),
        decreases edges@.len() - k,
    {
        let ghost before = texts(lines@);
        lines.push(order_line_exec(&edges[k]));
        proof {
            assert(texts(lines@) =~= before.push(order_line(pair_view(edges@[k as int]))));
            assert(edges@.take(k + 1).map_values(|x: TopologyOrdering| order_line(pair_view(x)))
                =~= edges@.take(k as int).map_values(|x: TopologyOrdering| order_line(pair_view(x))).push(order_line(pair_view(edges@[k as int]))));
        }
        k = k + 1;
    }
    assert(edges@.take(k as int) =~= edges@);
    proof {
        let pairs = edges@.map_values(|x: TopologyOrdering| pair_view(x));
        assert(edges@.map_values(|x: TopologyOrdering| order_line(pair_view(x)))
            =~= pairs.map_values(|e: (Seq<char>, Seq<char>)| order_line(e)));
        assert(texts(lines@) =~= topology_lines(*f, include_provenance));
    }
    let sorted = sort_strings(lines);
    let mut out = String::new();
    push_joined(&mut out, &sorted, "\n");
    out.append("\n");
    out
}

/// The registry digest and the semantic-compatibility digest: the stable
/// digest of the dump with provenance, and of the dump without.
pub fn registry_digests(f: &TopologyFacts) -> (r: (String, String))
    ensures
        r.0@ == fnv_label_text(fnv_bytes(FNV_OFFSET, encode_utf8(dump_text(sorted_texts(topology_lines(*f, true)))))),
        r.1@ == fnv_label_text(fnv_bytes(FNV_OFFSET, encode_utf8(dump_text(sorted_texts(topology_lines(*f, false)))))),
{
    let full = topology_dump(f, true);
    let semantic = topology_dump(f, false);
    (stable_digest(full.as_str()), stable_digest(semantic.as_str()))
}

// ---------------------------------------------------------------------------
// Order independence.

proof fn lemma_modules_lines_concat(a: Seq<TopologyModule>, b: Seq<TopologyModule>, p: bool)
    ensures
        modules_lines(a + b, p) == modules_lines(a, p) + modules_lines(b, p),
    decreases b.len(),
{
    if b.len() == 0 {
        assert(a + b =~= a);
        assert(modules_lines(a, p) + modules_lines(b, p) =~= modules_lines(a, p));
    } else {
        lemma_modules_lines_concat(a, b.drop_last(), p);
        assert((a + b).drop_last() =~= a + b.drop_last());
        assert((a + b).last() == b.last());
        assert(modules_lines(a + b, p) =~= modules_lines(a, p) + modules_lines(b, p));
    }
}

proof fn lemma_module_edges_concat(a: Seq<TopologyModule>, b: Seq<TopologyModule>)
    ensures
        module_edges(a + b) == module_edges(a) + module_edges(b),
    decreases b.len(),
{
    if b.len() == 0 {
        assert(a + b =~= a);
        assert(module_edges(a) + module_edges(b) =~= module_edges(a));
    } else {
        lemma_module_edges_concat(a, b.drop_last());
        assert((a + b).drop_last() =~= a + b.drop_last());
        assert((a + b).last() == b.last());
        assert(module_edges(a + b) =~= module_edges(a) + module_edges(b));
    }
}

proof fn lemma_distinct_values<A>(xs: Seq<A>)
    ensures
        distinct_values(xs).no_duplicates(),
        forall|x: A| #[trigger] distinct_values(xs).contains(x) <==> xs.contains(x),
    decreases xs.len(),
{
    if xs.len() > 0 {
        let init = xs.drop_last();
        lemma_distinct_values(init);
        let d = distinct_values(init);
        assert(xs =~= init.push(xs.last()));
        assert forall|x: A| #[trigger] distinct_values(xs).contains(x) <==> xs.contains(x) by {
            crate::authoring::lemma_push_contains(init, xs.last(), x);
            if !d.contains(xs.last()) {
                crate::authoring::lemma_push_contains(d, xs.last(), x);
            }
        }
        if !d.contains(xs.last()) {
            let t = d.push(xs.last());
            assert forall|i: int, j: int| 0 <= i < t.len() && 0 <= j < t.len() && i != j implies t[i] != t[j] by {
                if i < d.len() && j < d.len() {
                    assert(t[i] == d[i] && t[j] == d[j]);
                } else if i < d.len() {
                    assert(d.contains(d[i]));
                } else if j < d.len() {
                    assert(d.contains(d[j]));
                }
            }
        }
    }
}

proof fn lemma_same_distinct_multiset<A>(a: Seq<A>, b: Seq<A>)
    requires
        a.no_duplicates(),
        b.no_duplicates(),
        forall|x: A| a.contains(x) <==> b.contains(x),
    ensures
        a.to_multiset() == b.to_multiset(),
{
    broadcast use vstd::seq_lib::group_to_multiset_ensures;
    a.lemma_multiset_has_no_duplicates();
    b.lemma_multiset_has_no_duplicates();
    assert forall|x: A| a.to_multiset().count(x) == b.to_multiset().count(x) by {
        if a.contains(x) {
            assert(a.to_multiset().contains(x));
            assert(b.to_multiset().contains(x));
        } else {
            assert(!b.contains(x));
        }
    }
    assert(a.to_multiset() =~= b.to_multiset());
}

proof fn lemma_same_multiset_same_sort(a: Seq<Seq<char>>, b: Seq<Seq<char>>)
    requires
        a.to_multiset() == b.to_multiset(),
    ensures
        sorted_texts(a) == sorted_texts(b),
{
    let leq = |x: Seq<char>, y: Seq<char>| text_leq(x, y);
    lemma_text_leq_total();
    a.lemma_sort_by_ensures(leq);
    b.lemma_sort_by_ensures(leq);
    vstd::seq_lib::lemma_sorted_unique(a.sort_by(leq), b.sort_by(leq), leq);
}

proof fn lemma_swap_multiset<A>(b: Seq<A>, x: Seq<A>, y: Seq<A>, a: Seq<A>)
    ensures
        (b + (x + y) + a).to_multiset() == (b + (y + x) + a).to_multiset(),
{
    vstd::seq_lib::lemma_multiset_commutative(x, y);
    vstd::seq_lib::lemma_multiset_commutative(y, x);
    vstd::seq_lib::lemma_multiset_commutative(b, x + y);
    vstd::seq_lib::lemma_multiset_commutative(b, y + x);
    vstd::seq_lib::lemma_multiset_commutative(b + (x + y), a);
    vstd::seq_lib::lemma_multiset_commutative(b + (y + x), a);
    assert(x.to_multiset().add(y.to_multiset()) =~= y.to_multiset().add(x.to_multiset()));
}

proof fn lemma_swap_modules_lines(before: Seq<TopologyModule>, x: TopologyModule, y: TopologyModule, after: Seq<TopologyModule>, p: bool)
    ensures
        modules_lines(before + seq![x, y] + after, p).to_multiset() == modules_lines(before + seq![y, x] + after, p).to_multiset(),
{
    let xy = seq![x, y];
    let yx = seq![y, x];
    assert(seq![x] + seq![y] =~= xy);
    assert(seq![y] + seq![x] =~= yx);
    lemma_modules_lines_concat(before + xy, after, p);
    lemma_modules_lines_concat(before, xy, p);
    lemma_modules_lines_concat(before + yx, after, p);
    lemma_modules_lines_concat(before, yx, p);
    lemma_modules_lines_concat(seq![x], seq![y], p);
    lemma_modules_lines_concat(seq![y], seq![x], p);
    lemma_swap_multiset(modules_lines(before, p), modules_lines(seq![x], p), modules_lines(seq![y], p), modules_lines(after, p));
}

proof fn lemma_swap_distinct_edges(before: Seq<TopologyModule>, x: TopologyModule, y: TopologyModule, after: Seq<TopologyModule>)
    ensures
        distinct_values(module_edges(before + seq![x, y] + after)).to_multiset()
            == distinct_values(module_edges(before + seq![y, x] + after)).to_multiset(),
{
    let xy = seq![x, y];
    let yx = seq![y, x];
    assert(seq![x] + seq![y] =~= xy);
    assert(seq![y] + seq![x] =~= yx);
    lemma_module_edges_concat(before + xy, after);
    lemma_module_edges_concat(before, xy);
    lemma_module_edges_concat(before + yx, after);
    lemma_module_edges_concat(before, yx);
    lemma_module_edges_concat(seq![x], seq![y]);
    lemma_module_edges_concat(seq![y], seq![x]);
    let fe_all = module_edges(before + xy + after);
    let ge_all = module_edges(before + yx + after);
    lemma_distinct_values(fe_all);
    lemma_distinct_values(ge_all);
    let ex = module_edges(seq![x]);
    let ey = module_edges(seq![y]);
    let eb = module_edges(before);
    let ea = module_edges(after);
    assert forall|e: (Seq<char>, Seq<char>)| fe_all.contains(e) <==> ge_all.contains(e) by {
        lemma_concat_contains(eb + (ex + ey), ea, e);
        lemma_concat_contains(eb, ex + ey, e);
        lemma_concat_contains(ex, ey, e);
        lemma_concat_contains(eb + (ey + ex), ea, e);
        lemma_concat_contains(eb, ey + ex, e);
        lemma_concat_contains(ey, ex, e);
    }
    lemma_same_distinct_multiset(distinct_values(fe_all), distinct_values(ge_all));
}

/// The dump does not depend on the order the modules come in: swapping two
/// adjacent modules (and so any reordering) leaves the dump, with or
/// without provenance, unchanged.
pub proof fn law_dump_ignores_module_order(
    f: TopologyFacts,
    g: TopologyFacts,
    before: Seq<TopologyModule>,
    x: TopologyModule,
    y: TopologyModule,
    after: Seq<TopologyModule>,
    include_provenance: bool,
)
    requires
        f.modules@ == before + seq![x, y] + after,
        g.modules@ == before + seq![y, x] + after,
        f.events@ == g.events@,
        f.proposal_owners@ == g.proposal_owners@,
        f.view_providers@ == g.view_providers@,
        f.state_owners@ == g.state_owners@,
    ensures
        dump_text(sorted_texts(topology_lines(f, include_provenance)))
            == dump_text(sorted_texts(topology_lines(g, include_provenance))),
{
    let p = include_provenance;
    lemma_swap_modules_lines(before, x, y, after, p);
    lemma_swap_distinct_edges(before, x, y, after);
    let fm = modules_lines(f.modules@, p);
    let gm = modules_lines(g.modules@, p);
    let fe = distinct_values(module_edges(f.modules@));
    let ge = distinct_values(module_edges(g.modules@));
    let of = fe.map_values(|e: (Seq<char>, Seq<char>)| order_line(e));
    let og = ge.map_values(|e: (Seq<char>, Seq<char>)| order_line(e));
    lemma_map_multiset(fe, ge);
    let rest_f = topology_lines(f, p).subrange(fm.len() as int, topology_lines(f, p).len() - of.len());
    let rest_g = topology_lines(g, p).subrange(gm.len() as int, topology_lines(g, p).len() - og.len());
    assert(topology_lines(f, p) =~= fm + rest_f + of);
    assert(topology_lines(g, p) =~= gm + rest_g + og);
    assert(rest_f =~= rest_g);
    vstd::seq_lib::lemma_multiset_commutative(fm, rest_f);
    vstd::seq_lib::lemma_multiset_commutative(gm, rest_g);
    vstd::seq_lib::lemma_multiset_commutative(fm + rest_f, of);
    vstd::seq_lib::lemma_multiset_commutative(gm + rest_g, og);
    lemma_same_multiset_same_sort(topology_lines(f, p), topology_lines(g, p));
}

proof fn lemma_concat_contains<A>(a: Seq<A>, b: Seq<A>, x: A)
    ensures
        (a + b).contains(x) <==> (a.contains(x) || b.contains(x)),
{
    if a.contains(x) {
        let i = choose|i: int| 0 <= i < a.len() && a[i] == x;
        assert((a + b)[i] == x);
    }
    if b.contains(x) {
        let i = choose|i: int| 0 <= i < b.len() && b[i] == x;
        assert((a + b)[a.len() + i] == x);
    }
    if (a + b).contains(x) {
        let i = choose|i: int| 0 <= i < (a + b).len() && (a + b)[i] == x;
        if i < a.len() {
            assert(a[i] == x);
        } else {
            assert(b[i - a.len()] == x);
        }
    }
}

proof fn lemma_map_multiset(a: Seq<(Seq<char>, Seq<char>)>, b: Seq<(Seq<char>, Seq<char>)>)
    requires
        a.to_multiset() == b.to_multiset(),
    ensures
        a.map_values(|e: (Seq<char>, Seq<char>)| order_line(e)).to_multiset()
            == b.map_values(|e: (Seq<char>, Seq<char>)| order_line(e)).to_multiset(),
    decreases a.len(),
{
    broadcast use vstd::seq_lib::group_to_multiset_ensures;
    let f = |e: (Seq<char>, Seq<char>)| order_line(e);
    if a.len() == 0 {
        assert(a.to_multiset().len() == 0);
        assert(b.to_multiset().len() == b.len());
        assert(b.len() == 0);
        assert(a.map_values(f) =~= Seq::<Seq<char>>::empty());
        assert(b.map_values(f) =~= Seq::<Seq<char>>::empty());
    } else {
        let x = a.last();
        assert(a.to_multiset().contains(x));
        assert(b.to_multiset().contains(x));
        assert(b.contains(x));
        let j = choose|j: int| 0 <= j < b.len() && b[j] == x;
        let b2 = b.remove(j);
        vstd::seq_lib::to_multiset_remove(b, j);
        assert(a =~= a.drop_last().push(x));
        vstd::seq_lib::to_multiset_build(a.drop_last(), x);
        assert(a.drop_last().to_multiset() =~= b2.to_multiset());
        lemma_map_multiset(a.drop_last(), b2);
        assert(a.map_values(f) =~= a.drop_last().map_values(f).push(f(x)));
        vstd::seq_lib::to_multiset_build(a.drop_last().map_values(f), f(x));
        assert(b2.map_values(f) =~= b.map_values(f).remove(j));
        vstd::seq_lib::to_multiset_remove(b.map_values(f), j);
        assert(b.map_values(f)[j] == f(x));
        assert(b.map_values(f).to_multiset() =~= b2.map_values(f).to_multiset().insert(f(x)));
    }
}

} // verus!
