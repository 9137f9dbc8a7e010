//! The identities and source paths of a project-content set about to be
//! encoded: documents in canonical order (by kind, then id), the ids that
//! are blank or repeated within a kind, and the source path each canonical
//! file is saved under.

use vstd::prelude::*;
use vstd::relations::{sorted_by, total_ordering};
use vstd::utf8::encode_utf8;
use crate::authoring::{doc_keys, entry_view, key_view, path_entries, DocumentKey, ProjectContentDocumentKind, SourcePathEntry};
use crate::fabric_filter::lemma_bytes_lt_irreflexive;
use crate::ids::{is_blank, is_blank_text};
use crate::topology::{lemma_text_leq_total, text_leq, text_less, texts};
use crate::content::{document_set_hash, document_set_key, CanonicalFileKey};
use crate::fnv::{fnv_bytes, FNV_OFFSET};
use crate::text::fnv_label_text;

verus! {

// ---------------------------------------------------------------------------
// Canonical order of documents.

/// The place of a document kind in the canonical order.
pub open spec fn kind_rank(k: ProjectContentDocumentKind) -> int {
    match k {
        ProjectContentDocumentKind::EntityDefinition => 0,
        ProjectContentDocumentKind::AssetCatalog => 1,
        ProjectContentDocumentKind::PrefabRegistry => 2,
        ProjectContentDocumentKind::GameplayConfiguration => 3,
        ProjectContentDocumentKind::PresentationCatalog => 4,
        ProjectContentDocumentKind::InputCatalog => 5,
        ProjectContentDocumentKind::BehaviorPackage => 6,
    }
}

fn kind_rank_exec(k: ProjectContentDocumentKind) -> (r: u8)
    ensures
        r == kind_rank(k),
{
    match k {
        ProjectContentDocumentKind::EntityDefinition => 0,
        ProjectContentDocumentKind::AssetCatalog => 1,
        ProjectContentDocumentKind::PrefabRegistry => 2,
        ProjectContentDocumentKind::GameplayConfiguration => 3,
        ProjectContentDocumentKind::PresentationCatalog => 4,
        ProjectContentDocumentKind::InputCatalog => 5,
        ProjectContentDocumentKind::BehaviorPackage => 6,
    }
}

/// Documents are ordered by kind, then by id in byte order.
pub open spec fn key_leq(a: (ProjectContentDocumentKind, Seq<char>), b: (ProjectContentDocumentKind, Seq<char>)) -> bool {
    ||| kind_rank(a.0) < kind_rank(b.0)
    ||| kind_rank(a.0) == kind_rank(b.0) && text_leq(a.1, b.1)
}

/// The keys in canonical order.
pub open spec fn sorted_keys(ks: Seq<(ProjectContentDocumentKind, Seq<char>)>) -> Seq<(ProjectContentDocumentKind, Seq<char>)> {
    ks.sort_by(|a: (ProjectContentDocumentKind, Seq<char>), b: (ProjectContentDocumentKind, Seq<char>)| key_leq(a, b))
}

pub proof fn lemma_key_leq_total()
    ensures
        total_ordering(|a: (ProjectContentDocumentKind, Seq<char>), b: (ProjectContentDocumentKind, Seq<char>)| key_leq(a, b)),
{
    let leq = |a: (ProjectContentDocumentKind, Seq<char>), b: (ProjectContentDocumentKind, Seq<char>)| key_leq(a, b);
    let tl = |a: Seq<char>, b: Seq<char>| text_leq(a, b);
    lemma_text_leq_total();
    assert forall|x: (ProjectContentDocumentKind, Seq<char>)| #[trigger] leq(x, x) by {
        assert(tl(x.1, x.1));
    }
    assert forall|x: (ProjectContentDocumentKind, Seq<char>), y: (ProjectContentDocumentKind, Seq<char>)|
        #[trigger] leq(x, y) && #[trigger] leq(y, x) implies x == y by {
        assert(tl(x.1, y.1) && tl(y.1, x.1));
    }
    assert forall|x: (ProjectContentDocumentKind, Seq<char>), y: (ProjectContentDocumentKind, Seq<char>), z: (ProjectContentDocumentKind, Seq<char>)|
        #[trigger] leq(x, y) && #[trigger] leq(y, z) implies leq(x, z) by {
        if kind_rank(x.0) == kind_rank(y.0) && kind_rank(y.0) == kind_rank(z.0) {
            assert(tl(x.1, y.1) && tl(y.1, z.1));
            assert(tl(x.1, z.1));
        }
    }
    assert forall|x: (ProjectContentDocumentKind, Seq<char>), y: (ProjectContentDocumentKind, Seq<char>)|
        #[trigger] leq(x, y) || #[trigger] leq(y, x) by {
        assert(tl(x.1, y.1) || tl(y.1, x.1));
    }
}

/// `a` comes strictly before `b`.
fn key_less(a: &DocumentKey, b: &DocumentKey) -> (r: bool)
    ensures
        r ==> key_leq(key_view(*a), key_view(*b)) && key_view(*a) != key_view(*b),
        !r ==> key_leq(key_view(*b), key_view(*a)),
{
    proof {
        lemma_key_leq_total();
        lemma_bytes_lt_irreflexive(encode_utf8(a.document_id@));
    }
    let ra = kind_rank_exec(a.kind);
    let rb = kind_rank_exec(b.kind);
    if ra < rb {
        return true;
    }
    if ra > rb {
        return false;
    }
    let r = text_less(&a.document_id, &b.document_id);
    proof {
        let leq = |a: (ProjectContentDocumentKind, Seq<char>), b: (ProjectContentDocumentKind, Seq<char>)| key_leq(a, b);
        assert(leq(key_view(*a), key_view(*b)) || leq(key_view(*b), key_view(*a)));
        if !r && key_leq(key_view(*a), key_view(*b)) {
            assert(a.document_id@ == b.document_id@);
            assert(a.kind == b.kind);
        }
    }
    r
}

/// The documents' keys in canonical order.
pub fn sort_document_keys(v: Vec<DocumentKey>) -> (r: Vec<DocumentKey>)
    ensures
        doc_keys(r@) == sorted_keys(doc_keys(v@)),
{
    let ghost leq = |a: (ProjectContentDocumentKind, Seq<char>), b: (ProjectContentDocumentKind, Seq<char>)| key_leq(a, b);
    let ghost input = doc_keys(v@);
    let mut src = v;
    let mut out: Vec<DocumentKey> = Vec::new();
    proof {
        broadcast use vstd::seq_lib::group_to_multiset_ensures;
        lemma_key_leq_total();
        assert(doc_keys(out@) =~= Seq::<(ProjectContentDocumentKind, Seq<char>)>::empty());
        assert(doc_keys(out@).to_multiset().add(doc_keys(src@).to_multiset()) =~= input.to_multiset());
    }
    while src.len() > 0
        invariant
            leq == (|a: (ProjectContentDocumentKind, Seq<char>), b: (ProjectContentDocumentKind, Seq<char>)| key_leq(a, b)),
            total_ordering(leq),
            sorted_by(doc_keys(out@), leq),
            doc_keys(out@).to_multiset().add(doc_keys(src@).to_multiset()) == input.to_multiset(),
        decreases src@.len(),
    {
        let ghost src0 = doc_keys(src@);
        let ghost out0 = doc_keys(out@);
        let x = src.pop().unwrap();
        proof {
            assert(src0 =~= doc_keys(src@).push(key_view(x)));
            vstd::seq_lib::to_multiset_build(doc_keys(src@), key_view(x));
        }
        let mut p: usize = 0;
        while p < out.len() && key_less(&out[p], &x)
            invariant
                p <= out@.len(),
                out0 == doc_keys(out@),
                forall|t: int| 0 <= t < p ==> key_leq(#[trigger] out0[t], key_view(x)),
            decreases out@.len() - p,
        {
            assert(out0[p as int] == key_view(out@[p as int]));
            p = p + 1;
        }
        proof {
            if p < out@.len() {
                assert(out0[p as int] == key_view(out@[p as int]));
            }
        }
        out.insert(p, x);
        proof {
            let o = doc_keys(out@);
            assert(o =~= out0.insert(p as int, key_view(x)));
            vstd::seq_lib::to_multiset_insert(out0, p as int, key_view(x));
            assert forall|i: int, j: int| 0 <= i < j < o.len() implies #[trigger] leq(o[i], o[j]) by {
                if j < p {
                    assert(o[i] == out0[i] && o[j] == out0[j]);
                } else if j == p {
                    assert(o[i] == out0[i]);
                } else if i == p {
                    assert(o[j] == out0[j - 1]);
                    assert(leq(key_view(x), out0[p as int]));
                    assert(leq(out0[p as int], out0[j - 1]));
                } else if i < p {
                    assert(o[i] == out0[i] && o[j] == out0[j - 1]);
                } else {
                    assert(o[i] == out0[i - 1] && o[j] == out0[j - 1]);
                }
            }
            assert(o.to_multiset().add(doc_keys(src@).to_multiset()) =~= input.to_multiset());
        }
    }
    proof {
        broadcast use vstd::seq_lib::group_to_multiset_ensures;
        assert(doc_keys(src@) =~= Seq::<(ProjectContentDocumentKind, Seq<char>)>::empty());
        assert(doc_keys(out@).to_multiset() =~= input.to_multiset());
        input.lemma_sort_by_ensures(leq);
        vstd::seq_lib::lemma_sorted_unique(doc_keys(out@), input.sort_by(leq), leq);
    }
    out
}

// ---------------------------------------------------------------------------
// Blank and repeated ids.

/// Key `i` of `ks` has a blank id, or repeats an earlier key.
pub open spec fn key_refused(ks: Seq<(ProjectContentDocumentKind, Seq<char>)>, i: int) -> bool {
    is_blank_text(ks[i].1) || exists|j: int| 0 <= j < i && ks[j] == ks[i]
}

/// The ids of the refused keys among the first `n`, in order.
pub open spec fn refused_ids(ks: Seq<(ProjectContentDocumentKind, Seq<char>)>, n: int) -> Seq<Seq<char>>
    decreases n,
{
    if n <= 0 {
        Seq::empty()
    } else if key_refused(ks, n - 1) {
        refused_ids(ks, n - 1).push(ks[n - 1].1)
    } else {
        refused_ids(ks, n - 1)
    }
}

/// The documents in canonical order, and the id of each that is blank or
/// repeats another document of its kind (one entry per repetition), in that
/// order. The set is refused exactly when this list is not empty.
pub fn document_key_problems(documents: Vec<DocumentKey>) -> (r: (Vec<DocumentKey>, Vec<String>))
    ensures
        doc_keys(r.0@) == sorted_keys(doc_keys(documents@)),
        texts(r.1@) == refused_ids(doc_keys(r.0@), r.0@.len() as int),
{
    let sorted = sort_document_keys(documents);
    let ghost ks = doc_keys(sorted@);
    let ghost leq = |a: (ProjectContentDocumentKind, Seq<char>), b: (ProjectContentDocumentKind, Seq<char>)| key_leq(a, b);
    proof {
        lemma_key_leq_total();
        let input = doc_keys(documents@);
        input.lemma_sort_by_ensures(leq);
    }
    let mut out: Vec<String> = Vec::new();
    let mut i: usize = 0;
    while i < sorted.len()
        invariant
            i <= sorted@.len(),
            ks == doc_keys(sorted@),
            total_ordering(leq),
            leq == (|a: (ProjectContentDocumentKind, Seq<char>), b: (ProjectContentDocumentKind, Seq<char>)| key_leq(a, b)),
            sorted_by(ks, leq),
            texts(out@) == refused_ids(ks, i as int),
        decreases sorted@.len() - i,
    {
        let ghost before = texts(out@);
        let d = &sorted[i];
        let mut repeated = false;
        if i > 0 {
            let p = &sorted[i - 1];
            repeated = p.kind == d.kind && p.document_id == d.document_id;
        }
        proof {
            assert(ks[i as int] == key_view(sorted@[i as int]));
            if i > 0 {
                assert(ks[i - 1] == key_view(sorted@[i - 1]));
            }
            if exists|j: int| 0 <= j < i && ks[j] == ks[i as int] {
                let j = choose|j: int| 0 <= j < i && ks[j] == ks[i as int];
                if j < i - 1 {
                    assert(leq(ks[j], ks[i - 1]));
                    assert(leq(ks[i - 1], ks[i as int]));
                }
            }
        }
        if is_blank(d.document_id.as_str()) || repeated {
            out.push(d.document_id.clone());
            assert(texts(out@) =~= before.push(ks[i as int].1));
        }
        i = i + 1;
    }
    (sorted, out)
}

// ---------------------------------------------------------------------------
// Source paths of the canonical files.

/// A canonical file that cannot be saved where its manifest says.
#[derive(Debug, Clone, Copy, PartialEq, Eq, Structural)]
pub enum PathAssignmentProblem {
    /// File `index` has no retained manifest path.
    MissingPath { index: usize },
    /// The path of file `index` was last assigned to file `owner`.
    PathTaken { index: usize, owner: usize },
}

/// The path retained for key `k`: the first entry from `j` on that names it.
pub open spec fn lookup_from(
    es: Seq<((ProjectContentDocumentKind, Seq<char>), Seq<char>)>,
    k: (ProjectContentDocumentKind, Seq<char>),
    j: int,
) -> Option<Seq<char>>
    decreases es.len() - j,
{
    if j < 0 || j >= es.len() {
        None
    } else if es[j].0 == k {
        Some(es[j].1)
    } else {
        lookup_from(es, k, j + 1)
    }
}

pub open spec fn retained_path(
    es: Seq<((ProjectContentDocumentKind, Seq<char>), Seq<char>)>,
    k: (ProjectContentDocumentKind, Seq<char>),
) -> Option<Seq<char>> {
    lookup_from(es, k, 0)
}

/// The last of the first `n` files whose retained path is `path`.
pub open spec fn owner_before(
    ks: Seq<(ProjectContentDocumentKind, Seq<char>)>,
    es: Seq<((ProjectContentDocumentKind, Seq<char>), Seq<char>)>,
    path: Seq<char>,
    n: int,
) -> Option<int>
    decreases n,
{
    if n <= 0 {
        None
    } else if retained_path(es, ks[n - 1]) == Some(path) {
        Some(n - 1)
    } else {
        owner_before(ks, es, path, n - 1)
    }
}

/// The problems of the first `n` files, in order.
pub open spec fn path_problems(
    ks: Seq<(ProjectContentDocumentKind, Seq<char>)>,
    es: Seq<((ProjectContentDocumentKind, Seq<char>), Seq<char>)>,
    n: int,
) -> Seq<PathAssignmentProblem>
    decreases n,
{
    if n <= 0 {
        Seq::empty()
    } else {
        let prev = path_problems(ks, es, n - 1);
        match retained_path(es, ks[n - 1]) {
            None => prev.push(PathAssignmentProblem::MissingPath { index: (n - 1) as usize }),
            Some(p) => match owner_before(ks, es, p, n - 1) {
                Some(o) => prev.push(PathAssignmentProblem::PathTaken { index: (n - 1) as usize, owner: o as usize }),
                None => prev,
            },
        }
    }
}

fn retained_path_exec(sources: &Vec<SourcePathEntry>, k: &DocumentKey) -> (r: Option<String>)
    ensures
        match r {
            Some(p) => retained_path(path_entries(sources@), key_view(*k)) == Some(p@),
            None => retained_path(path_entries(sources@), key_view(*k)) is None,
        },
{
    let ghost es = path_entries(sources@);
    let mut j: usize = 0;
    while j < sources.len()
        invariant
            j <= sources@.len(),
            es == path_entries(sources@),
            lookup_from(es, key_view(*k), 0) == lookup_from(es, key_view(*k), j as int),
        decreases sources@.len() - j,
    {
        let e = &sources[j];
        assert(es[j as int] == entry_view(sources@[j as int]));
        if e.key.kind == k.kind && e.key.document_id == k.document_id {
            return Some(e.source_path.clone());
        }
        j = j + 1;
    }
    None
}

/// Give each canonical file the source path its manifest retained, or
/// report every file that has none and every file whose path an earlier
/// file already took (naming the last such file).
pub fn assign_source_paths(files: &Vec<DocumentKey>, sources: &Vec<SourcePathEntry>) -> (r: Result<Vec<String>, Vec<PathAssignmentProblem>>)
    ensures
        ({
            let ks = doc_keys(files@);
            let es = path_entries(sources@);
            let problems = path_problems(ks, es, ks.len() as int);
            &&& r is Ok <==> problems.len() == 0
            &&& r is Err ==> r->Err_0@ == problems
            &&& r is Ok ==> r->Ok_0@.len() == ks.len() && forall|i: int|
                0 <= i < ks.len() ==> retained_path(es, ks[i]) == Some(#[trigger] r->Ok_0@[i]@)
        }),
{
    let ghost ks = doc_keys(files@);
    let ghost es = path_entries(sources@);
    let mut paths: Vec<Option<String>> = Vec::new();
    let mut problems: Vec<PathAssignmentProblem> = Vec::new();
    let mut i: usize = 0;
    while i < files.len()
        invariant
            i <= files@.len(),
            ks == doc_keys(files@),
            es == path_entries(sources@),
            paths@.len() == i,
            forall|t: int| 0 <= t < i ==> match #[trigger] paths@[t] {
                Some(p) => retained_path(es, ks[t]) == Some(p@),
                None => retained_path(es, ks[t]) is None,
            },
            problems@ == path_problems(ks, es, i as int),
        decreases files@.len() - i,
    {
        assert(ks[i as int] == key_view(files@[i as int]));
        let found = retained_path_exec(sources, &files[i]);
        match &found {
            None => {
                problems.push(PathAssignmentProblem::MissingPath { index: i });
            },
            Some(p) => {
                let mut j: usize = i;
                let mut owner: Option<usize> = None;
                while j > 0 && owner.is_none()
                    invariant
                        j <= i,
                        i < files@.len(),
                        paths@.len() == i,
                        forall|t: int| 0 <= t < i ==> match #[trigger] paths@[t] {
                            Some(q) => retained_path(es, ks[t]) == Some(q@),
                            None => retained_path(es, ks[t]) is None,
                        },
                        owner is None ==> owner_before(ks, es, p@, i as int) == owner_before(ks, es, p@, j as int),
                        owner is Some ==> owner_before(ks, es, p@, i as int) == Some(owner->Some_0 as int),
                    decreases j,
                {
                    let t = j - 1;
                    let same = match &paths[t] {
                        Some(q) => *q == *p,
                        None => false,
                    };
                    proof {
                        match &paths@[t as int] {
                            Some(q) => {
                                if !same {
                                    assert(q@ != p@);
                                }
                            },
                            None => {},
                        }
                    }
                    if same {
                        owner = Some(t);
                    }
                    j = t;
                }
                match owner {
                    Some(o) => {
                        problems.push(PathAssignmentProblem::PathTaken { index: i, owner: o });
                    },
                    None => {},
                }
            },
        }
        let ghost prev_paths = paths@;
        paths.push(found);
        proof {
            assert forall|t: int| 0 <= t < i + 1 implies match #[trigger] paths@[t] {
                Some(p) => retained_path(es, ks[t]) == Some(p@),
                None => retained_path(es, ks[t]) is None,
            } by {
                if t < i {
                    assert(paths@[t] == prev_paths[t]);
                }
            }
        }
        i = i + 1;
    }
    if problems.len() > 0 {
        return Err(problems);
    }
    let mut out: Vec<String> = Vec::new();
    let mut t: usize = 0;
    while t < paths.len()
        invariant
            t <= paths@.len(),
            paths@.len() == ks.len(),
            problems@ == path_problems(ks, es, ks.len() as int),
            problems@.len() == 0,
            forall|u: int| 0 <= u < paths@.len() ==> match #[trigger] paths@[u] {
                Some(p) => retained_path(es, ks[u]) == Some(p@),
                None => retained_path(es, ks[u]) is None,
            },
            out@.len() == t,
            forall|u: int| 0 <= u < t ==> retained_path(es, ks[u]) == Some(#[trigger] out@[u]@),
        decreases paths@.len() - t,
    {
        proof {
            lemma_no_problems_all_paths(ks, es, ks.len() as int, t as int);
        }
        match &paths[t] {
            Some(p) => out.push(p.clone()),
            None => {},
        }
        t = t + 1;
    }
    Ok(out)
}

proof fn lemma_no_problems_all_paths(
    ks: Seq<(ProjectContentDocumentKind, Seq<char>)>,
    es: Seq<((ProjectContentDocumentKind, Seq<char>), Seq<char>)>,
    n: int,
    t: int,
)
    requires
        0 <= t < n,
        path_problems(ks, es, n).len() == 0,
    ensures
        retained_path(es, ks[t]) is Some,
    decreases n,
{
    if t < n - 1 {
        lemma_problems_grow(ks, es, n);
        lemma_no_problems_all_paths(ks, es, n - 1, t);
    }
}

proof fn lemma_problems_grow(
    ks: Seq<(ProjectContentDocumentKind, Seq<char>)>,
    es: Seq<((ProjectContentDocumentKind, Seq<char>), Seq<char>)>,
    n: int,
)
    requires
        n > 0,
    ensures
        path_problems(ks, es, n - 1).len() <= path_problems(ks, es, n).len(),
{
}

// ---------------------------------------------------------------------------
// The stages of encoding a document set.

/// Why a document set was not encoded, by the stage that refused it.
#[derive(Debug, Clone, PartialEq, Eq)]
pub enum EncodeRefusal {
    /// Blank or repeated document ids, in canonical order.
    DocumentKeys { ids: Vec<String> },
    /// The documents' own validation reported problems.
    Validation,
    /// Canonical files without a retained path, or sharing one.
    SourcePaths { problems: Vec<PathAssignmentProblem> },
}

/// An encoded set: its documents in canonical order, the source path of
/// each canonical file (when the set was opened from a manifest), and the
/// set hash.
#[derive(Debug, Clone, PartialEq, Eq)]
pub struct EncodedSet {
    pub documents: Vec<DocumentKey>,
    pub source_paths: Option<Vec<String>>,
    pub set_hash: String,
}

/// The key of canonical file `i`: its retained path, if any, its document
/// id and its content hash.
pub open spec fn file_key(files: Seq<DocumentKey>, hashes: Seq<String>, paths: Option<Seq<String>>, i: int) -> CanonicalFileKey {
    CanonicalFileKey {
        source_path: match paths {
            Some(ps) => Some(ps[i]),
            None => None,
        },
        document_id: files[i].document_id,
        content_hash: hashes[i],
    }
}

pub open spec fn file_keys(files: Seq<DocumentKey>, hashes: Seq<String>, paths: Option<Seq<String>>) -> Seq<CanonicalFileKey> {
    Seq::new(files.len(), |i: int| file_key(files, hashes, paths, i))
}

pub open spec fn opt_vec_view(o: Option<Vec<String>>) -> Option<Seq<String>> {
    match o {
        Some(v) => Some(v@),
        None => None,
    }
}

/// Encode a document set in stages, each refusing before the next runs:
/// the document keys (blank or repeated ids), then the documents' own
/// validation (`validation_problems`, counted by the validators), then,
/// for a set opened from a manifest (`sources`), the source path of every
/// canonical file (`files`, with content hashes `hashes`). Only a set that
/// passes every stage gets its set hash.
pub fn stage_encode(
    documents: Vec<DocumentKey>,
    validation_problems: usize,
    files: &Vec<DocumentKey>,
    hashes: &Vec<String>,
    sources: Option<&Vec<SourcePathEntry>>,
) -> (r: Result<EncodedSet, EncodeRefusal>)
    requires
        files@.len() == hashes@.len(),
    ensures
        ({
            let sorted = sorted_keys(doc_keys(documents@));
            let refused = refused_ids(sorted, sorted.len() as int);
            &&& refused.len() > 0 ==> (r matches Err(EncodeRefusal::DocumentKeys { ids }) && texts(ids@) == refused)
            &&& refused.len() == 0 && validation_problems > 0 ==> r == Err::<EncodedSet, EncodeRefusal>(EncodeRefusal::Validation)
            &&& refused.len() == 0 && validation_problems == 0 ==> match sources {
                Some(src) => {
                    let ks = doc_keys(files@);
                    let problems = path_problems(ks, path_entries(src@), ks.len() as int);
                    &&& problems.len() > 0 ==> (r matches Err(EncodeRefusal::SourcePaths { problems: ps }) && ps@ == problems)
                    &&& problems.len() == 0 ==> (match r {
                        Ok(e) => {
                            &&& doc_keys(e.documents@) == sorted
                            &&& match e.source_paths {
                                Some(paths) => {
                                    &&& paths@.len() == ks.len()
                                    &&& forall|i: int| 0 <= i < ks.len() ==> retained_path(path_entries(src@), ks[i]) == Some(#[trigger] paths@[i]@)
                                    &&& e.set_hash@ == fnv_label_text(fnv_bytes(FNV_OFFSET, encode_utf8(document_set_key(
                                        file_keys(files@, hashes@, Some(paths@))))))
                                },
                                None => false,
                            }
                        },
                        Err(_) => false,
                    })
                },
                None => match r {
                    Ok(e) => {
                        &&& doc_keys(e.documents@) == sorted
                        &&& e.source_paths is None
                        &&& e.set_hash@ == fnv_label_text(fnv_bytes(FNV_OFFSET, encode_utf8(document_set_key(
                            file_keys(files@, hashes@, None)))))
                    },
                    Err(_) => false,
                },
            }
        }),
{
    let (sorted, refused) = document_key_problems(documents);
    if refused.len() > 0 {
        return Err(EncodeRefusal::DocumentKeys { ids: refused });
    }
    if validation_problems > 0 {
        return Err(EncodeRefusal::Validation);
    }
    let paths: Option<Vec<String>> = match sources {
        Some(src) => match assign_source_paths(files, src) {
            Ok(p) => Some(p),
            Err(problems) => {
                return Err(EncodeRefusal::SourcePaths { problems });
            },
        },
        None => None,
    };
    let mut keys: Vec<CanonicalFileKey> = Vec::new();
    let mut i: usize = 0;
    while i < files.len()
        invariant
            i <= files@.len(),
            files@.len() == hashes@.len(),
            paths matches Some(ps) ==> ps@.len() == files@.len(),
            keys@.len() == i,
            forall|t: int| 0 <= t < i ==> #[trigger] keys@[t] == file_key(files@, hashes@, opt_vec_view(paths), t),
        decreases files@.len() - i,
    {
        let source_path = match &paths {
            Some(ps) => Some(ps[i].clone()),
            None => None,
        };
        keys.push(CanonicalFileKey {
            source_path,
            document_id: files[i].document_id.clone(),
            content_hash: hashes[i].clone(),
        });
        i = i + 1;
    }
    assert(keys@ =~= file_keys(files@, hashes@, opt_vec_view(paths)));
    let set_hash = document_set_hash(keys.as_slice());
    Ok(EncodedSet { documents: sorted, source_paths: paths, set_hash })
}

} // verus!
