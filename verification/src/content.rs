//! Canonical identity of a set of project-content documents.

use vstd::prelude::*;
use crate::fabric_codec::stable_digest;
use crate::fnv::{fnv_bytes, FNV_OFFSET};
use crate::text::fnv_label_text;

verus! {

/// The key of one canonical project-content file: where it came from, the
/// document it holds, and the hash of its canonical content.
#[derive(Debug, Clone, PartialEq, Eq)]
pub struct CanonicalFileKey {
    pub source_path: Option<String>,
    pub document_id: String,
    pub content_hash: String,
}

/// `|source|document|hash`, with `-` for a file without a source path.
pub open spec fn file_key_text(f: CanonicalFileKey) -> Seq<char> {
    "|"@ + (match f.source_path {
        Some(p) => p@,
        None => "-"@,
    }) + "|"@ + f.document_id@ + "|"@ + f.content_hash@
}

pub open spec fn files_key_text(fs: Seq<CanonicalFileKey>) -> Seq<char>
    decreases fs.len(),
{
    if fs.len() == 0 {
        Seq::empty()
    } else {
        files_key_text(fs.drop_last()) + file_key_text(fs.last())
    }
}

/// The key text of a document set: `project-content-set-v1` and every
/// file's key, in order.
pub open spec fn document_set_key(fs: Seq<CanonicalFileKey>) -> Seq<char> {
    "project-content-set-v1"@ + files_key_text(fs)
}

/// The hash of a document set: FNV-1a over the UTF-8 bytes of its key text,
/// as an `fnv1a64:` label.
pub fn document_set_hash(files: &[CanonicalFileKey]) -> (s: String)
    ensures
        s@ == fnv_label_text(fnv_bytes(FNV_OFFSET, vstd::utf8::encode_utf8(document_set_key(files@)))),
{
    let mut key = String::new();
    key.append("project-content-set-v1");
    let mut i: usize = 0;
    while i < files.len()
        invariant
            i <= files@.len(),
            key@ == "project-content-set-v1"@ + files_key_text(files@.take(i as int)),
        decreases files@.len() - i,
    {
        let f = &files[i];
        key.append("|");
        match &f.source_path {
            Some(p) => key.append(p.as_str()),
            None => key.append("-"),
        }
        key.append("|");
        key.append(f.document_id.as_str());
        key.append("|");
        key.append(f.content_hash.as_str());
        proof {
            assert(files@.take(i + 1).drop_last() =~= files@.take(i as int));
            assert(files@.take(i + 1).last() == *f);
            assert(key@ =~= "project-content-set-v1"@ + files_key_text(files@.take(i + 1)));
        }
        i = i + 1;
    }
    assert(files@.take(i as int) =~= files@);
    stable_digest(key.as_str())
}

} // verus!
