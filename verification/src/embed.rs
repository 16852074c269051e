//! What goes into the local embedding model: the task prefix of a text and
//! its token ids cut to the model's sequence length.
use vstd::prelude::*;
use crate::text::{append_all, chars_of, string_of};

verus! {

/// Prefix of a search query.
pub const QUERY_PREFIX: &'static str = "task: search result | query: ";

/// Prefix of a document passage.
pub const DOCUMENT_PREFIX: &'static str = "title: none | text: ";

/// The most tokens the model reads.
pub const MAX_SEQ_LEN: usize = 512;

/// Whether a text is embedded as a search query or as a document passage.
#[derive(Debug, Clone, Copy, PartialEq, Eq, Structural)]
pub enum EmbedRole {
    Query,
    Document,
}

/// The text the model embeds: the role's prefix, then the text.
pub fn embedding_input(text: &str, role: EmbedRole) -> (r: String)
    ensures
        r@ == match role {
            EmbedRole::Query => QUERY_PREFIX@,
            EmbedRole::Document => DOCUMENT_PREFIX@,
        } + text@,
{
    let mut v = match role {
        EmbedRole::Query => chars_of(QUERY_PREFIX),
        EmbedRole::Document => chars_of(DOCUMENT_PREFIX),
    };
    append_all(&mut v, &chars_of(text));
    string_of(&v)
}

/// At most the first `MAX_SEQ_LEN` values, widened to `i64`.
pub open spec fn model_input(xs: Seq<u32>) -> Seq<i64> {
    let n = if xs.len() <= MAX_SEQ_LEN {
        xs.len()
    } else {
        MAX_SEQ_LEN as nat
    };
    Seq::new(n, |i: int| xs[i] as i64)
}

fn widen_prefix(xs: &[u32]) -> (r: Vec<i64>)
    ensures
        r@ == model_input(xs@),
{
    let n: usize = if xs.len() <= MAX_SEQ_LEN { xs.len() } else { MAX_SEQ_LEN };
    let mut r: Vec<i64> = Vec::new();
    let mut i: usize = 0;
    while i < n
        invariant
            i <= n,
            n <= xs.len(),
            n == if xs.len() <= MAX_SEQ_LEN { xs.len() } else { MAX_SEQ_LEN },
            r@ == model_input(xs@).take(i as int),
        decreases n - i,
    {
        r.push(xs[i] as i64);
        assert(r@ =~= model_input(xs@).take(i + 1));
        i = i + 1;
    }
    assert(r@ =~= model_input(xs@));
    r
}

/// The token ids and attention mask fed to the model: each cut to the first
/// `MAX_SEQ_LEN` entries and widened to `i64`.
pub fn model_inputs(ids: &[u32], mask: &[u32]) -> (r: (Vec<i64>, Vec<i64>))
    ensures
        r.0@ == model_input(ids@),
        r.1@ == model_input(mask@),
        r.0@.len() <= MAX_SEQ_LEN,
{
    (widen_prefix(ids), widen_prefix(mask))
}

} // verus!
