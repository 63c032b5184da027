use vstd::prelude::*;

verus! {

use vstd::multiset::Multiset;
use vstd::seq_lib::lemma_multiset_commutative;

use crate::dates::Date;
use crate::order::lemma_ord_le_total;
use crate::order::lemma_ord_le_trans;
use crate::order::ord_le;
use crate::order::path_lt_exec;
use crate::paths::seg_views;

/// How a document takes part in the build.
#[derive(Clone, Copy, PartialEq, Eq, Structural, Debug)]
pub enum DocKind {
    Post,
    Page,
    Draft,
}

/// One content document: its path relative to the source root, its
/// metadata, its body, its rendered body, and its routed output path.
pub struct Document {
    pub rel_path: Vec<String>,
    pub kind: DocKind,
    pub title: String,
    pub date: Option<Date>,
    pub tags: Vec<String>,
    pub draft: bool,
    pub body: String,
    pub html: String,
    pub output: Vec<String>,
}

impl Document {
    pub open spec fn wf(self) -> bool {
        match self.date {
            Some(d) => d.wf(),
            None => true,
        }
    }

    /// The integer a document sorts by; an absent date sorts last.
    pub open spec fn date_key(self) -> int {
        match self.date {
            Some(d) => d.key_spec(),
            None => 0,
        }
    }

    pub fn date_key_exec(&self) -> (r: u64)
        requires
            self.wf(),
        ensures
            r as int == self.date_key(),
    {
        match &self.date {
            Some(d) => d.key(),
            None => 0,
        }
    }
}

/// The order the document collection is kept in.
pub open spec fn doc_le(a: Document, b: Document) -> bool {
    ord_le(a.date_key(), seg_views(a.rel_path@), b.date_key(), seg_views(b.rel_path@))
}

pub open spec fn docs_sorted(s: Seq<Document>) -> bool {
    forall|i: int, j: int| 0 <= i < j < s.len() ==> doc_le(#[trigger] s[i], #[trigger] s[j])
}

pub open spec fn docs_wf(s: Seq<Document>) -> bool {
    forall|i: int| 0 <= i < s.len() ==> (#[trigger] s[i]).wf()
}

fn doc_le_exec(a: &Document, b: &Document) -> (r: bool)
    requires
        a.wf(),
        b.wf(),
    ensures
        r == doc_le(*a, *b),
{
    let ka = a.date_key_exec();
    let kb = b.date_key_exec();
    if ka > kb {
        true
    } else if ka < kb {
        false
    } else {
        if path_lt_exec(&a.rel_path, &b.rel_path) {
            true
        } else {
            let pre1 = crate::paths::is_path_prefix(&a.rel_path, &b.rel_path);
            let pre2 = crate::paths::is_path_prefix(&b.rel_path, &a.rel_path);
            proof {
                if pre1 && pre2 {
                    assert(seg_views(a.rel_path@) =~= seg_views(b.rel_path@));
                }
                if seg_views(a.rel_path@) == seg_views(b.rel_path@) {
                    assert(crate::paths::is_prefix_of(
                        seg_views(a.rel_path@),
                        seg_views(b.rel_path@),
                    ));
                    assert(crate::paths::is_prefix_of(
                        seg_views(b.rel_path@),
                        seg_views(a.rel_path@),
                    ));
                }
            }
            pre1 && pre2
        }
    }
}

/// Sorts the document collection by date, newest first, ties broken by
/// source path: the one reproducible order every consumer sees.
pub fn sort_documents(docs: Vec<Document>) -> (r: Vec<Document>)
    requires
        docs_wf(docs@),
    ensures
        docs_sorted(r@),
        r@.to_multiset() == docs@.to_multiset(),
        docs_wf(r@),
        r@.len() == docs@.len(),
{
    let mut src = docs;
    let mut out: Vec<Document> = Vec::new();
    proof {
        broadcast use vstd::seq_lib::group_to_multiset_ensures;

        assert(out@.to_multiset().add(src@.to_multiset()) =~= docs@.to_multiset());
    }
    while src.len() > 0
        invariant
            docs_sorted(out@),
            docs_wf(out@),
            docs_wf(src@),
            out@.to_multiset().add(src@.to_multiset()) == docs@.to_multiset(),
            out@.len() + src@.len() == docs@.len(),
        decreases src@.len(),
    {
        let ghost srcv = src@;
        let ghost outv = out@;
        let d = src.remove(0);
        proof {
            broadcast use vstd::seq_lib::group_to_multiset_ensures;

            assert(src@ =~= srcv.remove(0));
            assert(src@.to_multiset() =~= srcv.to_multiset().remove(d));
            assert(srcv.to_multiset().contains(d));
        }
        let mut pos: usize = 0;
        while pos < out.len() && doc_le_exec(&out[pos], &d)
            invariant
                pos <= out@.len(),
                docs_wf(out@),
                d.wf(),
                forall|j: int| 0 <= j < pos ==> doc_le(#[trigger] out@[j], d),
            decreases out@.len() - pos,
        {
            pos += 1;
        }
        proof {
            if pos < out@.len() {
                lemma_ord_le_total(
                    out@[pos as int].date_key(),
                    seg_views(out@[pos as int].rel_path@),
                    d.date_key(),
                    seg_views(d.rel_path@),
                );
            }
        }
        let ghost prev = out@;
        out.insert(pos, d);
        proof {
            broadcast use vstd::seq_lib::group_to_multiset_ensures;

            prev.insert_ensures(pos as int, d);
            assert(out@ == prev.insert(pos as int, d));
            // multiset: insert in the middle adds exactly `d`
            assert(prev.insert(pos as int, d) =~= prev.take(pos as int) + (seq![d] + prev.skip(
                pos as int,
            )));
            lemma_multiset_commutative(prev.take(pos as int), seq![d] + prev.skip(pos as int));
            lemma_multiset_commutative(seq![d], prev.skip(pos as int));
            assert(seq![d] =~= Seq::<Document>::empty().push(d));
            assert(seq![d].to_multiset() =~= Multiset::<Document>::empty().insert(d));
            assert(prev =~= prev.take(pos as int) + prev.skip(pos as int));
            lemma_multiset_commutative(prev.take(pos as int), prev.skip(pos as int));
            assert(out@.to_multiset() =~= prev.to_multiset().insert(d));
            assert(out@.to_multiset().add(src@.to_multiset()) =~= docs@.to_multiset());
            // sortedness
            if pos < prev.len() {
                assert(doc_le(d, prev[pos as int]));
                assert forall|j: int| pos <= j < prev.len() implies doc_le(d, #[trigger] prev[j]) by {
                    lemma_ord_le_trans(
                        d.date_key(),
                        seg_views(d.rel_path@),
                        prev[pos as int].date_key(),
                        seg_views(prev[pos as int].rel_path@),
                        prev[j].date_key(),
                        seg_views(prev[j].rel_path@),
                    );
                }
            }
            assert forall|i: int, j: int|
                0 <= i < j < out@.len() implies doc_le(out@[i], out@[j]) by {
                if j < pos {
                    assert(doc_le(prev[i], prev[j]));
                } else if i > pos {
                    assert(doc_le(prev[i - 1], prev[j - 1]));
                } else if j == pos {
                    assert(doc_le(prev[i], d));
                } else if i == pos {
                    assert(out@[j] == prev[j - 1]);
                    assert(doc_le(d, prev[j - 1]));
                } else {
                    assert(doc_le(prev[i], prev[j - 1]));
                }
            }
        }
    }
    proof {
        broadcast use vstd::seq_lib::group_to_multiset_ensures;

        assert(src@ =~= Seq::<Document>::empty());
        assert(out@.to_multiset().add(src@.to_multiset()) =~= out@.to_multiset());
    }
    out
}

} // verus!
