use vstd::prelude::*;

verus! {

use crate::document::Document;
use crate::paths::seg_views;
use crate::paths::str_eq;
use crate::paths::valid_segment;

// The tag index: every tag that any document carries, each with the
// documents carrying it, in the collection's order. Tags are case-sensitive
// and unsanitized beyond the trimming the front matter parser applies.

/// One tag and the positions, in collection order, of the documents
/// carrying it.
pub struct TagGroup {
    pub tag: String,
    pub docs: Vec<usize>,
}

pub open spec fn doc_has_tag(d: Document, t: Seq<char>) -> bool {
    seg_views(d.tags@).contains(t)
}

/// Every tag occurrence, in document order.
pub open spec fn all_tags(docs: Seq<Document>) -> Seq<Seq<char>>
    decreases docs.len(),
{
    if docs.len() == 0 {
        Seq::empty()
    } else {
        all_tags(docs.drop_last()) + seg_views(docs.last().tags@)
    }
}

/// The distinct values of a sequence, each at its first occurrence.
pub open spec fn dedup_first(s: Seq<Seq<char>>) -> Seq<Seq<char>>
    decreases s.len(),
{
    if s.len() == 0 {
        Seq::empty()
    } else {
        let p = dedup_first(s.drop_last());
        if p.contains(s.last()) {
            p
        } else {
            p.push(s.last())
        }
    }
}

/// The positions of the documents carrying tag `t`, ascending.
pub open spec fn tag_docs(docs: Seq<Document>, t: Seq<char>) -> Seq<usize>
    decreases docs.len(),
{
    if docs.len() == 0 {
        Seq::empty()
    } else {
        let p = tag_docs(docs.drop_last(), t);
        if doc_has_tag(docs.last(), t) {
            p.push((docs.len() - 1) as usize)
        } else {
            p
        }
    }
}

pub proof fn lemma_all_tags_valid(docs: Seq<Document>)
    requires
        forall|i: int, t: int|
            0 <= i < docs.len() && 0 <= t < docs[i].tags@.len() ==> valid_segment(
                #[trigger] seg_views(docs[i].tags@)[t],
            ),
    ensures
        forall|k: int|
            0 <= k < all_tags(docs).len() ==> valid_segment(#[trigger] all_tags(docs)[k]),
    decreases docs.len(),
{
    if docs.len() > 0 {
        assert forall|i: int, t: int|
            0 <= i < docs.drop_last().len() && 0 <= t
                < docs.drop_last()[i].tags@.len() implies valid_segment(
            #[trigger] seg_views(docs.drop_last()[i].tags@)[t],
        ) by {
            assert(docs.drop_last()[i] == docs[i]);
            assert(valid_segment(seg_views(docs[i].tags@)[t]));
        }
        lemma_all_tags_valid(docs.drop_last());
        let p = all_tags(docs.drop_last());
        assert forall|k: int|
            0 <= k < all_tags(docs).len() implies valid_segment(
            #[trigger] all_tags(docs)[k],
        ) by {
            if k < p.len() {
                assert(all_tags(docs)[k] == p[k]);
            } else {
                assert(all_tags(docs)[k] == seg_views(docs.last().tags@)[k - p.len()]);
                assert(docs[docs.len() - 1] == docs.last());
                assert(valid_segment(seg_views(docs[docs.len() - 1].tags@)[k - p.len()]));
            }
        }
    }
}

pub proof fn lemma_dedup_first_valid(s: Seq<Seq<char>>)
    requires
        forall|k: int| 0 <= k < s.len() ==> valid_segment(#[trigger] s[k]),
    ensures
        forall|k: int|
            0 <= k < dedup_first(s).len() ==> valid_segment(#[trigger] dedup_first(s)[k]),
    decreases s.len(),
{
    if s.len() > 0 {
        assert forall|k: int|
            0 <= k < s.drop_last().len() implies valid_segment(
            #[trigger] s.drop_last()[k],
        ) by {
            assert(s.drop_last()[k] == s[k]);
        }
        lemma_dedup_first_valid(s.drop_last());
        let p = dedup_first(s.drop_last());
        if !p.contains(s.last()) {
            assert forall|k: int|
                0 <= k < dedup_first(s).len() implies valid_segment(
                #[trigger] dedup_first(s)[k],
            ) by {
                if k < p.len() {
                    assert(dedup_first(s)[k] == p[k]);
                } else {
                    assert(dedup_first(s)[k] == s.last());
                    assert(s[s.len() - 1] == s.last());
                }
            }
        }
    }
}

pub open spec fn group_tags(gs: Seq<TagGroup>) -> Seq<Seq<char>> {
    gs.map_values(|g: TagGroup| g.tag@)
}

pub fn contains_str(v: &Vec<String>, s: &str) -> (r: bool)
    ensures
        r == seg_views(v@).contains(s@),
{
    let mut i: usize = 0;
    while i < v.len()
        invariant
            i <= v@.len(),
            forall|j: int| 0 <= j < i ==> seg_views(v@)[j] != s@,
        decreases v@.len() - i,
    {
        if str_eq(v[i].as_str(), s) {
            proof {
                assert(seg_views(v@)[i as int] == s@);
            }
            return true;
        }
        i += 1;
    }
    proof {
        assert(!seg_views(v@).contains(s@));
    }
    false
}

/// Groups the document collection by tag: one group for each distinct tag,
/// in order of first appearance, holding the positions of exactly the
/// documents that carry it, in collection order.
pub fn build_tag_index(docs: &Vec<Document>) -> (r: Vec<TagGroup>)
    ensures
        group_tags(r@) == dedup_first(all_tags(docs@)),
        forall|g: int|
            0 <= g < r@.len() ==> (#[trigger] r@[g]).docs@ == tag_docs(docs@, r@[g].tag@),
{
    // every tag occurrence, in document order
    let mut flat: Vec<String> = Vec::new();
    let mut i: usize = 0;
    proof {
        assert(docs@.take(0) =~= Seq::<Document>::empty());
        assert(seg_views(flat@) =~= all_tags(docs@.take(0)));
    }
    while i < docs.len()
        invariant
            i <= docs@.len(),
            seg_views(flat@) == all_tags(docs@.take(i as int)),
        decreases docs@.len() - i,
    {
        let tags = &docs[i].tags;
        let mut j: usize = 0;
        while j < tags.len()
            invariant
                j <= tags@.len(),
                i < docs@.len(),
                tags@ == docs@[i as int].tags@,
                seg_views(flat@) == all_tags(docs@.take(i as int)) + seg_views(tags@).take(
                    j as int,
                ),
            decreases tags@.len() - j,
        {
            let ghost prevf = flat@;
            flat.push(tags[j].clone());
            proof {
                assert(seg_views(flat@) =~= seg_views(prevf).push(seg_views(tags@)[j as int]));
                assert(seg_views(tags@).take(j as int + 1) =~= seg_views(tags@).take(
                    j as int,
                ).push(seg_views(tags@)[j as int]));
                assert(seg_views(flat@) =~= all_tags(docs@.take(i as int)) + seg_views(
                    tags@,
                ).take(j as int + 1));
            }
            j += 1;
        }
        proof {
            assert(docs@.take(i as int + 1).drop_last() =~= docs@.take(i as int));
            assert(docs@.take(i as int + 1).last() == docs@[i as int]);
            assert(seg_views(tags@).take(tags@.len() as int) =~= seg_views(tags@));
        }
        i += 1;
    }
    proof {
        assert(docs@.take(docs@.len() as int) =~= docs@);
    }
    // the distinct tags, first appearance first
    let mut uniq: Vec<String> = Vec::new();
    let mut k: usize = 0;
    proof {
        assert(seg_views(flat@).take(0) =~= Seq::<Seq<char>>::empty());
        assert(seg_views(uniq@) =~= dedup_first(seg_views(flat@).take(0)));
    }
    while k < flat.len()
        invariant
            k <= flat@.len(),
            seg_views(flat@) == all_tags(docs@),
            seg_views(uniq@) == dedup_first(seg_views(flat@).take(k as int)),
        decreases flat@.len() - k,
    {
        proof {
            assert(seg_views(flat@).take(k as int + 1).drop_last() =~= seg_views(flat@).take(
                k as int,
            ));
            assert(seg_views(flat@).take(k as int + 1).last() == seg_views(flat@)[k as int]);
        }
        if !contains_str(&uniq, flat[k].as_str()) {
            uniq.push(flat[k].clone());
            proof {
                assert(seg_views(uniq@) =~= seg_views(uniq@.drop_last()).push(
                    seg_views(flat@)[k as int],
                ));
            }
        }
        k += 1;
    }
    proof {
        assert(seg_views(flat@).take(flat@.len() as int) =~= seg_views(flat@));
    }
    // one group for each distinct tag
    let mut groups: Vec<TagGroup> = Vec::new();
    let mut ti: usize = 0;
    while ti < uniq.len()
        invariant
            ti <= uniq@.len(),
            seg_views(uniq@) == dedup_first(all_tags(docs@)),
            groups@.len() == ti,
            forall|g: int|
                0 <= g < ti ==> (#[trigger] groups@[g]).tag@ == seg_views(uniq@)[g]
                    && groups@[g].docs@ == tag_docs(docs@, seg_views(uniq@)[g]),
        decreases uniq@.len() - ti,
    {
        let mut ds: Vec<usize> = Vec::new();
        let mut j: usize = 0;
        proof {
            assert(docs@.take(0) =~= Seq::<Document>::empty());
            assert(ds@ =~= tag_docs(docs@.take(0), seg_views(uniq@)[ti as int]));
        }
        while j < docs.len()
            invariant
                j <= docs@.len(),
                ti < uniq@.len(),
                ds@ == tag_docs(docs@.take(j as int), seg_views(uniq@)[ti as int]),
            decreases docs@.len() - j,
        {
            proof {
                assert(docs@.take(j as int + 1).drop_last() =~= docs@.take(j as int));
                assert(docs@.take(j as int + 1).last() == docs@[j as int]);
            }
            if contains_str(&docs[j].tags, uniq[ti].as_str()) {
                ds.push(j);
            }
            j += 1;
        }
        proof {
            assert(docs@.take(docs@.len() as int) =~= docs@);
        }
        groups.push(TagGroup { tag: uniq[ti].clone(), docs: ds });
        ti += 1;
    }
    proof {
        assert(group_tags(groups@) =~= seg_views(uniq@));
    }
    groups
}

} // verus!
