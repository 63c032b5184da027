use vstd::prelude::*;

verus! {

use vstd::string::*;

use crate::config::Config;
use crate::dates::Date;
use crate::dates::parse_date;
use crate::dates::parse_date_spec;
use crate::document::DocKind;
use crate::document::Document;
use crate::document::docs_sorted;
use crate::document::docs_wf;
use crate::document::sort_documents;
use crate::errors::BuildError;
use crate::frontmatter::doc_spec;
use crate::frontmatter::parse_document;
use crate::paginate::PageGroup;
use crate::paginate::page_count;
use crate::paginate::pages_items;
use crate::paginate::paginate;
use crate::paths::is_markdown_name;
use crate::plan::Artifact;
use crate::plan::BuildPlan;
use crate::plan::BuildReport;
use crate::plan::Payload;
use crate::plan::SourceFile;
use crate::plan::excluded_spec;
use crate::plan::index_page_path;
use crate::plan::is_excluded;
use crate::plan::make_index_page_path;
use crate::plan::make_tag_page_path;
use crate::plan::path_eq_exec;
use crate::plan::tag_page_path;
use crate::render::html_of;
use crate::render::render_markdown;
use crate::tags::TagGroup;
use crate::tags::all_tags;
use crate::tags::build_tag_index;
use crate::tags::dedup_first;
use crate::tags::group_tags;
use crate::tags::tag_docs;
use crate::text::split_exec;
use crate::text::split_on;
use crate::paths::diff_segments;
use crate::paths::is_path_prefix;
use crate::paths::is_prefix_of;
use crate::paths::is_valid_path;
use crate::paths::rewrite_extension;
use crate::paths::route_spec;
use crate::paths::seg_views;
use crate::paths::valid_path;
use crate::paths::valid_segment;

/// The site operations: routing a source file into the output tree, building
/// a publish plan, and the preview stub.
pub struct Operations {}

/// When rebasing succeeds: both paths are made of plain segments and the
/// source path lies properly under the base.
pub open spec fn rebase_ok(path: Seq<Seq<char>>, from: Seq<Seq<char>>) -> bool {
    &&& valid_path(path)
    &&& valid_path(from)
    &&& is_prefix_of(from, path)
    &&& from.len() < path.len()
}

impl Operations {
    /// Takes the path of a file under the `from` directory and returns the
    /// corresponding path under the `to` directory, rewriting the trailing
    /// extension when `rewrite_ext` is given.
    pub fn rebase_path(
        path: &Vec<String>,
        from: &Vec<String>,
        to: &Vec<String>,
        rewrite_ext: Option<&str>,
    ) -> (r: Result<Vec<String>, BuildError>)
        ensures
            r is Ok <==> rebase_ok(seg_views(path@), seg_views(from@)),
            (r matches Ok(out) ==> seg_views(out@) == route_spec(
                seg_views(path@),
                seg_views(from@),
                seg_views(to@),
                (match rewrite_ext {
                    Some(e) => Some(e@),
                    None => None,
                }),
            )),
            (r matches Err(e) ==> (e matches BuildError::Path { path: p } && p@ == path@)),
    {
        if !is_valid_path(path) || !is_valid_path(from) {
            return Err(BuildError::Path { path: path.clone() });
        }
        if !is_path_prefix(from, path) || from.len() >= path.len() {
            return Err(BuildError::Path { path: path.clone() });
        }
        let rel = match diff_segments(path, from) {
            Some(rel) => rel,
            None => {
                return Err(BuildError::Path { path: path.clone() });
            },
        };
        let ghost relv = seg_views(path@).skip(from@.len() as int);
        assert(seg_views(rel@) == relv);
        assert(rel@.len() == relv.len());
        let mut out: Vec<String> = Vec::new();
        let mut i: usize = 0;
        while i < to.len()
            invariant
                i <= to@.len(),
                out@.len() == i,
                forall|j: int| 0 <= j < i ==> seg_views(out@)[j] == seg_views(to@)[j],
            decreases to@.len() - i,
        {
            out.push(to[i].clone());
            i += 1;
        }
        let mut k: usize = 0;
        while k < rel.len()
            invariant
                k <= rel@.len(),
                out@.len() == to@.len() + k,
                forall|j: int| 0 <= j < to@.len() ==> seg_views(out@)[j] == seg_views(to@)[j],
                forall|j: int|
                    0 <= j < k ==> seg_views(out@)[to@.len() + j] == seg_views(rel@)[j],
            decreases rel@.len() - k,
        {
            out.push(rel[k].clone());
            k += 1;
        }
        match rewrite_ext {
            Some(ext) => {
                let last = out.len() - 1;
                proof {
                    assert(seg_views(out@)[last as int] == seg_views(rel@)[rel@.len() - 1]);
                    assert(seg_views(rel@)[rel@.len() - 1] == seg_views(path@).last());
                }
                let renamed = rewrite_extension(out[last].as_str(), ext);
                let ghost prev = out@;
                out.set(last, renamed);
                proof {
                    assert(out@ == prev.update(last as int, renamed));
                    assert(seg_views(out@)[last as int] == renamed@);
                    assert(forall|j: int|
                        0 <= j < last ==> seg_views(out@)[j] == seg_views(prev)[j]);
                    assert(seg_views(out@) =~= route_spec(
                        seg_views(path@),
                        seg_views(from@),
                        seg_views(to@),
                        Some(ext@),
                    ));
                }
                Ok(out)
            },
            None => {
                proof {
                    assert(seg_views(out@) =~= route_spec(
                        seg_views(path@),
                        seg_views(from@),
                        seg_views(to@),
                        None,
                    ));
                }
                Ok(out)
            },
        }
    }

    /// Placeholder for the local preview operation: the site server itself is
    /// outside the pipeline, so there is nothing to do here and the operation
    /// always succeeds.
    pub fn preview(port: u16) -> (r: Result<(), BuildError>)
        ensures
            r is Ok,
    {
        let _ = port;
        Ok(())
    }
}

/// A split path with its empty parts dropped, so that a configured root may
/// carry a trailing or doubled separator.
pub open spec fn nonempty_segs(parts: Seq<Seq<char>>) -> Seq<Seq<char>>
    decreases parts.len(),
{
    if parts.len() == 0 {
        Seq::empty()
    } else {
        let p = nonempty_segs(parts.drop_last());
        if parts.last().len() > 0 {
            p.push(parts.last())
        } else {
            p
        }
    }
}

/// The source and output roots as path segments.
pub open spec fn source_segs(c: Config) -> Seq<Seq<char>> {
    nonempty_segs(split_on(c.source@, '/'))
}

pub open spec fn output_segs(c: Config) -> Seq<Seq<char>> {
    nonempty_segs(split_on(c.output@, '/'))
}

/// Splits a configured root into its non-empty segments.
fn root_segs(s: &str) -> (r: Vec<String>)
    ensures
        seg_views(r@) == nonempty_segs(split_on(s@, '/')),
{
    let parts = split_exec(s, '/');
    let ghost partsv = split_on(s@, '/');
    let mut out: Vec<String> = Vec::new();
    let mut i: usize = 0;
    proof {
        assert(partsv.take(0) =~= Seq::<Seq<char>>::empty());
        assert(seg_views(out@) =~= nonempty_segs(partsv.take(0)));
    }
    while i < parts.len()
        invariant
            i <= parts@.len(),
            seg_views(parts@) == partsv,
            seg_views(out@) == nonempty_segs(partsv.take(i as int)),
        decreases parts@.len() - i,
    {
        proof {
            assert(partsv.take(i as int + 1).drop_last() =~= partsv.take(i as int));
            assert(partsv.take(i as int + 1).last() == partsv[i as int]);
        }
        if parts[i].as_str().unicode_len() > 0 {
            let ghost prevo = out@;
            out.push(parts[i].clone());
            proof {
                assert(seg_views(out@) =~= seg_views(prevo).push(partsv[i as int]));
            }
        }
        i += 1;
    }
    proof {
        assert(partsv.take(partsv.len() as int) =~= partsv);
    }
    out
}

/// The title a document falls back to: the file name without its extension.
pub open spec fn slug_of(name: Seq<char>) -> Seq<char> {
    name.take(name.len() - 3)
}

/// Whether a discovered file takes part in the build: a markdown file under
/// the source root, not excluded, whose front matter and date parse, and not
/// a draft unless drafts are asked for.
pub open spec fn eligible(
    f: SourceFile,
    src: Seq<Seq<char>>,
    exc: Seq<Seq<char>>,
    infmt: Seq<char>,
    include_drafts: bool,
) -> bool {
    &&& rebase_ok(seg_views(f.path@), src)
    &&& is_markdown_name(seg_views(f.path@).last())
    &&& !excluded_spec(seg_views(f.path@).skip(src.len() as int), exc)
    &&& doc_spec(f.content@) is Some
    &&& (doc_spec(f.content@)->Some_0.0.1 matches Some(ds) ==> parse_date_spec(infmt, ds) is Some)
    &&& (include_drafts || !doc_spec(f.content@)->Some_0.0.3)
}

/// A contained markdown file that is not excluded but whose front matter or
/// date does not parse: it draws one content error and no document.
pub open spec fn file_fails(
    f: SourceFile,
    src: Seq<Seq<char>>,
    exc: Seq<Seq<char>>,
    infmt: Seq<char>,
) -> bool {
    &&& rebase_ok(seg_views(f.path@), src)
    &&& is_markdown_name(seg_views(f.path@).last())
    &&& !excluded_spec(seg_views(f.path@).skip(src.len() as int), exc)
    &&& (doc_spec(f.content@) is None || (doc_spec(f.content@)->Some_0.0.1 matches Some(ds)
        && parse_date_spec(infmt, ds) is None))
}

/// How many of the files take part in the build.
pub open spec fn count_eligible(
    files: Seq<SourceFile>,
    src: Seq<Seq<char>>,
    exc: Seq<Seq<char>>,
    infmt: Seq<char>,
    include_drafts: bool,
) -> int
    decreases files.len(),
{
    if files.len() == 0 {
        0
    } else {
        count_eligible(files.drop_last(), src, exc, infmt, include_drafts) + (if eligible(
            files.last(),
            src,
            exc,
            infmt,
            include_drafts,
        ) {
            1int
        } else {
            0int
        })
    }
}

/// How many of the files draw a per-document content error.
pub open spec fn count_failing(
    files: Seq<SourceFile>,
    src: Seq<Seq<char>>,
    exc: Seq<Seq<char>>,
    infmt: Seq<char>,
) -> int
    decreases files.len(),
{
    if files.len() == 0 {
        0
    } else {
        count_failing(files.drop_last(), src, exc, infmt) + (if file_fails(
            files.last(),
            src,
            exc,
            infmt,
        ) {
            1int
        } else {
            0int
        })
    }
}

/// Every field of a built document, as a function of the file it came from.
pub open spec fn doc_matches(
    doc: Document,
    pv: Seq<Seq<char>>,
    content: Seq<char>,
    src: Seq<Seq<char>>,
    outp: Seq<Seq<char>>,
    infmt: Seq<char>,
) -> bool {
    &&& doc_spec(content) is Some
    &&& {
        let fm = doc_spec(content)->Some_0.0;
        let body = doc_spec(content)->Some_0.1;
        &&& seg_views(doc.rel_path@) == pv.skip(src.len() as int)
        &&& doc.title@ == (match fm.0 {
            Some(t) => t,
            None => slug_of(pv.last()),
        })
        &&& doc.date == (match fm.1 {
            Some(ds) => parse_date_spec(infmt, ds),
            None => None::<Date>,
        })
        &&& seg_views(doc.tags@) == crate::paths::valid_tags(fm.2)
        &&& doc.draft == fm.3
        &&& doc.body@ == body
        &&& doc.html@ == html_of(body)
        &&& doc.kind == (if fm.3 {
            DocKind::Draft
        } else if fm.1 is Some {
            DocKind::Post
        } else {
            DocKind::Page
        })
        &&& seg_views(doc.output@) == route_spec(pv, src, outp, Some(seq!['h', 't', 'm', 'l']))
    }
}

/// The document's tag at position `t` can stand as an output path segment.
pub open spec fn valid_path_segment_at(doc: Document, t: int) -> bool {
    crate::paths::valid_segment(seg_views(doc.tags@)[t])
}

/// What holds of every document that takes part in a build, stated over the
/// document alone: well-formed metadata, a markdown source path that no
/// exclude rule matches, a body rendered by the markdown engine, an output
/// routed under the output root, and drafts only when asked for.
pub open spec fn doc_ok(
    doc: Document,
    src: Seq<Seq<char>>,
    outp: Seq<Seq<char>>,
    exc: Seq<Seq<char>>,
    include_drafts: bool,
) -> bool {
    &&& doc.wf()
    &&& seg_views(doc.rel_path@).len() > 0
    &&& is_markdown_name(seg_views(doc.rel_path@).last())
    &&& !excluded_spec(seg_views(doc.rel_path@), exc)
    &&& (forall|t: int|
        0 <= t < doc.tags@.len() ==> valid_path_segment_at(doc, t))
    &&& doc.html@ == html_of(doc.body@)
    &&& seg_views(doc.output@) == route_spec(
        src + seg_views(doc.rel_path@),
        src,
        outp,
        Some(seq!['h', 't', 'm', 'l']),
    )
    &&& (doc.draft ==> include_drafts)
    &&& doc.kind == (if doc.draft {
        DocKind::Draft
    } else if doc.date is Some {
        DocKind::Post
    } else {
        DocKind::Page
    })
}

/// What one discovered file becomes.
pub enum FileOutcome {
    /// A document that takes part in the build.
    Doc(Document),
    /// A file the build passes over: not markdown, excluded, or an
    /// unrequested draft.
    Skip,
    /// A per-document failure: front matter or date that does not parse.
    Fail(BuildError),
    /// A routing invariant violation: the file is not under the source root.
    Fatal(BuildError),
}

/// Classifies and, when it takes part, fully builds one file's document.
#[verifier::rlimit(60)]
#[verifier::spinoff_prover]
fn process_file(
    f: &SourceFile,
    config: &Config,
    src_segs: &Vec<String>,
    out_segs: &Vec<String>,
    include_drafts: bool,
) -> (r: FileOutcome)
    ensures
        ({
            let pv = seg_views(f.path@);
            let srcv = seg_views(src_segs@);
            let outv = seg_views(out_segs@);
            let exc = seg_views(config.exclude@);
            let infmt = config.input_date_format@;
            match r {
                FileOutcome::Fatal(e) => !rebase_ok(pv, srcv) && (e matches BuildError::Path {
                    path,
                } && seg_views(path@) == pv),
                FileOutcome::Doc(d) => eligible(*f, srcv, exc, infmt, include_drafts)
                    && doc_matches(d, pv, f.content@, srcv, outv, infmt) && doc_ok(
                    d,
                    srcv,
                    outv,
                    exc,
                    include_drafts,
                ),
                FileOutcome::Skip => rebase_ok(pv, srcv) && !eligible(
                    *f,
                    srcv,
                    exc,
                    infmt,
                    include_drafts,
                ) && !file_fails(*f, srcv, exc, infmt),
                FileOutcome::Fail(e) => file_fails(*f, srcv, exc, infmt) && !eligible(
                    *f,
                    srcv,
                    exc,
                    infmt,
                    include_drafts,
                ) && (e matches BuildError::Content { path } && seg_views(path@) == pv),
            }
        }),
{
    proof {
        reveal_strlit("html");
        assert("html"@ =~= seq!['h', 't', 'm', 'l']);
    }
    let ghost pv = seg_views(f.path@);
    let under = is_valid_path(&f.path) && is_valid_path(src_segs) && is_path_prefix(
        src_segs,
        &f.path,
    ) && src_segs.len() < f.path.len();
    if !under {
        return FileOutcome::Fatal(BuildError::Path { path: f.path.clone() });
    }
    let name = &f.path[f.path.len() - 1];
    proof {
        assert(name@ == pv.last());
    }
    if !crate::paths::is_markdown_name_exec(name.as_str()) {
        return FileOutcome::Skip;
    }
    // the path relative to the source root
    let mut rel: Vec<String> = Vec::new();
    let mut m: usize = src_segs.len();
    proof {
        assert(seg_views(rel@) =~= seg_views(f.path@).subrange(
            src_segs@.len() as int,
            src_segs@.len() as int,
        ));
    }
    while m < f.path.len()
        invariant
            src_segs@.len() <= m <= f.path@.len(),
            seg_views(rel@) == seg_views(f.path@).subrange(src_segs@.len() as int, m as int),
        decreases f.path@.len() - m,
    {
        let ghost prevr = rel@;
        rel.push(f.path[m].clone());
        proof {
            assert(seg_views(rel@) =~= seg_views(prevr).push(seg_views(f.path@)[m as int]));
            assert(seg_views(f.path@).subrange(src_segs@.len() as int, m as int + 1)
                =~= seg_views(f.path@).subrange(src_segs@.len() as int, m as int).push(
                seg_views(f.path@)[m as int],
            ));
        }
        m += 1;
    }
    proof {
        assert(seg_views(f.path@).subrange(src_segs@.len() as int, f.path@.len() as int)
            =~= pv.skip(src_segs@.len() as int));
    }
    if is_excluded(&rel, &config.exclude) {
        return FileOutcome::Skip;
    }
    let pd = match parse_document(f.content.as_str()) {
        None => {
            return FileOutcome::Fail(BuildError::Content { path: f.path.clone() });
        },
        Some(pd) => pd,
    };
    let date: Option<Date> = match &pd.matter.date {
        Some(ds) => {
            match parse_date(config.input_date_format.as_str(), ds.as_str()) {
                Some(d) => Some(d),
                None => {
                    return FileOutcome::Fail(BuildError::Content { path: f.path.clone() });
                },
            }
        },
        None => None,
    };
    if pd.matter.draft && !include_drafts {
        return FileOutcome::Skip;
    }
    let n = name.as_str().unicode_len();
    let title = match pd.matter.title {
        Some(t) => t,
        None => String::from_str(name.as_str().substring_char(0, n - 3)),
    };
    let html = render_markdown(pd.body.as_str());
    let kind = if pd.matter.draft {
        DocKind::Draft
    } else if date.is_some() {
        DocKind::Post
    } else {
        DocKind::Page
    };
    let output = match Operations::rebase_path(&f.path, src_segs, out_segs, Some("html")) {
        Ok(o) => o,
        Err(_) => {
            proof {
                assert(false);
            }
            return FileOutcome::Skip;
        },
    };
    let raw_tags = pd.matter.tags;
    let mut tags: Vec<String> = Vec::new();
    let mut ti: usize = 0;
    proof {
        assert(seg_views(raw_tags@).take(0) =~= Seq::<Seq<char>>::empty());
        assert(seg_views(tags@) =~= crate::paths::valid_tags(seg_views(raw_tags@).take(0)));
    }
    while ti < raw_tags.len()
        invariant
            ti <= raw_tags@.len(),
            seg_views(tags@) == crate::paths::valid_tags(seg_views(raw_tags@).take(ti as int)),
        decreases raw_tags@.len() - ti,
    {
        proof {
            assert(seg_views(raw_tags@).take(ti as int + 1).drop_last() =~= seg_views(
                raw_tags@,
            ).take(ti as int));
            assert(seg_views(raw_tags@).take(ti as int + 1).last() == seg_views(
                raw_tags@,
            )[ti as int]);
        }
        if crate::paths::is_valid_segment(raw_tags[ti].as_str()) {
            let ghost prevt = tags@;
            tags.push(raw_tags[ti].clone());
            proof {
                assert(seg_views(tags@) =~= seg_views(prevt).push(
                    seg_views(raw_tags@)[ti as int],
                ));
            }
        }
        ti += 1;
    }
    proof {
        assert(seg_views(raw_tags@).take(raw_tags@.len() as int) =~= seg_views(raw_tags@));
        crate::paths::lemma_valid_tags_valid(seg_views(raw_tags@));
    }
    let doc = Document {
        rel_path: rel,
        kind,
        title,
        date,
        tags,
        draft: pd.matter.draft,
        body: pd.body,
        html,
        output,
    };
    proof {
        assert(seg_views(src_segs@) + seg_views(doc.rel_path@) =~= pv);
        assert forall|t: int| 0 <= t < doc.tags@.len() implies valid_path_segment_at(
            doc,
            t,
        ) by {
            assert(valid_segment(seg_views(doc.tags@)[t]));
        }
    }
    FileOutcome::Doc(doc)
}

/// One artifact per document, then one per tag listing, then one per index
/// page.
fn make_artifacts(
    sorted: &Vec<Document>,
    tag_groups: &Vec<TagGroup>,
    pages: &Vec<PageGroup>,
    out_segs: &Vec<String>,
) -> (r: Vec<Artifact>)
    ensures
        r@.len() == sorted@.len() + tag_groups@.len() + pages@.len(),
        forall|i: int|
            0 <= i < sorted@.len() ==> (#[trigger] r@[i]).payload == (if sorted@[i].kind
                is Post {
                Payload::PostHtml(i as usize)
            } else {
                Payload::PageHtml(i as usize)
            }) && seg_views(r@[i].output@) == seg_views(sorted@[i].output@),
        forall|t: int|
            0 <= t < tag_groups@.len() ==> (#[trigger] r@[sorted@.len() + t]).payload
                == Payload::TagListing(t as usize) && seg_views(r@[sorted@.len() + t].output@)
                == tag_page_path(seg_views(out_segs@), tag_groups@[t].tag@),
        forall|t: int|
            0 <= t < pages@.len() ==> (#[trigger] r@[sorted@.len() + tag_groups@.len()
                + t]).payload == Payload::IndexPage(t as usize) && index_page_path(
                seg_views(out_segs@),
                pages@[t].number as int,
                seg_views(r@[sorted@.len() + tag_groups@.len() + t].output@),
            ),
{
    let mut artifacts: Vec<Artifact> = Vec::new();
    let mut a: usize = 0;
    while a < sorted.len()
        invariant
            a <= sorted@.len(),
            artifacts@.len() == a,
            forall|i: int|
                0 <= i < a ==> (#[trigger] artifacts@[i]).payload == (if sorted@[i].kind
                    is Post {
                    Payload::PostHtml(i as usize)
                } else {
                    Payload::PageHtml(i as usize)
                }) && seg_views(artifacts@[i].output@) == seg_views(sorted@[i].output@),
        decreases sorted@.len() - a,
    {
        let payload = match sorted[a].kind {
            DocKind::Post => Payload::PostHtml(a),
            DocKind::Page => Payload::PageHtml(a),
            DocKind::Draft => Payload::PageHtml(a),
        };
        artifacts.push(Artifact { payload, output: sorted[a].output.clone() });
        a += 1;
    }
    let mut g: usize = 0;
    while g < tag_groups.len()
        invariant
            g <= tag_groups@.len(),
            artifacts@.len() == sorted@.len() + g,
            forall|i: int|
                0 <= i < sorted@.len() ==> (#[trigger] artifacts@[i]).payload == (if sorted@[i].kind
                    is Post {
                    Payload::PostHtml(i as usize)
                } else {
                    Payload::PageHtml(i as usize)
                }) && seg_views(artifacts@[i].output@) == seg_views(sorted@[i].output@),
            forall|t: int|
                0 <= t < g ==> (#[trigger] artifacts@[sorted@.len() + t]).payload
                    == Payload::TagListing(t as usize) && seg_views(
                    artifacts@[sorted@.len() + t].output@,
                ) == tag_page_path(seg_views(out_segs@), tag_groups@[t].tag@),
        decreases tag_groups@.len() - g,
    {
        let path = make_tag_page_path(out_segs, &tag_groups[g].tag);
        artifacts.push(Artifact { payload: Payload::TagListing(g), output: path });
        g += 1;
    }
    let mut q: usize = 0;
    while q < pages.len()
        invariant
            q <= pages@.len(),
            artifacts@.len() == sorted@.len() + tag_groups@.len() + q,
            forall|i: int|
                0 <= i < sorted@.len() ==> (#[trigger] artifacts@[i]).payload == (if sorted@[i].kind
                    is Post {
                    Payload::PostHtml(i as usize)
                } else {
                    Payload::PageHtml(i as usize)
                }) && seg_views(artifacts@[i].output@) == seg_views(sorted@[i].output@),
            forall|t: int|
                0 <= t < tag_groups@.len() ==> (#[trigger] artifacts@[sorted@.len() + t]).payload
                    == Payload::TagListing(t as usize) && seg_views(
                    artifacts@[sorted@.len() + t].output@,
                ) == tag_page_path(seg_views(out_segs@), tag_groups@[t].tag@),
            forall|t: int|
                0 <= t < q ==> (#[trigger] artifacts@[sorted@.len() + tag_groups@.len()
                    + t]).payload == Payload::IndexPage(t as usize) && index_page_path(
                    seg_views(out_segs@),
                    pages@[t].number as int,
                    seg_views(artifacts@[sorted@.len() + tag_groups@.len() + t].output@),
                ),
        decreases pages@.len() - q,
    {
        let path = make_index_page_path(out_segs, pages[q].number);
        artifacts.push(Artifact { payload: Payload::IndexPage(q), output: path });
        q += 1;
    }
    artifacts
}

/// Enforces the routing invariant: no two artifacts may write the same
/// output path.
fn check_collisions(artifacts: &Vec<Artifact>) -> (r: Result<(), BuildError>)
    ensures
        (r is Ok ==> forall|a: int, b: int|
            0 <= a < b < artifacts@.len() ==> seg_views((#[trigger] artifacts@[a]).output@)
                != seg_views((#[trigger] artifacts@[b]).output@)),
        (r matches Err(e) ==> (e matches BuildError::Collision { first, second } && seg_views(
            first@,
        ) == seg_views(second@) && (exists|a: int, b: int|
            #![trigger artifacts@[a], artifacts@[b]]
            0 <= a < b < artifacts@.len() && seg_views(artifacts@[a].output@) == seg_views(
                first@,
            ) && seg_views(artifacts@[b].output@) == seg_views(second@)))),
{
    let mut x: usize = 0;
    while x < artifacts.len()
        invariant
            x <= artifacts@.len(),
            forall|ai: int, bi: int|
                0 <= ai < x && ai < bi < artifacts@.len() ==> seg_views(
                    (#[trigger] artifacts@[ai]).output@,
                ) != seg_views((#[trigger] artifacts@[bi]).output@),
        decreases artifacts@.len() - x,
    {
        let mut y: usize = x + 1;
        while y < artifacts.len()
            invariant
                x < y <= artifacts@.len(),
                x < artifacts@.len(),
                forall|bi: int|
                    x < bi < y ==> seg_views((#[trigger] artifacts@[bi]).output@) != seg_views(
                        artifacts@[x as int].output@,
                    ),
            decreases artifacts@.len() - y,
        {
            if path_eq_exec(&artifacts[x].output, &artifacts[y].output) {
                let first = artifacts[x].output.clone();
                let second = artifacts[y].output.clone();
                proof {
                    assert(seg_views(first@) =~= seg_views(artifacts@[x as int].output@));
                    assert(seg_views(second@) =~= seg_views(artifacts@[y as int].output@));
                }
                return Err(BuildError::Collision { first, second });
            }
            y += 1;
        }
        x += 1;
    }
    Ok(())
}

/// The document is a faithful build of some eligible input file.
pub open spec fn doc_from_some_file(
    doc: Document,
    files: Seq<SourceFile>,
    src: Seq<Seq<char>>,
    outp: Seq<Seq<char>>,
    exc: Seq<Seq<char>>,
    infmt: Seq<char>,
    include_drafts: bool,
) -> bool {
    exists|j: int| #![trigger files[j]]
        0 <= j < files.len() && eligible(files[j], src, exc, infmt, include_drafts)
            && doc_matches(doc, seg_views(files[j].path@), files[j].content@, src, outp, infmt)
}

/// Every planned document is a faithful build of some eligible input file.
pub open spec fn docs_sound(
    docs: Seq<Document>,
    files: Seq<SourceFile>,
    src: Seq<Seq<char>>,
    outp: Seq<Seq<char>>,
    exc: Seq<Seq<char>>,
    infmt: Seq<char>,
    include_drafts: bool,
) -> bool {
    forall|i: int| #![trigger docs[i]]
        0 <= i < docs.len() ==> doc_from_some_file(
            docs[i],
            files,
            src,
            outp,
            exc,
            infmt,
            include_drafts,
        )
}

/// Every eligible file among the first `upto` has its document planned.
pub open spec fn docs_complete_upto(
    docs: Seq<Document>,
    files: Seq<SourceFile>,
    upto: int,
    src: Seq<Seq<char>>,
    outp: Seq<Seq<char>>,
    exc: Seq<Seq<char>>,
    infmt: Seq<char>,
    include_drafts: bool,
) -> bool {
    forall|j: int| #![trigger files[j]]
        0 <= j < upto && eligible(files[j], src, exc, infmt, include_drafts) ==> exists|i: int|
            #![trigger docs[i]]
            0 <= i < docs.len() && doc_matches(
                docs[i],
                seg_views(files[j].path@),
                files[j].content@,
                src,
                outp,
                infmt,
            )
}

/// The planned documents are exactly the builds of the eligible files.
pub open spec fn docs_from_files(
    docs: Seq<Document>,
    files: Seq<SourceFile>,
    src: Seq<Seq<char>>,
    outp: Seq<Seq<char>>,
    exc: Seq<Seq<char>>,
    infmt: Seq<char>,
    include_drafts: bool,
) -> bool {
    &&& docs_sound(docs, files, src, outp, exc, infmt, include_drafts)
    &&& docs_complete_upto(
        docs,
        files,
        files.len() as int,
        src,
        outp,
        exc,
        infmt,
        include_drafts,
    )
}

/// Every reported error is a content error naming a failing file.
pub open spec fn errors_are_content(
    errors: Seq<BuildError>,
    files: Seq<SourceFile>,
    src: Seq<Seq<char>>,
    exc: Seq<Seq<char>>,
    infmt: Seq<char>,
) -> bool {
    forall|k: int| #![trigger errors[k]]
        0 <= k < errors.len() ==> (errors[k] matches BuildError::Content { path }
            && exists|j: int| #![trigger files[j]]
                0 <= j < files.len() && file_fails(files[j], src, exc, infmt) && seg_views(path@)
                    == seg_views(files[j].path@))
}

/// Walks the discovered files once and decides every file's outcome: its
/// document, a skip, one content error, or the fatal containment failure.
#[verifier::rlimit(100)]
#[verifier::spinoff_prover]
fn collect_documents(
    config: &Config,
    files: &Vec<SourceFile>,
    src_segs: &Vec<String>,
    out_segs: &Vec<String>,
    include_drafts: bool,
) -> (r: Result<(Vec<Document>, Vec<BuildError>, u64, u64), BuildError>)
    requires
        seg_views(src_segs@) == source_segs(*config),
        seg_views(out_segs@) == output_segs(*config),
    ensures
        ({
            let src = source_segs(*config);
            let outp = output_segs(*config);
            let exc = seg_views(config.exclude@);
            let infmt = config.input_date_format@;
            match r {
                Ok((docs, errors, skipped, failed)) => {
                    &&& (forall|j: int|
                        0 <= j < files@.len() ==> rebase_ok(
                            seg_views((#[trigger] files@[j]).path@),
                            src,
                        ))
                    &&& docs@.len() as int == count_eligible(
                        files@,
                        src,
                        exc,
                        infmt,
                        include_drafts,
                    )
                    &&& failed as int == count_failing(files@, src, exc, infmt)
                    &&& failed as int == errors@.len()
                    &&& docs@.len() as int + skipped as int + failed as int == files@.len() as int
                    &&& docs_wf(docs@)
                    &&& (forall|i: int|
                        0 <= i < docs@.len() ==> doc_ok(
                            #[trigger] docs@[i],
                            src,
                            outp,
                            exc,
                            include_drafts,
                        ))
                    &&& docs_from_files(docs@, files@, src, outp, exc, infmt, include_drafts)
                    &&& errors_are_content(errors@, files@, src, exc, infmt)
                },
                Err(e) => (e matches BuildError::Path { path } && exists|j: int|
                    #![trigger files@[j]]
                    0 <= j < files@.len() && !rebase_ok(seg_views(files@[j].path@), src)
                        && seg_views(path@) == seg_views(files@[j].path@)),
            }
        }),
{
    let ghost src = source_segs(*config);
    let ghost outp = output_segs(*config);
    let ghost exc = seg_views(config.exclude@);
    let ghost infmt = config.input_date_format@;
    let mut docs: Vec<Document> = Vec::new();
    let mut errors: Vec<BuildError> = Vec::new();
    let mut skipped: u64 = 0;
    let mut failed: u64 = 0;
    let mut j: usize = 0;
    proof {
        assert(files@.take(0) =~= Seq::<SourceFile>::empty());
    }
    while j < files.len()
        invariant
            j <= files@.len(),
            seg_views(src_segs@) == src,
            seg_views(out_segs@) == outp,
            src == source_segs(*config),
            outp == output_segs(*config),
            exc == seg_views(config.exclude@),
            infmt == config.input_date_format@,
            forall|jj: int|
                0 <= jj < j ==> rebase_ok(seg_views((#[trigger] files@[jj]).path@), src),
            docs@.len() as int == count_eligible(
                files@.take(j as int),
                src,
                exc,
                infmt,
                include_drafts,
            ),
            failed as int == count_failing(files@.take(j as int), src, exc, infmt),
            failed as int == errors@.len(),
            docs@.len() + skipped + failed == j,
            docs_wf(docs@),
            forall|i: int|
                0 <= i < docs@.len() ==> doc_ok(
                    #[trigger] docs@[i],
                    src,
                    outp,
                    exc,
                    include_drafts,
                ),
            docs_sound(docs@, files@, src, outp, exc, infmt, include_drafts),
            docs_complete_upto(docs@, files@, j as int, src, outp, exc, infmt, include_drafts),
            errors_are_content(errors@, files@, src, exc, infmt),
        decreases files@.len() - j,
    {
        let f = &files[j];
        proof {
            assert(*f == files@[j as int]);
            assert(files@.take(j as int + 1).drop_last() =~= files@.take(j as int));
            assert(files@.take(j as int + 1).last() == files@[j as int]);
        }
        match process_file(f, config, src_segs, out_segs, include_drafts) {
            FileOutcome::Fatal(e) => {
                proof {
                    assert(!rebase_ok(seg_views(files@[j as int].path@), src));
                }
                return Err(e);
            },
            FileOutcome::Doc(d) => {
                let ghost prevd = docs@;
                docs.push(d);
                proof {
                    assert(docs@ == prevd.push(d));
                    assert(docs@[prevd.len() as int] == d);
                    assert(count_eligible(files@.take(j as int + 1), src, exc, infmt,
                        include_drafts) == count_eligible(files@.take(j as int), src, exc, infmt,
                        include_drafts) + 1);
                    assert(count_failing(files@.take(j as int + 1), src, exc, infmt)
                        == count_failing(files@.take(j as int), src, exc, infmt));
                    assert forall|i: int| #![trigger docs@[i]]
                        0 <= i < docs@.len() implies doc_ok(
                        docs@[i],
                        src,
                        outp,
                        exc,
                        include_drafts,
                    ) && doc_from_some_file(
                        docs@[i],
                        files@,
                        src,
                        outp,
                        exc,
                        infmt,
                        include_drafts,
                    ) by {
                        if i < prevd.len() {
                            assert(docs@[i] == prevd[i]);
                            assert(doc_from_some_file(
                                prevd[i],
                                files@,
                                src,
                                outp,
                                exc,
                                infmt,
                                include_drafts,
                            ));
                        } else {
                            assert(docs@[i] == d);
                            assert(eligible(files@[j as int], src, exc, infmt, include_drafts));
                            assert(doc_matches(
                                d,
                                seg_views(files@[j as int].path@),
                                files@[j as int].content@,
                                src,
                                outp,
                                infmt,
                            ));
                            assert(doc_from_some_file(
                                d,
                                files@,
                                src,
                                outp,
                                exc,
                                infmt,
                                include_drafts,
                            ));
                        }
                    }
                    assert(docs_sound(docs@, files@, src, outp, exc, infmt, include_drafts));
                    assert forall|jj: int| #![trigger files@[jj]]
                        0 <= jj < j + 1 && eligible(
                            files@[jj],
                            src,
                            exc,
                            infmt,
                            include_drafts,
                        ) implies exists|i: int| #![trigger docs@[i]]
                        0 <= i < docs@.len() && doc_matches(
                            docs@[i],
                            seg_views(files@[jj].path@),
                            files@[jj].content@,
                            src,
                            outp,
                            infmt,
                        ) by {
                        if jj < j {
                            let iw = choose|iw: int| #![trigger prevd[iw]]
                                0 <= iw < prevd.len() && doc_matches(
                                    prevd[iw],
                                    seg_views(files@[jj].path@),
                                    files@[jj].content@,
                                    src,
                                    outp,
                                    infmt,
                                );
                            assert(docs@[iw] == prevd[iw]);
                            assert(doc_matches(
                                docs@[iw],
                                seg_views(files@[jj].path@),
                                files@[jj].content@,
                                src,
                                outp,
                                infmt,
                            ));
                        } else {
                            assert(doc_matches(
                                docs@[prevd.len() as int],
                                seg_views(files@[jj].path@),
                                files@[jj].content@,
                                src,
                                outp,
                                infmt,
                            ));
                        }
                    }
                    assert(docs_complete_upto(
                        docs@,
                        files@,
                        j as int + 1,
                        src,
                        outp,
                        exc,
                        infmt,
                        include_drafts,
                    ));
                }
            },
            FileOutcome::Skip => {
                skipped += 1;
                proof {
                    assert(count_eligible(files@.take(j as int + 1), src, exc, infmt,
                        include_drafts) == count_eligible(files@.take(j as int), src, exc, infmt,
                        include_drafts));
                    assert(count_failing(files@.take(j as int + 1), src, exc, infmt)
                        == count_failing(files@.take(j as int), src, exc, infmt));
                    assert(docs_complete_upto(
                        docs@,
                        files@,
                        j as int + 1,
                        src,
                        outp,
                        exc,
                        infmt,
                        include_drafts,
                    ));
                }
            },
            FileOutcome::Fail(e) => {
                let ghost preve = errors@;
                errors.push(e);
                failed += 1;
                proof {
                    assert(errors@ == preve.push(e));
                    assert(errors@[preve.len() as int] == e);
                    assert(count_eligible(files@.take(j as int + 1), src, exc, infmt,
                        include_drafts) == count_eligible(files@.take(j as int), src, exc, infmt,
                        include_drafts));
                    assert(count_failing(files@.take(j as int + 1), src, exc, infmt)
                        == count_failing(files@.take(j as int), src, exc, infmt) + 1);
                    assert forall|k: int| #![trigger errors@[k]]
                        0 <= k < errors@.len() implies (errors@[k] matches BuildError::Content {
                        path,
                    } && exists|jj: int| #![trigger files@[jj]]
                        0 <= jj < files@.len() && file_fails(files@[jj], src, exc, infmt)
                            && seg_views(path@) == seg_views(files@[jj].path@)) by {
                        if k < preve.len() {
                            assert(errors@[k] == preve[k]);
                        } else {
                            assert(errors@[k] == e);
                            assert(file_fails(files@[j as int], src, exc, infmt));
                        }
                    }
                    assert(errors_are_content(errors@, files@, src, exc, infmt));
                    assert(docs_complete_upto(
                        docs@,
                        files@,
                        j as int + 1,
                        src,
                        outp,
                        exc,
                        infmt,
                        include_drafts,
                    ));
                }
            },
        }
        j += 1;
    }
    proof {
        assert(files@.take(files@.len() as int) =~= files@);
    }
    Ok((docs, errors, skipped, failed))
}

/// Law: reordering a document collection keeps every per-document fact and
/// each document's tie to the file it was built from.
#[verifier::rlimit(100)]
#[verifier::spinoff_prover]
proof fn lemma_reordered_sound(
    files: Seq<SourceFile>,
    a: Seq<Document>,
    b: Seq<Document>,
    src: Seq<Seq<char>>,
    outp: Seq<Seq<char>>,
    exc: Seq<Seq<char>>,
    infmt: Seq<char>,
    include_drafts: bool,
)
    requires
        b.to_multiset() == a.to_multiset(),
        forall|i: int|
            0 <= i < a.len() ==> doc_ok(#[trigger] a[i], src, outp, exc, include_drafts),
        docs_sound(a, files, src, outp, exc, infmt, include_drafts),
    ensures
        forall|i: int|
            0 <= i < b.len() ==> doc_ok(#[trigger] b[i], src, outp, exc, include_drafts),
        docs_sound(b, files, src, outp, exc, infmt, include_drafts),
{
    broadcast use vstd::seq_lib::group_to_multiset_ensures;

    assert forall|i: int| #![trigger b[i]] 0 <= i < b.len() implies doc_ok(
        b[i],
        src,
        outp,
        exc,
        include_drafts,
    ) by {
        let d = b[i];
        assert(b.contains(d));
        assert(b.to_multiset().count(d) > 0);
        assert(a.contains(d));
        let idx = choose|idx: int| 0 <= idx < a.len() && a[idx] == d;
        assert(doc_ok(a[idx], src, outp, exc, include_drafts));
    }
    assert forall|i: int| #![trigger b[i]] 0 <= i < b.len() implies doc_from_some_file(
        b[i],
        files,
        src,
        outp,
        exc,
        infmt,
        include_drafts,
    ) by {
        let d = b[i];
        assert(b.contains(d));
        assert(b.to_multiset().count(d) > 0);
        assert(a.contains(d));
        let idx = choose|idx: int| 0 <= idx < a.len() && a[idx] == d;
        assert(doc_from_some_file(a[idx], files, src, outp, exc, infmt, include_drafts));
    }
    assert(docs_sound(b, files, src, outp, exc, infmt, include_drafts));
}

/// Law: reordering a document collection loses no file's document.
#[verifier::rlimit(100)]
#[verifier::spinoff_prover]
proof fn lemma_reordered_complete(
    files: Seq<SourceFile>,
    a: Seq<Document>,
    b: Seq<Document>,
    src: Seq<Seq<char>>,
    outp: Seq<Seq<char>>,
    exc: Seq<Seq<char>>,
    infmt: Seq<char>,
    include_drafts: bool,
)
    requires
        b.to_multiset() == a.to_multiset(),
        docs_complete_upto(a, files, files.len() as int, src, outp, exc, infmt, include_drafts),
    ensures
        docs_complete_upto(b, files, files.len() as int, src, outp, exc, infmt, include_drafts),
{
    broadcast use vstd::seq_lib::group_to_multiset_ensures;

    assert forall|j: int| #![trigger files[j]]
        0 <= j < files.len() && eligible(files[j], src, exc, infmt, include_drafts) implies exists|
        i: int,
    | #![trigger b[i]]
        0 <= i < b.len() && doc_matches(
            b[i],
            seg_views(files[j].path@),
            files[j].content@,
            src,
            outp,
            infmt,
        ) by {
        let i0 = choose|i0: int| #![trigger a[i0]]
            0 <= i0 < a.len() && doc_matches(
                a[i0],
                seg_views(files[j].path@),
                files[j].content@,
                src,
                outp,
                infmt,
            );
        let d = a[i0];
        assert(a.contains(d));
        assert(a.to_multiset().count(d) > 0);
        assert(b.contains(d));
        let i1 = choose|i1: int| 0 <= i1 < b.len() && b[i1] == d;
        assert(doc_matches(
            b[i1],
            seg_views(files[j].path@),
            files[j].content@,
            src,
            outp,
            infmt,
        ));
    }
}

/// Law: with tags constrained at parse time, every indexed tag can stand as
/// an output path segment.
#[verifier::rlimit(100)]
#[verifier::spinoff_prover]
proof fn lemma_groups_valid(
    sorted: Seq<Document>,
    tag_groups: Seq<TagGroup>,
    src: Seq<Seq<char>>,
    outp: Seq<Seq<char>>,
    exc: Seq<Seq<char>>,
    include_drafts: bool,
)
    requires
        forall|i: int|
            0 <= i < sorted.len() ==> doc_ok(#[trigger] sorted[i], src, outp, exc, include_drafts),
        group_tags(tag_groups) == dedup_first(all_tags(sorted)),
    ensures
        forall|g: int|
            0 <= g < tag_groups.len() ==> valid_segment((#[trigger] tag_groups[g]).tag@),
{
    assert forall|i: int, t: int|
        0 <= i < sorted.len() && 0 <= t < sorted[i].tags@.len() implies valid_segment(
        #[trigger] seg_views(sorted[i].tags@)[t],
    ) by {
        assert(doc_ok(sorted[i], src, outp, exc, include_drafts));
        assert(valid_path_segment_at(sorted[i], t));
    }
    crate::tags::lemma_all_tags_valid(sorted);
    crate::tags::lemma_dedup_first_valid(all_tags(sorted));
    assert forall|g: int|
        0 <= g < tag_groups.len() implies valid_segment((#[trigger] tag_groups[g]).tag@) by {
        assert(group_tags(tag_groups)[g] == tag_groups[g].tag@);
        assert(valid_segment(dedup_first(all_tags(sorted))[g]));
    }
}

impl Operations {
    /// Decides one whole build: which documents take part, their metadata,
    /// their rendered bodies and routed outputs, the tag index, the
    /// pagination, and every artifact to write, with a report of what was
    /// skipped or failed. Fatal are only a file outside the source root and
    /// an output path collision; everything else is a per-document skip or
    /// error and the rest of the site is still planned.
    #[verifier::rlimit(100)]
    #[verifier::spinoff_prover]
    pub fn publish_plan(config: &Config, files: &Vec<SourceFile>, include_drafts: bool) -> (r:
        Result<BuildPlan, BuildError>)
        requires
            config.wf(),
        ensures
            (r matches Ok(plan) ==> {
                let src = source_segs(*config);
                let outp = output_segs(*config);
                let exc = seg_views(config.exclude@);
                let infmt = config.input_date_format@;
                let docs = plan.documents@;
                &&& docs_sorted(docs)
                &&& docs_wf(docs)
                &&& (forall|j: int|
                    0 <= j < files@.len() ==> rebase_ok(
                        seg_views((#[trigger] files@[j]).path@),
                        src,
                    ))
                &&& (forall|i: int|
                    0 <= i < docs.len() ==> doc_ok(
                        #[trigger] docs[i],
                        src,
                        outp,
                        exc,
                        include_drafts,
                    ))
                &&& docs_from_files(docs, files@, src, outp, exc, infmt, include_drafts)
                &&& docs.len() as int == count_eligible(files@, src, exc, infmt, include_drafts)
                &&& errors_are_content(plan.report.errors@, files@, src, exc, infmt)
                &&& plan.pages@.len() == page_count(docs.len() as int, config.posts_per_page as int)
                &&& pages_items(plan.pages@) == Seq::new(docs.len(), |j: int| j as usize)
                &&& (forall|g: int|
                    0 <= g < plan.pages@.len() ==> 1 <= (#[trigger] plan.pages@[g]).items@.len()
                        <= config.posts_per_page as int)
                &&& (forall|g: int|
                    0 <= g < plan.pages@.len() - 1 ==> (#[trigger] plan.pages@[g]).items@.len()
                        == config.posts_per_page as int)
                &&& (forall|g: int|
                    0 <= g < plan.pages@.len() ==> (#[trigger] plan.pages@[g]).number as int == g
                        + 1 && plan.pages@[g].total as int == plan.pages@.len() as int)
                &&& (config.render_tags ==> group_tags(plan.tags@) == dedup_first(all_tags(docs))
                    && (forall|g: int|
                    0 <= g < plan.tags@.len() ==> (#[trigger] plan.tags@[g]).docs@ == tag_docs(
                        docs,
                        plan.tags@[g].tag@,
                    )))
                &&& (forall|g: int|
                    0 <= g < plan.tags@.len() ==> valid_segment(
                        (#[trigger] plan.tags@[g]).tag@,
                    ))
                &&& (!config.render_tags ==> plan.tags@.len() == 0)
                &&& plan.artifacts@.len() == docs.len() + plan.tags@.len() + plan.pages@.len()
                &&& (forall|i: int|
                    0 <= i < docs.len() ==> (#[trigger] plan.artifacts@[i]).payload == (
                    if docs[i].kind is Post {
                        Payload::PostHtml(i as usize)
                    } else {
                        Payload::PageHtml(i as usize)
                    }) && seg_views(plan.artifacts@[i].output@) == seg_views(docs[i].output@))
                &&& (forall|g: int|
                    0 <= g < plan.tags@.len() ==> (#[trigger] plan.artifacts@[docs.len()
                        + g]).payload == Payload::TagListing(g as usize) && seg_views(
                        plan.artifacts@[docs.len() + g].output@,
                    ) == tag_page_path(outp, plan.tags@[g].tag@))
                &&& (forall|q: int|
                    0 <= q < plan.pages@.len() ==> (#[trigger] plan.artifacts@[docs.len()
                        + plan.tags@.len() + q]).payload == Payload::IndexPage(q as usize)
                        && index_page_path(
                        outp,
                        plan.pages@[q].number as int,
                        seg_views(plan.artifacts@[docs.len() + plan.tags@.len() + q].output@),
                    ))
                &&& (forall|a: int, b: int|
                    0 <= a < b < plan.artifacts@.len() ==> seg_views(
                        (#[trigger] plan.artifacts@[a]).output@,
                    ) != seg_views((#[trigger] plan.artifacts@[b]).output@))
                &&& plan.report.processed as int == docs.len()
                &&& plan.report.failed as int == count_failing(files@, src, exc, infmt)
                &&& plan.report.failed as int == plan.report.errors@.len()
                &&& plan.report.processed as int + plan.report.skipped as int
                    + plan.report.failed as int == files@.len()
            }),
            (r matches Err(e) ==> (e is Path || e is Collision)),
            (r matches Err(e) ==> ((e is Path) <==> (exists|j: int|
                #![trigger files@[j]]
                0 <= j < files@.len() && !rebase_ok(
                    seg_views(files@[j].path@),
                    source_segs(*config),
                )))),
            (r matches Err(e) ==> (e matches BuildError::Path { path } ==> exists|j: int|
                #![trigger files@[j]]
                0 <= j < files@.len() && !rebase_ok(seg_views(files@[j].path@), source_segs(*config))
                    && seg_views(path@) == seg_views(files@[j].path@))),
            (r matches Err(e) ==> (e matches BuildError::Collision { first, second }
                ==> seg_views(first@) == seg_views(second@))),
            ((exists|j: int|
                #![trigger files@[j]]
                0 <= j < files@.len() && !rebase_ok(
                    seg_views(files@[j].path@),
                    source_segs(*config),
                )) ==> r is Err),
    {
        let src_segs = root_segs(config.source.as_str());
        let out_segs = root_segs(config.output.as_str());
        let ghost src = source_segs(*config);
        let ghost outp = output_segs(*config);
        let ghost exc = seg_views(config.exclude@);
        let ghost infmt = config.input_date_format@;
        let (docs, errors, skipped, failed) = match collect_documents(
            config,
            files,
            &src_segs,
            &out_segs,
            include_drafts,
        ) {
            Ok(parts) => parts,
            Err(e) => {
                proof {
                    assert(e is Path);
                }
                return Err(e);
            },
        };
        let ghost docsv = docs@;
        let sorted = sort_documents(docs);
        proof {
            lemma_reordered_sound(files@, docsv, sorted@, src, outp, exc, infmt, include_drafts);
            lemma_reordered_complete(
                files@,
                docsv,
                sorted@,
                src,
                outp,
                exc,
                infmt,
                include_drafts,
            );
        }
        let pages = paginate(sorted.len(), config.posts_per_page);
        let tag_groups: Vec<TagGroup> = if config.render_tags {
            build_tag_index(&sorted)
        } else {
            Vec::new()
        };
        proof {
            if config.render_tags {
                lemma_groups_valid(sorted@, tag_groups@, src, outp, exc, include_drafts);
            }
        }
        let artifacts = make_artifacts(&sorted, &tag_groups, &pages, &out_segs);
        match check_collisions(&artifacts) {
            Ok(()) => {},
            Err(e) => {
                return Err(e);
            },
        }
        let processed: u64 = sorted.len() as u64;
        let report = BuildReport { processed, skipped, failed, errors };
        Ok(BuildPlan { documents: sorted, pages, tags: tag_groups, artifacts, report })
    }
}

} // verus!
