use vstd::prelude::*;

verus! {

use vstd::string::*;

use crate::dates::digits_val;
use crate::dates::all_digits;
use crate::document::Document;
use crate::errors::BuildError;
use crate::paginate::PageGroup;
use crate::paths::seg_views;
use crate::paths::str_eq;
use crate::tags::TagGroup;

/// One discovered source file, as the filesystem walk hands it over: its
/// path split into segments, and its text.
pub struct SourceFile {
    pub path: Vec<String>,
    pub content: String,
}

/// What a build did and what went wrong, per document.
pub struct BuildReport {
    pub processed: u64,
    pub skipped: u64,
    pub failed: u64,
    pub errors: Vec<BuildError>,
}

impl BuildReport {
    /// A build succeeds only when nothing failed.
    pub fn is_success(&self) -> (r: bool)
        ensures
            r == (self.failed == 0),
    {
        self.failed == 0
    }
}

/// The four page shapes the theme is asked to render.
#[derive(Clone, Copy, PartialEq, Eq, Structural, Debug)]
pub enum Payload {
    /// A post's own page, by document position.
    PostHtml(usize),
    /// A plain page's own page, by document position.
    PageHtml(usize),
    /// One tag's listing page, by tag group position.
    TagListing(usize),
    /// One paginated index page, by page group position.
    IndexPage(usize),
}

/// One output artifact: what the theme renders and where it is written.
pub struct Artifact {
    pub payload: Payload,
    pub output: Vec<String>,
}

/// Everything one build decides, before any byte is written.
pub struct BuildPlan {
    pub documents: Vec<Document>,
    pub pages: Vec<PageGroup>,
    pub tags: Vec<TagGroup>,
    pub artifacts: Vec<Artifact>,
    pub report: BuildReport,
}

/// A path is excluded when any of its ancestor directory segments matches
/// an exclude entry exactly.
pub open spec fn excluded_spec(rel: Seq<Seq<char>>, exclude: Seq<Seq<char>>) -> bool {
    exists|i: int, j: int|
        #![trigger rel[i], exclude[j]]
        0 <= i < rel.len() - 1 && 0 <= j < exclude.len() && rel[i] == exclude[j]
}

pub fn is_excluded(rel: &Vec<String>, exclude: &Vec<String>) -> (r: bool)
    ensures
        r == excluded_spec(seg_views(rel@), seg_views(exclude@)),
{
    if rel.len() == 0 {
        return false;
    }
    let mut i: usize = 0;
    while i < rel.len() - 1
        invariant
            rel@.len() > 0,
            i <= rel@.len() - 1,
            forall|a: int, b: int|
                0 <= a < i && 0 <= b < exclude@.len() ==> seg_views(rel@)[a] != seg_views(
                    exclude@,
                )[b],
        decreases rel@.len() - i,
    {
        let mut j: usize = 0;
        while j < exclude.len()
            invariant
                (i as int) < rel@.len() - 1,
                j <= exclude@.len(),
                forall|b: int| 0 <= b < j ==> seg_views(rel@)[i as int] != seg_views(exclude@)[b],
            decreases exclude@.len() - j,
        {
            if str_eq(rel[i].as_str(), exclude[j].as_str()) {
                proof {
                    assert(seg_views(rel@)[i as int] == seg_views(exclude@)[j as int]);
                }
                return true;
            }
            j += 1;
        }
        i += 1;
    }
    false
}

/// Checks whether two paths are the same, segment for segment.
pub fn path_eq_exec(a: &Vec<String>, b: &Vec<String>) -> (r: bool)
    ensures
        r == (seg_views(a@) == seg_views(b@)),
{
    if a.len() != b.len() {
        return false;
    }
    let mut i: usize = 0;
    while i < a.len()
        invariant
            a@.len() == b@.len(),
            i <= a@.len(),
            forall|j: int| 0 <= j < i ==> seg_views(a@)[j] == seg_views(b@)[j],
        decreases a@.len() - i,
    {
        if !str_eq(a[i].as_str(), b[i].as_str()) {
            proof {
                assert(seg_views(a@)[i as int] != seg_views(b@)[i as int]);
            }
            return false;
        }
        i += 1;
    }
    proof {
        assert(seg_views(a@) =~= seg_views(b@));
    }
    true
}

fn digit_str(d: u64) -> (r: String)
    requires
        d < 10,
    ensures
        r@.len() == 1,
        all_digits(r@),
        digits_val(r@) == d as int,
        d >= 1 ==> r@[0] != '0',
{
    proof {
        reveal_strlit("0");
        reveal_strlit("1");
        reveal_strlit("2");
        reveal_strlit("3");
        reveal_strlit("4");
        reveal_strlit("5");
        reveal_strlit("6");
        reveal_strlit("7");
        reveal_strlit("8");
        reveal_strlit("9");
    }
    let s = if d == 0 {
        "0"
    } else if d == 1 {
        "1"
    } else if d == 2 {
        "2"
    } else if d == 3 {
        "3"
    } else if d == 4 {
        "4"
    } else if d == 5 {
        "5"
    } else if d == 6 {
        "6"
    } else if d == 7 {
        "7"
    } else if d == 8 {
        "8"
    } else {
        "9"
    };
    proof {
        assert(s@.drop_last() =~= Seq::<char>::empty());
        assert(digits_val(Seq::<char>::empty()) == 0);
    }
    String::from_str(s)
}

/// The decimal form of a number: the unique digit string without a leading
/// zero that denotes it.
pub fn u64_to_dec(n: u64) -> (r: String)
    ensures
        all_digits(r@),
        digits_val(r@) == n as int,
        r@.len() == 1 || r@[0] != '0',
        n >= 1 ==> r@[0] != '0',
    decreases n,
{
    if n < 10 {
        digit_str(n)
    } else {
        let mut s = u64_to_dec(n / 10);
        let d = digit_str(n % 10);
        let ghost sv = s@;
        s.append(d.as_str());
        proof {
            assert(s@.drop_last() =~= sv);
            assert(s@.last() == d@[0]);
            assert(digits_val(s@) == digits_val(sv) * 10 + (d@[0] as int - '0' as int));
        }
        s
    }
}

/// Which rebuild strategy a build runs: full when forced, and always full
/// when no prior fingerprint record exists.
pub fn rebuild_full(force_rebuild: bool, has_prior_record: bool) -> (r: bool)
    ensures
        r == (force_rebuild || !has_prior_record),
{
    force_rebuild || !has_prior_record
}

/// Whether an incremental build may skip rendering and writing one document:
/// only when the build is not full, theme and configuration are unchanged,
/// and the recorded fingerprint equals the current one.
pub fn may_skip_render(
    full: bool,
    fingerprint: u64,
    prior: Option<u64>,
    theme_changed: bool,
    config_changed: bool,
) -> (r: bool)
    ensures
        r == (!full && !theme_changed && !config_changed && prior == Some(fingerprint)),
{
    if full || theme_changed || config_changed {
        false
    } else {
        match prior {
            Some(p) => p == fingerprint,
            None => false,
        }
    }
}

/// The synthetic output path of one tag's listing page.
pub open spec fn tag_page_path(out: Seq<Seq<char>>, tag: Seq<char>) -> Seq<Seq<char>> {
    out + seq![seq!['t', 'a', 'g', 's'], tag, seq!['i', 'n', 'd', 'e', 'x', '.', 'h', 't', 'm', 'l']]
}

/// The synthetic output path of one paginated index page: true of exactly
/// the decimal form of the page number.
pub open spec fn index_page_path(out: Seq<Seq<char>>, number: int, p: Seq<Seq<char>>) -> bool {
    exists|s: Seq<char>|
        all_digits(s) && digits_val(s) == number && (s.len() == 1 || s[0] != '0') && p == out
            + seq![seq!['p', 'a', 'g', 'e'], s, seq!['i', 'n', 'd', 'e', 'x', '.', 'h', 't', 'm', 'l']]
}

/// Builds the output path of a tag listing page.
pub fn make_tag_page_path(out: &Vec<String>, tag: &String) -> (r: Vec<String>)
    ensures
        seg_views(r@) == tag_page_path(seg_views(out@), tag@),
{
    let mut r: Vec<String> = Vec::new();
    let mut i: usize = 0;
    while i < out.len()
        invariant
            i <= out@.len(),
            r@.len() == i,
            forall|j: int| 0 <= j < i ==> seg_views(r@)[j] == seg_views(out@)[j],
        decreases out@.len() - i,
    {
        r.push(out[i].clone());
        i += 1;
    }
    r.push(String::from_str("tags"));
    r.push(tag.clone());
    r.push(String::from_str("index.html"));
    proof {
        reveal_strlit("tags");
        reveal_strlit("index.html");
        assert("tags"@ =~= seq!['t', 'a', 'g', 's']);
        assert("index.html"@ =~= seq!['i', 'n', 'd', 'e', 'x', '.', 'h', 't', 'm', 'l']);
        assert(seg_views(r@) =~= tag_page_path(seg_views(out@), tag@));
    }
    r
}

/// Builds the output path of a paginated index page.
pub fn make_index_page_path(out: &Vec<String>, number: u64) -> (r: Vec<String>)
    ensures
        index_page_path(seg_views(out@), number as int, seg_views(r@)),
{
    let mut r: Vec<String> = Vec::new();
    let mut i: usize = 0;
    while i < out.len()
        invariant
            i <= out@.len(),
            r@.len() == i,
            forall|j: int| 0 <= j < i ==> seg_views(r@)[j] == seg_views(out@)[j],
        decreases out@.len() - i,
    {
        r.push(out[i].clone());
        i += 1;
    }
    let num = u64_to_dec(number);
    let ghost numv = num@;
    r.push(String::from_str("page"));
    r.push(num);
    r.push(String::from_str("index.html"));
    proof {
        reveal_strlit("page");
        reveal_strlit("index.html");
        assert("page"@ =~= seq!['p', 'a', 'g', 'e']);
        assert("index.html"@ =~= seq!['i', 'n', 'd', 'e', 'x', '.', 'h', 't', 'm', 'l']);
        assert(seg_views(r@) =~= seg_views(out@) + seq![
            seq!['p', 'a', 'g', 'e'],
            numv,
            seq!['i', 'n', 'd', 'e', 'x', '.', 'h', 't', 'm', 'l'],
        ]);
    }
    r
}

} // verus!
