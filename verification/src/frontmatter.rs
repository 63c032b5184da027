use vstd::prelude::*;

verus! {

use vstd::string::*;

use crate::paths::seg_views;
use crate::paths::str_eq;
use crate::text::find_char;
use crate::text::find_char_exec;
use crate::text::joined;
use crate::text::quoted_content;
use crate::text::quoted_exec;
use crate::text::split_exec;
use crate::text::split_on;
use crate::text::trim_exec;
use crate::text::trim_spec;

// A document may open with a front matter block: a first line of three
// dashes, entry lines of the shape `key = value`, and a closing line of
// three dashes. The recognized keys are `title` and `date` (quoted strings),
// `tags` (a bracketed list of quoted strings) and `draft` (a bare boolean);
// blank lines and `#` comment lines are allowed, unknown keys are ignored.

/// Per-document metadata, separated from the body text.
pub struct FrontMatter {
    pub title: Option<String>,
    pub date: Option<String>,
    pub tags: Vec<String>,
    pub draft: bool,
}

/// The mathematical content of a front matter value.
pub open spec fn fm_view(fm: FrontMatter) -> (
    Option<Seq<char>>,
    Option<Seq<char>>,
    Seq<Seq<char>>,
    bool,
) {
    (
        (match fm.title {
            Some(t) => Some(t@),
            None => None,
        }),
        (match fm.date {
            Some(d) => Some(d@),
            None => None,
        }),
        seg_views(fm.tags@),
        fm.draft,
    )
}

pub open spec fn fm_empty() -> (Option<Seq<char>>, Option<Seq<char>>, Seq<Seq<char>>, bool) {
    (None, None, Seq::empty(), false)
}

pub open spec fn line_blank(line: Seq<char>) -> bool {
    trim_spec(line).len() == 0 || trim_spec(line)[0] == '#'
}

pub open spec fn line_has_entry(line: Seq<char>) -> bool {
    find_char(line, '=') < line.len()
}

pub open spec fn line_key(line: Seq<char>) -> Seq<char> {
    trim_spec(line.take(find_char(line, '=') as int))
}

pub open spec fn line_value(line: Seq<char>) -> Seq<char> {
    trim_spec(line.skip(find_char(line, '=') as int + 1))
}

pub open spec fn bool_value(v: Seq<char>) -> Option<bool> {
    if v == seq!['t', 'r', 'u', 'e'] {
        Some(true)
    } else if v == seq!['f', 'a', 'l', 's', 'e'] {
        Some(false)
    } else {
        None
    }
}

/// The strings a bracketed, comma-separated list of quoted strings holds.
pub open spec fn list_content(v: Seq<char>) -> Option<Seq<Seq<char>>> {
    if v.len() >= 2 && v[0] == '[' && v[v.len() - 1] == ']' {
        let inner = v.subrange(1, v.len() - 1);
        if trim_spec(inner).len() == 0 {
            Some(Seq::empty())
        } else {
            let parts = split_on(inner, ',').map_values(|p: Seq<char>| trim_spec(p));
            if forall|i: int| 0 <= i < parts.len() ==> quoted_content(#[trigger] parts[i]) is Some {
                Some(Seq::new(parts.len(), |i: int| quoted_content(parts[i])->Some_0))
            } else {
                None
            }
        }
    } else {
        None
    }
}

/// One front matter line folded into the accumulated metadata; `None` marks
/// a malformed line.
pub open spec fn fm_step(
    acc: (Option<Seq<char>>, Option<Seq<char>>, Seq<Seq<char>>, bool),
    line: Seq<char>,
) -> Option<(Option<Seq<char>>, Option<Seq<char>>, Seq<Seq<char>>, bool)> {
    if line_blank(line) {
        Some(acc)
    } else if !line_has_entry(line) {
        None
    } else {
        let k = line_key(line);
        let v = line_value(line);
        if k == seq!['t', 'i', 't', 'l', 'e'] {
            match quoted_content(v) {
                Some(t) => Some((Some(t), acc.1, acc.2, acc.3)),
                None => None,
            }
        } else if k == seq!['d', 'a', 't', 'e'] {
            match quoted_content(v) {
                Some(d) => Some((acc.0, Some(d), acc.2, acc.3)),
                None => None,
            }
        } else if k == seq!['t', 'a', 'g', 's'] {
            match list_content(v) {
                Some(ts) => Some((acc.0, acc.1, ts, acc.3)),
                None => None,
            }
        } else if k == seq!['d', 'r', 'a', 'f', 't'] {
            match bool_value(v) {
                Some(b) => Some((acc.0, acc.1, acc.2, b)),
                None => None,
            }
        } else {
            Some(acc)
        }
    }
}

pub open spec fn fm_of_lines(lines: Seq<Seq<char>>) -> Option<
    (Option<Seq<char>>, Option<Seq<char>>, Seq<Seq<char>>, bool),
>
    decreases lines.len(),
{
    if lines.len() == 0 {
        Some(fm_empty())
    } else {
        match fm_of_lines(lines.drop_last()) {
            None => None,
            Some(acc) => fm_step(acc, lines.last()),
        }
    }
}

pub proof fn lemma_fm_extend_none(lines: Seq<Seq<char>>, a: int, m: int, b: int)
    requires
        0 <= a <= m <= b <= lines.len(),
        fm_of_lines(lines.subrange(a, m)) is None,
    ensures
        fm_of_lines(lines.subrange(a, b)) is None,
    decreases b - m,
{
    if m < b {
        assert(lines.subrange(a, m + 1).drop_last() =~= lines.subrange(a, m));
        lemma_fm_extend_none(lines, a, m + 1, b);
    }
}

/// The first line at or after `i` that closes a front matter block; the
/// line count when there is none.
pub open spec fn find_delim_from(lines: Seq<Seq<char>>, i: int) -> int
    decreases lines.len() - i,
{
    if i < 0 || i >= lines.len() {
        lines.len() as int
    } else if lines[i] == seq!['-', '-', '-'] {
        i
    } else {
        find_delim_from(lines, i + 1)
    }
}

/// What a source document splits into: its front matter content and its
/// body text; `None` marks malformed front matter.
pub open spec fn doc_spec(text: Seq<char>) -> Option<
    ((Option<Seq<char>>, Option<Seq<char>>, Seq<Seq<char>>, bool), Seq<char>),
> {
    let lines = split_on(text, '\n');
    if lines[0] == seq!['-', '-', '-'] {
        let k = find_delim_from(lines, 1);
        if k >= lines.len() {
            None
        } else {
            match fm_of_lines(lines.subrange(1, k)) {
                None => None,
                Some(acc) => Some((acc, joined(lines.skip(k + 1), '\n'))),
            }
        }
    } else {
        Some((fm_empty(), text))
    }
}

fn parse_list(v: &str) -> (r: Option<Vec<String>>)
    ensures
        (match r {
            Some(ts) => list_content(v@) == Some(seg_views(ts@)),
            None => list_content(v@) is None,
        }),
{
    let n = v.unicode_len();
    if n < 2 || v.get_char(0) != '[' || v.get_char(n - 1) != ']' {
        return None;
    }
    let inner = v.substring_char(1, n - 1);
    let ghost innerv = v@.subrange(1, v@.len() - 1);
    proof {
        assert(inner@ =~= innerv);
    }
    let trimmed = trim_exec(inner);
    if trimmed.as_str().unicode_len() == 0 {
        let out: Vec<String> = Vec::new();
        proof {
            assert(seg_views(out@) =~= Seq::<Seq<char>>::empty());
        }
        return Some(out);
    }
    let parts = split_exec(inner, ',');
    let ghost partsv = split_on(innerv, ',').map_values(|p: Seq<char>| trim_spec(p));
    let mut out: Vec<String> = Vec::new();
    let mut i: usize = 0;
    while i < parts.len()
        invariant
            i <= parts@.len(),
            v@.len() >= 2,
            v@[0] == '[',
            v@[v@.len() - 1] == ']',
            innerv == v@.subrange(1, v@.len() - 1),
            trim_spec(innerv).len() != 0,
            seg_views(parts@) == split_on(innerv, ','),
            partsv == split_on(innerv, ',').map_values(|p: Seq<char>| trim_spec(p)),
            out@.len() == i,
            forall|j: int|
                0 <= j < i ==> quoted_content(#[trigger] partsv[j]) == Some(
                    seg_views(out@)[j],
                ),
        decreases parts@.len() - i,
    {
        let t = trim_exec(parts[i].as_str());
        proof {
            assert(partsv[i as int] == trim_spec(seg_views(parts@)[i as int]));
            assert(t@ == partsv[i as int]);
        }
        match quoted_exec(t.as_str()) {
            Some(q) => {
                out.push(q);
            },
            None => {
                proof {
                    assert(quoted_content(partsv[i as int]) is None);
                }
                return None;
            },
        }
        i += 1;
    }
    proof {
        assert(seg_views(out@) =~= Seq::new(partsv.len(), |i: int| quoted_content(
            partsv[i],
        )->Some_0));
    }
    Some(out)
}

/// Folds one front matter line into the metadata; `false` reports a
/// malformed line.
fn apply_fm_line(line: &str, fm: &mut FrontMatter) -> (r: bool)
    ensures
        (match r {
            true => fm_step(fm_view(*old(fm)), line@) == Some(fm_view(*final(fm))),
            false => fm_step(fm_view(*old(fm)), line@) is None,
        }),
{
    proof {
        reveal_strlit("title");
        reveal_strlit("date");
        reveal_strlit("tags");
        reveal_strlit("draft");
        reveal_strlit("true");
        reveal_strlit("false");
        assert("title"@ =~= seq!['t', 'i', 't', 'l', 'e']);
        assert("date"@ =~= seq!['d', 'a', 't', 'e']);
        assert("tags"@ =~= seq!['t', 'a', 'g', 's']);
        assert("draft"@ =~= seq!['d', 'r', 'a', 'f', 't']);
        assert("true"@ =~= seq!['t', 'r', 'u', 'e']);
        assert("false"@ =~= seq!['f', 'a', 'l', 's', 'e']);
    }
    let t = trim_exec(line);
    if t.as_str().unicode_len() == 0 {
        return true;
    }
    if t.as_str().get_char(0) == '#' {
        return true;
    }
    let n = line.unicode_len();
    let eq = find_char_exec(line, '=');
    if eq >= n {
        return false;
    }
    let key = trim_exec(line.substring_char(0, eq));
    let val = trim_exec(line.substring_char(eq + 1, n));
    proof {
        assert(line@.take(find_char(line@, '=') as int) =~= line@.subrange(0, eq as int));
        assert(line@.skip(find_char(line@, '=') as int + 1) =~= line@.subrange(
            eq as int + 1,
            n as int,
        ));
        assert(key@ == line_key(line@));
        assert(val@ == line_value(line@));
    }
    if str_eq(key.as_str(), "title") {
        match quoted_exec(val.as_str()) {
            Some(q) => {
                fm.title = Some(q);
                true
            },
            None => false,
        }
    } else if str_eq(key.as_str(), "date") {
        match quoted_exec(val.as_str()) {
            Some(q) => {
                fm.date = Some(q);
                true
            },
            None => false,
        }
    } else if str_eq(key.as_str(), "tags") {
        match parse_list(val.as_str()) {
            Some(ts) => {
                fm.tags = ts;
                true
            },
            None => false,
        }
    } else if str_eq(key.as_str(), "draft") {
        if str_eq(val.as_str(), "true") {
            fm.draft = true;
            true
        } else if str_eq(val.as_str(), "false") {
            fm.draft = false;
            true
        } else {
            false
        }
    } else {
        true
    }
}

/// A source document after front matter extraction.
pub struct ParsedDoc {
    pub matter: FrontMatter,
    pub body: String,
}

/// Splits a document into front matter and body; `None` reports front
/// matter that is present but unparseable.
pub fn parse_document(text: &str) -> (r: Option<ParsedDoc>)
    ensures
        (match r {
            Some(p) => doc_spec(text@) == Some((fm_view(p.matter), p.body@)),
            None => doc_spec(text@) is None,
        }),
{
    let lines = split_exec(text, '\n');
    let ghost linesv = split_on(text@, '\n');
    proof {
        reveal_strlit("---");
        assert("---"@ =~= seq!['-', '-', '-']);
        assert(linesv.len() > 0);
    }
    if !str_eq(lines[0].as_str(), "---") {
        let fm = FrontMatter { title: None, date: None, tags: Vec::new(), draft: false };
        let body = String::from_str(text);
        proof {
            assert(seg_views(fm.tags@) =~= Seq::<Seq<char>>::empty());
            assert(fm_view(fm) == fm_empty());
        }
        return Some(ParsedDoc { matter: fm, body });
    }
    // find the closing delimiter
    let mut k: usize = 1;
    while k < lines.len() && !str_eq(lines[k].as_str(), "---")
        invariant
            1 <= k <= lines@.len(),
            seg_views(lines@) == linesv,
            linesv == split_on(text@, '\n'),
            find_delim_from(linesv, 1) == find_delim_from(linesv, k as int),
            "---"@ =~= seq!['-', '-', '-'],
        decreases lines@.len() - k,
    {
        k += 1;
    }
    if k >= lines.len() {
        proof {
            assert(find_delim_from(linesv, 1) >= linesv.len());
        }
        return None;
    }
    proof {
        assert(linesv[k as int] == seq!['-', '-', '-']);
        assert(find_delim_from(linesv, 1) == k as int);
    }
    // fold the entry lines
    let mut fm = FrontMatter { title: None, date: None, tags: Vec::new(), draft: false };
    proof {
        assert(seg_views(fm.tags@) =~= Seq::<Seq<char>>::empty());
        assert(linesv.subrange(1, 1) =~= Seq::<Seq<char>>::empty());
    }
    let mut j: usize = 1;
    while j < k
        invariant
            1 <= j <= k < linesv.len(),
            seg_views(lines@) == linesv,
            linesv == split_on(text@, '\n'),
            linesv[0] == seq!['-', '-', '-'],
            linesv[k as int] == seq!['-', '-', '-'],
            find_delim_from(linesv, 1) == k as int,
            fm_of_lines(linesv.subrange(1, j as int)) == Some(fm_view(fm)),
        decreases k - j,
    {
        let ghost fmv = fm_view(fm);
        let ok = apply_fm_line(lines[j].as_str(), &mut fm);
        proof {
            assert(linesv.subrange(1, j as int + 1).drop_last() =~= linesv.subrange(1, j as int));
            assert(linesv.subrange(1, j as int + 1).last() == linesv[j as int]);
        }
        if !ok {
            proof {
                assert(fm_of_lines(linesv.subrange(1, j as int + 1)) is None);
                lemma_fm_extend_none(linesv, 1, j as int + 1, k as int);
            }
            return None;
        }
        j += 1;
    }
    // join the body lines back together
    let mut body = String::new();
    let mut m: usize = k + 1;
    proof {
        assert(linesv.subrange(k as int + 1, k as int + 1) =~= Seq::<Seq<char>>::empty());
    }
    while m < lines.len()
        invariant
            k as int + 1 <= m as int <= linesv.len(),
            seg_views(lines@) == linesv,
            linesv == split_on(text@, '\n'),
            body@ == joined(linesv.subrange(k as int + 1, m as int), '\n'),
        decreases lines@.len() - m,
    {
        proof {
            reveal_strlit("\n");
            assert("\n"@ =~= seq!['\n']);
            assert(linesv.subrange(k as int + 1, m as int + 1).drop_last() =~= linesv.subrange(
                k as int + 1,
                m as int,
            ));
            assert(linesv.subrange(k as int + 1, m as int + 1).last() == linesv[m as int]);
        }
        if m > k + 1 {
            body.append("\n");
        }
        body.append(lines[m].as_str());
        m += 1;
    }
    proof {
        assert(linesv.subrange(k as int + 1, linesv.len() as int) =~= linesv.skip(k as int + 1));
    }
    Some(ParsedDoc { matter: fm, body })
}

} // verus!
