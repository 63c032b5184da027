use vstd::prelude::*;

verus! {

use vstd::string::*;

// Character-level text helpers the front matter grammar is written over.

pub open spec fn is_ws(c: char) -> bool {
    c == ' ' || c == '\t' || c == '\r'
}

/// Index of the first `sep` in `s`; `s.len()` when there is none.
pub open spec fn find_char(s: Seq<char>, sep: char) -> nat
    decreases s.len(),
{
    if s.len() == 0 {
        0
    } else if s[0] == sep {
        0
    } else {
        1 + find_char(s.drop_first(), sep)
    }
}

/// `s` split at every `sep`: the unique decomposition whose parts, joined by
/// `sep`, give `s` back, no part holding a `sep`.
pub open spec fn split_on(s: Seq<char>, sep: char) -> Seq<Seq<char>>
    decreases s.len(),
{
    let i = find_char(s, sep);
    if i >= s.len() {
        seq![s]
    } else {
        seq![s.take(i as int)] + split_on(s.skip(i as int + 1), sep)
    }
}

/// The parts joined by `sep` again.
pub open spec fn joined(parts: Seq<Seq<char>>, sep: char) -> Seq<char>
    decreases parts.len(),
{
    if parts.len() == 0 {
        Seq::empty()
    } else if parts.len() == 1 {
        parts[0]
    } else {
        joined(parts.drop_last(), sep) + seq![sep] + parts.last()
    }
}

pub open spec fn trim_start_spec(s: Seq<char>) -> Seq<char>
    decreases s.len(),
{
    if s.len() > 0 && is_ws(s[0]) {
        trim_start_spec(s.drop_first())
    } else {
        s
    }
}

pub open spec fn trim_end_spec(s: Seq<char>) -> Seq<char>
    decreases s.len(),
{
    if s.len() > 0 && is_ws(s[s.len() - 1]) {
        trim_end_spec(s.drop_last())
    } else {
        s
    }
}

/// `s` with surrounding blanks removed.
pub open spec fn trim_spec(s: Seq<char>) -> Seq<char> {
    trim_end_spec(trim_start_spec(s))
}

/// The text inside one pair of surrounding quotes, if `q` is exactly a
/// quoted string without inner quotes.
pub open spec fn quoted_content(q: Seq<char>) -> Option<Seq<char>> {
    if q.len() >= 2 && q[0] == '"' && q[q.len() - 1] == '"' && (forall|i: int|
        1 <= i < q.len() - 1 ==> q[i] != '"') {
        Some(q.subrange(1, q.len() - 1))
    } else {
        None
    }
}

pub proof fn lemma_find_char_prefix(s: Seq<char>, sep: char, k: int)
    requires
        0 <= k <= s.len(),
        forall|j: int| 0 <= j < k ==> s[j] != sep,
    ensures
        find_char(s, sep) == k + find_char(s.skip(k), sep),
    decreases k,
{
    if k == 0 {
        assert(s.skip(0) =~= s);
    } else {
        assert(s[0] != sep);
        assert(s.len() > 0);
        lemma_find_char_prefix(s.drop_first(), sep, k - 1);
        assert(s.drop_first().skip(k - 1) =~= s.skip(k));
    }
}

pub fn find_char_exec(s: &str, sep: char) -> (r: usize)
    ensures
        r as nat == find_char(s@, sep),
        r <= s@.len(),
        r < s@.len() ==> s@[r as int] == sep,
        forall|j: int| 0 <= j < r ==> s@[j] != sep,
{
    let n = s.unicode_len();
    let mut i: usize = 0;
    while i < n
        invariant
            i <= n,
            n == s@.len(),
            forall|j: int| 0 <= j < i ==> s@[j] != sep,
        decreases n - i,
    {
        if s.get_char(i) == sep {
            proof {
                lemma_find_char_prefix(s@, sep, i as int);
                assert(s@.skip(i as int)[0] == sep);
            }
            return i;
        }
        i += 1;
    }
    proof {
        lemma_find_char_prefix(s@, sep, n as int);
        assert(s@.skip(n as int) =~= Seq::<char>::empty());
    }
    n
}

/// Splits `s` at every `sep`; always at least one part, and `split_on`'s
/// decomposition exactly.
pub fn split_exec(s: &str, sep: char) -> (r: Vec<String>)
    ensures
        crate::paths::seg_views(r@) == split_on(s@, sep),
{
    let n = s.unicode_len();
    let mut out: Vec<String> = Vec::new();
    let mut pos: usize = 0;
    proof {
        assert(s@.skip(0) =~= s@);
        assert(crate::paths::seg_views(out@) + split_on(s@, sep) =~= split_on(s@, sep));
    }
    loop
        invariant
            pos <= n,
            n == s@.len(),
            split_on(s@, sep) == crate::paths::seg_views(out@) + split_on(
                s@.skip(pos as int),
                sep,
            ),
        decreases n - pos + 1,
    {
        let rest = s.substring_char(pos, n);
        let i = find_char_exec(rest, sep);
        let ghost restv = s@.skip(pos as int);
        proof {
            assert(rest@ =~= restv);
        }
        if i >= rest.unicode_len() {
            out.push(String::from_str(rest));
            proof {
                assert(split_on(restv, sep) =~= seq![restv]);
                assert(crate::paths::seg_views(out@) =~= split_on(s@, sep));
            }
            return out;
        } else {
            let part = rest.substring_char(0, i);
            out.push(String::from_str(part));
            proof {
                assert(part@ =~= restv.take(i as int));
                assert(split_on(restv, sep) == seq![restv.take(i as int)] + split_on(
                    restv.skip(i as int + 1),
                    sep,
                ));
                assert(restv.skip(i as int + 1) =~= s@.skip(pos as int + i as int + 1));
                assert(crate::paths::seg_views(out@) =~= crate::paths::seg_views(
                    out@.drop_last(),
                ) + seq![part@]);
                assert(split_on(s@, sep) =~= crate::paths::seg_views(out@) + split_on(
                    s@.skip(pos as int + i as int + 1),
                    sep,
                ));
            }
            pos = pos + i + 1;
        }
    }
}

proof fn lemma_trim_start_skip(s: Seq<char>, k: int)
    requires
        0 <= k <= s.len(),
        forall|j: int| 0 <= j < k ==> is_ws(s[j]),
    ensures
        trim_start_spec(s) == trim_start_spec(s.skip(k)),
    decreases k,
{
    if k == 0 {
        assert(s.skip(0) =~= s);
    } else {
        assert(is_ws(s[0]));
        lemma_trim_start_skip(s.drop_first(), k - 1);
        assert(s.drop_first().skip(k - 1) =~= s.skip(k));
    }
}

proof fn lemma_trim_end_take(t: Seq<char>, m: int)
    requires
        0 <= m <= t.len(),
        forall|j: int| m <= j < t.len() ==> is_ws(t[j]),
    ensures
        trim_end_spec(t) == trim_end_spec(t.take(m)),
    decreases t.len() - m,
{
    if m == t.len() {
        assert(t.take(m) =~= t);
    } else {
        assert(is_ws(t[t.len() - 1]));
        assert(t.drop_last() =~= t.take(t.len() - 1));
        lemma_trim_end_take(t.take(t.len() - 1), m);
        assert(t.take(t.len() - 1).take(m) =~= t.take(m));
    }
}

fn ws_at(s: &str, i: usize) -> (r: bool)
    requires
        i < s@.len(),
    ensures
        r == is_ws(s@[i as int]),
{
    let c = s.get_char(i);
    c == ' ' || c == '\t' || c == '\r'
}

pub fn trim_exec(s: &str) -> (r: String)
    ensures
        r@ == trim_spec(s@),
{
    let n = s.unicode_len();
    let mut a: usize = 0;
    while a < n && ws_at(s, a)
        invariant
            a <= n,
            n == s@.len(),
            forall|j: int| 0 <= j < a ==> is_ws(s@[j]),
        decreases n - a,
    {
        a += 1;
    }
    let mut b: usize = n;
    while b > a && ws_at(s, b - 1)
        invariant
            a <= b <= n,
            n == s@.len(),
            forall|j: int| 0 <= j < a ==> is_ws(s@[j]),
            forall|j: int| b <= j < n ==> is_ws(s@[j]),
        decreases b,
    {
        b -= 1;
    }
    let r = String::from_str(s.substring_char(a, b));
    proof {
        let sv = s@;
        let tail = sv.skip(a as int);
        lemma_trim_start_skip(sv, a as int);
        assert(trim_start_spec(sv) == trim_start_spec(tail));
        if a < n {
            assert(!is_ws(tail[0]));
            assert(trim_start_spec(tail) == tail);
        } else {
            assert(tail =~= Seq::<char>::empty());
            assert(trim_start_spec(tail) == tail);
        }
        lemma_trim_end_take(tail, b as int - a as int);
        assert(trim_end_spec(tail) == trim_end_spec(tail.take(b as int - a as int)));
        let mid = tail.take(b as int - a as int);
        if b > a {
            assert(mid[mid.len() - 1] == sv[b as int - 1]);
            assert(!is_ws(mid[mid.len() - 1]));
            assert(trim_end_spec(mid) == mid);
        } else {
            assert(mid =~= Seq::<char>::empty());
            assert(trim_end_spec(mid) == mid);
        }
        assert(r@ =~= mid);
    }
    r
}

pub fn quoted_exec(q: &str) -> (r: Option<String>)
    ensures
        (match r {
            Some(s) => quoted_content(q@) == Some(s@),
            None => quoted_content(q@) is None,
        }),
{
    let n = q.unicode_len();
    if n < 2 || q.get_char(0) != '"' || q.get_char(n - 1) != '"' {
        return None;
    }
    let mut i: usize = 1;
    while i < n - 1
        invariant
            1 <= i <= n - 1,
            n == q@.len(),
            n >= 2,
            forall|j: int| 1 <= j < i ==> q@[j] != '"',
        decreases n - i,
    {
        if q.get_char(i) == '"' {
            return None;
        }
        i += 1;
    }
    Some(String::from_str(q.substring_char(1, n - 1)))
}

} // verus!
