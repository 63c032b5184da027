use vstd::prelude::*;

verus! {

use vstd::string::*;

use crate::text::split_on;
use crate::text::split_exec;
use crate::paths::seg_views;

/// A document date, held as plain calendar fields.
#[derive(Clone, Copy, PartialEq, Eq, Structural, Debug)]
pub struct Date {
    pub year: u64,
    pub month: u64,
    pub day: u64,
}

impl Date {
    pub open spec fn wf(self) -> bool {
        &&& self.year <= 9999
        &&& 1 <= self.month <= 12
        &&& 1 <= self.day <= 31
    }

    /// A single integer that orders dates chronologically.
    pub open spec fn key_spec(self) -> int {
        self.year * 10000 + self.month * 100 + self.day
    }

    pub fn key(&self) -> (r: u64)
        requires
            self.wf(),
        ensures
            r as int == self.key_spec(),
    {
        self.year * 10000 + self.month * 100 + self.day
    }
}

pub open spec fn is_digit(c: char) -> bool {
    '0' <= c && c <= '9'
}

pub open spec fn all_digits(s: Seq<char>) -> bool {
    s.len() > 0 && forall|i: int| 0 <= i < s.len() ==> is_digit(#[trigger] s[i])
}

/// The number a run of decimal digits denotes.
pub open spec fn digits_val(s: Seq<char>) -> int
    decreases s.len(),
{
    if s.len() == 0 {
        0
    } else {
        digits_val(s.drop_last()) * 10 + (s.last() as int - '0' as int)
    }
}

/// Reads a short digit run; the length cap keeps the value well under any
/// machine bound.
fn parse_digits(s: &str, max_len: usize) -> (r: Option<u64>)
    requires
        max_len <= 4,
    ensures
        (match r {
            Some(v) => all_digits(s@) && s@.len() <= max_len && v as int == digits_val(s@) && v
                <= 9999 && (s@.len() <= 2 ==> v <= 99),
            None => !(all_digits(s@) && s@.len() <= max_len),
        }),
{
    let n = s.unicode_len();
    if n == 0 || n > max_len {
        return None;
    }
    let mut v: u64 = 0;
    let mut i: usize = 0;
    while i < n
        invariant
            i <= n,
            n == s@.len(),
            n <= 4,
            forall|j: int| 0 <= j < i ==> is_digit(#[trigger] s@[j]),
            v as int == digits_val(s@.take(i as int)),
            v as int <= (if i == 0 {
                0int
            } else if i == 1 {
                9int
            } else if i == 2 {
                99int
            } else if i == 3 {
                999int
            } else {
                9999int
            }),
        decreases n - i,
    {
        let c = s.get_char(i);
        if c < '0' || c > '9' {
            return None;
        }
        let d: u64 = (c as u32 - '0' as u32) as u64;
        proof {
            assert(s@.take(i as int + 1).drop_last() =~= s@.take(i as int));
            assert(s@.take(i as int + 1).last() == s@[i as int]);
        }
        v = v * 10 + d;
        i += 1;
    }
    proof {
        assert(s@.take(n as int) =~= s@);
    }
    Some(v)
}

/// What a date pattern token asks for.
pub open spec fn tok_year(t: Seq<char>) -> bool {
    t == seq!['y', 'y', 'y', 'y']
}

pub open spec fn tok_month(t: Seq<char>) -> bool {
    t == seq!['M', 'M'] || t == seq!['M']
}

pub open spec fn tok_day(t: Seq<char>) -> bool {
    t == seq!['d', 'd'] || t == seq!['d']
}

/// One pattern token consumed against one text token.
pub open spec fn date_step(
    acc: (Option<int>, Option<int>, Option<int>),
    tok: Seq<char>,
    txt: Seq<char>,
) -> Option<(Option<int>, Option<int>, Option<int>)> {
    if tok_year(tok) {
        if all_digits(txt) && txt.len() <= 4 {
            Some((Some(digits_val(txt)), acc.1, acc.2))
        } else {
            None
        }
    } else if tok_month(tok) {
        if all_digits(txt) && txt.len() <= 2 {
            Some((acc.0, Some(digits_val(txt)), acc.2))
        } else {
            None
        }
    } else if tok_day(tok) {
        if all_digits(txt) && txt.len() <= 2 {
            Some((acc.0, acc.1, Some(digits_val(txt))))
        } else {
            None
        }
    } else if tok == txt {
        Some(acc)
    } else {
        None
    }
}

pub open spec fn date_fold(
    toks: Seq<Seq<char>>,
    txts: Seq<Seq<char>>,
) -> Option<(Option<int>, Option<int>, Option<int>)>
    recommends
        toks.len() == txts.len(),
    decreases toks.len(),
{
    if toks.len() == 0 {
        Some((None, None, None))
    } else {
        match date_fold(toks.drop_last(), txts.drop_last()) {
            None => None,
            Some(acc) => date_step(acc, toks.last(), txts.last()),
        }
    }
}

/// The date a text denotes under a space-separated pattern such as
/// `yyyy MM dd`: every field present once and within calendar bounds.
pub open spec fn parse_date_spec(pattern: Seq<char>, text: Seq<char>) -> Option<Date> {
    let toks = split_on(pattern, ' ');
    let txts = split_on(text, ' ');
    if toks.len() != txts.len() {
        None
    } else {
        match date_fold(toks, txts) {
            None => None,
            Some((oy, om, od)) => {
                if oy matches Some(y) && om matches Some(m) && od matches Some(d) && 0 <= y <= 9999
                    && 1 <= m <= 12 && 1 <= d <= 31 {
                    Some(
                        Date {
                            year: oy->Some_0 as u64,
                            month: om->Some_0 as u64,
                            day: od->Some_0 as u64,
                        },
                    )
                } else {
                    None
                }
            },
        }
    }
}

proof fn lemma_date_fold_none(toks: Seq<Seq<char>>, txts: Seq<Seq<char>>, m: int)
    requires
        0 <= m <= toks.len(),
        toks.len() == txts.len(),
        date_fold(toks.take(m), txts.take(m)) is None,
    ensures
        date_fold(toks, txts) is None,
    decreases toks.len() - m,
{
    if m < toks.len() {
        assert(toks.take(m + 1).drop_last() =~= toks.take(m));
        assert(txts.take(m + 1).drop_last() =~= txts.take(m));
        lemma_date_fold_none(toks, txts, m + 1);
    } else {
        assert(toks.take(m) =~= toks);
        assert(txts.take(m) =~= txts);
    }
}

/// Parses a date text against the configured input pattern.
pub fn parse_date(pattern: &str, text: &str) -> (r: Option<Date>)
    ensures
        r == parse_date_spec(pattern@, text@),
        (r matches Some(d) ==> d.wf()),
{
    let toks = split_exec(pattern, ' ');
    let txts = split_exec(text, ' ');
    let ghost tokv = split_on(pattern@, ' ');
    let ghost txtv = split_on(text@, ' ');
    if toks.len() != txts.len() {
        return None;
    }
    let mut oy: Option<u64> = None;
    let mut om: Option<u64> = None;
    let mut od: Option<u64> = None;
    let mut i: usize = 0;
    proof {
        reveal_strlit("yyyy");
        reveal_strlit("MM");
        reveal_strlit("M");
        reveal_strlit("dd");
        reveal_strlit("d");
        assert("yyyy"@ =~= seq!['y', 'y', 'y', 'y']);
        assert("MM"@ =~= seq!['M', 'M']);
        assert("M"@ =~= seq!['M']);
        assert("dd"@ =~= seq!['d', 'd']);
        assert("d"@ =~= seq!['d']);
        assert(tokv.take(0) =~= Seq::<Seq<char>>::empty());
        assert(txtv.take(0) =~= Seq::<Seq<char>>::empty());
    }
    while i < toks.len()
        invariant
            i <= toks@.len(),
            toks@.len() == txts@.len(),
            seg_views(toks@) == tokv,
            seg_views(txts@) == txtv,
            tokv == split_on(pattern@, ' '),
            txtv == split_on(text@, ' '),
            tokv.len() == txtv.len(),
            date_fold(tokv.take(i as int), txtv.take(i as int)) == Some(
                (
                    (match oy {
                        Some(v) => Some(v as int),
                        None => None,
                    }),
                    (match om {
                        Some(v) => Some(v as int),
                        None => None,
                    }),
                    (match od {
                        Some(v) => Some(v as int),
                        None => None,
                    }),
                ),
            ),
            (oy matches Some(v) ==> v <= 9999),
            (om matches Some(v) ==> v <= 99),
            (od matches Some(v) ==> v <= 99),
        decreases toks@.len() - i,
    {
        let tok = &toks[i];
        let txt = &txts[i];
        proof {
            reveal_strlit("yyyy");
            reveal_strlit("MM");
            reveal_strlit("M");
            reveal_strlit("dd");
            reveal_strlit("d");
            assert("yyyy"@ =~= seq!['y', 'y', 'y', 'y']);
            assert("MM"@ =~= seq!['M', 'M']);
            assert("M"@ =~= seq!['M']);
            assert("dd"@ =~= seq!['d', 'd']);
            assert("d"@ =~= seq!['d']);
            assert(tokv.take(i as int + 1).drop_last() =~= tokv.take(i as int));
            assert(txtv.take(i as int + 1).drop_last() =~= txtv.take(i as int));
            assert(tokv.take(i as int + 1).last() == tokv[i as int]);
            assert(txtv.take(i as int + 1).last() == txtv[i as int]);
            assert(tokv[i as int] == toks@[i as int]@);
            assert(txtv[i as int] == txts@[i as int]@);
        }
        if crate::paths::str_eq(tok.as_str(), "yyyy") {
            match parse_digits(txt.as_str(), 4) {
                Some(v) => {
                    oy = Some(v);
                },
                None => {
                    proof {
                        lemma_date_fold_none(tokv, txtv, i as int + 1);
                    }
                    return None;
                },
            }
        } else if crate::paths::str_eq(tok.as_str(), "MM") || crate::paths::str_eq(
            tok.as_str(),
            "M",
        ) {
            match parse_digits(txt.as_str(), 2) {
                Some(v) => {
                    om = Some(v);
                },
                None => {
                    proof {
                        lemma_date_fold_none(tokv, txtv, i as int + 1);
                    }
                    return None;
                },
            }
        } else if crate::paths::str_eq(tok.as_str(), "dd") || crate::paths::str_eq(
            tok.as_str(),
            "d",
        ) {
            match parse_digits(txt.as_str(), 2) {
                Some(v) => {
                    od = Some(v);
                },
                None => {
                    proof {
                        lemma_date_fold_none(tokv, txtv, i as int + 1);
                    }
                    return None;
                },
            }
        } else {
            if !crate::paths::str_eq(tok.as_str(), txt.as_str()) {
                proof {
                    lemma_date_fold_none(tokv, txtv, i as int + 1);
                }
                return None;
            }
        }
        i += 1;
    }
    proof {
        assert(tokv.take(i as int) =~= tokv);
        assert(txtv.take(i as int) =~= txtv);
    }
    let y = match oy {
        Some(v) => v,
        None => {
            return None;
        },
    };
    let m = match om {
        Some(v) => v,
        None => {
            return None;
        },
    };
    let d = match od {
        Some(v) => v,
        None => {
            return None;
        },
    };
    if y <= 9999 && 1 <= m && m <= 12 && 1 <= d && d <= 31 {
        Some(Date { year: y, month: m, day: d })
    } else {
        None
    }
}

} // verus!
