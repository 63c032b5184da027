use vstd::prelude::*;

verus! {

use vstd::arithmetic::div_mod::lemma_fundamental_div_mod_converse;

/// One pagination page: a consecutive run of positions in the ordered
/// document list, with its 1-based page number and the total page count.
pub struct PageGroup {
    pub number: u64,
    pub total: u64,
    pub items: Vec<usize>,
}

/// All the positions the pages carry, in page order.
pub open spec fn pages_items(pages: Seq<PageGroup>) -> Seq<usize>
    decreases pages.len(),
{
    if pages.len() == 0 {
        Seq::empty()
    } else {
        pages_items(pages.drop_last()) + pages.last().items@
    }
}

/// The number of pages that `n` documents fill at `per` documents a page.
pub open spec fn page_count(n: int, per: int) -> int
    recommends
        per >= 1,
{
    (n + per - 1) / per
}

/// Partitions the positions `0 .. n` of an ordered document list into
/// consecutive pages of `per` documents, the last page possibly smaller;
/// no documents make no pages.
pub fn paginate(n: usize, per: u64) -> (r: Vec<PageGroup>)
    requires
        per >= 1,
    ensures
        r@.len() == page_count(n as int, per as int),
        pages_items(r@) == Seq::new(n as nat, |j: int| j as usize),
        forall|g: int|
            0 <= g < r@.len() ==> 1 <= (#[trigger] r@[g]).items@.len() <= per as int,
        forall|g: int|
            0 <= g < r@.len() - 1 ==> (#[trigger] r@[g]).items@.len() == per as int,
        forall|g: int|
            0 <= g < r@.len() ==> (#[trigger] r@[g]).number as int == g + 1 && r@[g].total as int
                == r@.len() as int,
{
    let per_eff: usize = if n == 0 {
        1
    } else if per >= n as u64 {
        n
    } else {
        per as usize
    };
    let q = n / per_eff;
    let m = n % per_eff;
    proof {
        vstd::arithmetic::div_mod::lemma_fundamental_div_mod(n as int, per_eff as int);
        vstd::arithmetic::div_mod::lemma_div_pos_is_pos(n as int, per_eff as int);
        if m != 0 {
            assert(q as int + 1 <= n as int) by (nonlinear_arith)
                requires
                    n as int == per_eff as int * (q as int) + m as int,
                    m >= 1,
                    per_eff >= 1,
                    q >= 0,
            ;
        }
    }
    let total: usize = if m != 0 {
        q + 1
    } else {
        q
    };
    proof {
        lemma_page_count_eff(n as int, per as int, per_eff as int, total as int);
    }
    let mut r: Vec<PageGroup> = Vec::new();
    let mut i: usize = 0;
    proof {
        assert(0int * per_eff as int == 0) by (nonlinear_arith);
    }
    while i < n
        invariant
            1 <= per_eff,
            per_eff as int <= per as int || (n == 0 && per_eff == 1),
            i <= n,
            total as int == n as int / per_eff as int + (if n as int % per_eff as int != 0 {
                1int
            } else {
                0int
            }),
            total as int == page_count(n as int, per as int),
            (i as int == r@.len() as int * per_eff as int && (forall|g: int|
                0 <= g < r@.len() ==> (#[trigger] r@[g]).items@.len() == per_eff as int)) || (i
                == n && r@.len() == total),
            r@.len() <= total,
            pages_items(r@) == Seq::new(i as nat, |j: int| j as usize),
            forall|g: int|
                0 <= g < r@.len() ==> 1 <= (#[trigger] r@[g]).items@.len() <= per_eff as int,
            forall|g: int|
                0 <= g < r@.len() - 1 ==> (#[trigger] r@[g]).items@.len() == per_eff as int,
            forall|g: int|
                0 <= g < r@.len() ==> (#[trigger] r@[g]).number as int == g + 1 && r@[g].total
                    == total as u64,
        decreases n - i,
    {
        let ghost glen = r@.len();
        proof {
            assert(i as int == glen as int * per_eff as int);
            assert(glen as int <= i as int) by (nonlinear_arith)
                requires
                    i as int == glen as int * per_eff as int,
                    per_eff >= 1,
                    glen >= 0,
            ;
        }
        let c: usize = if n - i < per_eff {
            n - i
        } else {
            per_eff
        };
        let mut items: Vec<usize> = Vec::new();
        let mut k: usize = 0;
        while k < c
            invariant
                k <= c,
                i + c <= n,
                items@.len() == k,
                forall|j: int| 0 <= j < k ==> items@[j] == i + j,
            decreases c - k,
        {
            items.push(i + k);
            k += 1;
        }
        let number: u64 = (r.len() + 1) as u64;
        let g = PageGroup { number, total: total as u64, items };
        let ghost prev = r@;
        r.push(g);
        proof {
            assert(r@.drop_last() =~= prev);
            assert(pages_items(r@) == pages_items(prev) + g.items@);
            assert(pages_items(r@) =~= Seq::new((i + c) as nat, |j: int| j as usize));
            if c == per_eff {
                assert((glen + 1) as int * per_eff as int == glen as int * per_eff as int
                    + per_eff as int) by (nonlinear_arith);
                assert((i + c) as int == r@.len() as int * per_eff as int);
                vstd::arithmetic::div_mod::lemma_fundamental_div_mod_converse(
                    (i + c) as int,
                    per_eff as int,
                    (glen + 1) as int,
                    0,
                );
                vstd::arithmetic::div_mod::lemma_div_is_ordered(
                    (i + c) as int,
                    n as int,
                    per_eff as int,
                );
                assert(r@.len() <= total);
            } else {
                assert(i + c == n);
                lemma_fundamental_div_mod_converse(
                    n as int,
                    per_eff as int,
                    glen as int,
                    c as int,
                );
                assert(r@.len() == total);
            }
        }
        i = i + c;
    }
    proof {
        if i as int == r@.len() as int * per_eff as int {
            lemma_fundamental_div_mod_converse(n as int, per_eff as int, r@.len() as int, 0);
            assert(r@.len() == total);
        }
        assert(pages_items(r@) =~= Seq::new(n as nat, |j: int| j as usize));
        if n > 0 && per >= n as u64 {
            lemma_fundamental_div_mod_converse(n as int, n as int, 1, 0);
            assert(total == 1);
        }
        if r@.len() >= 2 {
            assert(per_eff as int == per as int);
        }
    }
    r
}

/// Relates the page total computed without overflow to the ceiling form, and
/// the clamped page size to the configured one.
proof fn lemma_page_count_eff(n: int, per: int, per_eff: int, total: int)
    requires
        per >= 1,
        per_eff == (if n == 0 {
            1int
        } else if per >= n {
            n
        } else {
            per
        }),
        total == n / per_eff + (if n % per_eff != 0 {
            1int
        } else {
            0int
        }),
        n >= 0,
    ensures
        total == page_count(n, per),
        1 <= per_eff <= per || (n == 0 && per_eff == 1),
{
    if n == 0 {
        assert(per - 1 >= 0);
        lemma_fundamental_div_mod_converse(per - 1, per, 0, per - 1);
        assert(page_count(0, per) == 0);
        lemma_fundamental_div_mod_converse(0, 1, 0, 0);
    } else if per >= n {
        lemma_fundamental_div_mod_converse(n, n, 1, 0);
        assert(total == 1);
        assert(n + per - 1 == 1 * per + (n - 1)) by (nonlinear_arith);
        lemma_fundamental_div_mod_converse(n + per - 1, per, 1, n - 1);
    } else {
        let q = n / per;
        let m = n % per;
        vstd::arithmetic::div_mod::lemma_fundamental_div_mod(n, per);
        vstd::arithmetic::div_mod::lemma_mod_bound(n, per);
        if m == 0 {
            assert(n + per - 1 == q * per + (per - 1));
            lemma_fundamental_div_mod_converse(n + per - 1, per, q, per - 1);
        } else {
            assert(n + per - 1 == (q + 1) * per + (m - 1)) by (nonlinear_arith)
                requires
                    n == q * per + m,
            ;
            lemma_fundamental_div_mod_converse(n + per - 1, per, q + 1, m - 1);
        }
    }
}

} // verus!
