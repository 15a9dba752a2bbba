//! Ordering of listed pages.
//!
//! A page file may carry a numeric rank as a prefix of its file name:
//! `10notes` is the page `notes` at rank 10. The server walks a directory and
//! lists pages ordered by rank; splitting a file name into its rank and its
//! link name is decided here.
//!
//! The split takes the maximal run of decimal digits as the rank and demands
//! at least one following character for the link name: a name that is all
//! digits gives its last digit up to the link name. The link name runs to the
//! end of the first line. A rank that is empty or too large for 32 bits
//! becomes the largest rank, so such pages sort last.

use vstd::prelude::*;

use crate::rst_parser::text::{
    chars_to_string, copy_range, find_from, find_from_exec, str_to_chars,
};

verus! {

/// A decimal digit.
pub open spec fn is_digit(c: char) -> bool {
    '0' <= c && c <= '9'
}

/// The first index at or after `i` holding no digit, or the text's end.
pub open spec fn digits_end(s: Seq<char>, i: int) -> int
    decreases s.len() - i,
{
    if i < 0 || i >= s.len() {
        s.len() as int
    } else if is_digit(s[i]) {
        digits_end(s, i + 1)
    } else {
        i
    }
}

pub proof fn lemma_digits_end(s: Seq<char>, i: int)
    requires
        0 <= i <= s.len(),
    ensures
        i <= digits_end(s, i) <= s.len(),
        digits_end(s, i) < s.len() ==> !is_digit(s[digits_end(s, i)]),
        forall|j: int| i <= j < digits_end(s, i) ==> is_digit(s[j]),
    decreases s.len() - i,
{
    if i < s.len() && is_digit(s[i]) {
        lemma_digits_end(s, i + 1);
    }
}

/// The numeric value of one digit.
pub open spec fn digit_val(c: char) -> int {
    c as int - '0' as int
}

/// The value of a run of digits read as a decimal numeral.
pub open spec fn dec_value(s: Seq<char>) -> int
    decreases s.len(),
{
    if s.len() == 0 {
        0
    } else {
        dec_value(s.drop_last()) * 10 + digit_val(s.last())
    }
}

proof fn lemma_dec_value_nonneg(s: Seq<char>)
    requires
        forall|j: int| 0 <= j < s.len() ==> is_digit(s[j]),
    ensures
        dec_value(s) >= 0,
    decreases s.len(),
{
    if s.len() > 0 {
        lemma_dec_value_nonneg(s.drop_last());
    }
}

/// A longer run of digits reads as no smaller a value.
proof fn lemma_dec_value_monotone(s: Seq<char>, i: int, h: int)
    requires
        0 <= i <= h <= s.len(),
        forall|j: int| 0 <= j < h ==> is_digit(s[j]),
    ensures
        dec_value(s.subrange(0, h)) >= dec_value(s.subrange(0, i)),
    decreases h - i,
{
    if i < h {
        lemma_dec_value_monotone(s, i, h - 1);
        let p = s.subrange(0, h);
        assert(p.drop_last() =~= s.subrange(0, h - 1));
        lemma_dec_value_nonneg(s.subrange(0, h - 1));
    }
}

/// A file name yields a page entry at all: the digits and the demanded
/// following character are there.
pub open spec fn splits(s: Seq<char>) -> bool {
    let d = digits_end(s, 0);
    (d < s.len() && s[d] != '\n') || d > 0
}

/// The digits read as the rank: the maximal digit prefix, less its last digit
/// when nothing else follows it on the line.
pub open spec fn rank_digits(s: Seq<char>) -> Seq<char>
    recommends
        splits(s),
{
    let d = digits_end(s, 0);
    if d < s.len() && s[d] != '\n' {
        s.subrange(0, d)
    } else {
        s.subrange(0, d - 1)
    }
}

/// The link name: what follows the rank digits, up to the first line's end;
/// the last digit itself when nothing else follows.
pub open spec fn link_name_of(s: Seq<char>) -> Seq<char>
    recommends
        splits(s),
{
    let d = digits_end(s, 0);
    if d < s.len() && s[d] != '\n' {
        s.subrange(d, find_from(s, d, '\n'))
    } else {
        seq![s[d - 1]]
    }
}

/// The rank a digit run stands for: its value, or the largest rank when the
/// run is empty or its value does not fit.
pub open spec fn rank_value(digits: Seq<char>) -> u32 {
    if digits.len() == 0 || dec_value(digits) > u32::MAX {
        u32::MAX
    } else {
        dec_value(digits) as u32
    }
}

/// The listing order is right: lower ranks first, pages of one rank in their
/// original order.
pub open spec fn listing_ordered(ranks: Seq<u32>, order: Seq<usize>) -> bool {
    forall|i: int, j: int|
        #![trigger order[i], order[j]]
        0 <= i < j < order.len() ==> (ranks[order[i] as int] < ranks[order[j] as int] || (
        ranks[order[i] as int] == ranks[order[j] as int] && order[i] < order[j]))
}

/// Every listed position names a page.
pub open spec fn order_within(ranks: Seq<u32>, order: Seq<usize>) -> bool {
    forall|i: int| 0 <= i < order.len() ==> (#[trigger] order[i]) < ranks.len()
}

/// The order in which a directory's pages are listed, given their ranks: a
/// stable sort. The clauses admit exactly one sequence, the permutation of
/// `0 .. ranks.len()` that puts lower ranks first and keeps pages of one rank
/// in their original order.
pub fn rank_order(ranks: &Vec<u32>) -> (order: Vec<usize>)
    ensures
        order@.len() == ranks@.len(),
        order_within(ranks@, order@),
        listing_ordered(ranks@, order@),
{
    let n = ranks.len();
    let mut order: Vec<usize> = Vec::new();
    let mut idx: usize = 0;
    while idx < n
        invariant
            idx <= n == ranks@.len(),
            order@.len() == idx,
            order_within(ranks@, order@),
            listing_ordered(ranks@, order@),
            forall|i: int| 0 <= i < order@.len() ==> (#[trigger] order@[i]) < idx,
        decreases n - idx,
    {
        let mut j = order.len();
        while j > 0 && ranks[order[j - 1]] > ranks[idx]
            invariant
                j <= order@.len(),
                idx < n == ranks@.len(),
                order@.len() == idx,
                order_within(ranks@, order@),
                listing_ordered(ranks@, order@),
                forall|i: int| 0 <= i < order@.len() ==> (#[trigger] order@[i]) < idx,
                forall|m: int|
                    j <= m < order@.len() ==> ranks@[(#[trigger] order@[m]) as int] > ranks@[idx as int],
            decreases j,
        {
            j = j - 1;
        }
        let ghost prior = order@;
        order.insert(j, idx);
        proof {
            prior.insert_ensures(j as int, idx);
            assert(order@ == prior.insert(j as int, idx));
            assert forall|i: int| 0 <= i < j implies ranks@[prior[i] as int] <= ranks@[idx as int] by {
                if i < j - 1 {
                    assert(ranks@[prior[i] as int] < ranks@[prior[j - 1] as int] || (ranks@[prior[i] as int]
                        == ranks@[prior[j - 1] as int] && prior[i] < prior[j - 1]));
                }
            };
            assert forall|a: int, b: int| 0 <= a < b < order@.len() implies (ranks@[order@[a] as int]
                < ranks@[order@[b] as int] || (ranks@[order@[a] as int] == ranks@[order@[b] as int]
                && order@[a] < order@[b])) by {
                if b < j {
                    assert(order@[a] == prior[a] && order@[b] == prior[b]);
                } else if b == j {
                    assert(order@[a] == prior[a] && order@[b] == idx);
                } else if a < j {
                    assert(order@[a] == prior[a] && order@[b] == prior[b - 1]);
                } else if a == j {
                    assert(order@[a] == idx && order@[b] == prior[b - 1]);
                } else {
                    assert(order@[a] == prior[a - 1] && order@[b] == prior[b - 1]);
                }
            };
        }
        idx = idx + 1;
    }
    order
}

/// Reads the digits `s[0 .. h]` as a rank.
fn parse_rank(s: &Vec<char>, h: usize) -> (r: u32)
    requires
        h <= s@.len(),
        forall|j: int| 0 <= j < h ==> is_digit(s@[j]),
    ensures
        r == rank_value(s@.subrange(0, h as int)),
{
    if h == 0 {
        return u32::MAX;
    }
    let mut v: u32 = 0;
    let mut i: usize = 0;
    while i < h
        invariant
            i <= h <= s@.len(),
            forall|j: int| 0 <= j < h ==> is_digit(s@[j]),
            v == dec_value(s@.subrange(0, i as int)),
            dec_value(s@.subrange(0, i as int)) <= u32::MAX,
        decreases h - i,
    {
        let c = s[i];
        let digit: u32 = c as u32 - '0' as u32;
        proof {
            assert(is_digit(s@[i as int]));
            assert(digit == digit_val(s@[i as int]));
            assert(s@.subrange(0, i + 1).drop_last() =~= s@.subrange(0, i as int));
            assert(s@.subrange(0, i + 1).last() == s@[i as int]);
        }
        if v > u32::MAX / 10 || (v == u32::MAX / 10 && digit > u32::MAX % 10) {
            proof {
                assert(dec_value(s@.subrange(0, i + 1)) > u32::MAX);
                lemma_dec_value_monotone(s@, i + 1, h as int);
            }
            return u32::MAX;
        }
        v = v * 10 + digit;
        i = i + 1;
    }
    proof {
        assert(s@.subrange(0, h as int).len() == h);
    }
    v
}

/// Splits a file name into its rank and its link name.
///
/// `None` when the name yields no page entry: it is empty, or it begins with
/// a newline and holds no digit before it.
pub fn split_rank(file_name: &str) -> (r: Option<(u32, String)>)
    ensures
        r is None <==> !splits(file_name@),
        r matches Some(p) ==> p.0 == rank_value(rank_digits(file_name@)) && p.1@ == link_name_of(
            file_name@,
        ),
{
    let s = str_to_chars(file_name);
    let n = s.len();
    let mut d: usize = 0;
    while d < n && s[d] >= '0' && s[d] <= '9'
        invariant
            d <= n == s@.len(),
            digits_end(s@, 0) == digits_end(s@, d as int),
        decreases n - d,
    {
        d = d + 1;
    }
    proof {
        lemma_digits_end(s@, 0);
        assert(digits_end(s@, d as int) == d);
    }
    if d < n && s[d] != '\n' {
        let nl = find_from_exec(&s, d, '\n');
        let link = chars_to_string(&copy_range(&s, d, nl));
        let rank = parse_rank(&s, d);
        Some((rank, link))
    } else if d > 0 {
        let link = chars_to_string(&copy_range(&s, d - 1, d));
        let rank = parse_rank(&s, d - 1);
        proof {
            assert(link@ =~= seq![s@[d - 1]]);
        }
        Some((rank, link))
    } else {
        None
    }
}

} // verus!
