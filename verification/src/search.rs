//! Searching the message history: which group messages a query finds,
//! letter case aside, and the order results are shown in, newest first, at
//! most `SEARCH_LIMIT` of them.
use vstd::prelude::*;
use vstd::string::*;
use crate::devices::{trim_text_bounds, trimmed};
use crate::history::GroupMessage;
use crate::text::{occurs_in, text_contains};

verus! {

/// The most results a search shows.
pub const SEARCH_LIMIT: usize = 100;

/// The lowercase form of a text, by Unicode's case mapping.
pub uninterp spec fn lowercased(text: Seq<char>) -> Seq<char>;

/// Calls `str::to_lowercase`. The contract names the result.
#[verifier::external_body]
fn to_lowercase(text: &str) -> (r: String)
    ensures
        r@ == lowercased(text@),
{
    text.to_lowercase()
}

/// Whether a group message is found by a query, given in lowercase: it is
/// not deleted and its text, in lowercase, holds the query.
pub open spec fn found(m: GroupMessage, needle: Seq<char>) -> bool {
    !m.deleted && occurs_in(lowercased(m.text@), needle)
}

/// The query a search looks for: the text trimmed and in lowercase; `None`
/// for a blank query, which finds nothing.
pub fn search_needle(query: &str) -> (r: Option<String>)
    ensures
        trimmed(query@).len() == 0 ==> r is None,
        trimmed(query@).len() > 0 ==> (r matches Some(n) && n@ == lowercased(trimmed(query@))),
{
    let (lo, hi) = trim_text_bounds(query);
    if lo == hi {
        return None;
    }
    Some(to_lowercase(query.substring_char(lo, hi)))
}

/// The positions, in order, of the group messages the query finds.
pub fn matching_messages(messages: &[GroupMessage], needle: &str) -> (r: Vec<usize>)
    ensures
        forall|k: int| 0 <= k < r@.len() ==> (#[trigger] r@[k]) < messages@.len() && found(messages@[r@[k] as int], needle@),
        forall|a: int, b: int| 0 <= a < b < r@.len() ==> r@[a] < r@[b],
        forall|i: int| 0 <= i < messages@.len() && found(#[trigger] messages@[i], needle@) ==> r@.contains(i as usize),
{
    let mut out: Vec<usize> = Vec::new();
    let mut i: usize = 0;
    while i < messages.len()
        invariant
            i <= messages@.len(),
            forall|k: int| 0 <= k < out@.len() ==> (#[trigger] out@[k]) < i && found(messages@[out@[k] as int], needle@),
            forall|a: int, b: int| 0 <= a < b < out@.len() ==> out@[a] < out@[b],
            forall|j: int| 0 <= j < i && found(#[trigger] messages@[j], needle@) ==> out@.contains(j as usize),
        decreases messages@.len() - i,
    {
        let m = &messages[i];
        if !m.deleted {
            let lower = to_lowercase(m.text.as_str());
            if text_contains(lower.as_str(), needle) {
                let ghost before = out@;
                out.push(i);
                assert(out@[out@.len() - 1] == i);
                assert forall|j: int| 0 <= j < i + 1 && found(#[trigger] messages@[j], needle@) implies out@.contains(
                    j as usize,
                ) by {
                    if j < i {
                        let k = choose|k: int| 0 <= k < before.len() && before[k] == j as usize;
                        assert(out@[k] == j as usize);
                    } else {
                        assert(out@[out@.len() - 1] == j as usize);
                    }
                }
            }
        }
        i = i + 1;
    }
    out
}

/// Whether item `a` is shown before item `b`: the newer first, and of two
/// equally new the one listed first.
pub open spec fn shown_before(times: Seq<i64>, a: usize, b: usize) -> bool {
    times[a as int] > times[b as int] || (times[a as int] == times[b as int] && a < b)
}

/// Whether the positions list distinct items, each shown before the next.
pub open spec fn in_display_order(times: Seq<i64>, order: Seq<usize>) -> bool {
    &&& forall|k: int| 0 <= k < order.len() ==> (#[trigger] order[k]) < times.len()
    &&& forall|a: int, b: int| 0 <= a < b < order.len() ==> shown_before(times, #[trigger] order[a], #[trigger] order[b])
}

/// The positions of items with the given times, newest first, equally new
/// ones in their listed order, cut to `limit`: the order in which search
/// results are shown.
pub fn newest_first(times: &[i64], limit: usize) -> (r: Vec<usize>)
    ensures
        r@.len() == if times@.len() < limit {
            times@.len() as int
        } else {
            limit as int
        },
        in_display_order(times@, r@),
        forall|i: usize, k: int|
            i < times@.len() && 0 <= k < r@.len() && #[trigger] shown_before(times@, i, r@[k]) ==> r@.contains(i),
{
    let n = times.len();
    let mut order: Vec<usize> = Vec::new();
    let mut i: usize = 0;
    while i < n
        invariant
            n == times@.len(),
            i <= n,
            order@.len() == i,
            in_display_order(times@, order@),
            forall|k: int| 0 <= k < order@.len() ==> (#[trigger] order@[k]) < i,
            forall|j: usize| j < i ==> #[trigger] order@.contains(j),
        decreases n - i,
    {
        let t = times[i];
        let mut p: usize = 0;
        while p < order.len() && times[order[p]] >= t
            invariant
                n == times@.len(),
                i < n,
                p <= order@.len(),
                in_display_order(times@, order@),
                forall|k: int| 0 <= k < order@.len() ==> (#[trigger] order@[k]) < i,
                forall|k: int| 0 <= k < p ==> times@[(#[trigger] order@[k]) as int] >= t,
            decreases order@.len() - p,
        {
            p = p + 1;
        }
        let ghost before = order@;
        proof {
            if p < before.len() {
                assert(times@[before[p as int] as int] < t);
                assert forall|k: int| p <= k < before.len() implies times@[(#[trigger] before[k]) as int] < t by {
                    if k > p {
                        assert(shown_before(times@, before[p as int], before[k]));
                    }
                }
            }
        }
        order.insert(p, i);
        proof {
            let s = order@;
            assert(s == before.insert(p as int, i));
            assert forall|a: int, b: int| 0 <= a < b < s.len() implies shown_before(times@, #[trigger] s[a], #[trigger] s[b]) by {
                if b < p {
                    assert(s[a] == before[a] && s[b] == before[b]);
                } else if b == p {
                    assert(s[a] == before[a]);
                    assert(times@[before[a] as int] >= t);
                } else if a < p {
                    assert(s[a] == before[a] && s[b] == before[b - 1]);
                } else if a == p {
                    assert(s[b] == before[b - 1]);
                    assert(times@[before[b - 1] as int] < t);
                } else {
                    assert(s[a] == before[a - 1] && s[b] == before[b - 1]);
                }
            }
            assert forall|j: usize| j < i + 1 implies #[trigger] s.contains(j) by {
                if j < i {
                    assert(before.contains(j));
                    let k = choose|k: int| 0 <= k < before.len() && before[k] == j;
                    if k < p {
                        assert(s[k] == j);
                    } else {
                        assert(s[k + 1] == j);
                    }
                } else {
                    assert(s[p as int] == i);
                }
            }
            assert forall|k: int| 0 <= k < s.len() implies (#[trigger] s[k]) < i + 1 by {
                if k < p {
                    assert(s[k] == before[k]);
                } else if k > p {
                    assert(s[k] == before[k - 1]);
                }
            }
        }
        i = i + 1;
    }
    let ghost full = order@;
    let mut out: Vec<usize> = Vec::new();
    let mut k: usize = 0;
    while k < order.len() && k < limit
        invariant
            order@ == full,
            n == times@.len(),
            full.len() == n,
            in_display_order(times@, full),
            forall|j: usize| j < n ==> #[trigger] full.contains(j),
            k <= full.len(),
            k <= limit,
            out@ == full.take(k as int),
        decreases full.len() - k,
    {
        out.push(order[k]);
        assert(full.take(k + 1) =~= full.take(k as int).push(full[k as int]));
        k = k + 1;
    }
    proof {
        let r = out@;
        assert forall|a: int, b: int| 0 <= a < b < r.len() implies shown_before(times@, #[trigger] r[a], #[trigger] r[b]) by {
            assert(r[a] == full[a] && r[b] == full[b]);
        }
        assert forall|x: usize, k2: int| x < n && 0 <= k2 < r.len() && #[trigger] shown_before(times@, x, r[k2])
            implies r.contains(x) by {
            assert(full.contains(x));
            let j = choose|j: int| 0 <= j < full.len() && full[j] == x;
            assert(r[k2] == full[k2]);
            if j >= k2 {
                if j == k2 {
                    assert(full[j] == full[k2]);
                } else {
                    assert(shown_before(times@, full[k2], full[j]));
                }
                assert(false);
            }
            assert(r[j] == full[j]);
        }
    }
    out
}

} // verus!
