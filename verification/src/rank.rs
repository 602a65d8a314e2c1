//! Ranking of scores: ascending by ping, and among equal pings in the order
//! in which the scores were collected.

use vstd::prelude::*;
use crate::server::ServerPing;

verus! {

/// Every entry of `s` has a ping no greater than that of each later entry.
pub open spec fn is_ranked(s: Seq<ServerPing>) -> bool {
    forall|i: int, j: int| 0 <= i <= j < s.len() ==> s[i].ping <= s[j].ping
}

/// Each entry of `s` has a ping no greater than that of its successor.
pub open spec fn adjacent_ranked(s: Seq<ServerPing>) -> bool {
    forall|i: int| 0 <= i && i + 1 < s.len() ==> s[i].ping <= (#[trigger] s[i + 1]).ping
}

/// `s` with `x` put behind the last entry whose ping is no greater than
/// that of `x`, or in front where there is none.
pub open spec fn insert_ranked(s: Seq<ServerPing>, x: ServerPing) -> Seq<ServerPing>
    decreases s.len(),
{
    if s.len() == 0 {
        seq![x]
    } else if s.last().ping <= x.ping {
        s.push(x)
    } else {
        insert_ranked(s.drop_last(), x).push(s.last())
    }
}

/// The ranking of `s`: its entries in ascending order of ping, entries of
/// equal ping in the order they have in `s`.
pub open spec fn ranked(s: Seq<ServerPing>) -> Seq<ServerPing>
    decreases s.len(),
{
    if s.len() == 0 {
        Seq::empty()
    } else {
        insert_ranked(ranked(s.drop_last()), s.last())
    }
}

/// Where `insert_ranked` puts an entry: at the one position `at` that has
/// only greater pings behind it and no greater ping directly in front.
pub proof fn lemma_insert_ranked_at(s: Seq<ServerPing>, x: ServerPing, at: int)
    requires
        0 <= at <= s.len(),
        forall|k: int| at <= k < s.len() ==> s[k].ping > x.ping,
        at > 0 ==> s[at - 1].ping <= x.ping,
    ensures
        insert_ranked(s, x) == s.insert(at, x),
    decreases s.len(),
{
    if s.len() == 0 {
        assert(seq![x] =~= s.insert(at, x));
    } else if at == s.len() {
        assert(s.push(x) =~= s.insert(at, x));
    } else {
        lemma_insert_ranked_at(s.drop_last(), x, at);
        assert(s.drop_last().insert(at, x).push(s.last()) =~= s.insert(at, x));
    }
}

/// Putting an entry at any position adds it to the entries and removes none.
pub proof fn lemma_insert_to_multiset(s: Seq<ServerPing>, x: ServerPing, at: int)
    requires
        0 <= at <= s.len(),
    ensures
        s.insert(at, x).to_multiset() == s.to_multiset().insert(x),
{
    broadcast use vstd::seq_lib::group_to_multiset_ensures;

    let t = s.insert(at, x);
    assert(t.remove(at) =~= s);
    assert(t[at] == x);
    assert(t.remove(at).to_multiset() =~= t.to_multiset().remove(x));
    assert(t.contains(x));
    assert(t.to_multiset().count(x) > 0);
    assert(t.to_multiset() =~= t.to_multiset().remove(x).insert(x));
}

/// `insert_ranked` keeps a ranking ranked, adds the entry and removes none.
pub proof fn lemma_insert_ranked(s: Seq<ServerPing>, x: ServerPing)
    requires
        is_ranked(s),
    ensures
        is_ranked(insert_ranked(s, x)),
        insert_ranked(s, x).len() == s.len() + 1,
        insert_ranked(s, x).to_multiset() == s.to_multiset().insert(x),
        exists|at: int| 0 <= at <= s.len() && insert_ranked(s, x) == #[trigger] s.insert(at, x),
    decreases s.len(),
{
    if s.len() == 0 {
        assert(seq![x] =~= s.insert(0, x));
        lemma_insert_to_multiset(s, x, 0);
    } else if s.last().ping <= x.ping {
        let at = s.len() as int;
        assert(s.push(x) =~= s.insert(at, x));
        lemma_insert_to_multiset(s, x, at);
    } else {
        let front = s.drop_last();
        assert(is_ranked(front));
        lemma_insert_ranked(front, x);
        let at = choose|at: int|
            0 <= at <= front.len() && insert_ranked(front, x) == #[trigger] front.insert(at, x);
        assert(front.insert(at, x).push(s.last()) =~= s.insert(at, x));
        lemma_insert_to_multiset(s, x, at);
        let r = s.insert(at, x);
        assert forall|i: int, j: int| 0 <= i <= j < r.len() implies r[i].ping <= r[j].ping by {
            if j == r.len() - 1 {
                if i < j {
                    assert(r[i] == front.insert(at, x)[i]);
                    if i != at {
                        let k = if i < at { i } else { i - 1 };
                        assert(r[i] == s[k]);
                    }
                }
            } else {
                assert(r[i] == front.insert(at, x)[i]);
                assert(r[j] == front.insert(at, x)[j]);
            }
        }
    }
}

/// The ranking is ranked and holds the same entries, each as often.
pub proof fn lemma_ranked(s: Seq<ServerPing>)
    ensures
        is_ranked(ranked(s)),
        ranked(s).len() == s.len(),
        ranked(s).to_multiset() == s.to_multiset(),
    decreases s.len(),
{
    broadcast use vstd::seq_lib::group_to_multiset_ensures;

    if s.len() > 0 {
        lemma_ranked(s.drop_last());
        lemma_insert_ranked(ranked(s.drop_last()), s.last());
        assert(s.drop_last().push(s.last()) =~= s);
    }
}

/// A sequence whose neighbours are in order is in order throughout.
pub proof fn lemma_adjacent_ranked(s: Seq<ServerPing>)
    ensures
        adjacent_ranked(s) <==> is_ranked(s),
    decreases s.len(),
{
    if is_ranked(s) {
        assert forall|i: int| 0 <= i && i + 1 < s.len() implies s[i].ping <= (#[trigger] s[i
            + 1]).ping by {}
    }
    if adjacent_ranked(s) && s.len() > 0 {
        let front = s.drop_last();
        assert forall|i: int| 0 <= i && i + 1 < front.len() implies front[i].ping <= (
        #[trigger] front[i + 1]).ping by {
            assert(front[i + 1] == s[i + 1]);
        }
        lemma_adjacent_ranked(front);
        assert forall|i: int, j: int| 0 <= i <= j < s.len() implies s[i].ping <= s[j].ping by {
            if j == s.len() - 1 && i < j {
                assert(front[i].ping <= front[j - 1].ping);
                assert(s[j - 1].ping <= s[j - 1 + 1].ping);
            } else if i < j {
                assert(front[i].ping <= front[j].ping);
            }
        }
    }
}

/// Ranking what is ranked already changes nothing.
pub proof fn lemma_ranked_fixed_point(s: Seq<ServerPing>)
    requires
        is_ranked(s),
    ensures
        ranked(s) == s,
    decreases s.len(),
{
    if s.len() > 0 {
        let front = s.drop_last();
        assert(is_ranked(front));
        lemma_ranked_fixed_point(front);
        if front.len() > 0 {
            assert(front.last() == s[s.len() - 2]);
        }
        assert(front.push(s.last()) =~= s);
    } else {
        assert(ranked(s) =~= s);
    }
}

/// Ranking twice gives what ranking once gives.
pub proof fn lemma_ranked_idempotent(s: Seq<ServerPing>)
    ensures
        ranked(ranked(s)) == ranked(s),
{
    lemma_ranked(s);
    lemma_ranked_fixed_point(ranked(s));
}

/// Puts `scores` in ascending order of ping. Entries of equal ping keep the
/// order they came in.
pub fn rank(scores: &mut Vec<ServerPing>)
    ensures
        final(scores)@ == ranked(old(scores)@),
        is_ranked(final(scores)@),
        adjacent_ranked(final(scores)@),
        final(scores)@.len() == old(scores)@.len(),
        final(scores)@.to_multiset() == old(scores)@.to_multiset(),
{
    let n: usize = scores.len();
    let mut i: usize = 0;
    while i < n
        invariant
            i <= n,
            n == old(scores)@.len(),
            scores@.len() == n,
            scores@.take(i as int) == ranked(old(scores)@.take(i as int)),
            scores@.skip(i as int) == old(scores)@.skip(i as int),
        decreases n - i,
    {
        let ghost before = scores@;
        let ghost head = scores@.take(i as int);
        let entry = scores.remove(i);
        let mut at: usize = i;
        while at > 0 && scores[at - 1].ping > entry.ping
            invariant
                at <= i,
                i < n,
                scores@ == before.remove(i as int),
                before.len() == n,
                forall|k: int| at <= k < i ==> scores@[k].ping > entry.ping,
            decreases at,
        {
            at = at - 1;
        }
        scores.insert(at, entry);
        proof {
            let source = old(scores)@;
            assert(entry == source[i as int]) by {
                assert(before.skip(i as int)[0] == source.skip(i as int)[0]);
            }
            assert forall|k: int| at <= k < head.len() implies head[k].ping > entry.ping by {
                assert(head[k] == before.remove(i as int)[k]);
            }
            if at > 0 {
                assert(head[at - 1] == before.remove(i as int)[at - 1]);
            }
            lemma_insert_ranked_at(head, entry, at as int);
            assert(source.take(i + 1).drop_last() =~= source.take(i as int));
            assert(source.take(i + 1).last() == entry);
            assert(scores@.take(i + 1) =~= head.insert(at as int, entry));
            assert forall|k: int| i < k < n implies #[trigger] scores@[k] == source[k] by {
                assert(before.skip(i as int)[k - i] == source.skip(i as int)[k - i]);
            }
            assert(scores@.skip(i + 1) =~= source.skip(i + 1));
        }
        i = i + 1;
    }
    proof {
        assert(scores@.take(n as int) =~= scores@);
        assert(old(scores)@.take(n as int) =~= old(scores)@);
        lemma_ranked(old(scores)@);
        lemma_adjacent_ranked(scores@);
    }
}

} // verus!
