use vstd::prelude::*;

use crate::row::{stamp_of, RowV};

verus! {

/// Folding map inserts of stamp/profit pairs over a sequence, starting
/// from an arbitrary map; later pairs overwrite earlier ones with the
/// same stamp.
pub open spec fn map_fold_from(m: Map<int, int>, s: Seq<(u32, i64)>) -> Map<int, int> {
    s.fold_left(m, |acc: Map<int, int>, p: (u32, i64)| acc.insert(p.0 as int, p.1 as int))
}

/// The map a pair sequence stands for.
pub open spec fn pairs_to_map(s: Seq<(u32, i64)>) -> Map<int, int> {
    map_fold_from(Map::<int, int>::empty(), s)
}

/// Stamps strictly increasing, hence all distinct.
pub open spec fn strictly_sorted(s: Seq<(u32, i64)>) -> bool {
    forall|i: int, j: int| 0 <= i < j < s.len() ==> s[i].0 < s[j].0
}

/// The sum of the profits a pair sequence holds.
pub open spec fn pair_sum(s: Seq<(u32, i64)>) -> int {
    s.fold_left(0, |acc: int, p: (u32, i64)| acc + p.1)
}

/// Whether some pair carries the given stamp.
pub open spec fn has_stamp(s: Seq<(u32, i64)>, k: u32) -> bool {
    exists|i: int| 0 <= i < s.len() && s[i].0 == k
}

/// The monthly profit map of a cohort: one entry per row keyed by the
/// row's month stamp; with a duplicated stamp the later row wins.
pub open spec fn monthly_of(c: Seq<RowV>) -> Map<int, int> {
    c.fold_left(
        Map::<int, int>::empty(),
        |m: Map<int, int>, r: RowV| m.insert(stamp_of(r.timerange), r.profit_total),
    )
}

/// Extending a cohort prefix by one row adds (or overwrites) that row's
/// month entry.
pub proof fn lemma_monthly_take_step(c: Seq<RowV>, i: int)
    requires
        0 <= i < c.len(),
    ensures
        monthly_of(c.take(i + 1)) == monthly_of(c.take(i)).insert(
            stamp_of(c[i].timerange),
            c[i].profit_total,
        ),
{
    assert(c.take(i + 1).drop_last() =~= c.take(i));
    assert(c.take(i + 1).last() == c[i]);
}

/// Splitting the map fold at a concatenation boundary.
proof fn lemma_map_fold_concat(m: Map<int, int>, a: Seq<(u32, i64)>, b: Seq<(u32, i64)>)
    ensures
        map_fold_from(m, a + b) == map_fold_from(map_fold_from(m, a), b),
    decreases b.len(),
{
    if b.len() == 0 {
        assert(a + b =~= a);
    } else {
        lemma_map_fold_concat(m, a, b.drop_last());
        assert((a + b).drop_last() =~= a + b.drop_last());
        assert((a + b).last() == b.last());
    }
}

/// Inserting a stamp no pair of the sequence carries commutes with the
/// rest of the fold.
proof fn lemma_map_fold_insert_commutes(m: Map<int, int>, s: Seq<(u32, i64)>, k: int, v: int)
    requires
        forall|i: int| 0 <= i < s.len() ==> #[trigger] s[i].0 as int != k,
    ensures
        map_fold_from(m.insert(k, v), s) == map_fold_from(m, s).insert(k, v),
    decreases s.len(),
{
    if s.len() > 0 {
        let d = s.drop_last();
        assert(forall|i: int| 0 <= i < d.len() ==> d[i] == s[i]);
        lemma_map_fold_insert_commutes(m, d, k, v);
        let p = s.last();
        assert(p.0 as int != k);
        assert(map_fold_from(m, d).insert(k, v).insert(p.0 as int, p.1 as int)
            =~= map_fold_from(m, d).insert(p.0 as int, p.1 as int).insert(k, v));
    }
}

/// The profit sum distributes over concatenation.
proof fn lemma_pair_sum_concat(a: Seq<(u32, i64)>, b: Seq<(u32, i64)>)
    ensures
        pair_sum(a + b) == pair_sum(a) + pair_sum(b),
    decreases b.len(),
{
    if b.len() == 0 {
        assert(a + b =~= a);
    } else {
        lemma_pair_sum_concat(a, b.drop_last());
        assert((a + b).drop_last() =~= a + b.drop_last());
        assert((a + b).last() == b.last());
    }
}

/// Places one month's profit into a sorted pair list: overwrites the entry
/// with the same stamp if one exists, else inserts at the sorted position.
#[verifier::rlimit(60)]
pub fn monthly_insert(v: &mut Vec<(u32, i64)>, stamp: u32, profit: i64)
    requires
        strictly_sorted(old(v)@),
    ensures
        strictly_sorted(final(v)@),
        pairs_to_map(final(v)@) == pairs_to_map(old(v)@).insert(stamp as int, profit as int),
        forall|k: u32| has_stamp(final(v)@, k) <==> has_stamp(old(v)@, k) || k == stamp,
        !has_stamp(old(v)@, stamp) ==> pair_sum(final(v)@) == pair_sum(old(v)@) + profit,
        final(v)@.len() <= old(v)@.len() + 1,
{
    let ghost pre = old(v)@;
    let mut pos: usize = 0;
    loop
        invariant
            v@ == pre,
            strictly_sorted(pre),
            pos <= pre.len(),
            forall|i: int| 0 <= i < pos ==> #[trigger] pre[i].0 < stamp,
        ensures
            v@ == pre,
            pos <= pre.len(),
            forall|i: int| 0 <= i < pos ==> #[trigger] pre[i].0 < stamp,
            pos < pre.len() ==> pre[pos as int].0 >= stamp,
        decreases pre.len() - pos,
    {
        if pos == v.len() {
            break ;
        }
        if v[pos].0 >= stamp {
            break ;
        }
        pos = pos + 1;
    }
    let ghost a = pre.take(pos as int);
    let ghost k = stamp as int;
    let ghost val = profit as int;
    let ghost mfa = map_fold_from(Map::<int, int>::empty(), a);
    if pos < v.len() && v[pos].0 == stamp {
        let ghost b2 = pre.skip(pos as int + 1);
        let ghost oldp = pre[pos as int];
        v.remove(pos);
        v.insert(pos, (stamp, profit));
        proof {
            assert(forall|i: int| 0 <= i < b2.len() ==> #[trigger] b2[i] == pre[i + pos + 1]);
            assert(forall|i: int| 0 <= i < b2.len() ==> #[trigger] b2[i].0 as int != k);
            assert(pre =~= a + (seq![oldp] + b2));
            assert(v@ =~= a + (seq![(stamp, profit)] + b2));
            lemma_map_fold_concat(Map::<int, int>::empty(), a, seq![oldp] + b2);
            lemma_map_fold_concat(Map::<int, int>::empty(), a, seq![(stamp, profit)] + b2);
            assert((seq![oldp] + b2).drop_last() =~= if b2.len() == 0 {
                Seq::<(u32, i64)>::empty()
            } else {
                seq![oldp] + b2.drop_last()
            });
            lemma_map_fold_seq_head(mfa, oldp, b2);
            lemma_map_fold_seq_head(mfa, (stamp, profit), b2);
            lemma_map_fold_insert_commutes(mfa, b2, k, oldp.1 as int);
            lemma_map_fold_insert_commutes(mfa, b2, k, val);
            let mfb2 = map_fold_from(mfa, b2);
            assert(pairs_to_map(pre) == mfb2.insert(k, oldp.1 as int));
            assert(pairs_to_map(v@) == mfb2.insert(k, val));
            assert(mfb2.insert(k, oldp.1 as int).insert(k, val) =~= mfb2.insert(k, val));
            assert(strictly_sorted(v@)) by {
                assert(forall|i: int|
                    0 <= i < v@.len() ==> #[trigger] v@[i] == if i < pos {
                        pre[i]
                    } else if i == pos {
                        (stamp, profit)
                    } else {
                        pre[i]
                    });
            }
            assert(forall|kk: u32| has_stamp(v@, kk) ==> has_stamp(pre, kk) || kk == stamp);
            assert forall|kk: u32| has_stamp(pre, kk) || kk == stamp implies has_stamp(
                v@,
                kk,
            ) by {
                if kk == stamp {
                    assert(v@[pos as int].0 == kk);
                } else {
                    let i = choose|i: int| 0 <= i < pre.len() && pre[i].0 == kk;
                    assert(v@[i].0 == kk);
                }
            }
            assert(has_stamp(pre, stamp)) by {
                assert(pre[pos as int].0 == stamp);
            }
        }
    } else {
        let ghost b = pre.skip(pos as int);
        v.insert(pos, (stamp, profit));
        proof {
            assert(forall|i: int| 0 <= i < b.len() ==> #[trigger] b[i] == pre[i + pos]);
            assert(forall|i: int| 0 <= i < b.len() ==> #[trigger] b[i].0 > stamp) by {
                if pos < pre.len() {
                    assert(pre[pos as int].0 >= stamp);
                    assert(pre[pos as int].0 != stamp);
                    assert forall|i: int| 0 <= i < b.len() implies #[trigger] b[i].0 > stamp by {
                        if i > 0 {
                            assert(pre[pos as int].0 < pre[i + pos].0);
                        }
                    }
                }
            }
            assert(forall|i: int| 0 <= i < b.len() ==> #[trigger] b[i].0 as int != k);
            assert(pre =~= a + b);
            assert(v@ =~= a + (seq![(stamp, profit)] + b));
            lemma_map_fold_concat(Map::<int, int>::empty(), a, b);
            lemma_map_fold_concat(Map::<int, int>::empty(), a, seq![(stamp, profit)] + b);
            lemma_map_fold_seq_head(mfa, (stamp, profit), b);
            lemma_map_fold_insert_commutes(mfa, b, k, val);
            assert(pairs_to_map(v@) == map_fold_from(mfa, b).insert(k, val));
            assert(pairs_to_map(pre) == map_fold_from(mfa, b));
            assert(strictly_sorted(v@)) by {
                assert(forall|i: int|
                    0 <= i < v@.len() ==> #[trigger] v@[i] == if i < pos {
                        pre[i]
                    } else if i == pos {
                        (stamp, profit)
                    } else {
                        pre[i - 1]
                    });
            }
            assert(forall|kk: u32| has_stamp(v@, kk) ==> has_stamp(pre, kk) || kk == stamp);
            assert forall|kk: u32| has_stamp(pre, kk) || kk == stamp implies has_stamp(
                v@,
                kk,
            ) by {
                if kk == stamp {
                    assert(v@[pos as int].0 == kk);
                } else {
                    let i = choose|i: int| 0 <= i < pre.len() && pre[i].0 == kk;
                    if i < pos {
                        assert(v@[i].0 == kk);
                    } else {
                        assert(v@[i + 1].0 == kk);
                    }
                }
            }
            lemma_pair_sum_concat(a, b);
            lemma_pair_sum_concat(a, seq![(stamp, profit)] + b);
            lemma_pair_sum_head((stamp, profit), b);
            assert(pair_sum(v@) == pair_sum(pre) + profit);
        }
    }
}

/// Folding a non-empty sequence whose head is a single known pair.
proof fn lemma_map_fold_seq_head(m: Map<int, int>, p: (u32, i64), t: Seq<(u32, i64)>)
    ensures
        map_fold_from(m, seq![p] + t) == map_fold_from(m.insert(p.0 as int, p.1 as int), t),
    decreases t.len(),
{
    reveal_with_fuel(Seq::fold_left, 3);
    if t.len() == 0 {
        assert(seq![p] + t =~= seq![p]);
        assert(seq![p].drop_last() =~= Seq::<(u32, i64)>::empty());
        assert(seq![p].last() == p);
        assert(map_fold_from(m, seq![p]) == m.insert(p.0 as int, p.1 as int));
    } else {
        lemma_map_fold_seq_head(m, p, t.drop_last());
        assert((seq![p] + t).drop_last() =~= seq![p] + t.drop_last());
        assert((seq![p] + t).last() == t.last());
    }
}

/// The profit sum of a sequence with a known head.
proof fn lemma_pair_sum_head(p: (u32, i64), t: Seq<(u32, i64)>)
    ensures
        pair_sum(seq![p] + t) == p.1 + pair_sum(t),
    decreases t.len(),
{
    reveal_with_fuel(Seq::fold_left, 3);
    if t.len() == 0 {
        assert(seq![p] + t =~= seq![p]);
        assert(seq![p].drop_last() =~= Seq::<(u32, i64)>::empty());
        assert(seq![p].last() == p);
        assert(pair_sum(seq![p]) == p.1);
    } else {
        lemma_pair_sum_head(p, t.drop_last());
        assert((seq![p] + t).drop_last() =~= seq![p] + t.drop_last());
        assert((seq![p] + t).last() == t.last());
    }
}

} // verus!
