//! Deduplication-free aggregation: filtering unresolved participants,
//! stable descending sort, rank assignment and the rendered output lines.

use crate::numbers::dec_str;
use crate::numbers::u64_to_string;
use vstd::prelude::*;
use vstd::string::StringExecFns;

verus! {

/// One participant's settled score; zero means "not found on either
/// mirror" and keeps the record out of the final output.
pub struct ScoreRecord {
    pub name: String,
    pub score: u64,
}

/// One line of the final ranking: a one-based rank position, the
/// participant and the score.
pub struct RankingEntry {
    pub rank: usize,
    pub name: String,
    pub score: u64,
}

/// The records with a non-zero score, in discovery order.
pub open spec fn filter_nonzero(s: Seq<ScoreRecord>) -> Seq<ScoreRecord>
    decreases s.len(),
{
    if s.len() == 0 {
        Seq::empty()
    } else if s.last().score == 0 {
        filter_nonzero(s.drop_last())
    } else {
        filter_nonzero(s.drop_last()).push(s.last())
    }
}

/// Stable insertion into a sequence sorted by score descending: the new
/// record goes after every record with an equal or higher score.
pub open spec fn insert_desc(s: Seq<ScoreRecord>, x: ScoreRecord) -> Seq<ScoreRecord>
    decreases s.len(),
{
    if s.len() > 0 && s.last().score < x.score {
        insert_desc(s.drop_last(), x).push(s.last())
    } else {
        s.push(x)
    }
}

/// Stable sort by score descending: equal scores keep their relative
/// discovery order.
pub open spec fn sort_desc(s: Seq<ScoreRecord>) -> Seq<ScoreRecord>
    decreases s.len(),
{
    if s.len() == 0 {
        Seq::empty()
    } else {
        insert_desc(sort_desc(s.drop_last()), s.last())
    }
}

/// The sorted records under one-based rank positions.
pub open spec fn ranked(s: Seq<ScoreRecord>) -> Seq<RankingEntry> {
    Seq::new(
        s.len(),
        |i: int| RankingEntry { rank: (i + 1) as usize, name: s[i].name, score: s[i].score },
    )
}

/// The whole aggregation: filter out zero scores, sort stably by score
/// descending, assign ranks.
pub open spec fn spec_aggregate(records: Seq<ScoreRecord>) -> Seq<RankingEntry> {
    ranked(sort_desc(filter_nonzero(records)))
}

proof fn lemma_insert_desc_at(s: Seq<ScoreRecord>, x: ScoreRecord, k: int)
    requires
        0 <= k <= s.len(),
        forall|j: int| k <= j < s.len() ==> (#[trigger] s[j]).score < x.score,
        k > 0 ==> s[k - 1].score >= x.score,
    ensures
        insert_desc(s, x) == s.subrange(0, k).push(x) + s.subrange(k, s.len() as int),
    decreases s.len(),
{
    if k == s.len() {
        assert(insert_desc(s, x) == s.push(x));
        assert(s.subrange(0, k) =~= s);
        assert(s.subrange(k, s.len() as int) =~= Seq::<ScoreRecord>::empty());
        assert(s.push(x) =~= s.subrange(0, k).push(x) + s.subrange(k, s.len() as int));
    } else {
        assert(s[s.len() - 1].score < x.score);
        let dl = s.drop_last();
        assert(forall|j: int| k <= j < dl.len() ==> (#[trigger] dl[j]).score < x.score);
        assert(k > 0 ==> dl[k - 1] == s[k - 1]);
        lemma_insert_desc_at(dl, x, k);
        assert(dl.subrange(0, k) =~= s.subrange(0, k));
        assert(insert_desc(s, x) == insert_desc(dl, x).push(s.last()));
        assert((dl.subrange(0, k).push(x) + dl.subrange(k, dl.len() as int)).push(s.last()) =~= s
            .subrange(0, k).push(x) + s.subrange(k, s.len() as int));
    }
}

/// Every score in the sequence is at least `b`.
pub open spec fn all_score_geq(s: Seq<ScoreRecord>, b: nat) -> bool {
    forall|i: int| 0 <= i < s.len() ==> (#[trigger] s[i]).score >= b
}

proof fn lemma_insert_desc_geq(s: Seq<ScoreRecord>, x: ScoreRecord, b: nat)
    requires
        all_score_geq(s, b),
        x.score >= b,
    ensures
        all_score_geq(insert_desc(s, x), b),
    decreases s.len(),
{
    if s.len() > 0 && s.last().score < x.score {
        let dl = s.drop_last();
        assert(all_score_geq(dl, b));
        lemma_insert_desc_geq(dl, x, b);
        assert forall|i: int| 0 <= i < insert_desc(s, x).len() implies (#[trigger] insert_desc(
            s,
            x,
        )[i]).score >= b by {
            if i < insert_desc(dl, x).len() {
                assert(insert_desc(s, x)[i] == insert_desc(dl, x)[i]);
            } else {
                assert(insert_desc(s, x)[i] == s.last());
                assert(s[s.len() - 1].score >= b);
            }
        }
    } else {
        assert forall|i: int| 0 <= i < s.push(x).len() implies (#[trigger] s.push(x)[i]).score
            >= b by {
            if i < s.len() {
                assert(s.push(x)[i] == s[i]);
            }
        }
    }
}

/// Sorted by score, non-increasing.
pub open spec fn sorted_desc(s: Seq<ScoreRecord>) -> bool {
    forall|i: int, j: int| 0 <= i <= j < s.len() ==> (#[trigger] s[i]).score >= (#[trigger] s[j]).score
}

proof fn lemma_insert_desc_len(s: Seq<ScoreRecord>, x: ScoreRecord)
    ensures
        insert_desc(s, x).len() == s.len() + 1,
    decreases s.len(),
{
    if s.len() > 0 && s.last().score < x.score {
        lemma_insert_desc_len(s.drop_last(), x);
    }
}

proof fn lemma_insert_desc_sorted(s: Seq<ScoreRecord>, x: ScoreRecord)
    requires
        sorted_desc(s),
    ensures
        sorted_desc(insert_desc(s, x)),
    decreases s.len(),
{
    if s.len() > 0 && s.last().score < x.score {
        let dl = s.drop_last();
        assert(sorted_desc(dl));
        lemma_insert_desc_sorted(dl, x);
        lemma_insert_desc_len(dl, x);
        assert(all_score_geq(dl, s.last().score as nat));
        lemma_insert_desc_geq(dl, x, s.last().score as nat);
        let r = insert_desc(dl, x).push(s.last());
        assert(insert_desc(s, x) == r);
        assert forall|i: int, j: int| 0 <= i <= j < r.len() implies (#[trigger] r[i]).score >= (
        #[trigger] r[j]).score by {
            if j < r.len() - 1 {
                assert(r[i] == insert_desc(dl, x)[i] && r[j] == insert_desc(dl, x)[j]);
            } else if i < r.len() - 1 {
                assert(r[i] == insert_desc(dl, x)[i]);
                assert(r[j] == s.last());
                assert(insert_desc(dl, x)[i].score >= s.last().score);
            }
        }
    } else {
        let r = s.push(x);
        assert forall|i: int, j: int| 0 <= i <= j < r.len() implies (#[trigger] r[i]).score >= (
        #[trigger] r[j]).score by {
            if j < s.len() {
                assert(r[i] == s[i] && r[j] == s[j]);
            } else if i < s.len() {
                assert(r[i] == s[i] && r[j] == x);
                assert(s[i].score >= s[s.len() - 1].score);
                assert(s[s.len() - 1].score >= x.score);
            }
        }
    }
}

proof fn lemma_sort_desc_sorted(s: Seq<ScoreRecord>)
    ensures
        sorted_desc(sort_desc(s)),
    decreases s.len(),
{
    if s.len() > 0 {
        lemma_sort_desc_sorted(s.drop_last());
        lemma_insert_desc_sorted(sort_desc(s.drop_last()), s.last());
    }
}

/// Every score in the sequence is non-zero.
pub open spec fn all_nonzero(s: Seq<ScoreRecord>) -> bool {
    forall|i: int| 0 <= i < s.len() ==> (#[trigger] s[i]).score != 0
}

proof fn lemma_filter_all_nonzero(s: Seq<ScoreRecord>)
    ensures
        all_nonzero(filter_nonzero(s)),
    decreases s.len(),
{
    if s.len() > 0 {
        lemma_filter_all_nonzero(s.drop_last());
        if s.last().score != 0 {
            let f = filter_nonzero(s.drop_last());
            assert forall|i: int| 0 <= i < f.push(s.last()).len() implies (#[trigger] f.push(
                s.last(),
            )[i]).score != 0 by {
                if i < f.len() {
                    assert(f.push(s.last())[i] == f[i]);
                }
            }
        }
    }
}

proof fn lemma_insert_desc_nonzero(s: Seq<ScoreRecord>, x: ScoreRecord)
    requires
        all_nonzero(s),
        x.score != 0,
    ensures
        all_nonzero(insert_desc(s, x)),
    decreases s.len(),
{
    lemma_insert_desc_geq(s, x, 1);
}

proof fn lemma_sort_desc_nonzero(s: Seq<ScoreRecord>)
    requires
        all_nonzero(s),
    ensures
        all_nonzero(sort_desc(s)),
    decreases s.len(),
{
    if s.len() > 0 {
        assert(all_nonzero(s.drop_last()));
        lemma_sort_desc_nonzero(s.drop_last());
        lemma_insert_desc_nonzero(sort_desc(s.drop_last()), s.last());
    }
}

/// The aggregation law: the output is sorted by score non-increasing, no
/// entry with score zero appears in it, and rank positions are one-based
/// and consecutive.
pub proof fn lemma_aggregate_sorted_nonzero(records: Seq<ScoreRecord>)
    ensures
        forall|i: int, j: int|
            0 <= i <= j < spec_aggregate(records).len() ==> (#[trigger] spec_aggregate(
                records,
            )[i]).score >= (#[trigger] spec_aggregate(records)[j]).score,
        forall|i: int|
            0 <= i < spec_aggregate(records).len() ==> (#[trigger] spec_aggregate(
                records,
            )[i]).score != 0,
        forall|i: int|
            0 <= i < spec_aggregate(records).len() ==> (#[trigger] spec_aggregate(records)[i]).rank
                == (i + 1) as usize,
{
    let f = filter_nonzero(records);
    lemma_filter_all_nonzero(records);
    lemma_sort_desc_nonzero(f);
    lemma_sort_desc_sorted(f);
}

/// Drives the ranking over collected score records: filters out the
/// zero-score participants, sorts the remainder stably by score descending
/// and assigns one-based rank positions.
pub struct RankingAggregator {}

impl RankingAggregator {
    fn insert_sorted(v: &mut Vec<ScoreRecord>, x: ScoreRecord)
        ensures
            final(v)@ == insert_desc(old(v)@, x),
    {
        let mut k: usize = v.len();
        while k > 0 && v[k - 1].score < x.score
            invariant
                0 <= k <= v.len(),
                forall|j: int| k <= j < v@.len() ==> (#[trigger] v@[j]).score < x.score,
            decreases k,
        {
            k = k - 1;
        }
        proof {
            lemma_insert_desc_at(v@, x, k as int);
        }
        let ghost before = v@;
        v.insert(k, x);
        proof {
            assert(v@ =~= before.subrange(0, k as int).push(x) + before.subrange(
                k as int,
                before.len() as int,
            ));
        }
    }

    /// The aggregation: every record with a non-zero score appears under a
    /// one-based rank, ordered by score descending, ties keeping discovery
    /// order.
    pub fn aggregate(records: &Vec<ScoreRecord>) -> (r: Vec<RankingEntry>)
        ensures
            r@ == spec_aggregate(records@),
    {
        let mut filtered: Vec<ScoreRecord> = Vec::new();
        proof {
            assert(records@.take(0) =~= Seq::<ScoreRecord>::empty());
            assert(filter_nonzero(records@.take(0)) =~= Seq::<ScoreRecord>::empty());
            assert(filtered@ =~= filter_nonzero(records@.take(0)));
        }
        let mut i: usize = 0;
        while i < records.len()
            invariant
                0 <= i <= records.len(),
                filtered@ == filter_nonzero(records@.take(i as int)),
            decreases records.len() - i,
        {
            proof {
                assert(records@.take(i + 1).drop_last() =~= records@.take(i as int));
                assert(records@.take(i + 1).last() == records@[i as int]);
            }
            if records[i].score != 0 {
                let rec = ScoreRecord { name: records[i].name.clone(), score: records[i].score };
                proof {
                    assert(rec == records@[i as int]);
                }
                filtered.push(rec);
            }
            i = i + 1;
        }
        proof {
            assert(records@.take(records@.len() as int) =~= records@);
        }
        let mut sorted: Vec<ScoreRecord> = Vec::new();
        proof {
            assert(filtered@.take(0) =~= Seq::<ScoreRecord>::empty());
            assert(sort_desc(filtered@.take(0)) == Seq::<ScoreRecord>::empty());
            assert(sorted@ =~= sort_desc(filtered@.take(0)));
        }
        let mut j: usize = 0;
        while j < filtered.len()
            invariant
                0 <= j <= filtered.len(),
                sorted@ == sort_desc(filtered@.take(j as int)),
            decreases filtered.len() - j,
        {
            proof {
                assert(filtered@.take(j + 1).drop_last() =~= filtered@.take(j as int));
                assert(filtered@.take(j + 1).last() == filtered@[j as int]);
            }
            let rec = ScoreRecord { name: filtered[j].name.clone(), score: filtered[j].score };
            proof {
                assert(rec == filtered@[j as int]);
            }
            Self::insert_sorted(&mut sorted, rec);
            j = j + 1;
        }
        proof {
            assert(filtered@.take(filtered@.len() as int) =~= filtered@);
        }
        let mut out: Vec<RankingEntry> = Vec::new();
        let mut k: usize = 0;
        while k < sorted.len()
            invariant
                0 <= k <= sorted.len(),
                out@.len() == k,
                forall|t: int| 0 <= t < k ==> #[trigger] out@[t] == ranked(sorted@)[t],
            decreases sorted.len() - k,
        {
            let entry = RankingEntry {
                rank: k + 1,
                name: sorted[k].name.clone(),
                score: sorted[k].score,
            };
            proof {
                assert(entry == ranked(sorted@)[k as int]);
            }
            out.push(entry);
            k = k + 1;
        }
        proof {
            assert(out@ =~= ranked(sorted@));
        }
        out
    }
}

/// One ranking line: `"<rank>. <name> - <score>"` terminated by CRLF.
pub open spec fn spec_line(rank: nat, name: Seq<char>, score: nat) -> Seq<char> {
    dec_str(rank) + ". "@ + name + " - "@ + dec_str(score) + "\r\n"@
}

pub fn format_line(rank: u64, name: &str, score: u64) -> (r: String)
    ensures
        r@ == spec_line(rank as nat, name@, score as nat),
{
    let s = u64_to_string(rank);
    let s = s.concat(". ");
    let s = s.concat(name);
    let s = s.concat(" - ");
    let sc = u64_to_string(score);
    let s = s.concat(sc.as_str());
    s.concat("\r\n")
}

/// The whole output artifact: one line per entry, in order.
pub open spec fn spec_render(entries: Seq<RankingEntry>) -> Seq<char>
    decreases entries.len(),
{
    if entries.len() == 0 {
        Seq::empty()
    } else {
        spec_render(entries.drop_last()) + spec_line(
            entries.last().rank as nat,
            entries.last().name@,
            entries.last().score as nat,
        )
    }
}

/// Renders the final ranking, one line per resolved participant.
pub fn render_ranking(entries: &Vec<RankingEntry>) -> (r: String)
    requires
        forall|i: int| 0 <= i < entries@.len() ==> (#[trigger] entries@[i]).rank <= u64::MAX,
    ensures
        r@ == spec_render(entries@),
{
    let mut out = String::new();
    proof {
        assert(entries@.take(0) =~= Seq::<RankingEntry>::empty());
        assert(spec_render(entries@.take(0)) == Seq::<char>::empty());
    }
    let mut i: usize = 0;
    while i < entries.len()
        invariant
            0 <= i <= entries.len(),
            forall|t: int| 0 <= t < entries@.len() ==> (#[trigger] entries@[t]).rank <= u64::MAX,
            out@ == spec_render(entries@.take(i as int)),
        decreases entries.len() - i,
    {
        proof {
            assert(entries@.take(i + 1).drop_last() =~= entries@.take(i as int));
            assert(entries@.take(i + 1).last() == entries@[i as int]);
        }
        let e = &entries[i];
        let line = format_line(e.rank as u64, e.name.as_str(), e.score);
        out.append(line.as_str());
        i = i + 1;
    }
    proof {
        assert(entries@.take(entries@.len() as int) =~= entries@);
    }
    out
}

/// Two collected record sequences stand for the same batch: the same
/// participants with the same scores, in the same discovery order. Two runs
/// over identical fixed inputs collect such sequences, even though each run
/// holds its own strings.
pub open spec fn records_agree(r1: Seq<ScoreRecord>, r2: Seq<ScoreRecord>) -> bool {
    r1.len() == r2.len() && forall|i: int|
        0 <= i < r1.len() ==> (#[trigger] r1[i]).name@ == (#[trigger] r2[i]).name@ && r1[i].score
            == r2[i].score
}

proof fn lemma_filter_agree(r1: Seq<ScoreRecord>, r2: Seq<ScoreRecord>)
    requires
        records_agree(r1, r2),
    ensures
        records_agree(filter_nonzero(r1), filter_nonzero(r2)),
    decreases r1.len(),
{
    if r1.len() > 0 {
        assert(r1[r1.len() - 1].score == r2[r2.len() - 1].score);
        assert(records_agree(r1.drop_last(), r2.drop_last()));
        lemma_filter_agree(r1.drop_last(), r2.drop_last());
        if r1.last().score != 0 {
            let f1 = filter_nonzero(r1.drop_last());
            let f2 = filter_nonzero(r2.drop_last());
            assert forall|i: int| 0 <= i < f1.push(r1.last()).len() implies (#[trigger] f1.push(
                r1.last(),
            )[i]).name@ == (#[trigger] f2.push(r2.last())[i]).name@ && f1.push(r1.last())[i].score
                == f2.push(r2.last())[i].score by {
                if i < f1.len() {
                    assert(f1.push(r1.last())[i] == f1[i]);
                    assert(f2.push(r2.last())[i] == f2[i]);
                }
            }
        }
    }
}

proof fn lemma_insert_agree(
    s1: Seq<ScoreRecord>,
    s2: Seq<ScoreRecord>,
    x1: ScoreRecord,
    x2: ScoreRecord,
)
    requires
        records_agree(s1, s2),
        x1.name@ == x2.name@,
        x1.score == x2.score,
    ensures
        records_agree(insert_desc(s1, x1), insert_desc(s2, x2)),
    decreases s1.len(),
{
    if s1.len() > 0 {
        assert(s1[s1.len() - 1].score == s2[s2.len() - 1].score);
    }
    if s1.len() > 0 && s1.last().score < x1.score {
        assert(records_agree(s1.drop_last(), s2.drop_last()));
        lemma_insert_agree(s1.drop_last(), s2.drop_last(), x1, x2);
        let t1 = insert_desc(s1.drop_last(), x1);
        let t2 = insert_desc(s2.drop_last(), x2);
        assert forall|i: int| 0 <= i < t1.push(s1.last()).len() implies (#[trigger] t1.push(
            s1.last(),
        )[i]).name@ == (#[trigger] t2.push(s2.last())[i]).name@ && t1.push(s1.last())[i].score
            == t2.push(s2.last())[i].score by {
            if i < t1.len() {
                assert(t1.push(s1.last())[i] == t1[i]);
                assert(t2.push(s2.last())[i] == t2[i]);
            } else {
                assert(t1.push(s1.last())[i] == s1.last());
                assert(t2.push(s2.last())[i] == s2.last());
            }
        }
    } else {
        assert(insert_desc(s1, x1) == s1.push(x1));
        assert(insert_desc(s2, x2) == s2.push(x2));
        assert forall|i: int| 0 <= i < s1.push(x1).len() implies (#[trigger] s1.push(x1)[i]).name@
            == (#[trigger] s2.push(x2)[i]).name@ && s1.push(x1)[i].score == s2.push(x2)[i].score by {
            if i < s1.len() {
                assert(s1.push(x1)[i] == s1[i]);
                assert(s2.push(x2)[i] == s2[i]);
            }
        }
    }
}

proof fn lemma_sort_agree(s1: Seq<ScoreRecord>, s2: Seq<ScoreRecord>)
    requires
        records_agree(s1, s2),
    ensures
        records_agree(sort_desc(s1), sort_desc(s2)),
    decreases s1.len(),
{
    if s1.len() > 0 {
        assert(records_agree(s1.drop_last(), s2.drop_last()));
        lemma_sort_agree(s1.drop_last(), s2.drop_last());
        assert(s1[s1.len() - 1].name@ == s2[s2.len() - 1].name@);
        assert(s1[s1.len() - 1].score == s2[s2.len() - 1].score);
        lemma_insert_agree(sort_desc(s1.drop_last()), sort_desc(s2.drop_last()), s1.last(), s2.last());
    }
}

proof fn lemma_render_agree(s1: Seq<ScoreRecord>, s2: Seq<ScoreRecord>)
    requires
        records_agree(s1, s2),
    ensures
        spec_render(ranked(s1)) == spec_render(ranked(s2)),
    decreases s1.len(),
{
    if s1.len() > 0 {
        assert(records_agree(s1.drop_last(), s2.drop_last()));
        lemma_render_agree(s1.drop_last(), s2.drop_last());
        assert(ranked(s1.drop_last()) =~= ranked(s1).drop_last());
        assert(ranked(s2.drop_last()) =~= ranked(s2).drop_last());
        assert(ranked(s1).last().rank == ranked(s2).last().rank);
        assert(s1[s1.len() - 1].name@ == s2[s2.len() - 1].name@);
        assert(ranked(s1).last().name@ == ranked(s2).last().name@);
        assert(s1[s1.len() - 1].score == s2[s2.len() - 1].score);
        assert(ranked(s1).last().score == ranked(s2).last().score);
    }
}

/// Idempotence of the batch: two runs against identical fixed inputs
/// collect record sequences that agree in participant and score, and the
/// ranking stage then emits byte-identical output from them.
pub proof fn lemma_pipeline_idempotent(r1: Seq<ScoreRecord>, r2: Seq<ScoreRecord>)
    requires
        records_agree(r1, r2),
    ensures
        spec_render(spec_aggregate(r1)) == spec_render(spec_aggregate(r2)),
{
    lemma_filter_agree(r1, r2);
    lemma_sort_agree(filter_nonzero(r1), filter_nonzero(r2));
    lemma_render_agree(sort_desc(filter_nonzero(r1)), sort_desc(filter_nonzero(r2)));
}

} // verus!
