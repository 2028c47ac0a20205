//! Stable ranking of scored chunks by blended score, descending.
//!
//! The order is pinned by the spec-level insertion sort `sort_desc`: each
//! chunk is inserted after every earlier chunk whose score is at least as
//! high, so chunks with equal scores keep their original retrieval order.

use vstd::prelude::*;

verus! {

/// A retrieved text fragment with its blended relevance score (fixed point,
/// tenths of millionths).
pub struct ScoredChunk {
    pub text: String,
    pub section: String,
    pub filename: String,
    pub score: i64,
}

/// Inserts `c` into a descending list, after every element with a score
/// strictly above `c`'s and before the rest.
pub open spec fn insert_desc(c: ScoredChunk, s: Seq<ScoredChunk>) -> Seq<ScoredChunk>
    decreases s.len(),
{
    if s.len() == 0 {
        seq![c]
    } else if s[0].score > c.score {
        seq![s[0]] + insert_desc(c, s.drop_first())
    } else {
        seq![c] + s
    }
}

/// The stable descending sort by score.
pub open spec fn sort_desc(s: Seq<ScoredChunk>) -> Seq<ScoredChunk>
    decreases s.len(),
{
    if s.len() == 0 {
        s
    } else {
        insert_desc(s[0], sort_desc(s.drop_first()))
    }
}

/// Scores never increase along the sequence.
pub open spec fn sorted_desc(s: Seq<ScoredChunk>) -> bool {
    forall|i: int, j: int| 0 <= i < j < s.len() ==> s[i].score >= s[j].score
}

/// Where the insertion lands: before the first element whose score is not
/// above `c`'s.
pub proof fn lemma_insert_desc_at(c: ScoredChunk, s: Seq<ScoredChunk>, pos: int)
    requires
        0 <= pos <= s.len(),
        forall|k: int| 0 <= k < pos ==> s[k].score > c.score,
        pos == s.len() || s[pos].score <= c.score,
    ensures
        insert_desc(c, s) == s.take(pos) + seq![c] + s.skip(pos),
    decreases s.len(),
{
    if s.len() == 0 {
        assert(insert_desc(c, s) =~= s.take(0) + seq![c] + s.skip(0));
    } else if pos == 0 {
        assert(s[0].score <= c.score);
        assert(insert_desc(c, s) =~= s.take(0) + seq![c] + s.skip(0));
    } else {
        assert(s[0].score > c.score);
        assert forall|k: int| 0 <= k < pos - 1 implies s.drop_first()[k].score > c.score by {
            assert(s.drop_first()[k] == s[k + 1]);
        }
        if pos < s.len() {
            assert(s.drop_first()[pos - 1] == s[pos]);
        }
        lemma_insert_desc_at(c, s.drop_first(), pos - 1);
        assert(insert_desc(c, s) == seq![s[0]] + (s.drop_first().take(pos - 1) + seq![c]
            + s.drop_first().skip(pos - 1)));
        assert(seq![s[0]] + (s.drop_first().take(pos - 1) + seq![c] + s.drop_first().skip(pos - 1))
            =~= s.take(pos) + seq![c] + s.skip(pos));
    }
}

/// Inserting into a descending list keeps it descending.
pub proof fn lemma_insert_desc_sorted(c: ScoredChunk, s: Seq<ScoredChunk>)
    requires
        sorted_desc(s),
    ensures
        sorted_desc(insert_desc(c, s)),
{
    let pos = first_not_above(c, s);
    lemma_first_not_above(c, s);
    lemma_insert_desc_at(c, s, pos as int);
    let r = insert_desc(c, s);
    assert forall|i: int, j: int| 0 <= i < j < r.len() implies r[i].score >= r[j].score by {
        let p = pos as int;
        if i < p {
            assert(r[i] == s[i]);
        } else if i == p {
            assert(r[i] == c);
        } else {
            assert(r[i] == s[i - 1]);
        }
        if j < p {
            assert(r[j] == s[j]);
        } else if j == p {
            assert(r[j] == c);
        } else {
            assert(r[j] == s[j - 1]);
        }
        if i < p && j > p {
            if p < s.len() {
                assert(s[i].score >= s[p].score);
            }
        }
    }
}

/// First position whose score is not above `c`'s; the length when none.
pub open spec fn first_not_above(c: ScoredChunk, s: Seq<ScoredChunk>) -> nat
    decreases s.len(),
{
    if s.len() == 0 {
        0
    } else if s[0].score <= c.score {
        0
    } else {
        1 + first_not_above(c, s.drop_first())
    }
}

pub proof fn lemma_first_not_above(c: ScoredChunk, s: Seq<ScoredChunk>)
    ensures
        first_not_above(c, s) <= s.len(),
        forall|k: int| 0 <= k < first_not_above(c, s) ==> s[k].score > c.score,
        first_not_above(c, s) < s.len() ==> s[first_not_above(c, s) as int].score <= c.score,
    decreases s.len(),
{
    if s.len() > 0 && s[0].score > c.score {
        lemma_first_not_above(c, s.drop_first());
        assert forall|k: int| 0 <= k < first_not_above(c, s) implies s[k].score > c.score by {
            if k > 0 {
                assert(s.drop_first()[k - 1] == s[k]);
            }
        }
        if first_not_above(c, s) < s.len() {
            assert(s.drop_first()[first_not_above(c, s) - 1] == s[first_not_above(c, s) as int]);
        }
    }
}

/// The sort output is descending.
pub proof fn lemma_sort_desc_sorted(s: Seq<ScoredChunk>)
    ensures
        sorted_desc(sort_desc(s)),
    decreases s.len(),
{
    if s.len() > 0 {
        lemma_sort_desc_sorted(s.drop_first());
        lemma_insert_desc_sorted(s[0], sort_desc(s.drop_first()));
    }
}

/// Inserting adds exactly the inserted chunk to the bag of chunks.
pub proof fn lemma_insert_desc_multiset(c: ScoredChunk, s: Seq<ScoredChunk>)
    ensures
        insert_desc(c, s).to_multiset() == s.to_multiset().insert(c),
        insert_desc(c, s).len() == s.len() + 1,
    decreases s.len(),
{
    broadcast use vstd::seq_lib::group_to_multiset_ensures;

    let pos = first_not_above(c, s);
    lemma_first_not_above(c, s);
    lemma_insert_desc_at(c, s, pos as int);
    let r = insert_desc(c, s);
    assert(r =~= s.insert(pos as int, c));
    assert(r.remove(pos as int) =~= s);
    assert(r[pos as int] == c);
    assert(r.remove(pos as int).to_multiset() =~= r.to_multiset().remove(c));
    assert(r.contains(c));
    assert(r.to_multiset().count(c) > 0);
    assert(r.to_multiset() =~= r.to_multiset().remove(c).insert(c));
}

/// Sorting permutes the chunks: the bags agree.
pub proof fn lemma_sort_desc_multiset(s: Seq<ScoredChunk>)
    ensures
        sort_desc(s).to_multiset() == s.to_multiset(),
        sort_desc(s).len() == s.len(),
    decreases s.len(),
{
    broadcast use vstd::seq_lib::group_to_multiset_ensures;

    if s.len() > 0 {
        lemma_sort_desc_multiset(s.drop_first());
        lemma_insert_desc_multiset(s[0], sort_desc(s.drop_first()));
        assert(s =~= s.drop_first().insert(0, s[0]));
        assert(s.remove(0) =~= s.drop_first());
        assert(s.remove(0).to_multiset() =~= s.to_multiset().remove(s[0]));
        assert(s.contains(s[0]));
        assert(s.to_multiset().count(s[0]) > 0);
        assert(s.to_multiset() =~= s.to_multiset().remove(s[0]).insert(s[0]));
    }
}

/// Inserts a chunk into a descending vector, after every strictly
/// higher-scored element.
fn insert_chunk(sorted: Vec<ScoredChunk>, c: ScoredChunk) -> (r: Vec<ScoredChunk>)
    ensures
        r@ == insert_desc(c, sorted@),
{
    let n = sorted.len();
    let mut pos: usize = 0;
    while pos < n
        invariant_except_break
            pos <= n,
            n == sorted@.len(),
            forall|k: int| 0 <= k < pos ==> sorted@[k].score > c.score,
        ensures
            pos <= n,
            n == sorted@.len(),
            forall|k: int| 0 <= k < pos ==> sorted@[k].score > c.score,
            pos == n || sorted@[pos as int].score <= c.score,
        decreases n - pos,
    {
        if sorted[pos].score <= c.score {
            break ;
        }
        pos += 1;
    }
    proof {
        lemma_insert_desc_at(c, sorted@, pos as int);
    }
    let mut out = sorted;
    let ghost pre = out@;
    out.insert(pos, c);
    proof {
        assert(out@ =~= pre.take(pos as int) + seq![c] + pre.skip(pos as int));
    }
    out
}

/// Sorts chunks by blended score, descending and stable: chunks with equal
/// scores keep their input order.
pub fn rank_chunks(chunks: Vec<ScoredChunk>) -> (r: Vec<ScoredChunk>)
    ensures
        r@ == sort_desc(chunks@),
        r@.len() == chunks@.len(),
    decreases chunks@.len(),
{
    proof {
        lemma_sort_desc_multiset(chunks@);
    }
    if chunks.len() == 0 {
        return chunks;
    }
    let ghost all = chunks@;
    let mut rest = chunks;
    let first = rest.remove(0);
    proof {
        assert(rest@ =~= all.drop_first());
        assert(first == all[0]);
    }
    let sorted_rest = rank_chunks(rest);
    insert_chunk(sorted_rest, first)
}

} // verus!
