//! Near-duplicate elimination by cosine similarity over fixed-point
//! embeddings.
//!
//! An embedding coordinate is a fixed-point value scaled by one million
//! (bounded by 2^20 so the arithmetic below cannot overflow); the dedup
//! threshold is given in thousandths. Whether the cosine similarity of two
//! vectors exceeds the threshold is decided exactly on the integers:
//! `cos(a, b) > t/1000` holds iff the dot product is positive and
//! `1000000·dot² > t²·|a|²·|b|²`. Vectors of different lengths, and vectors
//! with zero norm, never exceed the threshold (their similarity counts as
//! zero).

use vstd::prelude::*;
use crate::rank::ScoredChunk;

verus! {

/// Most coordinates an embedding may have.
pub const MAX_DIM: usize = 4096;

/// Largest coordinate magnitude.
pub const MAX_COORD: i64 = 1_048_576;

/// A fixed-point embedding vector.
pub struct Embedding {
    pub coords: Vec<i64>,
}

impl Embedding {
    /// Dimension and coordinate bounds that keep the similarity arithmetic
    /// exact.
    pub open spec fn wf(&self) -> bool {
        &&& self.coords@.len() <= MAX_DIM
        &&& forall|i: int|
            0 <= i < self.coords@.len() ==> -MAX_COORD <= #[trigger] self.coords@[i] <= MAX_COORD
    }

    /// Wraps raw fixed-point coordinates, refusing vectors that are too
    /// long or hold out-of-range values.
    pub fn new(raw: Vec<i64>) -> (r: Option<Embedding>)
        ensures
            match r {
                Some(e) => e.wf() && e.coords@ == raw@,
                None => raw@.len() > MAX_DIM || exists|i: int|
                    0 <= i < raw@.len() && !(-MAX_COORD <= #[trigger] raw@[i] <= MAX_COORD),
            },
    {
        if raw.len() > MAX_DIM {
            return None;
        }
        let mut i: usize = 0;
        while i < raw.len()
            invariant
                i <= raw@.len(),
                forall|j: int| 0 <= j < i ==> -MAX_COORD <= #[trigger] raw@[j] <= MAX_COORD,
            decreases raw@.len() - i,
        {
            if raw[i] < -MAX_COORD || raw[i] > MAX_COORD {
                return None;
            }
            i += 1;
        }
        Some(Embedding { coords: raw })
    }
}

/// Dot product of two integer vectors (over the common prefix).
pub open spec fn dot(a: Seq<i64>, b: Seq<i64>) -> int
    decreases a.len(),
{
    if a.len() == 0 || b.len() == 0 {
        0
    } else {
        a[0] * b[0] + dot(a.drop_first(), b.drop_first())
    }
}

/// Whether the cosine similarity of `a` and `b` strictly exceeds `t`
/// thousandths. Length mismatch and zero norms count as similarity zero.
pub open spec fn sim_exceeds(a: Seq<i64>, b: Seq<i64>, t: int) -> bool {
    &&& a.len() == b.len()
    &&& dot(a, b) > 0
    &&& 1_000_000 * dot(a, b) * dot(a, b) > t * t * dot(a, a) * dot(b, b)
}

/// Whether the embedding at position `i` is similar, above the threshold,
/// to one whose index is already kept.
pub open spec fn is_redundant(embs: Seq<Seq<i64>>, t: int, i: int, kept: Seq<int>) -> bool {
    exists|j: int| 0 <= j < kept.len() && sim_exceeds(embs[i], #[trigger] embs[kept[j]], t)
}

/// The indices kept by redundancy removal, walking from position `i` with
/// the indices in `kept` already retained: a position is dropped exactly
/// when some already-kept embedding is similar above the threshold.
pub open spec fn dedup_step(embs: Seq<Seq<i64>>, t: int, i: int, kept: Seq<int>) -> Seq<int>
    decreases embs.len() - i,
{
    if i < 0 || i >= embs.len() {
        kept
    } else {
        dedup_step(embs, t, i + 1, if is_redundant(embs, t, i, kept) {
            kept
        } else {
            kept.push(i)
        })
    }
}

/// The indices kept by redundancy removal.
pub open spec fn dedup_kept(embs: Seq<Seq<i64>>, t: int) -> Seq<int> {
    dedup_step(embs, t, 0, Seq::empty())
}

/// Walking keeps at most one index per remaining position.
pub proof fn lemma_dedup_step_len(embs: Seq<Seq<i64>>, t: int, i: int, kept: Seq<int>)
    requires
        0 <= i <= embs.len(),
    ensures
        dedup_step(embs, t, i, kept).len() <= kept.len() + embs.len() - i,
    decreases embs.len() - i,
{
    if i < embs.len() {
        if is_redundant(embs, t, i, kept) {
            lemma_dedup_step_len(embs, t, i + 1, kept);
        } else {
            lemma_dedup_step_len(embs, t, i + 1, kept.push(i));
        }
    }
}

/// Never more kept chunks than retrieved chunks.
pub proof fn lemma_dedup_at_most_all(embs: Seq<Seq<i64>>, t: int)
    ensures
        dedup_kept(embs, t).len() <= embs.len(),
{
    lemma_dedup_step_len(embs, t, 0, Seq::empty());
}

/// Kept indices point into the embedding list and keep their order.
pub proof fn lemma_dedup_step_bounds(embs: Seq<Seq<i64>>, t: int, i: int, kept: Seq<int>)
    requires
        0 <= i <= embs.len(),
        forall|j: int| 0 <= j < kept.len() ==> 0 <= #[trigger] kept[j] < i,
        forall|j1: int, j2: int| 0 <= j1 < j2 < kept.len() ==> kept[j1] < kept[j2],
    ensures
        forall|j: int|
            0 <= j < dedup_step(embs, t, i, kept).len() ==> 0 <= #[trigger] dedup_step(
                embs,
                t,
                i,
                kept,
            )[j] < embs.len(),
        forall|j1: int, j2: int|
            0 <= j1 < j2 < dedup_step(embs, t, i, kept).len() ==> dedup_step(embs, t, i, kept)[j1]
                < dedup_step(embs, t, i, kept)[j2],
    decreases embs.len() - i,
{
    let r = dedup_step(embs, t, i, kept);
    if i >= embs.len() {
        assert(r == kept);
        assert forall|j: int| 0 <= j < r.len() implies 0 <= #[trigger] r[j] < embs.len() by {
            assert(0 <= kept[j] < i);
        }
    } else {
        if is_redundant(embs, t, i, kept) {
            lemma_dedup_step_bounds(embs, t, i + 1, kept);
            assert(r == dedup_step(embs, t, i + 1, kept));
            assert forall|j: int| 0 <= j < r.len() implies 0 <= #[trigger] r[j] < embs.len() by {
                assert(0 <= dedup_step(embs, t, i + 1, kept)[j] < embs.len());
            }
            assert forall|j1: int, j2: int| 0 <= j1 < j2 < r.len() implies r[j1] < r[j2] by {
                assert(dedup_step(embs, t, i + 1, kept)[j1] < dedup_step(embs, t, i + 1, kept)[j2]);
            }
        } else {
            let pushed = kept.push(i);
            assert forall|j: int| 0 <= j < pushed.len() implies 0 <= #[trigger] pushed[j] < i
                + 1 by {
                if j < kept.len() {
                    assert(pushed[j] == kept[j]);
                } else {
                    assert(pushed[j] == i);
                }
            }
            assert forall|j1: int, j2: int| 0 <= j1 < j2 < pushed.len() implies pushed[j1]
                < pushed[j2] by {
                if j2 < kept.len() {
                } else {
                    assert(pushed[j2] == i);
                    assert(pushed[j1] == kept[j1]);
                }
            }
            lemma_dedup_step_bounds(embs, t, i + 1, pushed);
            assert(r == dedup_step(embs, t, i + 1, pushed));
            assert forall|j: int| 0 <= j < r.len() implies 0 <= #[trigger] r[j] < embs.len() by {
                assert(0 <= dedup_step(embs, t, i + 1, pushed)[j] < embs.len());
            }
            assert forall|j1: int, j2: int| 0 <= j1 < j2 < r.len() implies r[j1] < r[j2] by {
                assert(dedup_step(embs, t, i + 1, pushed)[j1] < dedup_step(
                    embs,
                    t,
                    i + 1,
                    pushed,
                )[j2]);
            }
        }
    }
}

pub proof fn lemma_dedup_bounds(embs: Seq<Seq<i64>>, t: int)
    ensures
        forall|j: int|
            0 <= j < dedup_kept(embs, t).len() ==> 0 <= #[trigger] dedup_kept(embs, t)[j]
                < embs.len(),
        forall|j1: int, j2: int|
            0 <= j1 < j2 < dedup_kept(embs, t).len() ==> dedup_kept(embs, t)[j1] < dedup_kept(
                embs,
                t,
            )[j2],
{
    lemma_dedup_step_bounds(embs, t, 0, Seq::empty());
}

/// Walking only ever extends the already-kept list.
proof fn lemma_dedup_step_prefix(embs: Seq<Seq<i64>>, t: int, i: int, kept: Seq<int>)
    ensures
        kept.is_prefix_of(dedup_step(embs, t, i, kept)),
    decreases embs.len() - i,
{
    if 0 <= i < embs.len() {
        if is_redundant(embs, t, i, kept) {
            lemma_dedup_step_prefix(embs, t, i + 1, kept);
        } else {
            lemma_dedup_step_prefix(embs, t, i + 1, kept.push(i));
            assert(kept.is_prefix_of(kept.push(i)));
        }
    }
}

/// The first chunk is always kept: of any cluster of near duplicates, the
/// earliest (highest-ranked) member survives, and in particular the walk
/// never drops everything.
pub proof fn lemma_first_chunk_kept(embs: Seq<Seq<i64>>, t: int)
    requires
        embs.len() >= 1,
    ensures
        dedup_kept(embs, t).len() >= 1,
        dedup_kept(embs, t)[0] == 0,
{
    assert(!is_redundant(embs, t, 0, Seq::<int>::empty()));
    assert(dedup_kept(embs, t) == dedup_step(embs, t, 1, Seq::<int>::empty().push(0)));
    lemma_dedup_step_prefix(embs, t, 1, Seq::<int>::empty().push(0));
    assert(Seq::<int>::empty().push(0)[0] == 0);
}

/// A vector of positive norm always exceeds any threshold below one against
/// itself.
pub proof fn lemma_self_similarity(e: Seq<i64>, t: int)
    requires
        1 <= t <= 999,
        dot(e, e) > 0,
    ensures
        sim_exceeds(e, e, t),
{
    let n = dot(e, e);
    assert(1_000_000 * n * n > t * t * n * n) by (nonlinear_arith)
        requires
            n >= 1,
            1 <= t <= 999,
    ;
}

proof fn lemma_identical_tail(embs: Seq<Seq<i64>>, t: int, e: Seq<i64>, i: int)
    requires
        1 <= t <= 999,
        1 <= i <= embs.len(),
        forall|k: int| 0 <= k < embs.len() ==> embs[k] == e,
        dot(e, e) > 0,
    ensures
        dedup_step(embs, t, i, seq![0int]) == seq![0int],
    decreases embs.len() - i,
{
    if i < embs.len() {
        lemma_self_similarity(e, t);
        let kept = seq![0int];
        assert(embs[kept[0]] == e);
        assert(sim_exceeds(embs[i], embs[kept[0]], t));
        assert(is_redundant(embs, t, i, kept));
        lemma_identical_tail(embs, t, e, i + 1);
    }
}

/// Any number of chunks with identical embeddings of positive norm
/// collapses to exactly the first one, for every threshold below one.
pub proof fn lemma_identical_embeddings_collapse(embs: Seq<Seq<i64>>, t: int, e: Seq<i64>)
    requires
        1 <= t <= 999,
        embs.len() >= 1,
        forall|k: int| 0 <= k < embs.len() ==> embs[k] == e,
        dot(e, e) > 0,
    ensures
        dedup_kept(embs, t) == seq![0int],
{
    assert(dedup_kept(embs, t) == dedup_step(embs, t, 1, Seq::<int>::empty().push(0)));
    assert(Seq::<int>::empty().push(0) =~= seq![0int]);
    lemma_identical_tail(embs, t, e, 1);
}

/// Whether the cosine similarity of two embeddings strictly exceeds `t`
/// thousandths.
pub fn cosine_above(a: &Embedding, b: &Embedding, t: u32) -> (r: bool)
    requires
        a.wf(),
        b.wf(),
        1 <= t <= 1000,
    ensures
        r == sim_exceeds(a.coords@, b.coords@, t as int),
{
    let av = &a.coords;
    let bv = &b.coords;
    if av.len() != bv.len() {
        return false;
    }
    let n = av.len();
    let mut dp: i128 = 0;
    let mut na: i128 = 0;
    let mut nb: i128 = 0;
    proof {
        assert(av@.skip(0) =~= av@);
        assert(bv@.skip(0) =~= bv@);
    }
    let mut i: usize = 0;
    while i < n
        invariant
            i <= n,
            n == av@.len(),
            n == bv@.len(),
            n <= MAX_DIM,
            a.wf(),
            b.wf(),
            av@ == a.coords@,
            bv@ == b.coords@,
            dp + dot(av@.skip(i as int), bv@.skip(i as int)) == dot(av@, bv@),
            na + dot(av@.skip(i as int), av@.skip(i as int)) == dot(av@, av@),
            nb + dot(bv@.skip(i as int), bv@.skip(i as int)) == dot(bv@, bv@),
            -(i as int) * 0x100_0000_0000 <= dp <= i as int * 0x100_0000_0000,
            0 <= na <= i as int * 0x100_0000_0000,
            0 <= nb <= i as int * 0x100_0000_0000,
        decreases n - i,
    {
        let x = av[i];
        let y = bv[i];
        proof {
            assert(-MAX_COORD <= x <= MAX_COORD);
            assert(-MAX_COORD <= y <= MAX_COORD);
            assert(-0x100_0000_0000 <= x as int * y as int <= 0x100_0000_0000) by (nonlinear_arith)
                requires
                    -0x10_0000 <= x as int <= 0x10_0000,
                    -0x10_0000 <= y as int <= 0x10_0000,
            ;
            assert(0 <= x as int * x as int <= 0x100_0000_0000) by (nonlinear_arith)
                requires
                    -0x10_0000 <= x as int <= 0x10_0000,
            ;
            assert(0 <= y as int * y as int <= 0x100_0000_0000) by (nonlinear_arith)
                requires
                    -0x10_0000 <= y as int <= 0x10_0000,
            ;
            let sa = av@.skip(i as int);
            let sb = bv@.skip(i as int);
            assert(sa[0] == av@[i as int]);
            assert(sb[0] == bv@[i as int]);
            assert(sa.drop_first() =~= av@.skip(i + 1 as int));
            assert(sb.drop_first() =~= bv@.skip(i + 1 as int));
            assert(dot(sa, sb) == sa[0] * sb[0] + dot(av@.skip(i + 1 as int), bv@.skip(i + 1 as int)));
            assert(dot(sa, sa) == sa[0] * sa[0] + dot(av@.skip(i + 1 as int), av@.skip(i + 1 as int)));
            assert(dot(sb, sb) == sb[0] * sb[0] + dot(bv@.skip(i + 1 as int), bv@.skip(i + 1 as int)));
        }
        dp = dp + (x as i128) * (y as i128);
        na = na + (x as i128) * (x as i128);
        nb = nb + (y as i128) * (y as i128);
        i += 1;
    }
    proof {
        assert(av@.skip(n as int).len() == 0);
        assert(dot(av@.skip(n as int), bv@.skip(n as int)) == 0);
        assert(dot(av@.skip(n as int), av@.skip(n as int)) == 0);
        assert(dot(bv@.skip(n as int), bv@.skip(n as int)) == 0);
    }
    if dp <= 0 {
        return false;
    }
    proof {
        assert(-0x10_0000_0000_0000 <= dp <= 0x10_0000_0000_0000);
        assert(0 <= na <= 0x10_0000_0000_0000);
        assert(0 <= nb <= 0x10_0000_0000_0000);
        assert(dp * dp <= 0x100_0000_0000_0000_0000_0000_0000) by (nonlinear_arith)
            requires
                -0x10_0000_0000_0000 <= dp <= 0x10_0000_0000_0000,
        ;
        assert(0 <= dp * dp) by (nonlinear_arith);
        assert(0 <= na * nb <= 0x100_0000_0000_0000_0000_0000_0000) by (nonlinear_arith)
            requires
                0 <= na <= 0x10_0000_0000_0000,
                0 <= nb <= 0x10_0000_0000_0000,
        ;
        assert(0 <= (t as int) * (t as int) <= 1_000_000) by (nonlinear_arith)
            requires
                1 <= t as int <= 1000,
        ;
        assert((t as int) * (t as int) * (na * nb) <= 0x1000_0000_0000_0000_0000_0000_0000_0000) by (nonlinear_arith)
            requires
                0 <= (t as int) * (t as int) <= 1_000_000,
                0 <= na * nb <= 0x100_0000_0000_0000_0000_0000_0000,
        ;
        assert(0 <= (t as int) * (t as int) * (na * nb)) by (nonlinear_arith)
            requires
                0 <= (t as int) * (t as int),
                0 <= na * nb,
        ;
        assert(1_000_000 * (dp * dp) <= 0x1000_0000_0000_0000_0000_0000_0000_0000)
            by (nonlinear_arith)
            requires
                0 <= dp * dp <= 0x100_0000_0000_0000_0000_0000_0000,
        ;
    }
    let lhs: i128 = 1_000_000 * (dp * dp);
    let rhs: i128 = ((t as i128) * (t as i128)) * (na * nb);
    proof {
        assert(1_000_000 * (dp * dp) == 1_000_000 * dp * dp) by (nonlinear_arith);
        assert(((t as int) * (t as int)) * (na * nb) == (t as int) * (t as int) * dot(
            av@,
            av@,
        ) * dot(bv@, bv@)) by (nonlinear_arith)
            requires
                na == dot(av@, av@),
                nb == dot(bv@, bv@),
        ;
    }
    lhs > rhs
}

/// The chunks at the kept indices, in order.
pub open spec fn picked(chunks: Seq<ScoredChunk>, ks: Seq<int>) -> Seq<ScoredChunk> {
    Seq::new(ks.len(), |q: int| chunks[ks[q]])
}

/// The embedding coordinate sequences.
pub open spec fn coord_seqs(es: Seq<Embedding>) -> Seq<Seq<i64>> {
    es.map_values(|e: Embedding| e.coords@)
}

/// Removes chunks whose embedding is a near duplicate of an already kept,
/// earlier (higher-ranked) chunk's embedding. Walks the list in order, so
/// of two near duplicates the earlier one is always the one retained.
pub fn remove_redundant(chunks: &Vec<ScoredChunk>, embeddings: &Vec<Embedding>, threshold: u32) -> (r:
    Vec<ScoredChunk>)
    requires
        embeddings@.len() == chunks@.len(),
        forall|i: int| 0 <= i < embeddings@.len() ==> #[trigger] embeddings@[i].wf(),
        1 <= threshold <= 1000,
    ensures
        r@ == picked(chunks@, dedup_kept(coord_seqs(embeddings@), threshold as int)),
        r@.len() == dedup_kept(coord_seqs(embeddings@), threshold as int).len(),
        r@.len() <= chunks@.len(),
{
    let ghost embs = coord_seqs(embeddings@);
    let ghost t = threshold as int;
    let n = chunks.len();
    let mut kept_idx: Vec<usize> = Vec::new();
    let mut out: Vec<ScoredChunk> = Vec::new();
    proof {
        assert(kept_idx@.map_values(|u: usize| u as int) =~= Seq::<int>::empty());
        lemma_dedup_at_most_all(embs, t);
    }
    let mut i: usize = 0;
    while i < n
        invariant
            i <= n,
            n == chunks@.len(),
            n == embeddings@.len(),
            embs == coord_seqs(embeddings@),
            t == threshold as int,
            1 <= threshold <= 1000,
            forall|q: int| 0 <= q < embeddings@.len() ==> #[trigger] embeddings@[q].wf(),
            forall|q: int| 0 <= q < kept_idx@.len() ==> #[trigger] kept_idx@[q] < i,
            dedup_kept(embs, t) == dedup_step(
                embs,
                t,
                i as int,
                kept_idx@.map_values(|u: usize| u as int),
            ),
            out@ == picked(chunks@, kept_idx@.map_values(|u: usize| u as int)),
            out@.len() == kept_idx@.len(),
        decreases n - i,
    {
        let ghost kmap = kept_idx@.map_values(|u: usize| u as int);
        let mut redundant = false;
        let mut j: usize = 0;
        while j < kept_idx.len()
            invariant_except_break
                j <= kept_idx@.len(),
                redundant == false,
                i < n,
                n == embeddings@.len(),
                embs == coord_seqs(embeddings@),
                t == threshold as int,
                1 <= threshold <= 1000,
                forall|q: int| 0 <= q < embeddings@.len() ==> #[trigger] embeddings@[q].wf(),
                forall|q: int| 0 <= q < kept_idx@.len() ==> #[trigger] kept_idx@[q] < i,
                forall|q: int|
                    0 <= q < j ==> !sim_exceeds(
                        embs[i as int],
                        #[trigger] embs[kept_idx@[q] as int],
                        t,
                    ),
            ensures
                (redundant ==> exists|q: int|
                    0 <= q < kept_idx@.len() && sim_exceeds(
                        embs[i as int],
                        #[trigger] embs[kept_idx@[q] as int],
                        t,
                    )),
                (!redundant ==> forall|q: int|
                    0 <= q < kept_idx@.len() ==> !sim_exceeds(
                        embs[i as int],
                        #[trigger] embs[kept_idx@[q] as int],
                        t,
                    )),
            decreases kept_idx@.len() - j,
        {
            let k = kept_idx[j];
            let above = cosine_above(&embeddings[i], &embeddings[k], threshold);
            proof {
                assert(embs[i as int] == embeddings@[i as int].coords@);
                assert(embs[k as int] == embeddings@[k as int].coords@);
            }
            if above {
                redundant = true;
                break ;
            }
            j += 1;
        }
        proof {
            let red_spec = is_redundant(embs, t, i as int, kmap);
            assert forall|q: int| 0 <= q < kmap.len() implies kmap[q] == kept_idx@[q] as int by {}
            if redundant {
                let q = choose|q: int|
                    0 <= q < kept_idx@.len() && sim_exceeds(
                        embs[i as int],
                        #[trigger] embs[kept_idx@[q] as int],
                        t,
                    );
                assert(kmap[q] == kept_idx@[q] as int);
                assert(sim_exceeds(embs[i as int], embs[kmap[q]], t));
                assert(red_spec);
            } else {
                assert forall|q: int| 0 <= q < kmap.len() implies !sim_exceeds(
                    embs[i as int],
                    #[trigger] embs[kmap[q]],
                    t,
                ) by {
                    assert(kmap[q] == kept_idx@[q] as int);
                }
                assert(!red_spec);
            }
            assert(dedup_step(embs, t, i as int, kmap) == dedup_step(
                embs,
                t,
                i + 1,
                if red_spec {
                    kmap
                } else {
                    kmap.push(i as int)
                },
            ));
        }
        if !redundant {
            kept_idx.push(i);
            let c = &chunks[i];
            out.push(
                ScoredChunk {
                    text: c.text.clone(),
                    section: c.section.clone(),
                    filename: c.filename.clone(),
                    score: c.score,
                },
            );
            proof {
                let kmap2 = kept_idx@.map_values(|u: usize| u as int);
                assert(kmap2 =~= kmap.push(i as int));
                assert(out@ =~= picked(chunks@, kmap2));
            }
        }
        i += 1;
    }
    proof {
        let kmap = kept_idx@.map_values(|u: usize| u as int);
        assert(dedup_kept(embs, t) == dedup_step(embs, t, n as int, kmap));
        assert(dedup_step(embs, t, n as int, kmap) == kmap);
    }
    out
}

} // verus!
