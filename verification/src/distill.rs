//! The distillation pipeline past ranking: redundancy removal, extractive
//! compression, greedy budget-aware packing, and the result statistics.

use vstd::prelude::*;
use vstd::arithmetic::div_mod::lemma_div_is_ordered;
use crate::chars::{str_to_chars, chars_to_string, append_chars};
use crate::rank::ScoredChunk;
use crate::dedup::{Embedding, coord_seqs, picked, dedup_kept, remove_redundant,
    lemma_dedup_at_most_all, lemma_dedup_bounds};
use crate::compress::{spec_compress, compress_chars, spec_estimate_tokens, token_estimate_chars,
    spec_truncate, truncate_chars, lemma_compress_len, spec_permille};
use crate::words::word_count;
use vstd::string::StringExecFns;

verus! {

/// Token budget used when the caller gives none.
pub const DEFAULT_CONTEXT_BUDGET: u64 = 3000;

/// Cosine threshold (in thousandths) above which a chunk counts as a near
/// duplicate.
pub const DEDUP_THRESHOLD: u32 = 850;

/// How many candidates the vector search is asked for.
pub const TOP_K: u64 = 20;

/// Longest chunk text or section name the pipeline accepts, in characters.
pub const MAX_TEXT_LEN: usize = 0x1000_0000;

/// Most chunks one distillation run accepts.
pub const MAX_CHUNKS: usize = 4096;

/// Caller-injected knobs of one distillation run.
pub struct DistillConfig {
    /// Soft ceiling on the packed context, in estimated tokens.
    pub budget: u64,
    /// Near-duplicate cosine threshold, in thousandths.
    pub dedup_threshold: u32,
}

impl DistillConfig {
    /// The threshold must describe a cosine value in (0, 1].
    pub open spec fn wf(&self) -> bool {
        1 <= self.dedup_threshold <= 1000
    }

    /// The default configuration, with the budget overridden when given.
    pub fn with_budget(budget: Option<u64>) -> (c: DistillConfig)
        ensures
            c.budget == match budget {
                Some(b) => b,
                None => DEFAULT_CONTEXT_BUDGET,
            },
            c.dedup_threshold == DEDUP_THRESHOLD,
            c.wf(),
    {
        DistillConfig {
            budget: match budget {
                Some(b) => b,
                None => DEFAULT_CONTEXT_BUDGET,
            },
            dedup_threshold: DEDUP_THRESHOLD,
        }
    }
}

impl Default for DistillConfig {
    /// The default budget and threshold.
    fn default() -> (c: DistillConfig)
        ensures
            c.budget == DEFAULT_CONTEXT_BUDGET,
            c.dedup_threshold == DEDUP_THRESHOLD,
            c.wf(),
    {
        DistillConfig { budget: DEFAULT_CONTEXT_BUDGET, dedup_threshold: DEDUP_THRESHOLD }
    }
}

/// What one distillation run produces: the packed context and the statistics
/// describing the compression performed.
pub struct DistillResult {
    pub context: String,
    pub original_tokens: u64,
    pub distilled_tokens: u64,
    /// `1000·(1 − distilled/original)` rounded toward zero; zero when no
    /// tokens were gathered. Negative when compression grew the estimate,
    /// which is not an error.
    pub compression_permille: i64,
    pub chunks_retrieved: u64,
    pub chunks_after_dedup: u64,
}

/// The all-zero result of a run whose retrieval came back empty.
pub fn empty_result() -> (r: DistillResult)
    ensures
        r.context@ == Seq::<char>::empty(),
        r.original_tokens == 0,
        r.distilled_tokens == 0,
        r.compression_permille == 0,
        r.chunks_retrieved == 0,
        r.chunks_after_dedup == 0,
{
    DistillResult {
        context: String::new(),
        original_tokens: 0,
        distilled_tokens: 0,
        compression_permille: 0,
        chunks_retrieved: 0,
        chunks_after_dedup: 0,
    }
}

/// One retrieval candidate as the gateway hands it over: a fixed-point
/// similarity (scaled by one million) and the payload fields, each absent
/// when the stored payload lacked or garbled it.
pub struct Candidate {
    pub similarity: i64,
    pub text: Option<String>,
    pub section: Option<String>,
    pub filename: Option<String>,
}

/// A missing text defaults to empty.
pub open spec fn candidate_text_spec(c: &Candidate) -> Seq<char> {
    match c.text {
        Some(t) => t@,
        None => Seq::empty(),
    }
}

/// A missing section defaults to "(unknown)".
pub open spec fn candidate_section_spec(c: &Candidate) -> Seq<char> {
    match c.section {
        Some(s) => s@,
        None => "(unknown)"@,
    }
}

/// A missing filename defaults to empty.
pub open spec fn candidate_filename_spec(c: &Candidate) -> Seq<char> {
    match c.filename {
        Some(f) => f@,
        None => Seq::empty(),
    }
}

/// The candidate's text with the default applied.
pub fn candidate_text(c: &Candidate) -> (r: String)
    ensures
        r@ == candidate_text_spec(c),
{
    match &c.text {
        Some(t) => t.clone(),
        None => String::new(),
    }
}

/// Builds the scored chunk of a candidate: the payload fields with their
/// defaults and the blended score.
pub fn scored_chunk_of(c: &Candidate, score: i64) -> (r: ScoredChunk)
    ensures
        r.text@ == candidate_text_spec(c),
        r.section@ == candidate_section_spec(c),
        r.filename@ == candidate_filename_spec(c),
        r.score == score,
{
    let text = match &c.text {
        Some(t) => t.clone(),
        None => String::new(),
    };
    let section = match &c.section {
        Some(s) => s.clone(),
        None => String::from_str("(unknown)"),
    };
    let filename = match &c.filename {
        Some(f) => f.clone(),
        None => String::new(),
    };
    ScoredChunk { text, section, filename, score }
}

/// A packed entry: the section name in brackets, a space, the chunk body.
pub open spec fn entry_of(section: Seq<char>, body: Seq<char>) -> Seq<char> {
    seq!['['] + section + seq![']', ' '] + body
}

fn make_entry(section: &str, body: &Vec<char>) -> (r: Vec<char>)
    ensures
        r@ == entry_of(section@, body@),
        r@.len() == section@.len() + body@.len() + 3,
{
    let mut out: Vec<char> = Vec::new();
    out.push('[');
    let sec = str_to_chars(section);
    append_chars(&mut out, &sec);
    out.push(']');
    out.push(' ');
    append_chars(&mut out, body);
    proof {
        assert(out@ =~= entry_of(section@, body@));
    }
    out
}

/// Entries joined with a blank line between them.
pub open spec fn join_blank(es: Seq<Seq<char>>) -> Seq<char>
    decreases es.len(),
{
    if es.len() == 0 {
        Seq::empty()
    } else if es.len() == 1 {
        es[0]
    } else {
        es[0] + seq!['\n', '\n'] + join_blank(es.drop_first())
    }
}

proof fn lemma_join_blank_push(es: Seq<Seq<char>>, e: Seq<char>)
    ensures
        es.len() == 0 ==> join_blank(es.push(e)) == e,
        es.len() > 0 ==> join_blank(es.push(e)) == join_blank(es) + seq!['\n', '\n'] + e,
    decreases es.len(),
{
    let pushed = es.push(e);
    if es.len() == 0 {
        assert(pushed.len() == 1);
        assert(join_blank(pushed) == pushed[0]);
    } else if es.len() == 1 {
        assert(pushed.drop_first() =~= seq![e]);
        assert(join_blank(pushed) == pushed[0] + seq!['\n', '\n'] + join_blank(pushed.drop_first()));
    } else {
        lemma_join_blank_push(es.drop_first(), e);
        assert(pushed.drop_first() =~= es.drop_first().push(e));
        assert(pushed[0] == es[0]);
    }
}

proof fn lemma_join_blank_len(es: Seq<Seq<char>>, bound: int)
    requires
        forall|i: int| 0 <= i < es.len() ==> #[trigger] es[i].len() <= bound,
        bound >= 0,
    ensures
        join_blank(es).len() <= es.len() * (bound + 2),
    decreases es.len(),
{
    let n = es.len() as int;
    if es.len() == 0 {
    } else if es.len() == 1 {
        assert(n * (bound + 2) == bound + 2) by (nonlinear_arith)
            requires
                n == 1,
        ;
    } else {
        assert forall|i: int|
            0 <= i < es.drop_first().len() implies #[trigger] es.drop_first()[i].len()
            <= bound by {
            assert(es.drop_first()[i] == es[i + 1]);
        }
        lemma_join_blank_len(es.drop_first(), bound);
        assert((n - 1) * (bound + 2) + (bound + 2) == n * (bound + 2)) by (nonlinear_arith);
    }
}

fn join_entries(es: &Vec<Vec<char>>) -> (r: Vec<char>)
    ensures
        r@ == join_blank(es.deep_view()),
{
    let mut out: Vec<char> = Vec::new();
    proof {
        assert(es.deep_view().take(0) =~= Seq::<Seq<char>>::empty());
    }
    let mut i: usize = 0;
    while i < es.len()
        invariant
            i <= es@.len(),
            es@.len() == es.deep_view().len(),
            out@ == join_blank(es.deep_view().take(i as int)),
        decreases es@.len() - i,
    {
        if i > 0 {
            out.push('\n');
            out.push('\n');
        }
        let ghost mid = out@;
        append_chars(&mut out, &es[i]);
        proof {
            let dv = es.deep_view();
            assert(dv.take(i as int).push(dv[i as int]) =~= dv.take(i + 1 as int));
            assert(dv[i as int] =~= es@[i as int]@);
            lemma_join_blank_push(dv.take(i as int), dv[i as int]);
            if i > 0 {
                assert(out@ =~= join_blank(dv.take(i as int)) + seq!['\n', '\n'] + dv[i as int]);
            } else {
                assert(dv.take(0).len() == 0);
                assert(out@ =~= dv[0]);
            }
        }
        i += 1;
    }
    proof {
        assert(es.deep_view().take(es@.len() as int) =~= es.deep_view());
    }
    out
}

/// The greedy packer, walking the deduplicated chunks in ranked order with
/// `acc` estimated tokens already spent: a chunk whose compressed form fits
/// the budget is appended whole; the first that does not fit is truncated to
/// the remaining budget when more than fifty tokens remain, or dropped, and
/// packing halts either way. The second component accumulates the
/// pre-compression token estimates of every attempted chunk.
pub open spec fn pack_rec(chunks: Seq<ScoredChunk>, budget: int, acc: int) -> (Seq<Seq<char>>, int)
    decreases chunks.len(),
{
    if chunks.len() == 0 {
        (Seq::empty(), 0)
    } else {
        let c = chunks[0];
        let orig = spec_estimate_tokens(c.text@) as int;
        let comp = spec_compress(c.text@);
        let ct = spec_estimate_tokens(comp) as int;
        if acc + ct <= budget {
            let rest = pack_rec(chunks.drop_first(), budget, acc + ct);
            (seq![entry_of(c.section@, comp)] + rest.0, orig + rest.1)
        } else {
            let remaining = budget - acc;
            if remaining > 50 {
                (seq![entry_of(c.section@, spec_truncate(comp, remaining))], orig)
            } else {
                (Seq::empty(), orig)
            }
        }
    }
}

/// The packed entries of a whole run.
pub open spec fn spec_pack_entries(chunks: Seq<ScoredChunk>, budget: int) -> Seq<Seq<char>> {
    pack_rec(chunks, budget, 0).0
}

/// The pre-compression token total of the attempted chunks.
pub open spec fn spec_pack_original(chunks: Seq<ScoredChunk>, budget: int) -> int {
    pack_rec(chunks, budget, 0).1
}

/// The distilled context of a run: the packed entries joined by blank lines.
pub open spec fn spec_context(chunks: Seq<ScoredChunk>, budget: int) -> Seq<char> {
    join_blank(spec_pack_entries(chunks, budget))
}

/// The chunks kept by deduplication, in ranked order.
pub open spec fn spec_kept_chunks(
    chunks: Seq<ScoredChunk>,
    embeddings: Seq<Embedding>,
    threshold: int,
) -> Seq<ScoredChunk> {
    picked(chunks, dedup_kept(coord_seqs(embeddings), threshold))
}

proof fn lemma_estimate_bound(s: Seq<char>, bound: int)
    requires
        0 <= bound,
        s.len() <= bound,
    ensures
        spec_estimate_tokens(s) <= (13 * bound + 9) / 10,
{
    crate::words::lemma_word_count_le_len(s);
    lemma_div_is_ordered(13 * word_count(s) as int + 9, 13 * bound + 9, 10);
}

/// Packs the deduplicated chunks greedily into the budget; returns the
/// entries and the pre-compression token total of the attempted chunks.
#[verifier::rlimit(60)]
fn pack_chunks(chunks: &Vec<ScoredChunk>, budget: u64) -> (r: (Vec<Vec<char>>, u64))
    requires
        chunks@.len() <= MAX_CHUNKS,
        forall|i: int| 0 <= i < chunks@.len() ==> #[trigger] chunks@[i].text@.len() <= MAX_TEXT_LEN,
        forall|i: int|
            0 <= i < chunks@.len() ==> #[trigger] chunks@[i].section@.len() <= MAX_TEXT_LEN,
    ensures
        r.0.deep_view() == spec_pack_entries(chunks@, budget as int),
        r.1 == spec_pack_original(chunks@, budget as int),
        r.0@.len() <= chunks@.len(),
        forall|q: int|
            0 <= q < r.0.deep_view().len() ==> #[trigger] r.0.deep_view()[q].len() <= 0x2000_0003,
        r.1 <= chunks@.len() * 0x2000_0000,
{
    let ghost all = chunks@;
    let ghost budget_g = budget as int;
    let ghost full = pack_rec(all, budget_g, 0);
    let n = chunks.len();
    let mut entries: Vec<Vec<char>> = Vec::new();
    let mut acc: u64 = 0;
    let mut orig_total: u64 = 0;
    proof {
        assert(all.skip(0) =~= all);
        assert(entries.deep_view() =~= Seq::<Seq<char>>::empty());
        assert(Seq::<Seq<char>>::empty() + full.0 =~= full.0);
    }
    let mut i: usize = 0;
    while i < n
        invariant_except_break
            i <= n,
            n == all.len(),
            all == chunks@,
            n <= MAX_CHUNKS,
            budget_g == budget as int,
            forall|q: int| 0 <= q < all.len() ==> #[trigger] all[q].text@.len() <= MAX_TEXT_LEN,
            forall|q: int| 0 <= q < all.len() ==> #[trigger] all[q].section@.len() <= MAX_TEXT_LEN,
            full == pack_rec(all, budget_g, 0),
            acc <= budget,
            full.0 == entries.deep_view() + pack_rec(all.skip(i as int), budget_g, acc as int).0,
            full.1 == orig_total + pack_rec(all.skip(i as int), budget_g, acc as int).1,
            orig_total <= i as int * 0x2000_0000,
            entries@.len() <= i,
            forall|q: int|
                0 <= q < entries.deep_view().len() ==> #[trigger] entries.deep_view()[q].len()
                    <= 0x2000_0003,
        ensures
            full.0 =~= entries.deep_view(),
            full.1 == orig_total,
            orig_total <= n as int * 0x2000_0000,
            entries@.len() <= n,
            forall|q: int|
                0 <= q < entries.deep_view().len() ==> #[trigger] entries.deep_view()[q].len()
                    <= 0x2000_0003,
        decreases n - i,
    {
        let ghost suffix = all.skip(i as int);
        let ghost pre_entries = entries.deep_view();
        let chunk = &chunks[i];
        let tchars = str_to_chars(chunk.text.as_str());
        proof {
            assert(suffix[0] == all[i as int]);
            lemma_estimate_bound(tchars@, MAX_TEXT_LEN as int);
        }
        let orig = token_estimate_chars(&tchars);
        orig_total = orig_total + orig;
        let comp = compress_chars(&tchars);
        proof {
            lemma_compress_len(tchars@);
            lemma_estimate_bound(comp@, MAX_TEXT_LEN as int);
        }
        let ct = token_estimate_chars(&comp);
        let ghost packed_here = pack_rec(suffix, budget_g, acc as int);
        if ct <= budget - acc {
            let ghost expected = entry_of(all[i as int].section@, spec_compress(all[i as int].text@));
            let entry = make_entry(chunk.section.as_str(), &comp);
            proof {
                assert(entry@ == expected);
            }
            let ghost pre_vec = entries@;
            entries.push(entry);
            acc = acc + ct;
            proof {
                assert(suffix.drop_first() =~= all.skip(i + 1 as int));
                let rest = pack_rec(all.skip(i + 1 as int), budget_g, acc as int);
                assert(packed_here.0 == seq![expected] + rest.0);
                assert(packed_here.1 == orig + rest.1);
                let dv = entries.deep_view();
                assert forall|q: int| 0 <= q < dv.len() implies dv[q] == pre_entries.push(
                    expected,
                )[q] by {
                    if q < pre_entries.len() {
                        assert(entries@[q] == pre_vec[q]);
                    } else {
                        assert(entries@[q] == entry);
                    }
                }
                assert(dv =~= pre_entries.push(expected));
                assert(pre_entries.push(expected) + rest.0 =~= pre_entries + (seq![expected]
                    + rest.0));
            }
            i += 1;
        } else {
            let remaining = budget - acc;
            proof {
                assert(packed_here.1 == spec_estimate_tokens(all[i as int].text@));
            }
            if remaining > 50 {
                let truncated = truncate_chars(&comp, remaining);
                let ghost expected = entry_of(
                    all[i as int].section@,
                    spec_truncate(spec_compress(all[i as int].text@), remaining as int),
                );
                let entry = make_entry(chunk.section.as_str(), &truncated);
                proof {
                    assert(entry@ == expected);
                }
                let ghost pre_vec = entries@;
                entries.push(entry);
                proof {
                    assert(packed_here.0 == seq![expected]);
                    let dv = entries.deep_view();
                    assert forall|q: int| 0 <= q < dv.len() implies dv[q] == pre_entries.push(
                        expected,
                    )[q] by {
                        if q < pre_entries.len() {
                            assert(entries@[q] == pre_vec[q]);
                        } else {
                            assert(entries@[q] == entry);
                        }
                    }
                    assert(dv =~= pre_entries.push(expected));
                    assert(pre_entries.push(expected) =~= pre_entries + seq![expected]);
                }
            } else {
                proof {
                    assert(packed_here.0 =~= Seq::<Seq<char>>::empty());
                    assert(pre_entries + packed_here.0 =~= pre_entries);
                }
            }
            break ;
        }
    }
    proof {
        assert(full.0 == entries.deep_view());
    }
    (entries, orig_total)
}

/// Distills a ranked candidate list: drops near-duplicate chunks, compresses
/// the survivors, packs them greedily into the token budget, and reports the
/// compression statistics. `embeddings[i]` must be the embedding of
/// `ranked[i]`'s text.
pub fn distill_ranked(ranked: &Vec<ScoredChunk>, embeddings: &Vec<Embedding>, config: &DistillConfig) -> (r:
    DistillResult)
    requires
        embeddings@.len() == ranked@.len(),
        ranked@.len() <= MAX_CHUNKS,
        forall|i: int| 0 <= i < embeddings@.len() ==> #[trigger] embeddings@[i].wf(),
        forall|i: int| 0 <= i < ranked@.len() ==> #[trigger] ranked@[i].text@.len() <= MAX_TEXT_LEN,
        forall|i: int|
            0 <= i < ranked@.len() ==> #[trigger] ranked@[i].section@.len() <= MAX_TEXT_LEN,
        config.wf(),
    ensures
        r.chunks_retrieved == ranked@.len(),
        r.chunks_after_dedup == dedup_kept(
            coord_seqs(embeddings@),
            config.dedup_threshold as int,
        ).len(),
        r.chunks_after_dedup <= r.chunks_retrieved,
        r.context@ == spec_context(
            spec_kept_chunks(ranked@, embeddings@, config.dedup_threshold as int),
            config.budget as int,
        ),
        r.original_tokens == spec_pack_original(
            spec_kept_chunks(ranked@, embeddings@, config.dedup_threshold as int),
            config.budget as int,
        ),
        r.distilled_tokens == spec_estimate_tokens(r.context@),
        r.compression_permille == spec_permille(
            r.original_tokens as int,
            r.distilled_tokens as int,
        ),
{
    let ghost t = config.dedup_threshold as int;
    let ghost budget_g = config.budget as int;
    proof {
        lemma_dedup_at_most_all(coord_seqs(embeddings@), t);
        lemma_dedup_bounds(coord_seqs(embeddings@), t);
        assert(coord_seqs(embeddings@).len() == embeddings@.len());
    }
    let deduped = remove_redundant(ranked, embeddings, config.dedup_threshold);
    let ghost all = deduped@;
    proof {
        assert(all == spec_kept_chunks(ranked@, embeddings@, t));
        assert forall|q: int| 0 <= q < all.len() implies #[trigger] all[q].text@.len()
            <= MAX_TEXT_LEN && all[q].section@.len() <= MAX_TEXT_LEN by {
            let ks = dedup_kept(coord_seqs(embeddings@), t);
            assert(all[q] == ranked@[ks[q]]);
        }
    }
    let packed = pack_chunks(&deduped, config.budget);
    let entries = packed.0;
    let orig_total = packed.1;
    proof {
        lemma_join_blank_len(entries.deep_view(), 0x2000_0003);
        assert(entries.deep_view().len() * 0x2000_0005 <= 4096 * 0x2000_0005) by (nonlinear_arith)
            requires
                0 <= entries.deep_view().len() <= 4096,
        ;
        assert(all.len() * 0x2000_0000 <= 4096 * 0x2000_0000) by (nonlinear_arith)
            requires
                0 <= all.len() <= 4096,
        ;
    }
    let joined = join_entries(&entries);
    let distilled = token_estimate_chars(&joined);
    let permille: i64 = if orig_total == 0 {
        0
    } else if distilled <= orig_total {
        ((1000 * (orig_total - distilled)) / orig_total) as i64
    } else {
        proof {
            lemma_estimate_bound(joined@, 0x2_0000_5000_0000);
            lemma_div_is_ordered(
                1000 * (distilled - orig_total) as int,
                1000 * distilled as int,
                orig_total as int,
            );
            assert(1000 * (distilled - orig_total) / (orig_total as int) <= 1000 * distilled as int
                / (orig_total as int));
            assert(1000 * distilled as int / (orig_total as int) <= 1000 * distilled as int)
                by (nonlinear_arith)
                requires
                    orig_total as int >= 1,
                    distilled as int >= 0,
            ;
        }
        -(((1000 * (distilled - orig_total)) / orig_total) as i64)
    };
    let context = chars_to_string(&joined);
    DistillResult {
        context,
        original_tokens: orig_total,
        distilled_tokens: distilled,
        compression_permille: permille,
        chunks_retrieved: ranked.len() as u64,
        chunks_after_dedup: deduped.len() as u64,
    }
}

} // verus!
