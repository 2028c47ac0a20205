//! Hybrid relevance scoring.
//!
//! Scores are fixed-point values scaled by one million: a similarity of one
//! corresponds to 1_000_000. The keyword side follows a per-chunk
//! term-frequency formula with a caller-supplied boost per query term (the
//! boost stands for the pseudo-inverse-document-frequency factor, which is
//! not computed here); the blend weighs the vector similarity seven tenths
//! and the keyword score three tenths.

use vstd::prelude::*;
use crate::chars::{lower_seq, lower_chars, str_to_chars, chars_to_string};
use crate::trim::{KeepClass, class_trim, trim_class};
use crate::words::{ws_split, word_count, split_words};

verus! {

/// One point on the score scale: the fixed-point image of 1.0.
pub const SCORE_SCALE: u64 = 1_000_000;

/// A query word, normalized: case folded, then trimmed to its
/// word-character core.
pub open spec fn term_of(w: Seq<char>) -> Seq<char> {
    class_trim(lower_seq(w), KeepClass::Term)
}

/// The term normalization, as a single function value.
pub open spec fn term_map() -> spec_fn(Seq<char>) -> Seq<char> {
    |w: Seq<char>| term_of(w)
}

/// Keeps only terms longer than two characters.
pub open spec fn long_pred() -> spec_fn(Seq<char>) -> bool {
    |w: Seq<char>| w.len() > 2
}

/// The query terms: every whitespace-separated word of the query,
/// normalized, keeping those longer than two characters (duplicates stay).
pub open spec fn spec_extract_terms(q: Seq<char>) -> Seq<Seq<char>> {
    ws_split(q).map_values(term_map()).filter(long_pred())
}

/// Extracts normalized keyword terms from a query.
pub fn extract_terms(query: &str) -> (r: Vec<String>)
    ensures
        r.deep_view() == spec_extract_terms(query@),
{
    let chars = str_to_chars(query);
    let words = split_words(&chars);
    let mut out: Vec<String> = Vec::new();
    proof {
        reveal(Seq::filter);
        let dv = words.deep_view();
        assert(dv.take(0) =~= Seq::<Seq<char>>::empty());
        assert(dv.take(0).map_values(term_map()) =~= Seq::<Seq<char>>::empty());
        assert(out.deep_view() =~= Seq::<Seq<char>>::empty().filter(long_pred()));
    }
    let mut i: usize = 0;
    while i < words.len()
        invariant
            i <= words@.len(),
            words@.len() == words.deep_view().len(),
            out.deep_view() == words.deep_view().take(i as int).map_values(term_map()).filter(
                long_pred(),
            ),
        decreases words@.len() - i,
    {
        let ghost dv = words.deep_view();
        let ghost pre = out.deep_view();
        let lowered = lower_chars(&words[i]);
        let norm = trim_class(&lowered, KeepClass::Term);
        proof {
            assert(dv[i as int] == words@[i as int].deep_view());
            assert(words@[i as int].deep_view() =~= words@[i as int]@);
            assert(norm@ == term_of(dv[i as int]));
            let mapped = dv.take(i as int).map_values(term_map());
            assert(dv.take(i + 1 as int) =~= dv.take(i as int).push(dv[i as int]));
            assert(dv.take(i + 1 as int).map_values(term_map()) =~= mapped.push(
                term_of(dv[i as int]),
            ));
            mapped.lemma_filter_push(term_of(dv[i as int]), long_pred());
        }
        if norm.len() > 2 {
            let s = chars_to_string(&norm);
            out.push(s);
            proof {
                assert(out.deep_view() =~= pre.push(norm@));
            }
        }
        i += 1;
    }
    proof {
        let dv = words.deep_view();
        assert(dv.take(dv.len() as int) =~= dv);
    }
    out
}

/// Whether a (already lower-case) text word counts as an occurrence of the
/// term: its word-character core equals the term exactly.
pub open spec fn match_pred(term: Seq<char>) -> spec_fn(Seq<char>) -> bool {
    |w: Seq<char>| class_trim(w, KeepClass::Term) == term
}

/// Occurrences of `term` among the case-folded, whitespace-split words of
/// the text.
pub open spec fn spec_term_count(s: Seq<char>, term: Seq<char>) -> nat {
    ws_split(lower_seq(s)).filter(match_pred(term)).len()
}

/// Words of the case-folded text.
pub open spec fn spec_text_words(s: Seq<char>) -> nat {
    word_count(lower_seq(s))
}

/// Counts, for every query term, its exact occurrences among the chunk's
/// case-folded, punctuation-trimmed words, together with the total word
/// count.
pub fn term_counts(text: &str, terms: &Vec<String>) -> (r: (Vec<u64>, u64))
    requires
        text@.len() <= 0xffff_ffff,
    ensures
        r.0@.len() == terms@.len(),
        forall|k: int| 0 <= k < terms@.len() ==> r.0@[k] == spec_term_count(text@, terms@[k]@),
        r.1 == spec_text_words(text@),
        forall|k: int| 0 <= k < terms@.len() ==> r.0@[k] <= r.1,
        r.1 <= 0xffff_ffff,
{
    let chars = str_to_chars(text);
    let lowered = lower_chars(&chars);
    let words = split_words(&lowered);
    proof {
        crate::words::lemma_word_count_le_len(lowered@);
    }
    let total: u64 = words.len() as u64;
    let mut counts: Vec<u64> = Vec::new();
    let mut k: usize = 0;
    while k < terms.len()
        invariant
            k <= terms@.len(),
            words.deep_view() == ws_split(lower_seq(text@)),
            words@.len() == words.deep_view().len(),
            total == spec_text_words(text@),
            counts@.len() == k,
            forall|q: int| 0 <= q < k ==> counts@[q] == spec_term_count(text@, terms@[q]@),
            forall|q: int| 0 <= q < k ==> counts@[q] <= total,
        decreases terms@.len() - k,
    {
        let term = str_to_chars(terms[k].as_str());
        let ghost tv = term@;
        let ghost dv = words.deep_view();
        let mut cnt: usize = 0;
        proof {
            reveal(Seq::filter);
            assert(dv.take(0) =~= Seq::<Seq<char>>::empty());
            assert(Seq::<Seq<char>>::empty().filter(match_pred(tv)).len() == 0);
        }
        let mut i: usize = 0;
        while i < words.len()
            invariant
                i <= words@.len(),
                words@.len() == dv.len(),
                dv == words.deep_view(),
                tv == term@,
                cnt <= i,
                cnt == dv.take(i as int).filter(match_pred(tv)).len(),
            decreases words@.len() - i,
        {
            let trimmed = trim_class(&words[i], KeepClass::Term);
            let matched = crate::chars::chars_eq_chars(&trimmed, &term);
            proof {
                assert(dv[i as int] == words@[i as int].deep_view());
                assert(words@[i as int].deep_view() =~= words@[i as int]@);
                assert(trimmed@ == class_trim(dv[i as int], KeepClass::Term));
                dv.take(i as int).lemma_filter_push(dv[i as int], match_pred(tv));
                assert(dv.take(i + 1 as int) =~= dv.take(i as int).push(dv[i as int]));
            }
            if matched {
                cnt += 1;
            }
            i += 1;
        }
        proof {
            assert(dv.take(dv.len() as int) =~= dv);
            dv.lemma_filter_len(match_pred(tv));
        }
        counts.push(cnt as u64);
        k += 1;
    }
    (counts, total)
}

/// The weighted sum of per-term occurrence counts and boosts.
pub open spec fn weighted(counts: Seq<u64>, boosts: Seq<u64>) -> int
    decreases counts.len(),
{
    if counts.len() == 0 || boosts.len() == 0 {
        0
    } else {
        counts[0] * boosts[0] + weighted(counts.drop_first(), boosts.drop_first())
    }
}

/// The keyword relevance score on the fixed-point scale: zero for an empty
/// term list or an empty text; otherwise the boost-weighted occurrence
/// counts, divided by the word count once per term (the term-frequency
/// normalization and the average over terms), capped at one.
pub open spec fn spec_keyword_score(counts: Seq<u64>, total_words: u64, boosts: Seq<u64>) -> int {
    if counts.len() == 0 || total_words == 0 {
        0
    } else {
        let avg = weighted(counts, boosts) / (total_words * counts.len() as u64) as int;
        if avg > SCORE_SCALE as int {
            SCORE_SCALE as int
        } else {
            avg
        }
    }
}

/// Computes the keyword relevance score. The score is zero exactly when
/// there are no query terms or no text words, and never exceeds the scale.
pub fn keyword_score(counts: &Vec<u64>, total_words: u64, boosts: &Vec<u64>) -> (r: u64)
    requires
        counts@.len() == boosts@.len(),
        counts@.len() <= 0xffff_ffff,
        total_words <= 0xffff_ffff,
        forall|i: int| 0 <= i < counts@.len() ==> counts@[i] <= total_words,
        forall|i: int| 0 <= i < boosts@.len() ==> boosts@[i] <= 0x1_0000_0000,
    ensures
        r == spec_keyword_score(counts@, total_words, boosts@),
        r <= SCORE_SCALE,
        counts@.len() == 0 || total_words == 0 ==> r == 0,
{
    if counts.len() == 0 || total_words == 0 {
        return 0;
    }
    let n = counts.len();
    let mut sum: u128 = 0;
    proof {
        assert(counts@.skip(0) =~= counts@);
        assert(boosts@.skip(0) =~= boosts@);
    }
    let mut i: usize = 0;
    while i < n
        invariant
            i <= n,
            n == counts@.len(),
            n == boosts@.len(),
            n <= 0xffff_ffff,
            total_words <= 0xffff_ffff,
            forall|q: int| 0 <= q < counts@.len() ==> counts@[q] <= total_words,
            forall|q: int| 0 <= q < boosts@.len() ==> boosts@[q] <= 0x1_0000_0000,
            sum as int + weighted(counts@.skip(i as int), boosts@.skip(i as int)) == weighted(
                counts@,
                boosts@,
            ),
            sum as int <= i as int * 0x1_0000_0000_0000_0000,
        decreases n - i,
    {
        let c = counts[i];
        let b = boosts[i];
        proof {
            assert(c as int * b as int <= 0x1_0000_0000_0000_0000) by (nonlinear_arith)
                requires
                    0 <= c as int <= 0x1_0000_0000,
                    0 <= b as int <= 0x1_0000_0000,
            ;
        }
        let term: u128 = (c as u128) * (b as u128);
        proof {
            assert(term <= 0x1_0000_0000_0000_0000);
            let cs = counts@.skip(i as int);
            let bs = boosts@.skip(i as int);
            assert(cs[0] == counts@[i as int]);
            assert(bs[0] == boosts@[i as int]);
            assert(cs.drop_first() =~= counts@.skip(i + 1 as int));
            assert(bs.drop_first() =~= boosts@.skip(i + 1 as int));
            assert(weighted(cs, bs) == cs[0] * bs[0] + weighted(
                counts@.skip(i + 1 as int),
                boosts@.skip(i + 1 as int),
            ));
        }
        sum = sum + term;
        i += 1;
    }
    proof {
        assert(counts@.skip(n as int).len() == 0);
        assert(weighted(counts@.skip(n as int), boosts@.skip(n as int)) == 0);
        assert(sum as int == weighted(counts@, boosts@));
    }
    proof {
        assert(total_words as int * n as int <= 0xffff_ffff * 0xffff_ffff) by (nonlinear_arith)
            requires
                0 <= total_words as int <= 0xffff_ffff,
                0 <= n as int <= 0xffff_ffff,
        ;
    }
    let den: u128 = (total_words as u128) * (n as u128);
    proof {
        assert(den > 0) by (nonlinear_arith)
            requires
                den == total_words as int * n as int,
                total_words as int >= 1,
                n as int >= 1,
        ;
        assert(den == (total_words * n as u64) as int) by (nonlinear_arith)
            requires
                den == total_words as int * n as int,
                0 <= total_words as int <= 0xffff_ffff,
                0 <= n as int <= 0xffff_ffff,
        ;
    }
    let avg: u128 = sum / den;
    if avg > 1_000_000 {
        1_000_000
    } else {
        avg as u64
    }
}

/// The blended relevance: seven tenths vector similarity, three tenths
/// keyword score, both on the fixed-point scale. The result is scaled by
/// ten million so that no precision is lost.
pub open spec fn spec_blend(similarity: int, keyword: int) -> int {
    7 * similarity + 3 * keyword
}

/// Blends the vector-similarity score with the keyword score.
pub fn blend_score(similarity: i64, keyword: u64) -> (r: i64)
    requires
        -1_000_000 <= similarity <= 1_000_000,
        keyword <= 1_000_000,
    ensures
        r == spec_blend(similarity as int, keyword as int),
        -7_000_000 <= r <= 10_000_000,
{
    7 * similarity + 3 * (keyword as i64)
}

} // verus!
