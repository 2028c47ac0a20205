//! Extractive compression: filler-phrase removal followed by stopword
//! removal with negation preservation, plus the token-estimate heuristic and
//! word-level truncation.

use vstd::prelude::*;
use crate::chars::{lower_char, is_space_char, to_lower, str_to_chars, chars_to_string};
use crate::trim::{KeepClass, class_trim, trim_class};
use crate::words::{ws_split, word_count, join_space, split_words, join_words, count_words};
use crate::catalogs::{keep_word, check_keep_word};

verus! {

/// A case-insensitive occurrence of the (lower-case) phrase `p` at position
/// `i` of `s`.
pub open spec fn match_at(s: Seq<char>, p: Seq<char>, i: int) -> bool {
    0 <= i && i + p.len() <= s.len() && forall|j: int|
        0 <= j < p.len() ==> lower_char(s[i + j]) == p[j]
}

/// Position of the first occurrence of `p` in `s`; the length of `s` when
/// there is none.
pub open spec fn first_match(s: Seq<char>, p: Seq<char>) -> nat
    decreases s.len(),
{
    if match_at(s, p, 0) {
        0
    } else if s.len() == 0 {
        0
    } else {
        1 + first_match(s.drop_first(), p)
    }
}

pub proof fn lemma_match_shift(s: Seq<char>, p: Seq<char>, i: int)
    requires
        i >= 0,
        s.len() > 0,
    ensures
        match_at(s.drop_first(), p, i) <==> match_at(s, p, i + 1),
{
    if match_at(s.drop_first(), p, i) {
        assert forall|j: int| 0 <= j < p.len() implies lower_char(s[i + 1 + j]) == p[j] by {
            assert(s.drop_first()[i + j] == s[i + 1 + j]);
        }
    }
    if match_at(s, p, i + 1) {
        assert forall|j: int| 0 <= j < p.len() implies lower_char(s.drop_first()[i + j])
            == p[j] by {
            assert(s.drop_first()[i + j] == s[i + 1 + j]);
        }
    }
}

pub proof fn lemma_first_match_props(s: Seq<char>, p: Seq<char>)
    requires
        p.len() >= 1,
    ensures
        first_match(s, p) <= s.len(),
        forall|i: int| 0 <= i < first_match(s, p) ==> !match_at(s, p, i),
        first_match(s, p) < s.len() ==> match_at(s, p, first_match(s, p) as int),
    decreases s.len(),
{
    if !match_at(s, p, 0) && s.len() > 0 {
        lemma_first_match_props(s.drop_first(), p);
        let fm = first_match(s, p) as int;
        assert(fm == 1 + first_match(s.drop_first(), p));
        assert forall|i: int| 0 <= i < fm implies !match_at(s, p, i) by {
            if i > 0 {
                lemma_match_shift(s, p, i - 1);
            }
        }
        if fm < s.len() {
            lemma_match_shift(s, p, fm - 1);
        }
    }
}

pub proof fn lemma_first_match_is(s: Seq<char>, p: Seq<char>, k: int)
    requires
        p.len() >= 1,
        0 <= k <= s.len(),
        forall|i: int| 0 <= i < k ==> !match_at(s, p, i),
        k == s.len() || match_at(s, p, k),
    ensures
        first_match(s, p) == k,
    decreases s.len(),
{
    if s.len() == 0 {
    } else if match_at(s, p, 0) {
        assert(k == 0);
    } else {
        assert(k > 0);
        assert forall|i: int| 0 <= i < k - 1 implies !match_at(s.drop_first(), p, i) by {
            lemma_match_shift(s, p, i);
        }
        if k < s.len() {
            lemma_match_shift(s, p, k - 1);
        }
        lemma_first_match_is(s.drop_first(), p, k - 1);
    }
}

/// `s` with every occurrence of the phrase `p` removed; occurrences are
/// found left to right and do not overlap.
pub open spec fn remove_phrase(s: Seq<char>, p: Seq<char>) -> Seq<char>
    decreases s.len(),
    via remove_phrase_decreases
{
    if p.len() == 0 {
        s
    } else {
        let m = first_match(s, p) as int;
        if m < s.len() {
            s.take(m) + remove_phrase(s.skip(m + p.len()), p)
        } else {
            s
        }
    }
}

#[via_fn]
proof fn remove_phrase_decreases(s: Seq<char>, p: Seq<char>) {
    if p.len() > 0 {
        lemma_first_match_props(s, p);
    }
}

/// Removing a phrase never lengthens the text.
pub proof fn lemma_remove_phrase_len(s: Seq<char>, p: Seq<char>)
    ensures
        remove_phrase(s, p).len() <= s.len(),
    decreases s.len(),
{
    if p.len() > 0 {
        lemma_first_match_props(s, p);
        let m = first_match(s, p) as int;
        if m < s.len() {
            lemma_remove_phrase_len(s.skip(m + p.len()), p);
        }
    }
}

pub proof fn lemma_remove_phrase_step_nomatch(s: Seq<char>, p: Seq<char>)
    requires
        p.len() >= 1,
        s.len() > 0,
        !match_at(s, p, 0),
    ensures
        remove_phrase(s, p) == seq![s[0]] + remove_phrase(s.drop_first(), p),
{
    lemma_first_match_props(s, p);
    lemma_first_match_props(s.drop_first(), p);
    let fm = first_match(s, p) as int;
    let fmd = first_match(s.drop_first(), p) as int;
    assert(fm == 1 + fmd);
    if fm < s.len() {
        assert(fmd < s.drop_first().len());
        assert(remove_phrase(s, p) == s.take(fm) + remove_phrase(s.skip(fm + p.len()), p));
        assert(remove_phrase(s.drop_first(), p) == s.drop_first().take(fmd) + remove_phrase(
            s.drop_first().skip(fmd + p.len()),
            p,
        ));
        assert(s.take(fm) =~= seq![s[0]] + s.drop_first().take(fmd));
        assert(s.skip(fm + p.len()) =~= s.drop_first().skip(fmd + p.len()));
        assert(remove_phrase(s, p) =~= seq![s[0]] + remove_phrase(s.drop_first(), p));
    } else {
        assert(fmd == s.drop_first().len());
        assert(remove_phrase(s, p) == s);
        assert(remove_phrase(s.drop_first(), p) == s.drop_first());
        assert(s =~= seq![s[0]] + s.drop_first());
    }
}

pub proof fn lemma_remove_phrase_step_match(s: Seq<char>, p: Seq<char>)
    requires
        p.len() >= 1,
        match_at(s, p, 0),
    ensures
        remove_phrase(s, p) == remove_phrase(s.skip(p.len() as int), p),
{
    lemma_first_match_is(s, p, 0);
    if s.len() > 0 {
        assert(remove_phrase(s, p) == s.take(0) + remove_phrase(s.skip(p.len() as int), p));
        assert(s.take(0) + remove_phrase(s.skip(p.len() as int), p) =~= remove_phrase(
            s.skip(p.len() as int),
            p,
        ));
    } else {
        assert(p.len() == 0);
    }
}

/// Whether the phrase occurs at position `i`, comparing case-folded text
/// characters against the (lower-case) phrase.
fn check_match(text: &Vec<char>, p: &Vec<char>, i: usize) -> (r: bool)
    requires
        i <= text@.len(),
    ensures
        r == match_at(text@, p@, i as int),
{
    let n = text.len();
    if p.len() > n - i {
        return false;
    }
    let mut j: usize = 0;
    while j < p.len()
        invariant
            j <= p@.len(),
            n == text@.len(),
            i + p@.len() <= n,
            forall|q: int| 0 <= q < j ==> lower_char(text@[i + q]) == p@[q],
        decreases p@.len() - j,
    {
        if to_lower(text[i + j]) != p[j] {
            return false;
        }
        j += 1;
    }
    true
}

/// Removes every occurrence of one phrase, scanning left to right.
fn remove_phrase_chars(text: &Vec<char>, phrase: &str) -> (r: Vec<char>)
    requires
        phrase@.len() >= 1,
    ensures
        r@ == remove_phrase(text@, phrase@),
{
    let p = str_to_chars(phrase);
    let n = text.len();
    let mut out: Vec<char> = Vec::new();
    proof {
        assert(text@.skip(0) =~= text@);
        assert(out@ + remove_phrase(text@, p@) =~= remove_phrase(text@, p@));
    }
    let mut i: usize = 0;
    while i < n
        invariant
            i <= n,
            n == text@.len(),
            p@ == phrase@,
            p@.len() >= 1,
            remove_phrase(text@, p@) == out@ + remove_phrase(text@.skip(i as int), p@),
        decreases n - i,
    {
        let matched = check_match(text, &p, i);
        let ghost t = text@.skip(i as int);
        proof {
            assert forall|j: int| 0 <= j < p@.len() && i + p@.len() <= n implies t[j] == text@[i
                + j] by {}
            if matched {
                assert forall|j: int| 0 <= j < p@.len() implies lower_char(t[j]) == p@[j] by {
                    assert(t[j] == text@[i + j]);
                }
                assert(match_at(t, p@, 0));
            } else {
                if match_at(t, p@, 0) {
                    assert forall|j: int| 0 <= j < p@.len() implies lower_char(text@[i + j])
                        == p@[j] by {
                        assert(t[j] == text@[i + j]);
                    }
                    assert(match_at(text@, p@, i as int));
                }
            }
        }
        if matched {
            proof {
                lemma_remove_phrase_step_match(t, p@);
                assert(t.skip(p@.len() as int) =~= text@.skip(i + p@.len()));
            }
            i += p.len();
        } else {
            out.push(text[i]);
            proof {
                lemma_remove_phrase_step_nomatch(t, p@);
                assert(t[0] == text@[i as int]);
                assert(t.drop_first() =~= text@.skip(i + 1));
                assert(out@ + remove_phrase(text@.skip(i + 1), p@) =~= remove_phrase(
                    text@,
                    p@,
                ));
            }
            i += 1;
        }
    }
    proof {
        let t = text@.skip(n as int);
        assert(t =~= Seq::<char>::empty());
        assert(remove_phrase(t, p@) == t);
        assert(out@ + remove_phrase(t, p@) =~= out@);
    }
    out
}

/// Runs of two or more spaces collapsed to a single space.
pub open spec fn collapse_spaces(s: Seq<char>) -> Seq<char>
    decreases s.len(),
{
    if s.len() == 0 {
        Seq::empty()
    } else if s.len() >= 2 && s[0] == ' ' && s[1] == ' ' {
        collapse_spaces(s.drop_first())
    } else {
        seq![s[0]] + collapse_spaces(s.drop_first())
    }
}

pub proof fn lemma_collapse_len(s: Seq<char>)
    ensures
        collapse_spaces(s).len() <= s.len(),
    decreases s.len(),
{
    if s.len() > 0 {
        lemma_collapse_len(s.drop_first());
    }
}

/// Collapses runs of spaces to a single space.
fn collapse_spaces_chars(text: &Vec<char>) -> (r: Vec<char>)
    ensures
        r@ == collapse_spaces(text@),
{
    let n = text.len();
    let mut out: Vec<char> = Vec::new();
    proof {
        assert(text@.skip(0) =~= text@);
        assert(out@ + collapse_spaces(text@) =~= collapse_spaces(text@));
    }
    let mut i: usize = 0;
    while i < n
        invariant
            i <= n,
            n == text@.len(),
            collapse_spaces(text@) == out@ + collapse_spaces(text@.skip(i as int)),
        decreases n - i,
    {
        let ghost t = text@.skip(i as int);
        proof {
            assert(t[0] == text@[i as int]);
            if i + 1 < n {
                assert(t[1] == text@[i + 1]);
            }
            assert(t.drop_first() =~= text@.skip(i + 1));
        }
        if text[i] == ' ' && i + 1 < n && text[i + 1] == ' ' {
        } else {
            out.push(text[i]);
            proof {
                assert(out@ + collapse_spaces(text@.skip(i + 1)) =~= collapse_spaces(text@));
            }
        }
        i += 1;
    }
    proof {
        assert(text@.skip(n as int) =~= Seq::<char>::empty());
        assert(out@ + collapse_spaces(text@.skip(n as int)) =~= out@);
    }
    out
}

/// The filler-phrase pass: each catalog phrase is removed wherever it occurs
/// (case-insensitively), in catalog order; leftover space runs are collapsed
/// and the ends trimmed.
pub open spec fn strip_fillers(s: Seq<char>) -> Seq<char> {
    let r = remove_phrase(s, "it is important to note that"@);
    let r = remove_phrase(r, "it should be noted that"@);
    let r = remove_phrase(r, "it is worth mentioning that"@);
    let r = remove_phrase(r, "as a matter of fact"@);
    let r = remove_phrase(r, "in order to"@);
    let r = remove_phrase(r, "due to the fact that"@);
    let r = remove_phrase(r, "for the purpose of"@);
    let r = remove_phrase(r, "in the event that"@);
    let r = remove_phrase(r, "at the end of the day"@);
    let r = remove_phrase(r, "as previously mentioned"@);
    let r = remove_phrase(r, "it goes without saying"@);
    let r = remove_phrase(r, "needless to say"@);
    let r = remove_phrase(r, "in terms of"@);
    let r = remove_phrase(r, "with regard to"@);
    let r = remove_phrase(r, "with respect to"@);
    let r = remove_phrase(r, "on the other hand"@);
    let r = remove_phrase(r, "in addition to"@);
    let r = remove_phrase(r, "as well as"@);
    let r = remove_phrase(r, "in light of"@);
    let r = remove_phrase(r, "as a result of"@);
    class_trim(collapse_spaces(r), KeepClass::NonSpace)
}

/// Removes the catalog filler phrases from a character vector.
pub fn strip_fillers_chars(text: &Vec<char>) -> (r: Vec<char>)
    ensures
        r@ == strip_fillers(text@),
{
    proof {
        reveal_strlit("it is important to note that");
        reveal_strlit("it should be noted that");
        reveal_strlit("it is worth mentioning that");
        reveal_strlit("as a matter of fact");
        reveal_strlit("in order to");
        reveal_strlit("due to the fact that");
        reveal_strlit("for the purpose of");
        reveal_strlit("in the event that");
        reveal_strlit("at the end of the day");
        reveal_strlit("as previously mentioned");
        reveal_strlit("it goes without saying");
        reveal_strlit("needless to say");
        reveal_strlit("in terms of");
        reveal_strlit("with regard to");
        reveal_strlit("with respect to");
        reveal_strlit("on the other hand");
        reveal_strlit("in addition to");
        reveal_strlit("as well as");
        reveal_strlit("in light of");
        reveal_strlit("as a result of");
    }
    let r = remove_phrase_chars(text, "it is important to note that");
    let r = remove_phrase_chars(&r, "it should be noted that");
    let r = remove_phrase_chars(&r, "it is worth mentioning that");
    let r = remove_phrase_chars(&r, "as a matter of fact");
    let r = remove_phrase_chars(&r, "in order to");
    let r = remove_phrase_chars(&r, "due to the fact that");
    let r = remove_phrase_chars(&r, "for the purpose of");
    let r = remove_phrase_chars(&r, "in the event that");
    let r = remove_phrase_chars(&r, "at the end of the day");
    let r = remove_phrase_chars(&r, "as previously mentioned");
    let r = remove_phrase_chars(&r, "it goes without saying");
    let r = remove_phrase_chars(&r, "needless to say");
    let r = remove_phrase_chars(&r, "in terms of");
    let r = remove_phrase_chars(&r, "with regard to");
    let r = remove_phrase_chars(&r, "with respect to");
    let r = remove_phrase_chars(&r, "on the other hand");
    let r = remove_phrase_chars(&r, "in addition to");
    let r = remove_phrase_chars(&r, "as well as");
    let r = remove_phrase_chars(&r, "in light of");
    let r = remove_phrase_chars(&r, "as a result of");
    let collapsed = collapse_spaces_chars(&r);
    trim_class(&collapsed, KeepClass::NonSpace)
}

/// The words kept by the stopword pass, joined by single spaces: negation
/// tokens and tokens outside the stopword catalog survive verbatim.
pub open spec fn kept_words(s: Seq<char>) -> Seq<Seq<char>> {
    ws_split(s).filter(keep_pred())
}

/// The keep-predicate of the stopword pass, as a single function value.
pub open spec fn keep_pred() -> spec_fn(Seq<char>) -> bool {
    |w: Seq<char>| keep_word(w)
}

pub open spec fn spec_remove_stopwords(s: Seq<char>) -> Seq<char> {
    join_space(kept_words(s))
}

/// Keeps exactly the words that the stopword pass keeps.
fn filter_kept(words: &Vec<Vec<char>>) -> (r: Vec<Vec<char>>)
    ensures
        r.deep_view() == words.deep_view().filter(keep_pred()),
{
    let mut out: Vec<Vec<char>> = Vec::new();
    proof {
        reveal(Seq::filter);
        assert(words.deep_view().take(0) =~= Seq::<Seq<char>>::empty());
        assert(out.deep_view() =~= Seq::<Seq<char>>::empty().filter(keep_pred()));
    }
    let mut i: usize = 0;
    while i < words.len()
        invariant
            i <= words@.len(),
            words@.len() == words.deep_view().len(),
            out.deep_view() == words.deep_view().take(i as int).filter(keep_pred()),
        decreases words@.len() - i,
    {
        let ghost dv = words.deep_view();
        let ghost pre = out.deep_view();
        let keep = check_keep_word(&words[i]);
        proof {
            assert(dv[i as int] == words@[i as int].deep_view());
            assert(words@[i as int].deep_view() =~= words@[i as int]@);
            dv.take(i as int).lemma_filter_push(dv[i as int], keep_pred());
            assert(dv.take(i as int).push(dv[i as int]) =~= dv.take(i + 1 as int));
        }
        if keep {
            out.push(words[i].clone());
            proof {
                assert(out.deep_view() =~= pre.push(dv[i as int]));
            }
        }
        i += 1;
    }
    proof {
        assert(words.deep_view().take(words@.len() as int) =~= words.deep_view());
    }
    out
}

/// Stopword removal over a character vector.
pub fn remove_stopwords_chars(text: &Vec<char>) -> (r: Vec<char>)
    ensures
        r@ == spec_remove_stopwords(text@),
{
    let words = split_words(text);
    let kept = filter_kept(&words);
    join_words(&kept)
}

/// Removes catalog stopwords from the text while preserving every negation
/// token; surviving tokens are kept verbatim and rejoined with single
/// spaces.
pub fn remove_stopwords(text: &str) -> (r: String)
    ensures
        r@ == spec_remove_stopwords(text@),
{
    let chars = str_to_chars(text);
    let out = remove_stopwords_chars(&chars);
    chars_to_string(&out)
}

/// Removes the catalog filler phrases from the text, case-insensitively,
/// collapsing leftover runs of spaces and trimming the ends.
pub fn remove_filler_phrases(text: &str) -> (r: String)
    ensures
        r@ == strip_fillers(text@),
{
    let chars = str_to_chars(text);
    let out = strip_fillers_chars(&chars);
    chars_to_string(&out)
}

/// Full extractive compression: filler phrases first, then stopwords.
pub open spec fn spec_compress(s: Seq<char>) -> Seq<char> {
    spec_remove_stopwords(strip_fillers(s))
}

pub fn compress_chars(text: &Vec<char>) -> (r: Vec<char>)
    ensures
        r@ == spec_compress(text@),
{
    let stripped = strip_fillers_chars(text);
    remove_stopwords_chars(&stripped)
}

/// Compresses text by removing filler phrases and then stopwords.
pub fn compress_text(text: &str) -> (r: String)
    ensures
        r@ == spec_compress(text@),
{
    let chars = str_to_chars(text);
    let out = compress_chars(&chars);
    chars_to_string(&out)
}

/// The filler pass never lengthens the text.
pub proof fn lemma_strip_fillers_len(s: Seq<char>)
    ensures
        strip_fillers(s).len() <= s.len(),
{
    let r1 = remove_phrase(s, "it is important to note that"@);
    let r2 = remove_phrase(r1, "it should be noted that"@);
    let r3 = remove_phrase(r2, "it is worth mentioning that"@);
    let r4 = remove_phrase(r3, "as a matter of fact"@);
    let r5 = remove_phrase(r4, "in order to"@);
    let r6 = remove_phrase(r5, "due to the fact that"@);
    let r7 = remove_phrase(r6, "for the purpose of"@);
    let r8 = remove_phrase(r7, "in the event that"@);
    let r9 = remove_phrase(r8, "at the end of the day"@);
    let r10 = remove_phrase(r9, "as previously mentioned"@);
    let r11 = remove_phrase(r10, "it goes without saying"@);
    let r12 = remove_phrase(r11, "needless to say"@);
    let r13 = remove_phrase(r12, "in terms of"@);
    let r14 = remove_phrase(r13, "with regard to"@);
    let r15 = remove_phrase(r14, "with respect to"@);
    let r16 = remove_phrase(r15, "on the other hand"@);
    let r17 = remove_phrase(r16, "in addition to"@);
    let r18 = remove_phrase(r17, "as well as"@);
    let r19 = remove_phrase(r18, "in light of"@);
    let r20 = remove_phrase(r19, "as a result of"@);
    lemma_remove_phrase_len(s, "it is important to note that"@);
    lemma_remove_phrase_len(r1, "it should be noted that"@);
    lemma_remove_phrase_len(r2, "it is worth mentioning that"@);
    lemma_remove_phrase_len(r3, "as a matter of fact"@);
    lemma_remove_phrase_len(r4, "in order to"@);
    lemma_remove_phrase_len(r5, "due to the fact that"@);
    lemma_remove_phrase_len(r6, "for the purpose of"@);
    lemma_remove_phrase_len(r7, "in the event that"@);
    lemma_remove_phrase_len(r8, "at the end of the day"@);
    lemma_remove_phrase_len(r9, "as previously mentioned"@);
    lemma_remove_phrase_len(r10, "it goes without saying"@);
    lemma_remove_phrase_len(r11, "needless to say"@);
    lemma_remove_phrase_len(r12, "in terms of"@);
    lemma_remove_phrase_len(r13, "with regard to"@);
    lemma_remove_phrase_len(r14, "with respect to"@);
    lemma_remove_phrase_len(r15, "on the other hand"@);
    lemma_remove_phrase_len(r16, "in addition to"@);
    lemma_remove_phrase_len(r17, "as well as"@);
    lemma_remove_phrase_len(r18, "in light of"@);
    lemma_remove_phrase_len(r19, "as a result of"@);
    lemma_collapse_len(r20);
    crate::trim::lemma_class_trim_len(collapse_spaces(r20), KeepClass::NonSpace);
}

/// The stopword pass never lengthens the text.
pub proof fn lemma_remove_stopwords_len(s: Seq<char>)
    ensures
        spec_remove_stopwords(s).len() <= s.len(),
{
    crate::words::lemma_join_filter_le(ws_split(s), keep_pred());
    crate::words::lemma_split_then_join_le(s);
}

/// Compression never lengthens the text.
pub proof fn lemma_compress_len(s: Seq<char>)
    ensures
        spec_compress(s).len() <= s.len(),
{
    lemma_strip_fillers_len(s);
    lemma_remove_stopwords_len(strip_fillers(s));
}

/// Every element of a filtered word list is an element of the original.
proof fn lemma_filter_elems(ws: Seq<Seq<char>>, pred: spec_fn(Seq<char>) -> bool)
    ensures
        forall|i: int|
            0 <= i < ws.filter(pred).len() ==> ws.contains(#[trigger] ws.filter(pred)[i]),
    decreases ws.len(),
{
    reveal(Seq::filter);
    if ws.len() > 0 {
        let front = ws.drop_last();
        lemma_filter_elems(front, pred);
        let f = ws.filter(pred);
        let sub = front.filter(pred);
        assert forall|i: int| 0 <= i < f.len() implies ws.contains(#[trigger] f[i]) by {
            if pred(ws.last()) && i == f.len() - 1 {
                assert(f[i] == ws.last());
                assert(ws[ws.len() - 1] == ws.last());
            } else {
                assert(f[i] == sub[i]);
                assert(front.contains(sub[i]));
                let j = choose|j: int| 0 <= j < front.len() && front[j] == sub[i];
                assert(ws[j] == sub[i]);
            }
        }
    }
}

/// The stopword pass keeps exactly the words whose normalized form is a
/// negation or no stopword, verbatim and in order: splitting its output
/// gives the filtered word list of its input back.
pub proof fn lemma_stopword_pass_words(s: Seq<char>)
    ensures
        ws_split(spec_remove_stopwords(s)) == kept_words(s),
        kept_words(s) == ws_split(s).filter(keep_pred()),
{
    crate::words::lemma_ws_split_words(s);
    let kept = kept_words(s);
    lemma_filter_elems(ws_split(s), keep_pred());
    assert forall|i: int| 0 <= i < kept.len() implies #[trigger] crate::words::good_word(
        kept[i],
    ) by {
        assert(ws_split(s).contains(kept[i]));
        let j = choose|j: int| 0 <= j < ws_split(s).len() && ws_split(s)[j] == kept[i];
        assert(crate::words::good_word(ws_split(s)[j]));
    }
    crate::words::lemma_split_join(kept);
}

/// Compression preserves every negation token and every non-stopword token
/// of the filler-stripped text verbatim, in order, and drops exactly the
/// catalog stopwords: the words of the compressed text are the kept words
/// of the text after the filler pass.
pub proof fn lemma_compression_preserves_kept_words(s: Seq<char>)
    ensures
        ws_split(spec_compress(s)) == ws_split(strip_fillers(s)).filter(keep_pred()),
{
    lemma_stopword_pass_words(strip_fillers(s));
}

/// The heuristic token estimate: thirteen tenths of the word count, rounded
/// up.
pub open spec fn spec_estimate_tokens(s: Seq<char>) -> nat {
    ((13 * word_count(s) + 9) / 10) as nat
}

/// Token estimate of a character vector, for internal callers that can bound
/// the text size.
pub fn token_estimate_chars(text: &Vec<char>) -> (t: u64)
    requires
        text@.len() <= 0x2000_0000_0000,
    ensures
        t == spec_estimate_tokens(text@),
{
    let wc = count_words(text);
    proof {
        crate::words::lemma_word_count_le_len(text@);
    }
    let wc64: u64 = wc as u64;
    (13 * wc64 + 9) / 10
}

/// Estimates the token count of a text as 1.3 tokens per whitespace-separated
/// word, rounded up.
pub fn estimate_tokens(text: &str) -> (t: usize)
    requires
        text@.len() <= 0x1000_0000,
    ensures
        t == spec_estimate_tokens(text@),
{
    let chars = str_to_chars(text);
    let wc = count_words(&chars);
    proof {
        crate::words::lemma_word_count_le_len(text@);
    }
    (13 * wc + 9) / 10
}

/// The compression statistic in permille, rounded toward zero: a thousand
/// times the saved share of tokens; zero when there were no tokens; negative
/// when compression grew the estimate, which is not an error.
pub open spec fn spec_permille(orig: int, dist: int) -> int {
    if orig <= 0 {
        0
    } else if dist <= orig {
        1000 * (orig - dist) / orig
    } else {
        -(1000 * (dist - orig) / orig)
    }
}

/// The compression achieved between a text and its compressed form, in
/// permille of estimated tokens saved.
pub fn compression_permille(original: &str, compressed: &str) -> (r: i64)
    requires
        original@.len() <= 0x1000_0000,
        compressed@.len() <= 0x1000_0000,
    ensures
        r == spec_permille(
            spec_estimate_tokens(original@) as int,
            spec_estimate_tokens(compressed@) as int,
        ),
{
    let o = estimate_tokens(original) as u64;
    let d = estimate_tokens(compressed) as u64;
    proof {
        crate::words::lemma_word_count_le_len(original@);
        crate::words::lemma_word_count_le_len(compressed@);
    }
    if o == 0 {
        0
    } else if d <= o {
        ((1000 * (o - d)) / o) as i64
    } else {
        proof {
            vstd::arithmetic::div_mod::lemma_div_is_ordered(
                1000 * (d - o) as int,
                1000 * d as int,
                o as int,
            );
            assert(1000 * d as int / (o as int) <= 1000 * d as int) by (nonlinear_arith)
                requires
                    o as int >= 1,
                    d as int >= 0,
            ;
        }
        -(((1000 * (d - o)) / o) as i64)
    }
}

/// Truncation to a token budget: the first `floor(max_tokens / 1.3)` words,
/// rejoined with single spaces.
pub open spec fn spec_truncate(s: Seq<char>, max_tokens: int) -> Seq<char> {
    let max_words = 10 * max_tokens / 13;
    let ws = ws_split(s);
    if max_words < ws.len() {
        join_space(ws.take(max_words))
    } else {
        join_space(ws)
    }
}

/// Truncates text to at most `floor(max_tokens / 1.3)` words.
pub fn truncate_to_tokens(text: &str, max_tokens: usize) -> (r: String)
    ensures
        r@ == spec_truncate(text@, max_tokens as int),
        word_count(r@) <= 10 * (max_tokens as int) / 13,
{
    let chars = str_to_chars(text);
    let out = truncate_chars(&chars, max_tokens as u64);
    chars_to_string(&out)
}

/// Truncation over a character vector.
pub fn truncate_chars(text: &Vec<char>, max_tokens: u64) -> (r: Vec<char>)
    ensures
        r@ == spec_truncate(text@, max_tokens as int),
        word_count(r@) <= 10 * (max_tokens as int) / 13,
        r@.len() <= text@.len(),
{
    let mut words = split_words(text);
    let max_words128: u128 = 10u128 * (max_tokens as u128) / 13;
    let ghost all = ws_split(text@);
    proof {
        assert(max_words128 == 10 * (max_tokens as int) / 13);
    }
    if max_words128 < words.len() as u128 {
        let max_words: usize = max_words128 as usize;
        proof {
            assert(max_words as int == 10 * (max_tokens as int) / 13);
        }
        words.truncate(max_words);
        proof {
            assert(words.deep_view() =~= all.take(max_words as int));
        }
    } else {
        proof {
            assert(words.deep_view() == all);
        }
    }
    let joined = join_words(&words);
    proof {
        crate::words::lemma_ws_split_words(text@);
        let kept = words.deep_view();
        assert forall|i: int| 0 <= i < kept.len() implies #[trigger] crate::words::good_word(
            kept[i],
        ) by {
            assert(kept[i] == all[i]);
        }
        crate::words::lemma_split_join(kept);
        assert(word_count(joined@) == kept.len());
        if max_words128 < all.len() {
            crate::words::lemma_join_take_le(all, max_words128 as int);
        } else {
            assert(all.take(all.len() as int) =~= all);
        }
        crate::words::lemma_split_then_join_le(text@);
    }
    joined
}

} // verus!
