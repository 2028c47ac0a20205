//! Splitting text into whitespace-separated words, joining words back with
//! single spaces, and the round trip between the two.

use vstd::prelude::*;
use crate::chars::{is_space_char, is_space, copy_range};

verus! {

/// First index of `s` whose character satisfies `p`; the length of `s` when
/// none does.
pub open spec fn first_sat(s: Seq<char>, p: spec_fn(char) -> bool) -> nat
    decreases s.len(),
{
    if s.len() == 0 {
        0
    } else if p(s[0]) {
        0
    } else {
        1 + first_sat(s.drop_first(), p)
    }
}

/// First whitespace position in `s` (or the length of `s`).
pub open spec fn first_space(s: Seq<char>) -> nat {
    first_sat(s, |c: char| is_space_char(c))
}

pub proof fn lemma_first_space(s: Seq<char>)
    ensures
        first_space(s) <= s.len(),
        forall|j: int| 0 <= j < first_space(s) ==> !is_space_char(s[j]),
        first_space(s) < s.len() ==> is_space_char(s[first_space(s) as int]),
    decreases s.len(),
{
    if s.len() > 0 && !is_space_char(s[0]) {
        lemma_first_space(s.drop_first());
        assert(first_space(s) == 1 + first_space(s.drop_first()));
        assert forall|j: int| 0 <= j < first_space(s) implies !is_space_char(s[j]) by {
            if j > 0 {
                assert(s.drop_first()[j - 1] == s[j]);
            }
        }
        if first_space(s) < s.len() {
            assert(s.drop_first()[first_space(s) - 1] == s[first_space(s) as int]);
        }
    }
}

pub proof fn lemma_first_space_is(s: Seq<char>, k: int)
    requires
        0 <= k <= s.len(),
        forall|j: int| 0 <= j < k ==> !is_space_char(s[j]),
        k == s.len() || is_space_char(s[k]),
    ensures
        first_space(s) == k,
    decreases s.len(),
{
    if s.len() == 0 {
    } else if is_space_char(s[0]) {
        assert(k == 0);
    } else {
        assert(k > 0);
        assert forall|j: int| 0 <= j < k - 1 implies !is_space_char(s.drop_first()[j]) by {
            assert(s.drop_first()[j] == s[j + 1]);
        }
        if k < s.len() {
            assert(s.drop_first()[k - 1] == s[k]);
        }
        lemma_first_space_is(s.drop_first(), k - 1);
        assert(first_space(s) == 1 + first_space(s.drop_first()));
    }
}

/// A word as produced by whitespace splitting: nonempty and free of
/// whitespace characters.
pub open spec fn good_word(w: Seq<char>) -> bool {
    w.len() > 0 && forall|j: int| 0 <= j < w.len() ==> !is_space_char(w[j])
}

/// The maximal whitespace-free runs of `s`, in order: the result of splitting
/// `s` on runs of whitespace.
pub open spec fn ws_split(s: Seq<char>) -> Seq<Seq<char>>
    decreases s.len(),
    via ws_split_decreases
{
    if s.len() == 0 {
        Seq::empty()
    } else if is_space_char(s[0]) {
        ws_split(s.drop_first())
    } else {
        let k = first_space(s) as int;
        seq![s.take(k)] + ws_split(s.skip(k))
    }
}

#[via_fn]
proof fn ws_split_decreases(s: Seq<char>) {
    if s.len() > 0 && !is_space_char(s[0]) {
        lemma_first_space(s);
    }
}

/// Number of words of `s`.
pub open spec fn word_count(s: Seq<char>) -> nat {
    ws_split(s).len()
}

/// Every piece produced by `ws_split` is a nonempty whitespace-free word.
pub proof fn lemma_ws_split_words(s: Seq<char>)
    ensures
        forall|i: int| 0 <= i < ws_split(s).len() ==> #[trigger] good_word(ws_split(s)[i]),
    decreases s.len(),
{
    if s.len() == 0 {
        assert(ws_split(s).len() == 0);
    } else if is_space_char(s[0]) {
        lemma_ws_split_words(s.drop_first());
        assert(ws_split(s) == ws_split(s.drop_first()));
        assert forall|i: int| 0 <= i < ws_split(s).len() implies #[trigger] good_word(
            ws_split(s)[i],
        ) by {
            assert(good_word(ws_split(s.drop_first())[i]));
        }
    } else {
        lemma_first_space(s);
        let k = first_space(s) as int;
        assert(k >= 1);
        lemma_ws_split_words(s.skip(k));
        assert(good_word(s.take(k)));
        assert forall|i: int| 0 <= i < ws_split(s).len() implies #[trigger] good_word(
            ws_split(s)[i],
        ) by {
            if i > 0 {
                assert(ws_split(s)[i] == ws_split(s.skip(k))[i - 1]);
            }
        }
    }
}

/// There are never more words than characters.
pub proof fn lemma_word_count_le_len(s: Seq<char>)
    ensures
        word_count(s) <= s.len(),
    decreases s.len(),
{
    if s.len() == 0 {
    } else if is_space_char(s[0]) {
        lemma_word_count_le_len(s.drop_first());
    } else {
        lemma_first_space(s);
        let k = first_space(s) as int;
        lemma_word_count_le_len(s.skip(k));
    }
}

/// Words joined with single spaces between them.
pub open spec fn join_space(ws: Seq<Seq<char>>) -> Seq<char>
    decreases ws.len(),
{
    if ws.len() == 0 {
        Seq::empty()
    } else if ws.len() == 1 {
        ws[0]
    } else {
        ws[0] + seq![' '] + join_space(ws.drop_first())
    }
}

/// Appending one more word to a join adds a single space and the word.
pub proof fn lemma_join_push(ws: Seq<Seq<char>>, w: Seq<char>)
    ensures
        ws.len() == 0 ==> join_space(ws.push(w)) == w,
        ws.len() > 0 ==> join_space(ws.push(w)) == join_space(ws) + seq![' '] + w,
    decreases ws.len(),
{
    let pushed = ws.push(w);
    if ws.len() == 0 {
        assert(pushed.len() == 1);
        assert(join_space(pushed) == pushed[0]);
    } else if ws.len() == 1 {
        assert(pushed.drop_first() =~= seq![w]);
        assert(join_space(pushed) == pushed[0] + seq![' '] + join_space(pushed.drop_first()));
    } else {
        lemma_join_push(ws.drop_first(), w);
        assert(pushed.drop_first() =~= ws.drop_first().push(w));
        assert(pushed[0] == ws[0]);
    }
}

/// Splitting and rejoining with single spaces never lengthens text.
pub proof fn lemma_split_then_join_le(s: Seq<char>)
    ensures
        join_space(ws_split(s)).len() <= s.len(),
        s.len() > 0 && is_space_char(s[0]) && ws_split(s).len() > 0 ==> join_space(
            ws_split(s),
        ).len() <= s.len() - 1,
    decreases s.len(),
{
    if s.len() == 0 {
    } else if is_space_char(s[0]) {
        lemma_split_then_join_le(s.drop_first());
        assert(ws_split(s) == ws_split(s.drop_first()));
    } else {
        lemma_first_space(s);
        let k = first_space(s) as int;
        let rest = ws_split(s.skip(k));
        lemma_split_then_join_le(s.skip(k));
        let full = ws_split(s);
        assert(full == seq![s.take(k)] + rest);
        if rest.len() == 0 {
            assert(full.len() == 1);
            assert(join_space(full) == full[0]);
            assert(full[0] == s.take(k));
        } else {
            assert(full.len() >= 2);
            assert(join_space(full) == full[0] + seq![' '] + join_space(full.drop_first()));
            assert(full[0] == s.take(k));
            assert(full.drop_first() =~= rest);
            assert(k < s.len());
            assert(is_space_char(s.skip(k)[0]));
            assert(join_space(rest).len() <= s.len() - k - 1);
        }
    }
}

/// Joining a prefix of the word list is never longer than joining all of it.
pub proof fn lemma_join_take_le(ws: Seq<Seq<char>>, k: int)
    requires
        0 <= k <= ws.len(),
    ensures
        join_space(ws.take(k)).len() <= join_space(ws).len(),
    decreases ws.len(),
{
    if k == 0 {
        assert(ws.take(0).len() == 0);
    } else if k == ws.len() {
        assert(ws.take(k) =~= ws);
    } else {
        let t = ws.take(k);
        assert(ws.len() >= 2);
        assert(join_space(ws) == ws[0] + seq![' '] + join_space(ws.drop_first()));
        if k == 1 {
            assert(t.len() == 1);
            assert(join_space(t) == t[0]);
            assert(t[0] == ws[0]);
        } else {
            assert(join_space(t) == t[0] + seq![' '] + join_space(t.drop_first()));
            assert(t[0] == ws[0]);
            assert(t.drop_first() =~= ws.drop_first().take(k - 1));
            lemma_join_take_le(ws.drop_first(), k - 1);
        }
    }
}

/// Joining a filtered word list is never longer than joining the full list.
pub proof fn lemma_join_filter_le(ws: Seq<Seq<char>>, pred: spec_fn(Seq<char>) -> bool)
    ensures
        join_space(ws.filter(pred)).len() <= join_space(ws).len(),
    decreases ws.len(),
{
    reveal(Seq::filter);
    if ws.len() > 0 {
        let front = ws.drop_last();
        let x = ws.last();
        lemma_join_filter_le(front, pred);
        assert(ws =~= front.push(x));
        lemma_join_push(front, x);
        front.lemma_filter_push(x, pred);
        if pred(x) {
            lemma_join_push(front.filter(pred), x);
            if front.filter(pred).len() == 0 {
                assert(join_space(ws.filter(pred)) == x);
            }
            if front.len() == 0 {
                assert(front.filter(pred).len() == 0);
                assert(join_space(ws) == x);
            }
        } else {
            assert(ws.filter(pred) == front.filter(pred));
            if front.len() == 0 {
                assert(front.filter(pred) =~= Seq::<Seq<char>>::empty());
                assert(join_space(ws.filter(pred)).len() == 0);
            }
        }
    }
}

/// Splitting a join of proper words gives the words back.
pub proof fn lemma_split_join(ws: Seq<Seq<char>>)
    requires
        forall|i: int| 0 <= i < ws.len() ==> #[trigger] good_word(ws[i]),
    ensures
        ws_split(join_space(ws)) == ws,
    decreases ws.len(),
{
    if ws.len() == 0 {
        assert(ws_split(join_space(ws)) =~= ws);
    } else if ws.len() == 1 {
        let w = ws[0];
        assert(good_word(w));
        lemma_first_space_is(w, w.len() as int);
        assert(first_space(w) == w.len());
        assert(w.take(w.len() as int) =~= w);
        assert(w.skip(w.len() as int) =~= Seq::<char>::empty());
        assert(ws_split(w) == seq![w.take(w.len() as int)] + ws_split(w.skip(w.len() as int)));
        assert(ws_split(join_space(ws)) =~= ws);
    } else {
        let w = ws[0];
        let rest = ws.drop_first();
        let s = join_space(ws);
        assert(s == w + seq![' '] + join_space(rest));
        assert(good_word(w));
        let k = w.len() as int;
        assert forall|j: int| 0 <= j < k implies !is_space_char(s[j]) by {
            assert(s[j] == (w + seq![' '])[j]);
            assert(s[j] == w[j]);
            assert(!is_space_char(w[j]));
        }
        assert(s[k] == ' ');
        lemma_first_space_is(s, k);
        assert(first_space(s) == k);
        assert(s[0] == w[0]);
        assert(!is_space_char(s[0]));
        let tail = s.skip(k);
        assert(ws_split(s) == seq![s.take(k)] + ws_split(tail));
        assert(s.take(k) =~= w);
        assert(tail[0] == ' ');
        assert(is_space_char(' '));
        assert(ws_split(tail) == ws_split(tail.drop_first()));
        assert(tail.drop_first() =~= join_space(rest));
        assert forall|i: int| 0 <= i < rest.len() implies #[trigger] good_word(rest[i]) by {
            assert(rest[i] == ws[i + 1]);
        }
        lemma_split_join(rest);
        assert(seq![w] + rest =~= ws);
        assert(ws_split(s) == seq![s.take(k)] + rest);
        assert(seq![s.take(k)] + rest =~= seq![w] + rest);
    }
}

/// Splits a character vector into its whitespace-separated words.
pub fn split_words(v: &Vec<char>) -> (r: Vec<Vec<char>>)
    ensures
        r.deep_view() == ws_split(v@),
{
    let n = v.len();
    let mut out: Vec<Vec<char>> = Vec::new();
    proof {
        assert(v@.skip(0) =~= v@);
        assert(out.deep_view() =~= Seq::<Seq<char>>::empty());
        assert(out.deep_view() + ws_split(v@) =~= ws_split(v@));
    }
    let mut i: usize = 0;
    while i < n
        invariant
            i <= n,
            n == v@.len(),
            ws_split(v@) == out.deep_view() + ws_split(v@.skip(i as int)),
        decreases n - i,
    {
        let ghost pre = out.deep_view();
        if is_space(v[i]) {
            proof {
                assert(v@.skip(i as int).drop_first() =~= v@.skip(i + 1 as int));
            }
            i += 1;
        } else {
            let start = i;
            let mut j: usize = i + 1;
            while j < n
                invariant_except_break
                    start < j <= n,
                    n == v@.len(),
                    forall|k: int| start <= k < j ==> !is_space_char(v@[k]),
                ensures
                    start < j <= n,
                    n == v@.len(),
                    forall|k: int| start <= k < j ==> !is_space_char(v@[k]),
                    j == n || is_space_char(v@[j as int]),
                decreases n - j,
            {
                if is_space(v[j]) {
                    break ;
                }
                j += 1;
            }
            let w = copy_range(v, start, j);
            out.push(w);
            proof {
                let t = v@.skip(i as int);
                assert forall|k: int| 0 <= k < j - i implies !is_space_char(t[k]) by {
                    assert(t[k] == v@[i + k]);
                }
                if j < n {
                    assert(t[j - i] == v@[j as int]);
                }
                lemma_first_space_is(t, j - i);
                assert(first_space(t) == j - i);
                assert(!is_space_char(t[0]));
                assert(ws_split(t) == seq![t.take(j - i)] + ws_split(t.skip(j - i)));
                assert(t.take(j - i) =~= w@);
                assert(t.skip(j - i) =~= v@.skip(j as int));
                assert(w.deep_view() =~= w@);
                assert(out.deep_view() =~= pre.push(w@));
                assert(pre.push(w@) + ws_split(v@.skip(j as int)) =~= pre + (seq![w@] + ws_split(
                    v@.skip(j as int),
                )));
            }
            i = j;
        }
    }
    proof {
        assert(v@.skip(n as int) =~= Seq::<char>::empty());
        assert(out.deep_view() + ws_split(v@.skip(n as int)) =~= out.deep_view());
    }
    out
}

/// Joins words with single spaces.
pub fn join_words(ws: &Vec<Vec<char>>) -> (r: Vec<char>)
    ensures
        r@ == join_space(ws.deep_view()),
{
    let mut out: Vec<char> = Vec::new();
    proof {
        assert(ws.deep_view().take(0) =~= Seq::<Seq<char>>::empty());
    }
    let mut i: usize = 0;
    while i < ws.len()
        invariant
            i <= ws@.len(),
            ws@.len() == ws.deep_view().len(),
            out@ == join_space(ws.deep_view().take(i as int)),
        decreases ws@.len() - i,
    {
        if i > 0 {
            out.push(' ');
        }
        let mut k: usize = 0;
        let w = &ws[i];
        let ghost mid = out@;
        while k < w.len()
            invariant
                k <= w@.len(),
                out@ == mid + w@.take(k as int),
            decreases w@.len() - k,
        {
            out.push(w[k]);
            proof {
                assert(mid + w@.take(k as int).push(w@[k as int]) =~= mid + w@.take(k + 1 as int));
            }
            k += 1;
        }
        proof {
            let dv = ws.deep_view();
            assert(w@.take(w@.len() as int) =~= w@);
            assert(dv.take(i as int).push(dv[i as int]) =~= dv.take(i + 1 as int));
            assert(dv[i as int] =~= w@);
            lemma_join_push(dv.take(i as int), w@);
            if i > 0 {
                assert(out@ =~= join_space(dv.take(i as int)) + seq![' '] + w@);
                assert(out@ =~= join_space(dv.take(i as int).push(w@)));
            } else {
                assert(dv.take(0).len() == 0);
                assert(out@ =~= w@);
                assert(out@ =~= join_space(dv.take(0).push(w@)));
            }
        }
        i += 1;
    }
    proof {
        assert(ws.deep_view().take(ws@.len() as int) =~= ws.deep_view());
    }
    out
}

/// Number of whitespace-separated words in a character vector.
pub fn count_words(v: &Vec<char>) -> (r: usize)
    ensures
        r == word_count(v@),
{
    let parts = split_words(v);
    proof {
        assert(parts.deep_view().len() == parts@.len());
    }
    parts.len()
}

} // verus!
