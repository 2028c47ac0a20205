//! Trimming characters from both ends of a token.
//!
//! A token is normalized by dropping leading and trailing characters outside
//! a keep-class: word characters for query terms, word characters plus the
//! apostrophe for catalog lookup, and non-whitespace when trimming text.

use vstd::prelude::*;
use crate::chars::{is_space_char, is_term_char, is_token_char, is_space, is_term, is_token,
    copy_range};

verus! {

/// The classes of characters kept by a trim.
#[derive(Clone, Copy)]
pub enum KeepClass {
    /// Everything but whitespace.
    NonSpace,
    /// Word characters.
    Term,
    /// Word characters and the apostrophe.
    Token,
}

pub open spec fn in_class(cls: KeepClass, c: char) -> bool {
    match cls {
        KeepClass::NonSpace => !is_space_char(c),
        KeepClass::Term => is_term_char(c),
        KeepClass::Token => is_token_char(c),
    }
}

pub fn check_class(cls: KeepClass, c: char) -> (r: bool)
    ensures
        r == in_class(cls, c),
{
    match cls {
        KeepClass::NonSpace => !is_space(c),
        KeepClass::Term => is_term(c),
        KeepClass::Token => is_token(c),
    }
}

/// First index of `s` holding a kept character; the length of `s` when none.
pub open spec fn first_in(s: Seq<char>, cls: KeepClass) -> nat
    decreases s.len(),
{
    if s.len() == 0 {
        0
    } else if in_class(cls, s[0]) {
        0
    } else {
        1 + first_in(s.drop_first(), cls)
    }
}

/// Last index of `s` holding a kept character; meaningful only when one
/// exists.
pub open spec fn last_in(s: Seq<char>, cls: KeepClass) -> nat
    decreases s.len(),
{
    if s.len() == 0 {
        0
    } else if in_class(cls, s[s.len() - 1]) {
        (s.len() - 1) as nat
    } else {
        last_in(s.drop_last(), cls)
    }
}

/// `s` with every leading and trailing character outside the class removed.
pub open spec fn class_trim(s: Seq<char>, cls: KeepClass) -> Seq<char> {
    if first_in(s, cls) == s.len() {
        Seq::empty()
    } else {
        s.subrange(first_in(s, cls) as int, last_in(s, cls) as int + 1)
    }
}

pub proof fn lemma_first_in_is(s: Seq<char>, cls: KeepClass, k: int)
    requires
        0 <= k <= s.len(),
        forall|j: int| 0 <= j < k ==> !in_class(cls, s[j]),
        k == s.len() || in_class(cls, s[k]),
    ensures
        first_in(s, cls) == k,
    decreases s.len(),
{
    if s.len() == 0 {
    } else if in_class(cls, s[0]) {
        assert(k == 0);
    } else {
        assert(k > 0);
        assert forall|j: int| 0 <= j < k - 1 implies !in_class(cls, s.drop_first()[j]) by {
            assert(s.drop_first()[j] == s[j + 1]);
        }
        if k < s.len() {
            assert(s.drop_first()[k - 1] == s[k]);
        }
        lemma_first_in_is(s.drop_first(), cls, k - 1);
    }
}

pub proof fn lemma_last_in_is(s: Seq<char>, cls: KeepClass, b: int)
    requires
        0 <= b < s.len(),
        in_class(cls, s[b]),
        forall|j: int| b < j < s.len() ==> !in_class(cls, s[j]),
    ensures
        last_in(s, cls) == b,
    decreases s.len(),
{
    if b == s.len() - 1 {
    } else {
        assert(!in_class(cls, s[s.len() - 1]));
        assert(s.drop_last()[b] == s[b]);
        assert forall|j: int| b < j < s.drop_last().len() implies !in_class(
            cls,
            s.drop_last()[j],
        ) by {
            assert(s.drop_last()[j] == s[j]);
        }
        lemma_last_in_is(s.drop_last(), cls, b);
    }
}

pub proof fn lemma_first_in_props(s: Seq<char>, cls: KeepClass)
    ensures
        first_in(s, cls) <= s.len(),
        forall|j: int| 0 <= j < first_in(s, cls) ==> !in_class(cls, s[j]),
        first_in(s, cls) < s.len() ==> in_class(cls, s[first_in(s, cls) as int]),
    decreases s.len(),
{
    if s.len() > 0 && !in_class(cls, s[0]) {
        lemma_first_in_props(s.drop_first(), cls);
        assert(first_in(s, cls) == 1 + first_in(s.drop_first(), cls));
        assert forall|j: int| 0 <= j < first_in(s, cls) implies !in_class(cls, s[j]) by {
            if j > 0 {
                assert(s.drop_first()[j - 1] == s[j]);
            }
        }
        if first_in(s, cls) < s.len() {
            assert(s.drop_first()[first_in(s, cls) - 1] == s[first_in(s, cls) as int]);
        }
    }
}

pub proof fn lemma_last_in_props(s: Seq<char>, cls: KeepClass)
    requires
        first_in(s, cls) < s.len(),
    ensures
        last_in(s, cls) < s.len(),
        in_class(cls, s[last_in(s, cls) as int]),
        first_in(s, cls) <= last_in(s, cls),
    decreases s.len(),
{
    lemma_first_in_props(s, cls);
    let fi = first_in(s, cls) as int;
    if in_class(cls, s[s.len() - 1]) {
        assert(last_in(s, cls) == s.len() - 1);
    } else {
        assert(fi < s.len() - 1);
        let front = s.drop_last();
        assert forall|j: int| 0 <= j < fi implies !in_class(cls, front[j]) by {
            assert(front[j] == s[j]);
        }
        assert(front[fi] == s[fi]);
        lemma_first_in_is(front, cls, fi);
        lemma_last_in_props(front, cls);
        assert(last_in(s, cls) == last_in(front, cls));
        assert(front[last_in(front, cls) as int] == s[last_in(front, cls) as int]);
    }
}

/// A trim never lengthens the token.
pub proof fn lemma_class_trim_len(s: Seq<char>, cls: KeepClass)
    ensures
        class_trim(s, cls).len() <= s.len(),
{
    lemma_first_in_props(s, cls);
    if first_in(s, cls) < s.len() {
        lemma_last_in_props(s, cls);
    }
}

/// Removes leading and trailing characters outside the class.
pub fn trim_class(w: &Vec<char>, cls: KeepClass) -> (r: Vec<char>)
    ensures
        r@ == class_trim(w@, cls),
{
    let n = w.len();
    let mut a: usize = 0;
    while a < n
        invariant_except_break
            a <= n,
            n == w@.len(),
            forall|j: int| 0 <= j < a ==> !in_class(cls, w@[j]),
        ensures
            a <= n,
            n == w@.len(),
            forall|j: int| 0 <= j < a ==> !in_class(cls, w@[j]),
            a == n || in_class(cls, w@[a as int]),
        decreases n - a,
    {
        if check_class(cls, w[a]) {
            break ;
        }
        a += 1;
    }
    if a == n {
        proof {
            lemma_first_in_is(w@, cls, n as int);
            assert(class_trim(w@, cls) =~= Seq::<char>::empty());
        }
        let out: Vec<char> = Vec::new();
        return out;
    }
    proof {
        lemma_first_in_is(w@, cls, a as int);
    }
    let mut b: usize = n - 1;
    while b > a
        invariant_except_break
            a <= b < n,
            n == w@.len(),
            in_class(cls, w@[a as int]),
            forall|j: int| b < j < n ==> !in_class(cls, w@[j]),
        ensures
            a <= b < n,
            n == w@.len(),
            in_class(cls, w@[b as int]),
            forall|j: int| b < j < n ==> !in_class(cls, w@[j]),
        decreases b,
    {
        if check_class(cls, w[b]) {
            break ;
        }
        b -= 1;
    }
    proof {
        lemma_last_in_is(w@, cls, b as int);
    }
    copy_range(w, a, b + 1)
}

} // verus!
