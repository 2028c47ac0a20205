//! The negation and stopword catalogs.
//!
//! A token is normalized for lookup by ASCII case folding followed by
//! trimming characters that are neither word characters nor an apostrophe.
//! Normalized tokens in the negation catalog are always kept by compression;
//! other tokens in the stopword catalog are dropped.

use vstd::prelude::*;
use crate::chars::{lower_seq, lower_chars, chars_eq_str};
use crate::trim::{KeepClass, class_trim, trim_class};

verus! {

/// A token as it is looked up in the catalogs: case folded, then trimmed to
/// its word-character core (apostrophes kept, so contractions survive).
pub open spec fn norm_token(w: Seq<char>) -> Seq<char> {
    class_trim(lower_seq(w), KeepClass::Token)
}

/// Normalizes a token for catalog lookup.
pub fn normalize_token(w: &Vec<char>) -> (r: Vec<char>)
    ensures
        r@ == norm_token(w@),
{
    let lowered = lower_chars(w);
    trim_class(&lowered, KeepClass::Token)
}

/// The negation catalog: tokens that invert predicate polarity.
pub open spec fn is_negation(w: Seq<char>) -> bool {
    ||| w == "not"@
    ||| w == "no"@
    ||| w == "nor"@
    ||| w == "never"@
    ||| w == "neither"@
    ||| w == "nobody"@
    ||| w == "nothing"@
    ||| w == "nowhere"@
    ||| w == "none"@
    ||| w == "cannot"@
    ||| w == "can't"@
    ||| w == "don't"@
    ||| w == "doesn't"@
    ||| w == "didn't"@
    ||| w == "won't"@
    ||| w == "wouldn't"@
    ||| w == "shouldn't"@
    ||| w == "couldn't"@
    ||| w == "isn't"@
    ||| w == "aren't"@
    ||| w == "wasn't"@
    ||| w == "weren't"@
    ||| w == "hasn't"@
    ||| w == "haven't"@
    ||| w == "hadn't"@
}

pub fn check_negation(w: &Vec<char>) -> (r: bool)
    ensures
        r == is_negation(w@),
{
    chars_eq_str(w, "not") || chars_eq_str(w, "no") || chars_eq_str(w, "nor") || chars_eq_str(
        w,
        "never",
    ) || chars_eq_str(w, "neither") || chars_eq_str(w, "nobody") || chars_eq_str(w, "nothing")
        || chars_eq_str(w, "nowhere") || chars_eq_str(w, "none") || chars_eq_str(w, "cannot")
        || chars_eq_str(w, "can't") || chars_eq_str(w, "don't") || chars_eq_str(w, "doesn't")
        || chars_eq_str(w, "didn't") || chars_eq_str(w, "won't") || chars_eq_str(w, "wouldn't")
        || chars_eq_str(w, "shouldn't") || chars_eq_str(w, "couldn't") || chars_eq_str(w, "isn't")
        || chars_eq_str(w, "aren't") || chars_eq_str(w, "wasn't") || chars_eq_str(w, "weren't")
        || chars_eq_str(w, "hasn't") || chars_eq_str(w, "haven't") || chars_eq_str(w, "hadn't")
}

pub open spec fn is_stopword_verbs(w: Seq<char>) -> bool {
    ||| w == "a"@
    ||| w == "an"@
    ||| w == "the"@
    ||| w == "is"@
    ||| w == "are"@
    ||| w == "was"@
    ||| w == "were"@
    ||| w == "be"@
    ||| w == "been"@
    ||| w == "being"@
    ||| w == "have"@
    ||| w == "has"@
    ||| w == "had"@
    ||| w == "do"@
    ||| w == "does"@
    ||| w == "did"@
    ||| w == "will"@
    ||| w == "would"@
    ||| w == "shall"@
    ||| w == "should"@
    ||| w == "may"@
    ||| w == "might"@
    ||| w == "must"@
    ||| w == "can"@
    ||| w == "could"@
    ||| w == "am"@
}

pub open spec fn is_stopword_pronouns(w: Seq<char>) -> bool {
    ||| w == "i"@
    ||| w == "me"@
    ||| w == "my"@
    ||| w == "myself"@
    ||| w == "we"@
    ||| w == "our"@
    ||| w == "ours"@
    ||| w == "ourselves"@
    ||| w == "you"@
    ||| w == "your"@
    ||| w == "yours"@
    ||| w == "yourself"@
    ||| w == "yourselves"@
    ||| w == "he"@
    ||| w == "him"@
    ||| w == "his"@
    ||| w == "himself"@
    ||| w == "she"@
    ||| w == "her"@
    ||| w == "hers"@
    ||| w == "herself"@
    ||| w == "it"@
    ||| w == "its"@
    ||| w == "itself"@
    ||| w == "they"@
    ||| w == "them"@
    ||| w == "their"@
    ||| w == "theirs"@
    ||| w == "themselves"@
    ||| w == "what"@
    ||| w == "which"@
    ||| w == "who"@
    ||| w == "whom"@
    ||| w == "this"@
    ||| w == "that"@
    ||| w == "these"@
    ||| w == "those"@
}

pub open spec fn is_stopword_prepositions(w: Seq<char>) -> bool {
    ||| w == "of"@
    ||| w == "in"@
    ||| w == "for"@
    ||| w == "on"@
    ||| w == "with"@
    ||| w == "at"@
    ||| w == "by"@
    ||| w == "from"@
    ||| w == "to"@
    ||| w == "into"@
    ||| w == "through"@
    ||| w == "during"@
    ||| w == "before"@
    ||| w == "after"@
    ||| w == "above"@
    ||| w == "below"@
    ||| w == "between"@
    ||| w == "and"@
    ||| w == "but"@
    ||| w == "or"@
    ||| w == "so"@
    ||| w == "if"@
    ||| w == "then"@
    ||| w == "because"@
    ||| w == "as"@
    ||| w == "until"@
    ||| w == "while"@
    ||| w == "about"@
    ||| w == "against"@
}

pub open spec fn is_stopword_misc(w: Seq<char>) -> bool {
    ||| w == "each"@
    ||| w == "few"@
    ||| w == "more"@
    ||| w == "most"@
    ||| w == "other"@
    ||| w == "some"@
    ||| w == "such"@
    ||| w == "only"@
    ||| w == "own"@
    ||| w == "same"@
    ||| w == "than"@
    ||| w == "too"@
    ||| w == "very"@
    ||| w == "just"@
    ||| w == "also"@
    ||| w == "both"@
    ||| w == "how"@
    ||| w == "when"@
    ||| w == "where"@
    ||| w == "why"@
    ||| w == "all"@
    ||| w == "any"@
    ||| w == "here"@
    ||| w == "there"@
    ||| w == "up"@
    ||| w == "out"@
    ||| w == "over"@
    ||| w == "under"@
    ||| w == "again"@
    ||| w == "further"@
    ||| w == "once"@
}

/// The stopword catalog: common function words dropped by compression.
pub open spec fn is_stopword(w: Seq<char>) -> bool {
    ||| is_stopword_verbs(w)
    ||| is_stopword_pronouns(w)
    ||| is_stopword_prepositions(w)
    ||| is_stopword_misc(w)
}

fn check_stopword_verbs(w: &Vec<char>) -> (r: bool)
    ensures
        r == is_stopword_verbs(w@),
{
    chars_eq_str(w, "a") || chars_eq_str(w, "an") || chars_eq_str(w, "the") || chars_eq_str(
        w,
        "is",
    ) || chars_eq_str(w, "are") || chars_eq_str(w, "was") || chars_eq_str(w, "were")
        || chars_eq_str(w, "be") || chars_eq_str(w, "been") || chars_eq_str(w, "being")
        || chars_eq_str(w, "have") || chars_eq_str(w, "has") || chars_eq_str(w, "had")
        || chars_eq_str(w, "do") || chars_eq_str(w, "does") || chars_eq_str(w, "did")
        || chars_eq_str(w, "will") || chars_eq_str(w, "would") || chars_eq_str(w, "shall")
        || chars_eq_str(w, "should") || chars_eq_str(w, "may") || chars_eq_str(w, "might")
        || chars_eq_str(w, "must") || chars_eq_str(w, "can") || chars_eq_str(w, "could")
        || chars_eq_str(w, "am")
}

fn check_stopword_pronouns(w: &Vec<char>) -> (r: bool)
    ensures
        r == is_stopword_pronouns(w@),
{
    chars_eq_str(w, "i") || chars_eq_str(w, "me") || chars_eq_str(w, "my") || chars_eq_str(
        w,
        "myself",
    ) || chars_eq_str(w, "we") || chars_eq_str(w, "our") || chars_eq_str(w, "ours")
        || chars_eq_str(w, "ourselves") || chars_eq_str(w, "you") || chars_eq_str(w, "your")
        || chars_eq_str(w, "yours") || chars_eq_str(w, "yourself") || chars_eq_str(w, "yourselves")
        || chars_eq_str(w, "he") || chars_eq_str(w, "him") || chars_eq_str(w, "his")
        || chars_eq_str(w, "himself") || chars_eq_str(w, "she") || chars_eq_str(w, "her")
        || chars_eq_str(w, "hers") || chars_eq_str(w, "herself") || chars_eq_str(w, "it")
        || chars_eq_str(w, "its") || chars_eq_str(w, "itself") || chars_eq_str(w, "they")
        || chars_eq_str(w, "them") || chars_eq_str(w, "their") || chars_eq_str(w, "theirs")
        || chars_eq_str(w, "themselves") || chars_eq_str(w, "what") || chars_eq_str(w, "which")
        || chars_eq_str(w, "who") || chars_eq_str(w, "whom") || chars_eq_str(w, "this")
        || chars_eq_str(w, "that") || chars_eq_str(w, "these") || chars_eq_str(w, "those")
}

fn check_stopword_prepositions(w: &Vec<char>) -> (r: bool)
    ensures
        r == is_stopword_prepositions(w@),
{
    chars_eq_str(w, "of") || chars_eq_str(w, "in") || chars_eq_str(w, "for") || chars_eq_str(
        w,
        "on",
    ) || chars_eq_str(w, "with") || chars_eq_str(w, "at") || chars_eq_str(w, "by")
        || chars_eq_str(w, "from") || chars_eq_str(w, "to") || chars_eq_str(w, "into")
        || chars_eq_str(w, "through") || chars_eq_str(w, "during") || chars_eq_str(w, "before")
        || chars_eq_str(w, "after") || chars_eq_str(w, "above") || chars_eq_str(w, "below")
        || chars_eq_str(w, "between") || chars_eq_str(w, "and") || chars_eq_str(w, "but")
        || chars_eq_str(w, "or") || chars_eq_str(w, "so") || chars_eq_str(w, "if")
        || chars_eq_str(w, "then") || chars_eq_str(w, "because") || chars_eq_str(w, "as")
        || chars_eq_str(w, "until") || chars_eq_str(w, "while") || chars_eq_str(w, "about")
        || chars_eq_str(w, "against")
}

fn check_stopword_misc(w: &Vec<char>) -> (r: bool)
    ensures
        r == is_stopword_misc(w@),
{
    chars_eq_str(w, "each") || chars_eq_str(w, "few") || chars_eq_str(w, "more") || chars_eq_str(
        w,
        "most",
    ) || chars_eq_str(w, "other") || chars_eq_str(w, "some") || chars_eq_str(w, "such")
        || chars_eq_str(w, "only") || chars_eq_str(w, "own") || chars_eq_str(w, "same")
        || chars_eq_str(w, "than") || chars_eq_str(w, "too") || chars_eq_str(w, "very")
        || chars_eq_str(w, "just") || chars_eq_str(w, "also") || chars_eq_str(w, "both")
        || chars_eq_str(w, "how") || chars_eq_str(w, "when") || chars_eq_str(w, "where")
        || chars_eq_str(w, "why") || chars_eq_str(w, "all") || chars_eq_str(w, "any")
        || chars_eq_str(w, "here") || chars_eq_str(w, "there") || chars_eq_str(w, "up")
        || chars_eq_str(w, "out") || chars_eq_str(w, "over") || chars_eq_str(w, "under")
        || chars_eq_str(w, "again") || chars_eq_str(w, "further") || chars_eq_str(w, "once")
}

pub fn check_stopword(w: &Vec<char>) -> (r: bool)
    ensures
        r == is_stopword(w@),
{
    check_stopword_verbs(w) || check_stopword_pronouns(w) || check_stopword_prepositions(w)
        || check_stopword_misc(w)
}

/// Whether compression keeps a token: negations always stay, and so does
/// every token whose normalized form is not a catalog stopword.
pub open spec fn keep_word(w: Seq<char>) -> bool {
    is_negation(norm_token(w)) || !is_stopword(norm_token(w))
}

pub fn check_keep_word(w: &Vec<char>) -> (r: bool)
    ensures
        r == keep_word(w@),
{
    let norm = normalize_token(w);
    check_negation(&norm) || !check_stopword(&norm)
}

} // verus!
