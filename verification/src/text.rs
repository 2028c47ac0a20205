//! Text normalization and markdown section handling.
//!
//! Normalization strips control characters, collapses runs of spaces and
//! tabs, trims every line and the whole text. Section extraction reads the
//! markdown heading grammar: a heading line is one to six `#` characters,
//! then at least one whitespace character, then a nonempty title.

use vstd::prelude::*;
use vstd::string::StringExecFns;
use crate::chars::{is_space_char, str_to_chars, chars_to_string};
use crate::trim::{KeepClass, class_trim, trim_class};
use crate::words::first_sat;

verus! {

/// Control characters removed by normalization: C0 controls except tab,
/// newline and carriage return, plus delete.
pub open spec fn is_dropped_control(c: char) -> bool {
    let u = c as u32;
    u <= 0x08 || u == 0x0B || u == 0x0C || (0x0E <= u && u <= 0x1F) || u == 0x7F
}

/// Keeps everything that is not a dropped control character.
pub open spec fn keep_ctrl_pred() -> spec_fn(char) -> bool {
    |c: char| !is_dropped_control(c)
}

pub open spec fn strip_controls(s: Seq<char>) -> Seq<char> {
    s.filter(keep_ctrl_pred())
}

fn is_dropped_control_exec(c: char) -> (r: bool)
    ensures
        r == is_dropped_control(c),
{
    let u = c as u32;
    u <= 0x08 || u == 0x0B || u == 0x0C || (0x0E <= u && u <= 0x1F) || u == 0x7F
}

fn strip_controls_chars(v: &Vec<char>) -> (r: Vec<char>)
    ensures
        r@ == strip_controls(v@),
{
    let mut out: Vec<char> = Vec::new();
    proof {
        reveal(Seq::filter);
        assert(v@.take(0) =~= Seq::<char>::empty());
        assert(out@ =~= Seq::<char>::empty().filter(keep_ctrl_pred()));
    }
    let mut i: usize = 0;
    while i < v.len()
        invariant
            i <= v@.len(),
            out@ == v@.take(i as int).filter(keep_ctrl_pred()),
        decreases v@.len() - i,
    {
        let ghost pre = out@;
        proof {
            v@.take(i as int).lemma_filter_push(v@[i as int], keep_ctrl_pred());
            assert(v@.take(i as int).push(v@[i as int]) =~= v@.take(i + 1 as int));
        }
        if !is_dropped_control_exec(v[i]) {
            out.push(v[i]);
        }
        i += 1;
    }
    proof {
        assert(v@.take(v@.len() as int) =~= v@);
    }
    out
}

/// A space or a tab.
pub open spec fn is_blank(c: char) -> bool {
    c == ' ' || c == '\t'
}

/// Every maximal run of spaces and tabs replaced by a single space.
pub open spec fn collapse_blanks(s: Seq<char>) -> Seq<char>
    decreases s.len(),
{
    if s.len() == 0 {
        Seq::empty()
    } else if is_blank(s[0]) && s.len() >= 2 && is_blank(s[1]) {
        collapse_blanks(s.drop_first())
    } else if is_blank(s[0]) {
        seq![' '] + collapse_blanks(s.drop_first())
    } else {
        seq![s[0]] + collapse_blanks(s.drop_first())
    }
}

fn collapse_blanks_chars(v: &Vec<char>) -> (r: Vec<char>)
    ensures
        r@ == collapse_blanks(v@),
{
    let n = v.len();
    let mut out: Vec<char> = Vec::new();
    proof {
        assert(v@.skip(0) =~= v@);
        assert(out@ + collapse_blanks(v@) =~= collapse_blanks(v@));
    }
    let mut i: usize = 0;
    while i < n
        invariant
            i <= n,
            n == v@.len(),
            collapse_blanks(v@) == out@ + collapse_blanks(v@.skip(i as int)),
        decreases n - i,
    {
        let ghost t = v@.skip(i as int);
        proof {
            assert(t[0] == v@[i as int]);
            if i + 1 < n {
                assert(t[1] == v@[i + 1]);
            }
            assert(t.drop_first() =~= v@.skip(i + 1));
        }
        let c = v[i];
        let blank = c == ' ' || c == '\t';
        if blank && i + 1 < n && (v[i + 1] == ' ' || v[i + 1] == '\t') {
        } else if blank {
            out.push(' ');
            proof {
                assert(out@ + collapse_blanks(v@.skip(i + 1)) =~= collapse_blanks(v@));
            }
        } else {
            out.push(c);
            proof {
                assert(out@ + collapse_blanks(v@.skip(i + 1)) =~= collapse_blanks(v@));
            }
        }
        i += 1;
    }
    proof {
        assert(v@.skip(n as int) =~= Seq::<char>::empty());
        assert(out@ + collapse_blanks(v@.skip(n as int)) =~= out@);
    }
    out
}

/// First newline position in `s` (or the length of `s`).
pub open spec fn first_nl(s: Seq<char>) -> nat {
    first_sat(s, |c: char| c == '\n')
}

pub proof fn lemma_first_nl(s: Seq<char>)
    ensures
        first_nl(s) <= s.len(),
        forall|j: int| 0 <= j < first_nl(s) ==> s[j] != '\n',
        first_nl(s) < s.len() ==> s[first_nl(s) as int] == '\n',
    decreases s.len(),
{
    if s.len() > 0 && s[0] != '\n' {
        lemma_first_nl(s.drop_first());
        assert(first_nl(s) == 1 + first_nl(s.drop_first()));
        assert forall|j: int| 0 <= j < first_nl(s) implies s[j] != '\n' by {
            if j > 0 {
                assert(s.drop_first()[j - 1] == s[j]);
            }
        }
        if first_nl(s) < s.len() {
            assert(s.drop_first()[first_nl(s) - 1] == s[first_nl(s) as int]);
        }
    }
}

pub proof fn lemma_first_nl_is(s: Seq<char>, k: int)
    requires
        0 <= k <= s.len(),
        forall|j: int| 0 <= j < k ==> s[j] != '\n',
        k == s.len() || s[k] == '\n',
    ensures
        first_nl(s) == k,
    decreases s.len(),
{
    if s.len() == 0 {
    } else if s[0] == '\n' {
        assert(k == 0);
    } else {
        assert(k > 0);
        assert forall|j: int| 0 <= j < k - 1 implies s.drop_first()[j] != '\n' by {
            assert(s.drop_first()[j] == s[j + 1]);
        }
        if k < s.len() {
            assert(s.drop_first()[k - 1] == s[k]);
        }
        lemma_first_nl_is(s.drop_first(), k - 1);
        assert(first_nl(s) == 1 + first_nl(s.drop_first()));
    }
}

/// The lines of `s`: split on every newline, keeping empty lines. There is
/// always at least one (possibly empty) line.
pub open spec fn split_nl(s: Seq<char>) -> Seq<Seq<char>>
    decreases s.len(),
    via split_nl_decreases
{
    let k = first_nl(s) as int;
    if k == s.len() {
        seq![s]
    } else {
        seq![s.take(k)] + split_nl(s.skip(k + 1))
    }
}

#[via_fn]
proof fn split_nl_decreases(s: Seq<char>) {
    lemma_first_nl(s);
}

fn split_nl_chars(v: &Vec<char>) -> (r: Vec<Vec<char>>)
    ensures
        r.deep_view() == split_nl(v@),
        r@.len() >= 1,
{
    let n = v.len();
    let mut out: Vec<Vec<char>> = Vec::new();
    let mut start: usize = 0;
    let mut i: usize = 0;
    proof {
        assert(v@.skip(0) =~= v@);
    }
    while i < n
        invariant
            start <= i <= n,
            n == v@.len(),
            split_nl(v@) == out.deep_view() + split_nl(v@.skip(start as int)),
            forall|j: int| start <= j < i ==> v@[j] != '\n',
        decreases n - i,
    {
        if v[i] == '\n' {
            let line = crate::chars::copy_range(v, start, i);
            let ghost pre = out.deep_view();
            out.push(line);
            proof {
                let t = v@.skip(start as int);
                assert forall|j: int| 0 <= j < i - start implies t[j] != '\n' by {
                    assert(t[j] == v@[start + j]);
                }
                assert(t[i - start] == v@[i as int]);
                lemma_first_nl_is(t, i - start);
                assert(split_nl(t) == seq![t.take(i - start)] + split_nl(t.skip(i - start + 1)));
                assert(t.take(i - start) =~= line@);
                assert(t.skip(i - start + 1) =~= v@.skip(i + 1));
                assert(line.deep_view() =~= line@);
                assert(out.deep_view() =~= pre.push(line@));
                assert(pre.push(line@) + split_nl(v@.skip(i + 1)) =~= pre + (seq![line@]
                    + split_nl(v@.skip(i + 1))));
            }
            start = i + 1;
        }
        i += 1;
    }
    let line = crate::chars::copy_range(v, start, n);
    let ghost pre = out.deep_view();
    out.push(line);
    proof {
        let t = v@.skip(start as int);
        assert forall|j: int| 0 <= j < t.len() implies t[j] != '\n' by {
            assert(t[j] == v@[start + j]);
        }
        lemma_first_nl_is(t, t.len() as int);
        assert(split_nl(t) == seq![t]);
        assert(t =~= line@);
        assert(line.deep_view() =~= line@);
        assert(out.deep_view() =~= pre.push(line@));
        assert(pre.push(line@) =~= pre + seq![line@]);
    }
    out
}

/// Lines joined with single newlines.
pub open spec fn join_nl(lines: Seq<Seq<char>>) -> Seq<char>
    decreases lines.len(),
{
    if lines.len() == 0 {
        Seq::empty()
    } else if lines.len() == 1 {
        lines[0]
    } else {
        lines[0] + seq!['\n'] + join_nl(lines.drop_first())
    }
}

pub proof fn lemma_join_nl_push(lines: Seq<Seq<char>>, l: Seq<char>)
    ensures
        lines.len() == 0 ==> join_nl(lines.push(l)) == l,
        lines.len() > 0 ==> join_nl(lines.push(l)) == join_nl(lines) + seq!['\n'] + l,
    decreases lines.len(),
{
    let pushed = lines.push(l);
    if lines.len() == 0 {
        assert(pushed.len() == 1);
        assert(join_nl(pushed) == pushed[0]);
    } else if lines.len() == 1 {
        assert(pushed.drop_first() =~= seq![l]);
        assert(join_nl(pushed) == pushed[0] + seq!['\n'] + join_nl(pushed.drop_first()));
    } else {
        lemma_join_nl_push(lines.drop_first(), l);
        assert(pushed.drop_first() =~= lines.drop_first().push(l));
        assert(pushed[0] == lines[0]);
    }
}

fn join_nl_chars(lines: &Vec<Vec<char>>) -> (r: Vec<char>)
    ensures
        r@ == join_nl(lines.deep_view()),
{
    let mut out: Vec<char> = Vec::new();
    proof {
        assert(lines.deep_view().take(0) =~= Seq::<Seq<char>>::empty());
    }
    let mut i: usize = 0;
    while i < lines.len()
        invariant
            i <= lines@.len(),
            lines@.len() == lines.deep_view().len(),
            out@ == join_nl(lines.deep_view().take(i as int)),
        decreases lines@.len() - i,
    {
        if i > 0 {
            out.push('\n');
        }
        let ghost mid = out@;
        crate::chars::append_chars(&mut out, &lines[i]);
        proof {
            let dv = lines.deep_view();
            assert(dv.take(i as int).push(dv[i as int]) =~= dv.take(i + 1 as int));
            assert(dv[i as int] =~= lines@[i as int]@);
            lemma_join_nl_push(dv.take(i as int), dv[i as int]);
            if i > 0 {
                assert(out@ =~= join_nl(dv.take(i as int)) + seq!['\n'] + dv[i as int]);
            } else {
                assert(dv.take(0).len() == 0);
                assert(out@ =~= dv[0]);
            }
        }
        i += 1;
    }
    proof {
        assert(lines.deep_view().take(lines@.len() as int) =~= lines.deep_view());
    }
    out
}

/// Each line trimmed of surrounding whitespace.
pub open spec fn trim_line_map() -> spec_fn(Seq<char>) -> Seq<char> {
    |l: Seq<char>| class_trim(l, KeepClass::NonSpace)
}

/// Normalized text: control characters removed, space and tab runs
/// collapsed to single spaces, every line trimmed, the lines rejoined with
/// single newlines, and the whole trimmed.
pub open spec fn spec_normalize(s: Seq<char>) -> Seq<char> {
    let cleaned = collapse_blanks(strip_controls(s));
    let lines = split_nl(cleaned).map_values(trim_line_map());
    class_trim(join_nl(lines), KeepClass::NonSpace)
}

/// Normalizes text: strips control characters, collapses runs of spaces and
/// tabs, and trims every line and the whole text.
pub fn normalize(text: &str) -> (r: String)
    ensures
        r@ == spec_normalize(text@),
{
    let chars = str_to_chars(text);
    let stripped = strip_controls_chars(&chars);
    let cleaned = collapse_blanks_chars(&stripped);
    let lines = split_nl_chars(&cleaned);
    let mut trimmed: Vec<Vec<char>> = Vec::new();
    proof {
        assert(lines.deep_view().take(0) =~= Seq::<Seq<char>>::empty());
        assert(trimmed.deep_view() =~= lines.deep_view().take(0).map_values(trim_line_map()));
    }
    let mut i: usize = 0;
    while i < lines.len()
        invariant
            i <= lines@.len(),
            lines@.len() == lines.deep_view().len(),
            trimmed.deep_view() == lines.deep_view().take(i as int).map_values(trim_line_map()),
        decreases lines@.len() - i,
    {
        let ghost dv = lines.deep_view();
        let ghost pre = trimmed.deep_view();
        let t = trim_class(&lines[i], KeepClass::NonSpace);
        proof {
            assert(dv[i as int] =~= lines@[i as int]@);
            assert(t@ == trim_line_map()(dv[i as int]));
        }
        let ghost pre_vec = trimmed@;
        trimmed.push(t);
        proof {
            assert(dv.take(i as int).push(dv[i as int]) =~= dv.take(i + 1 as int));
            let tdv = trimmed.deep_view();
            assert forall|q: int| 0 <= q < tdv.len() implies tdv[q] == pre.push(t@)[q] by {
                if q < pre.len() {
                    assert(trimmed@[q] == pre_vec[q]);
                } else {
                    assert(trimmed@[q] == t);
                }
            }
            assert(tdv =~= pre.push(t@));
            assert(dv.take(i + 1 as int).map_values(trim_line_map()) =~= pre.push(t@));
        }
        i += 1;
    }
    proof {
        assert(lines.deep_view().take(lines@.len() as int) =~= lines.deep_view());
    }
    let joined = join_nl_chars(&trimmed);
    let out = trim_class(&joined, KeepClass::NonSpace);
    chars_to_string(&out)
}

/// Number of leading `#` characters.
pub open spec fn hash_count(line: Seq<char>) -> nat {
    first_sat(line, |c: char| c != '#')
}

pub proof fn lemma_hash_count_is(line: Seq<char>, k: int)
    requires
        0 <= k <= line.len(),
        forall|j: int| 0 <= j < k ==> line[j] == '#',
        k == line.len() || line[k] != '#',
    ensures
        hash_count(line) == k,
    decreases line.len(),
{
    if line.len() == 0 {
    } else if line[0] != '#' {
        assert(k == 0);
    } else {
        assert(k > 0);
        assert forall|j: int| 0 <= j < k - 1 implies line.drop_first()[j] == '#' by {
            assert(line.drop_first()[j] == line[j + 1]);
        }
        if k < line.len() {
            assert(line.drop_first()[k - 1] == line[k]);
        }
        lemma_hash_count_is(line.drop_first(), k - 1);
        assert(hash_count(line) == 1 + hash_count(line.drop_first()));
    }
}

/// First non-whitespace position (or the length).
pub open spec fn first_nonspace(s: Seq<char>) -> nat {
    first_sat(s, |c: char| !is_space_char(c))
}

pub proof fn lemma_first_nonspace_is(s: Seq<char>, k: int)
    requires
        0 <= k <= s.len(),
        forall|j: int| 0 <= j < k ==> is_space_char(s[j]),
        k == s.len() || !is_space_char(s[k]),
    ensures
        first_nonspace(s) == k,
    decreases s.len(),
{
    if s.len() == 0 {
    } else if !is_space_char(s[0]) {
        assert(k == 0);
    } else {
        assert(k > 0);
        assert forall|j: int| 0 <= j < k - 1 implies is_space_char(s.drop_first()[j]) by {
            assert(s.drop_first()[j] == s[j + 1]);
        }
        if k < s.len() {
            assert(s.drop_first()[k - 1] == s[k]);
        }
        lemma_first_nonspace_is(s.drop_first(), k - 1);
        assert(first_nonspace(s) == 1 + first_nonspace(s.drop_first()));
    }
}

/// A markdown heading line: one to six `#`, at least one whitespace
/// character, then a nonempty title.
pub open spec fn is_heading_line(line: Seq<char>) -> bool {
    let h = hash_count(line) as int;
    &&& 1 <= h <= 6
    &&& h < line.len()
    &&& is_space_char(line[h])
    &&& h + first_nonspace(line.skip(h)) < line.len()
}

/// The heading's title: everything from the first non-whitespace character
/// after the hashes to the end of the line.
pub open spec fn heading_title(line: Seq<char>) -> Seq<char> {
    let h = hash_count(line) as int;
    line.skip(h + first_nonspace(line.skip(h)))
}

/// Parses one line as a heading.
fn heading_of_line(line: &Vec<char>) -> (r: Option<Vec<char>>)
    ensures
        r is Some <==> is_heading_line(line@),
        r is Some ==> r->Some_0@ == heading_title(line@),
{
    let n = line.len();
    let mut h: usize = 0;
    while h < n
        invariant_except_break
            h <= n,
            n == line@.len(),
            forall|j: int| 0 <= j < h ==> line@[j] == '#',
        ensures
            h <= n,
            n == line@.len(),
            forall|j: int| 0 <= j < h ==> line@[j] == '#',
            h == n || line@[h as int] != '#',
        decreases n - h,
    {
        if line[h] != '#' {
            break ;
        }
        h += 1;
    }
    proof {
        lemma_hash_count_is(line@, h as int);
    }
    if h < 1 || h > 6 || h >= n {
        return None;
    }
    if !crate::chars::is_space(line[h]) {
        return None;
    }
    let mut b: usize = h;
    while b < n
        invariant_except_break
            h <= b <= n,
            n == line@.len(),
            forall|j: int| h <= j < b ==> is_space_char(line@[j]),
        ensures
            h <= b <= n,
            n == line@.len(),
            forall|j: int| h <= j < b ==> is_space_char(line@[j]),
            b == n || !is_space_char(line@[b as int]),
        decreases n - b,
    {
        if !crate::chars::is_space(line[b]) {
            break ;
        }
        b += 1;
    }
    proof {
        let t = line@.skip(h as int);
        assert forall|j: int| 0 <= j < b - h implies is_space_char(t[j]) by {
            assert(t[j] == line@[h + j]);
        }
        if b < n {
            assert(t[b - h] == line@[b as int]);
        }
        lemma_first_nonspace_is(t, b - h);
    }
    if b >= n {
        return None;
    }
    let title = crate::chars::copy_range(line, b, n);
    proof {
        assert(title@ =~= line@.skip(h as int).skip(b - h as int));
        assert(line@.skip(h as int).skip(b - h as int) =~= line@.skip(b as int));
        assert(heading_title(line@) =~= line@.skip(b as int));
    }
    Some(title)
}

/// Index of the next heading line at or after `i`; the line count when
/// there is none.
pub open spec fn next_heading(lines: Seq<Seq<char>>, i: int) -> int
    decreases lines.len() - i,
{
    if i < 0 || i >= lines.len() {
        lines.len() as int
    } else if is_heading_line(lines[i]) {
        i
    } else {
        next_heading(lines, i + 1)
    }
}

pub proof fn lemma_next_heading_is(lines: Seq<Seq<char>>, i: int, k: int)
    requires
        0 <= i <= k <= lines.len(),
        forall|j: int| i <= j < k ==> !is_heading_line(#[trigger] lines[j]),
        k == lines.len() || is_heading_line(lines[k]),
    ensures
        next_heading(lines, i) == k,
    decreases lines.len() - i,
{
    if i < lines.len() && !is_heading_line(lines[i]) {
        lemma_next_heading_is(lines, i + 1, k);
    }
}

/// The text between two line indices, joined and trimmed.
pub open spec fn between_content(lines: Seq<Seq<char>>, a: int, b: int) -> Seq<char> {
    class_trim(join_nl(lines.subrange(a, b)), KeepClass::NonSpace)
}

/// The sections at and after line `i`: one per heading line, paired with
/// the trimmed text running to the next heading.
pub open spec fn sections_from(lines: Seq<Seq<char>>, i: int) -> Seq<(Seq<char>, Seq<char>)>
    decreases lines.len() - i,
{
    if i < 0 || i >= lines.len() {
        Seq::empty()
    } else if !is_heading_line(lines[i]) {
        sections_from(lines, i + 1)
    } else {
        seq![
            (heading_title(lines[i]), between_content(lines, i + 1, next_heading(lines, i + 1))),
        ] + sections_from(lines, i + 1)
    }
}

/// The markdown sections of a text: `(heading, content)` pairs, one per
/// heading line; text before the first heading is dropped. A text without
/// headings gives a single section named "(no heading)" unless it is blank.
pub open spec fn spec_sections(s: Seq<char>) -> Seq<(Seq<char>, Seq<char>)> {
    let lines = split_nl(s);
    if next_heading(lines, 0) == lines.len() {
        if class_trim(s, KeepClass::NonSpace).len() > 0 {
            seq![("(no heading)"@, class_trim(s, KeepClass::NonSpace))]
        } else {
            Seq::empty()
        }
    } else {
        sections_from(lines, 0)
    }
}

/// The view of a section list.
pub open spec fn sections_view(v: Seq<(String, String)>) -> Seq<(Seq<char>, Seq<char>)> {
    v.map_values(|p: (String, String)| (p.0@, p.1@))
}

/// Extracts markdown sections as `(heading, content)` pairs.
pub fn extract_markdown_sections(text: &str) -> (r: Vec<(String, String)>)
    ensures
        sections_view(r@) == spec_sections(text@),
{
    let chars = str_to_chars(text);
    let lines = split_nl_chars(&chars);
    let ghost ldv = lines.deep_view();
    let n = lines.len();
    let mut out: Vec<(String, String)> = Vec::new();
    let mut found: bool = false;
    let ghost mut first_idx: int = 0;
    proof {
        assert(sections_view(out@) =~= Seq::<(Seq<char>, Seq<char>)>::empty());
        assert(sections_view(out@) + sections_from(ldv, 0) =~= sections_from(ldv, 0));
    }
    let mut i: usize = 0;
    while i < n
        invariant
            i <= n,
            n == lines@.len(),
            n == ldv.len(),
            ldv == lines.deep_view(),
            sections_from(ldv, 0) == sections_view(out@) + sections_from(ldv, i as int),
            found ==> 0 <= first_idx < i && is_heading_line(ldv[first_idx]),
            !found ==> forall|j: int| 0 <= j < i ==> !is_heading_line(#[trigger] ldv[j]),
        decreases n - i,
    {
        let ghost pre = sections_view(out@);
        proof {
            assert(ldv[i as int] =~= lines@[i as int]@);
        }
        let head = heading_of_line(&lines[i]);
        match head {
            Option::None => {
                proof {
                    assert(sections_from(ldv, i as int) == sections_from(ldv, i + 1));
                }
            },
            Option::Some(title) => {
                found = true;
                proof {
                    first_idx = i as int;
                }
                let mut j: usize = i + 1;
                while j < n
                    invariant_except_break
                        i < j <= n,
                        n == lines@.len(),
                        n == ldv.len(),
                        ldv == lines.deep_view(),
                        forall|q: int| i < q < j ==> !is_heading_line(#[trigger] ldv[q]),
                    ensures
                        i < j <= n,
                        n == lines@.len(),
                        n == ldv.len(),
                        ldv == lines.deep_view(),
                        forall|q: int| i < q < j ==> !is_heading_line(#[trigger] ldv[q]),
                        j == n || is_heading_line(ldv[j as int]),
                    decreases n - j,
                {
                    proof {
                        assert(ldv[j as int] =~= lines@[j as int]@);
                    }
                    let h2 = heading_of_line(&lines[j]);
                    if h2.is_some() {
                        break ;
                    }
                    j += 1;
                }
                proof {
                    lemma_next_heading_is(ldv, i + 1, j as int);
                }
                let mut content: Vec<char> = Vec::new();
                let ghost lo = i + 1 as int;
                proof {
                    assert(ldv.subrange(lo, lo) =~= Seq::<Seq<char>>::empty());
                }
                let mut k: usize = i + 1;
                while k < j
                    invariant
                        i + 1 <= k <= j <= n,
                        n == lines@.len(),
                        n == ldv.len(),
                        ldv == lines.deep_view(),
                        lo == i + 1,
                        content@ == join_nl(ldv.subrange(lo, k as int)),
                    decreases j - k,
                {
                    if k > i + 1 {
                        content.push('\n');
                    }
                    let ghost mid = content@;
                    crate::chars::append_chars(&mut content, &lines[k]);
                    proof {
                        let sub = ldv.subrange(lo, k as int);
                        assert(ldv.subrange(lo, k + 1 as int) =~= sub.push(ldv[k as int]));
                        assert(ldv[k as int] =~= lines@[k as int]@);
                        lemma_join_nl_push(sub, ldv[k as int]);
                        if k > i + 1 {
                            assert(sub.len() > 0);
                            assert(content@ =~= join_nl(sub) + seq!['\n'] + ldv[k as int]);
                        } else {
                            assert(sub.len() == 0);
                            assert(content@ =~= ldv[k as int]);
                        }
                    }
                    k += 1;
                }
                let trimmed = trim_class(&content, KeepClass::NonSpace);
                let title_s = chars_to_string(&title);
                let content_s = chars_to_string(&trimmed);
                let ghost pre_vec = out@;
                out.push((title_s, content_s));
                proof {
                    let entry = (heading_title(ldv[i as int]), between_content(
                        ldv,
                        i + 1,
                        next_heading(ldv, i + 1),
                    ));
                    let sv = sections_view(out@);
                    assert forall|q: int| 0 <= q < sv.len() implies sv[q] == pre.push(entry)[q] by {
                        if q < pre.len() {
                            assert(out@[q] == pre_vec[q]);
                        } else {
                            assert(out@[q] == (title_s, content_s));
                        }
                    }
                    assert(sv =~= pre.push(entry));
                    assert(sections_from(ldv, i as int) == seq![entry] + sections_from(
                        ldv,
                        i + 1,
                    ));
                    assert(pre.push(entry) + sections_from(ldv, i + 1) =~= pre + (seq![entry]
                        + sections_from(ldv, i + 1)));
                }
            },
        }
        i += 1;
    }
    proof {
        assert(sections_from(ldv, n as int) =~= Seq::<(Seq<char>, Seq<char>)>::empty());
        assert(sections_view(out@) + sections_from(ldv, n as int) =~= sections_view(out@));
    }
    if found {
        proof {
            let nh = next_heading(ldv, 0);
            if nh == ldv.len() {
                lemma_next_heading_bounds(ldv, 0);
                assert(!is_heading_line(ldv[first_idx]));
            }
        }
        out
    } else {
        {
            proof {
                lemma_next_heading_is(ldv, 0, n as int);
                lemma_sections_all_plain(ldv, 0);
                assert(sections_view(out@) =~= Seq::<(Seq<char>, Seq<char>)>::empty());
                assert(out@.len() == 0);
            }
            let trimmed_all = trim_class(&chars, KeepClass::NonSpace);
            let mut res: Vec<(String, String)> = Vec::new();
            if trimmed_all.len() > 0 {
                let h = String::from_str("(no heading)");
                let c = chars_to_string(&trimmed_all);
                res.push((h, c));
                proof {
                    let entry = ("(no heading)"@, class_trim(text@, KeepClass::NonSpace));
                    let sv = sections_view(res@);
                    assert(sv.len() == 1);
                    assert(sv[0] == entry);
                    assert(sv =~= seq![entry]);
                }
            } else {
                proof {
                    assert(sections_view(res@) =~= Seq::<(Seq<char>, Seq<char>)>::empty());
                }
            }
            res
        }
    }
}

/// `n` occurs in `h` starting at `i`.
pub open spec fn occurs_at(h: Seq<char>, n: Seq<char>, i: int) -> bool {
    0 <= i && i + n.len() <= h.len() && h.subrange(i, i + n.len()) == n
}

/// `n` occurs somewhere in `h`. The empty sequence occurs in everything.
pub open spec fn has_substring(h: Seq<char>, n: Seq<char>) -> bool {
    exists|i: int| occurs_at(h, n, i)
}

/// Substring search.
fn contains_sub(h: &Vec<char>, nd: &Vec<char>) -> (r: bool)
    ensures
        r == has_substring(h@, nd@),
{
    let hn = h.len();
    let m = nd.len();
    if m > hn {
        proof {
            assert forall|i: int| !occurs_at(h@, nd@, i) by {}
        }
        return false;
    }
    let mut i: usize = 0;
    while i <= hn - m
        invariant
            0 <= i <= hn - m + 1,
            m <= hn,
            hn == h@.len(),
            m == nd@.len(),
            forall|q: int| 0 <= q < i ==> !occurs_at(h@, nd@, q),
        decreases hn - m - i + 1,
    {
        let mut j: usize = 0;
        let mut ok = true;
        while j < m
            invariant_except_break
                0 <= j <= m,
                ok == true,
                i + m <= hn,
                hn == h@.len(),
                m == nd@.len(),
                forall|q: int| 0 <= q < j ==> h@[i + q] == nd@[q],
            ensures
                0 <= j <= m,
                hn == h@.len(),
                m == nd@.len(),
                i + m <= hn,
                ok ==> forall|q: int| 0 <= q < m ==> h@[i + q] == nd@[q],
                !ok ==> exists|q: int| 0 <= q < m && h@[i + q] != nd@[q],
            decreases m - j,
        {
            if h[i + j] != nd[j] {
                ok = false;
                break ;
            }
            j += 1;
        }
        if ok {
            proof {
                assert(h@.subrange(i as int, i + m) =~= nd@);
                assert(occurs_at(h@, nd@, i as int));
            }
            return true;
        }
        proof {
            let q = choose|q: int| 0 <= q < m && h@[i + q] != nd@[q];
            if occurs_at(h@, nd@, i as int) {
                assert(h@.subrange(i as int, i + m)[q] == nd@[q]);
            }
        }
        i += 1;
    }
    proof {
        assert forall|q: int| !occurs_at(h@, nd@, q) by {
            if 0 <= q && q + nd@.len() <= h@.len() {
                assert(q < i);
            }
        }
    }
    false
}

/// Whether a chunk belongs to a section: the section's content contains the
/// chunk, or the chunk contains the first fifty characters of the content.
pub open spec fn section_match(chunk: Seq<char>, content: Seq<char>) -> bool {
    ||| has_substring(content, chunk)
    ||| has_substring(
        chunk,
        if content.len() < 50 {
            content
        } else {
            content.take(50)
        },
    )
}

/// The heading of the first matching section; "(unknown)" when none
/// matches.
pub open spec fn spec_find_section(chunk: Seq<char>, secs: Seq<(Seq<char>, Seq<char>)>, i: int) -> Seq<
    char,
>
    decreases secs.len() - i,
{
    if i < 0 || i >= secs.len() {
        "(unknown)"@
    } else if section_match(chunk, secs[i].1) {
        secs[i].0
    } else {
        spec_find_section(chunk, secs, i + 1)
    }
}

/// Finds which markdown section a chunk belongs to.
pub fn find_section_for_chunk(chunk: &str, sections: &Vec<(String, String)>) -> (r: String)
    ensures
        r@ == spec_find_section(chunk@, sections_view(sections@), 0),
{
    let cv = str_to_chars(chunk);
    let ghost sv = sections_view(sections@);
    let mut i: usize = 0;
    while i < sections.len()
        invariant
            i <= sections@.len(),
            sections@.len() == sv.len(),
            sv == sections_view(sections@),
            cv@ == chunk@,
            spec_find_section(chunk@, sv, 0) == spec_find_section(chunk@, sv, i as int),
        decreases sections@.len() - i,
    {
        let content = str_to_chars(sections[i].1.as_str());
        proof {
            assert(sv[i as int].1 == sections@[i as int].1@);
            assert(sv[i as int].0 == sections@[i as int].0@);
        }
        let prefix_end = if content.len() < 50 {
            content.len()
        } else {
            50
        };
        let prefix = crate::chars::copy_range(&content, 0, prefix_end);
        proof {
            if content@.len() < 50 {
                assert(prefix@ =~= content@);
            } else {
                assert(prefix@ =~= content@.take(50));
            }
        }
        let m = contains_sub(&content, &cv) || contains_sub(&cv, &prefix);
        if m {
            proof {
                assert(section_match(chunk@, sv[i as int].1));
            }
            return sections[i].0.clone();
        }
        proof {
            assert(!section_match(chunk@, sv[i as int].1));
        }
        i += 1;
    }
    String::from_str("(unknown)")
}

/// If no line at or after `i` is a heading, there are no sections there.
proof fn lemma_sections_all_plain(lines: Seq<Seq<char>>, i: int)
    requires
        0 <= i,
        forall|j: int| i <= j < lines.len() ==> !is_heading_line(#[trigger] lines[j]),
    ensures
        sections_from(lines, i) == Seq::<(Seq<char>, Seq<char>)>::empty(),
    decreases lines.len() - i,
{
    if i < lines.len() {
        lemma_sections_all_plain(lines, i + 1);
    }
}

proof fn lemma_next_heading_bounds(lines: Seq<Seq<char>>, i: int)
    requires
        0 <= i <= lines.len(),
    ensures
        i <= next_heading(lines, i) <= lines.len(),
        next_heading(lines, i) < lines.len() ==> is_heading_line(
            lines[next_heading(lines, i)],
        ),
        next_heading(lines, i) == lines.len() ==> forall|j: int|
            i <= j < lines.len() ==> !is_heading_line(#[trigger] lines[j]),
    decreases lines.len() - i,
{
    if i < lines.len() && !is_heading_line(lines[i]) {
        lemma_next_heading_bounds(lines, i + 1);
    }
}

} // verus!

