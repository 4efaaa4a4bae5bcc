//! The text segmenter: recognizes section headings in a documentation file
//! and splits the text into titled paragraphs.
//!
//! Two heading dialects exist. `RstHeading` matches the general tunable
//! documents: an empty line, a line starting with a lowercase letter (the
//! title), a line of two or more underline characters (`=`, `,` or `-`), and
//! an empty line. `DashHeading` matches the networking tunable documents: a
//! single line of the form `name - Description`, where the name consists of
//! word characters and the description starts with a letter. Headings are
//! found left to right and never overlap, as a multi-line regular-expression
//! search would find them.

use vstd::prelude::*;

use crate::document::{wf_titles, Paragraph, Title};
use crate::text::{
    chars_to_string, find_char, first_index_of, lemma_first_index_absent, lemma_first_index_is,
    str_to_chars, trim_seq,
};

verus! {

/// One of the two section-heading dialects.
#[derive(Clone, Copy, Debug, Eq, PartialEq, Structural)]
pub enum SectionPattern {
    /// A titled heading underlined with `=`, `,` or `-` characters.
    RstHeading,
    /// A one-line `name - Description` heading.
    DashHeading,
}

/// The end of the line that starts at or contains position `p`: the position
/// of the next newline at or after `p`, or the end of the text.
pub open spec fn line_end(t: Seq<char>, p: int) -> int {
    if 0 <= p <= t.len() {
        let i = first_index_of(t.subrange(p, t.len() as int), '\n');
        if i == -1 {
            t.len() as int
        } else {
            p + i
        }
    } else {
        p
    }
}

pub proof fn lemma_line_end(t: Seq<char>, p: int)
    requires
        0 <= p <= t.len(),
    ensures
        p <= line_end(t, p) <= t.len(),
        line_end(t, p) < t.len() ==> t[line_end(t, p)] == '\n',
        forall|j: int| p <= j < line_end(t, p) ==> t[j] != '\n',
{
    let s = t.subrange(p, t.len() as int);
    crate::text::lemma_first_index_of(s, '\n');
    let i = first_index_of(s, '\n');
    if i >= 0 {
        assert(t[p + i] == s[i]);
        assert forall|j: int| p <= j < line_end(t, p) implies t[j] != '\n' by {
            assert(s[j - p] != '\n');
        }
    } else {
        assert forall|j: int| p <= j < line_end(t, p) implies t[j] != '\n' by {
            assert(s[j - p] != '\n');
        }
    }
}

/// Position `p` is the start of a line.
pub open spec fn is_line_start(t: Seq<char>, p: int) -> bool {
    p == 0 || t[p - 1] == '\n'
}

/// A character that may underline a heading title.
pub open spec fn is_underline_char(c: char) -> bool {
    c == '=' || c == ',' || c == '-'
}

/// A lowercase ASCII letter.
pub open spec fn is_lower_alpha(c: char) -> bool {
    'a' <= c && c <= 'z'
}

/// An ASCII letter.
pub open spec fn is_alpha(c: char) -> bool {
    ('a' <= c && c <= 'z') || ('A' <= c && c <= 'Z')
}

/// A character allowed in the name part of a `name - Description` heading.
pub open spec fn is_name_char(c: char) -> bool {
    is_alpha(c) || ('0' <= c && c <= '9') || c == '_' || c == '/' || c == '-'
}

/// An `RstHeading` heading starts at position `i`: an empty line, a title
/// line starting with a lowercase letter, an underline line of two or more
/// underline characters, and an empty line.
pub open spec fn rst_at(t: Seq<char>, i: int) -> bool {
    let t0 = i + 1;
    let t1 = line_end(t, t0);
    let u0 = t1 + 1;
    let u1 = line_end(t, u0);
    &&& 0 <= i < t.len()
    &&& is_line_start(t, i)
    &&& t[i] == '\n'
    &&& t0 < t.len() && is_lower_alpha(t[t0])
    &&& t1 < t.len()
    &&& u1 - u0 >= 2
    &&& (forall|j: int| u0 <= j < u1 ==> is_underline_char(t[j]))
    &&& u1 + 1 < t.len()
    &&& t[u1 + 1] == '\n'
}

/// A `DashHeading` heading starts at position `i`: a line `name - Description`
/// whose name part is a nonempty run of word characters ending at the line's
/// first space, followed by ` - ` and a description starting with a letter.
pub open spec fn dash_at(t: Seq<char>, i: int) -> bool {
    let e = line_end(t, i);
    let kr = first_index_of(t.subrange(i, e), ' ');
    let k = i + kr;
    &&& 0 <= i < t.len()
    &&& is_line_start(t, i)
    &&& kr >= 1
    &&& (forall|j: int| i <= j < k ==> is_name_char(t[j]))
    &&& k + 3 < e
    &&& t[k + 1] == '-'
    &&& t[k + 2] == ' '
    &&& is_alpha(t[k + 3])
}

/// A heading of dialect `pat` starts at position `i`.
pub open spec fn match_at(pat: SectionPattern, t: Seq<char>, i: int) -> bool {
    match pat {
        SectionPattern::RstHeading => rst_at(t, i),
        SectionPattern::DashHeading => dash_at(t, i),
    }
}

/// The position just past the heading that starts at `i`; paragraph contents
/// begin here.
pub open spec fn match_end(pat: SectionPattern, t: Seq<char>, i: int) -> int {
    match pat {
        SectionPattern::RstHeading => line_end(t, line_end(t, i + 1) + 1) + 2,
        SectionPattern::DashHeading => line_end(t, i),
    }
}

/// Where the title capture of the heading at `i` starts.
pub open spec fn title_start(pat: SectionPattern, t: Seq<char>, i: int) -> int {
    match pat {
        SectionPattern::RstHeading => i + 1,
        SectionPattern::DashHeading => i,
    }
}

/// Where the title capture of the heading at `i` ends.
pub open spec fn title_end(pat: SectionPattern, t: Seq<char>, i: int) -> int {
    match pat {
        SectionPattern::RstHeading => line_end(t, i + 1),
        SectionPattern::DashHeading => line_end(t, i),
    }
}

/// The raw (untrimmed) title capture of the heading at `i`.
pub open spec fn title_at(pat: SectionPattern, t: Seq<char>, i: int) -> Seq<char> {
    t.subrange(title_start(pat, t, i), title_end(pat, t, i))
}

/// The start positions of all headings in `t` at or after position `i`, found
/// left to right and never overlapping.
pub open spec fn matches_from(pat: SectionPattern, t: Seq<char>, i: int) -> Seq<int>
    decreases t.len() - i,
{
    if !(0 <= i < t.len()) {
        Seq::empty()
    } else if match_at(pat, t, i) && i < match_end(pat, t, i) && match_end(pat, t, i) <= t.len() {
        seq![i] + matches_from(pat, t, match_end(pat, t, i))
    } else {
        matches_from(pat, t, i + 1)
    }
}

/// A matched heading always ends after it starts and within the text, so the
/// bound checks inside `matches_from` never cut a match.
pub proof fn lemma_match_end_bounds(pat: SectionPattern, t: Seq<char>, i: int)
    requires
        match_at(pat, t, i),
    ensures
        i < match_end(pat, t, i) <= t.len(),
{
    match pat {
        SectionPattern::RstHeading => {
            let t1 = line_end(t, i + 1);
            lemma_line_end(t, i + 1);
            let u1 = line_end(t, t1 + 1);
            lemma_line_end(t, t1 + 1);
        },
        SectionPattern::DashHeading => {
            let e = line_end(t, i);
            lemma_line_end(t, i);
            let s = t.subrange(i, e);
            crate::text::lemma_first_index_of(s, ' ');
        },
    }
}

/// Every heading start reported by `matches_from` lies in `[i, t.len())`, is a
/// real match, and each heading ends before the next begins.
pub proof fn lemma_matches_from(pat: SectionPattern, t: Seq<char>, i: int)
    ensures
        forall|k: int|
            0 <= k < matches_from(pat, t, i).len() ==> i <= #[trigger] matches_from(pat, t, i)[k]
                < t.len() && match_at(pat, t, matches_from(pat, t, i)[k]),
        forall|k: int|
            0 <= k < matches_from(pat, t, i).len() - 1 ==> match_end(
                pat,
                t,
                #[trigger] matches_from(pat, t, i)[k],
            ) <= matches_from(pat, t, i)[k + 1],
    decreases t.len() - i,
{
    let ms = matches_from(pat, t, i);
    if !(0 <= i < t.len()) {
        assert(ms =~= Seq::<int>::empty());
    } else if match_at(pat, t, i) && i < match_end(pat, t, i) && match_end(pat, t, i) <= t.len() {
        let e = match_end(pat, t, i);
        lemma_matches_from(pat, t, e);
        let rest = matches_from(pat, t, e);
        assert(ms == seq![i] + rest);
        assert forall|k: int| 0 <= k < ms.len() implies i <= #[trigger] ms[k] < t.len()
            && match_at(pat, t, ms[k]) by {
            if k > 0 {
                assert(ms[k] == rest[k - 1]);
            }
        }
        assert forall|k: int| 0 <= k < ms.len() - 1 implies match_end(pat, t, #[trigger] ms[k])
            <= ms[k + 1] by {
            if k == 0 {
                if rest.len() > 0 {
                    assert(ms[1] == rest[0]);
                }
            } else {
                assert(ms[k] == rest[k - 1]);
                assert(ms[k + 1] == rest[k]);
            }
        }
    } else {
        lemma_matches_from(pat, t, i + 1);
        assert(ms == matches_from(pat, t, i + 1));
    }
}

/// Pins the value of `line_end`: the first newline at or after `p`.
pub proof fn lemma_line_end_is(t: Seq<char>, p: int, e: int)
    requires
        0 <= p <= e < t.len(),
        t[e] == '\n',
        forall|j: int| p <= j < e ==> t[j] != '\n',
    ensures
        line_end(t, p) == e,
{
    lemma_line_end(t, p);
    let le = line_end(t, p);
    if le < e {
        assert(t[le] != '\n');
    } else if le > e {
        assert(false);
    }
}

/// Scanning across a region without heading starts reaches its end.
pub proof fn lemma_no_match_zone(pat: SectionPattern, t: Seq<char>, a: int, b: int)
    requires
        0 <= a <= b <= t.len(),
        forall|q: int| a <= q < b ==> !match_at(pat, t, q),
    ensures
        matches_from(pat, t, a) == matches_from(pat, t, b),
    decreases b - a,
{
    if a < b {
        assert(!match_at(pat, t, a));
        assert(matches_from(pat, t, a) == matches_from(pat, t, a + 1));
        lemma_no_match_zone(pat, t, a + 1, b);
    }
}

fn find_line_end(t: &[char], p: usize) -> (r: usize)
    requires
        p <= t@.len(),
    ensures
        r == line_end(t@, p as int),
        p <= r <= t@.len(),
        r < t@.len() ==> t@[r as int] == '\n',
        forall|j: int| p <= j < r ==> t@[j] != '\n',
{
    let ghost s = t@.subrange(p as int, t@.len() as int);
    match find_char(t, p, '\n') {
        Some(i) => {
            proof {
                assert(s[i - p] == '\n');
                assert forall|j: int| 0 <= j < i - p implies s[j] != '\n' by {
                    assert(t@[p + j] != '\n');
                }
                lemma_first_index_is(s, '\n', i - p);
            }
            i
        },
        None => {
            proof {
                assert forall|j: int| 0 <= j < s.len() implies s[j] != '\n' by {
                    assert(t@[p + j] != '\n');
                }
                lemma_first_index_absent(s, '\n');
            }
            t.len()
        },
    }
}

fn is_lower_alpha_exec(c: char) -> (r: bool)
    ensures
        r == is_lower_alpha(c),
{
    'a' <= c && c <= 'z'
}

fn is_alpha_exec(c: char) -> (r: bool)
    ensures
        r == is_alpha(c),
{
    ('a' <= c && c <= 'z') || ('A' <= c && c <= 'Z')
}

fn is_name_char_exec(c: char) -> (r: bool)
    ensures
        r == is_name_char(c),
{
    is_alpha_exec(c) || ('0' <= c && c <= '9') || c == '_' || c == '/' || c == '-'
}

fn all_underline(t: &[char], a: usize, b: usize) -> (r: bool)
    requires
        a <= b <= t@.len(),
    ensures
        r == forall|j: int| a <= j < b ==> is_underline_char(t@[j]),
{
    let mut j = a;
    while j < b
        invariant
            a <= j <= b <= t@.len(),
            forall|k: int| a <= k < j ==> is_underline_char(t@[k]),
        decreases b - j,
    {
        let c = t[j];
        if !(c == '=' || c == ',' || c == '-') {
            return false;
        }
        j += 1;
    }
    true
}

fn all_name_chars(t: &[char], a: usize, b: usize) -> (r: bool)
    requires
        a <= b <= t@.len(),
    ensures
        r == forall|j: int| a <= j < b ==> is_name_char(t@[j]),
{
    let mut j = a;
    while j < b
        invariant
            a <= j <= b <= t@.len(),
            forall|k: int| a <= k < j ==> is_name_char(t@[k]),
        decreases b - j,
    {
        if !is_name_char_exec(t[j]) {
            return false;
        }
        j += 1;
    }
    true
}

/// Probes for an `RstHeading` heading at position `i`; returns the bounds of
/// the title capture and the end of the whole heading.
fn rst_probe(t: &[char], i: usize) -> (r: Option<(usize, usize, usize)>)
    requires
        i < t@.len(),
    ensures
        match r {
            Some(v) => rst_at(t@, i as int) && v.0 == title_start(
                SectionPattern::RstHeading,
                t@,
                i as int,
            ) && v.1 == title_end(SectionPattern::RstHeading, t@, i as int) && v.2 == match_end(
                SectionPattern::RstHeading,
                t@,
                i as int,
            ),
            None => !rst_at(t@, i as int),
        },
{
    if !(i == 0 || t[i - 1] == '\n') {
        return None;
    }
    if t[i] != '\n' {
        return None;
    }
    let t0 = i + 1;
    if t0 >= t.len() {
        proof {
            lemma_line_end(t@, t0 as int);
        }
        return None;
    }
    if !is_lower_alpha_exec(t[t0]) {
        return None;
    }
    let t1 = find_line_end(t, t0);
    if t1 >= t.len() {
        return None;
    }
    let u0 = t1 + 1;
    let u1 = find_line_end(t, u0);
    if u1 >= t.len() {
        return None;
    }
    if u1 - u0 < 2 {
        return None;
    }
    if !all_underline(t, u0, u1) {
        return None;
    }
    if u1 + 1 >= t.len() {
        return None;
    }
    if t[u1 + 1] != '\n' {
        return None;
    }
    Some((t0, t1, u1 + 2))
}

/// Probes for a `DashHeading` heading at position `i`; returns the bounds of
/// the title capture and the end of the whole heading.
fn dash_probe(t: &[char], i: usize) -> (r: Option<(usize, usize, usize)>)
    requires
        i < t@.len(),
    ensures
        match r {
            Some(v) => dash_at(t@, i as int) && v.0 == title_start(
                SectionPattern::DashHeading,
                t@,
                i as int,
            ) && v.1 == title_end(SectionPattern::DashHeading, t@, i as int) && v.2 == match_end(
                SectionPattern::DashHeading,
                t@,
                i as int,
            ),
            None => !dash_at(t@, i as int),
        },
{
    let ghost tv = t@;
    if !(i == 0 || t[i - 1] == '\n') {
        return None;
    }
    let e = find_line_end(t, i);
    let ghost line = tv.subrange(i as int, e as int);
    let k = match find_char(t, i, ' ') {
        Some(k) if k < e => {
            proof {
                assert(line[k - i] == ' ');
                assert forall|j: int| 0 <= j < k - i implies line[j] != ' ' by {
                    assert(tv[i + j] != ' ');
                }
                lemma_first_index_is(line, ' ', k - i);
            }
            k
        },
        r => {
            proof {
                assert forall|j: int| 0 <= j < line.len() implies line[j] != ' ' by {
                    assert(tv[i + j] != ' ');
                    if r is Some {
                        assert(tv[i + j] != ' ');
                    }
                }
                lemma_first_index_absent(line, ' ');
            }
            return None;
        },
    };
    if k == i {
        return None;
    }
    if !all_name_chars(t, i, k) {
        return None;
    }
    if e - k <= 3 {
        return None;
    }
    if t[k + 1] != '-' {
        return None;
    }
    if t[k + 2] != ' ' {
        return None;
    }
    if !is_alpha_exec(t[k + 3]) {
        return None;
    }
    Some((i, e, e))
}

fn probe(pat: SectionPattern, t: &[char], i: usize) -> (r: Option<(usize, usize, usize)>)
    requires
        i < t@.len(),
    ensures
        match r {
            Some(v) => match_at(pat, t@, i as int) && v.0 == title_start(pat, t@, i as int) && v.1
                == title_end(pat, t@, i as int) && v.2 == match_end(pat, t@, i as int),
            None => !match_at(pat, t@, i as int),
        },
{
    match pat {
        SectionPattern::RstHeading => rst_probe(t, i),
        SectionPattern::DashHeading => dash_probe(t, i),
    }
}

/// Finds every heading of dialect `pat` in `t`, left to right.
pub fn find_titles(pat: SectionPattern, t: &[char]) -> (r: Vec<Title>)
    ensures
        r@.map_values(|x: Title| x.start_pos as int) == matches_from(pat, t@, 0),
        forall|k: int|
            0 <= k < r@.len() ==> (#[trigger] r@[k]).value@ == title_at(
                pat,
                t@,
                r@[k].start_pos as int,
            ),
        forall|k: int|
            0 <= k < r@.len() ==> (#[trigger] r@[k]).end_pos == match_end(
                pat,
                t@,
                r@[k].start_pos as int,
            ),
        wf_titles(r@, t@.len() as int),
{
    let mut r: Vec<Title> = Vec::new();
    let mut p: usize = 0;
    let n = t.len();
    while p < n
        invariant
            0 <= p <= n == t@.len(),
            matches_from(pat, t@, 0) == r@.map_values(|x: Title| x.start_pos as int)
                + matches_from(pat, t@, p as int),
            forall|k: int|
                0 <= k < r@.len() ==> (#[trigger] r@[k]).value@ == title_at(
                    pat,
                    t@,
                    r@[k].start_pos as int,
                ),
            forall|k: int|
                0 <= k < r@.len() ==> (#[trigger] r@[k]).end_pos == match_end(
                    pat,
                    t@,
                    r@[k].start_pos as int,
                ),
            forall|k: int| 0 <= k < r@.len() ==> (#[trigger] r@[k]).start_pos < t@.len(),
            forall|k: int|
                0 <= k < r@.len() ==> (#[trigger] r@[k]).start_pos <= r@[k].end_pos <= p,
        decreases n - p,
    {
        match probe(pat, t, p) {
            Some((ts, te, end)) => {
                proof {
                    lemma_match_end_bounds(pat, t@, p as int);
                    assert(matches_from(pat, t@, p as int) == seq![p as int] + matches_from(
                        pat,
                        t@,
                        end as int,
                    ));
                }
                proof {
                    lemma_line_end(t@, title_start(pat, t@, p as int));
                    match pat {
                        SectionPattern::RstHeading => {
                            lemma_line_end(t@, p + 1);
                        },
                        SectionPattern::DashHeading => {
                            lemma_line_end(t@, p as int);
                        },
                    }
                }
                let value = chars_to_string(vstd::slice::slice_subrange(t, ts, te));
                let ghost old_r = r@;
                r.push(Title { value, start_pos: p, end_pos: end });
                proof {
                    let f = |x: Title| x.start_pos as int;
                    assert(r@.map_values(f) =~= old_r.map_values(f) + seq![p as int]);
                    assert(old_r.map_values(f) + (seq![p as int] + matches_from(
                        pat,
                        t@,
                        end as int,
                    )) =~= r@.map_values(f) + matches_from(pat, t@, end as int));
                }
                p = end;
            },
            None => {
                proof {
                    assert(matches_from(pat, t@, p as int) == matches_from(pat, t@, p + 1));
                }
                p += 1;
            },
        }
    }
    proof {
        assert(matches_from(pat, t@, p as int) =~= Seq::<int>::empty());
        assert(matches_from(pat, t@, 0) =~= r@.map_values(|x: Title| x.start_pos as int));
        let f = |x: Title| x.start_pos as int;
        assert forall|k: int| 0 < k < r@.len() implies (#[trigger] r@[k]).start_pos >= r@[k
            - 1].end_pos by {
            lemma_matches_from(pat, t@, 0);
            assert(r@.map_values(f)[k] == r@[k].start_pos as int);
            assert(r@.map_values(f)[k - 1] == r@[k - 1].start_pos as int);
            assert(match_end(pat, t@, r@[k - 1].start_pos as int) <= r@[k].start_pos as int);
        }
    }
    r
}

/// The trimmed titles of all headings in `t`, in order.
pub open spec fn spec_titles(pat: SectionPattern, t: Seq<char>) -> Seq<Seq<char>> {
    let ms = matches_from(pat, t, 0);
    Seq::new(ms.len(), |k: int| trim_seq(title_at(pat, t, ms[k])))
}

/// The trimmed contents of all paragraphs in `t`, in order: the text between
/// each heading's end and the next heading's start (or the end of the text).
pub open spec fn spec_contents(pat: SectionPattern, t: Seq<char>) -> Seq<Seq<char>> {
    let ms = matches_from(pat, t, 0);
    Seq::new(
        ms.len(),
        |k: int|
            trim_seq(
                t.subrange(
                    match_end(pat, t, ms[k]),
                    if k == ms.len() - 1 {
                        t.len() as int
                    } else {
                        ms[k + 1]
                    },
                ),
            ),
    )
}

impl SectionPattern {
    /// Splits `text` into its titled paragraphs: one paragraph per heading of
    /// this dialect, titled with the heading's trimmed title and holding the
    /// trimmed text up to the next heading. A text without headings yields no
    /// paragraphs.
    pub fn segment(&self, text: &str) -> (r: Vec<Paragraph>)
        ensures
            r@.len() == matches_from(*self, text@, 0).len(),
            forall|k: int|
                0 <= k < r@.len() ==> (#[trigger] r@[k]).title@ == spec_titles(*self, text@)[k],
            forall|k: int|
                0 <= k < r@.len() ==> (#[trigger] r@[k]).contents@ == spec_contents(
                    *self,
                    text@,
                )[k],
    {
        let t = str_to_chars(text);
        let titles = find_titles(*self, t.as_slice());
        let r = Paragraph::from_titles(&titles, t.as_slice());
        proof {
            let ms = matches_from(*self, text@, 0);
            let f = |x: Title| x.start_pos as int;
            assert forall|k: int| 0 <= k < r@.len() implies (#[trigger] r@[k]).title@
                == spec_titles(*self, text@)[k] by {
                assert(titles@.map_values(f)[k] == titles@[k].start_pos as int);
            }
            assert forall|k: int| 0 <= k < r@.len() implies (#[trigger] r@[k]).contents@
                == spec_contents(*self, text@)[k] by {
                assert(titles@.map_values(f)[k] == titles@[k].start_pos as int);
                if k < r@.len() - 1 {
                    assert(titles@.map_values(f)[k + 1] == titles@[k + 1].start_pos as int);
                }
            }
        }
        r
    }
}

/// A synthetic heading title: a nonempty single line starting with a
/// lowercase letter.
pub open spec fn wf_rst_title(t: Seq<char>) -> bool {
    t.len() >= 1 && is_lower_alpha(t[0]) && forall|j: int| 0 <= j < t.len() ==> t[j] != '\n'
}

/// A synthetic body: a nonempty single line.
pub open spec fn wf_rst_body(b: Seq<char>) -> bool {
    b.len() >= 1 && forall|j: int| 0 <= j < b.len() ==> b[j] != '\n'
}

/// One synthetic section: a blank line, the title line, a double-equals
/// underline, a blank line, and the body line.
pub open spec fn rst_piece(title: Seq<char>, body: Seq<char>) -> Seq<char> {
    seq!['\n'] + title + seq!['\n', '=', '=', '\n', '\n'] + body + seq!['\n']
}

/// A text built by concatenating synthetic sections.
pub open spec fn build_rst(titles: Seq<Seq<char>>, bodies: Seq<Seq<char>>) -> Seq<char>
    decreases titles.len(),
{
    if titles.len() == 0 {
        Seq::empty()
    } else {
        rst_piece(titles[0], bodies[0]) + build_rst(titles.drop_first(), bodies.drop_first())
    }
}

/// The characters of one synthetic section, position by position.
proof fn lemma_piece_chars(title: Seq<char>, body: Seq<char>)
    ensures
        ({
            let piece = rst_piece(title, body);
            let tl = title.len() as int;
            let bl = body.len() as int;
            &&& piece.len() == 7 + tl + bl
            &&& piece[0] == '\n'
            &&& forall|j: int| 0 <= j < tl ==> piece[1 + j] == title[j]
            &&& piece[1 + tl] == '\n'
            &&& piece[2 + tl] == '='
            &&& piece[3 + tl] == '='
            &&& piece[4 + tl] == '\n'
            &&& piece[5 + tl] == '\n'
            &&& forall|j: int| 0 <= j < bl ==> piece[6 + tl + j] == body[j]
            &&& piece[6 + tl + bl] == '\n'
        }),
{
    let tl = title.len() as int;
    let bl = body.len() as int;
    let a = seq!['\n'] + title;
    let b = a + seq!['\n', '=', '=', '\n', '\n'];
    let c = b + body;
    let piece = rst_piece(title, body);
    assert(piece =~= c + seq!['\n']);
    assert(a.len() == 1 + tl);
    assert(b.len() == 6 + tl);
    assert(c.len() == 6 + tl + bl);
    assert(piece[0] == '\n') by {
        assert(piece[0] == c[0]);
        assert(c[0] == b[0]);
        assert(b[0] == a[0]);
    }
    assert forall|j: int| 0 <= j < tl implies piece[1 + j] == title[j] by {
        assert(piece[1 + j] == c[1 + j]);
        assert(c[1 + j] == b[1 + j]);
        assert(b[1 + j] == a[1 + j]);
        assert(a[1 + j] == title[j]);
    }
    assert(piece[1 + tl] == '\n') by {
        assert(piece[1 + tl] == c[1 + tl]);
        assert(c[1 + tl] == b[1 + tl]);
        assert(b[1 + tl] == seq!['\n', '=', '=', '\n', '\n'][0]);
    }
    assert(piece[2 + tl] == '=') by {
        assert(piece[2 + tl] == c[2 + tl]);
        assert(c[2 + tl] == b[2 + tl]);
        assert(b[2 + tl] == seq!['\n', '=', '=', '\n', '\n'][1]);
    }
    assert(piece[3 + tl] == '=') by {
        assert(piece[3 + tl] == c[3 + tl]);
        assert(c[3 + tl] == b[3 + tl]);
        assert(b[3 + tl] == seq!['\n', '=', '=', '\n', '\n'][2]);
    }
    assert(piece[4 + tl] == '\n') by {
        assert(piece[4 + tl] == c[4 + tl]);
        assert(c[4 + tl] == b[4 + tl]);
        assert(b[4 + tl] == seq!['\n', '=', '=', '\n', '\n'][3]);
    }
    assert(piece[5 + tl] == '\n') by {
        assert(piece[5 + tl] == c[5 + tl]);
        assert(c[5 + tl] == b[5 + tl]);
        assert(b[5 + tl] == seq!['\n', '=', '=', '\n', '\n'][4]);
    }
    assert forall|j: int| 0 <= j < bl implies piece[6 + tl + j] == body[j] by {
        assert(piece[6 + tl + j] == c[6 + tl + j]);
        assert(c[6 + tl + j] == body[j]);
    }
    assert(piece[6 + tl + bl] == '\n') by {
        assert(piece[6 + tl + bl] == seq!['\n'][0]);
    }
}

/// Scanning a built text from a line start finds exactly one heading per
/// synthetic section, capturing each title verbatim, with each body (plus its
/// line break) lying exactly between one heading's end and the next heading's
/// start.
#[verifier::rlimit(100)]
proof fn lemma_build_scan(titles: Seq<Seq<char>>, bodies: Seq<Seq<char>>, t: Seq<char>, base: int)
    requires
        titles.len() == bodies.len(),
        forall|i: int| 0 <= i < titles.len() ==> wf_rst_title(#[trigger] titles[i]),
        forall|i: int| 0 <= i < bodies.len() ==> wf_rst_body(#[trigger] bodies[i]),
        0 <= base <= t.len(),
        t.skip(base) == build_rst(titles, bodies),
        is_line_start(t, base),
    ensures
        ({
            let pat = SectionPattern::RstHeading;
            let ms = matches_from(pat, t, base);
            &&& ms.len() == titles.len()
            &&& titles.len() > 0 ==> ms[0] == base
            &&& forall|i: int|
                0 <= i < titles.len() ==> title_at(pat, t, #[trigger] ms[i]) == titles[i]
            &&& forall|i: int|
                0 <= i < titles.len() - 1 ==> t.subrange(
                    match_end(pat, t, #[trigger] ms[i]),
                    ms[i + 1],
                ) == bodies[i] + seq!['\n']
            &&& titles.len() > 0 ==> t.subrange(
                match_end(pat, t, ms[titles.len() - 1]),
                t.len() as int,
            ) == bodies[titles.len() - 1] + seq!['\n']
        }),
    decreases titles.len(),
{
    let pat = SectionPattern::RstHeading;
    if titles.len() == 0 {
        assert(t.skip(base).len() == 0);
        assert(base == t.len());
        assert(matches_from(pat, t, base) =~= Seq::<int>::empty());
    } else {
        let title = titles[0];
        let body = bodies[0];
        let tl = title.len() as int;
        let bl = body.len() as int;
        let piece = rst_piece(title, body);
        let plen = 7 + tl + bl;
        assert(piece.len() == plen);
        let rest = build_rst(titles.drop_first(), bodies.drop_first());
        assert(t.skip(base) == piece + rest);
        assert(t.len() - base == plen + rest.len());
        let next = base + plen;
        lemma_piece_chars(title, body);
        assert forall|j: int| 0 <= j < plen implies t[base + j] == piece[j] by {
            assert(t.skip(base)[j] == t[base + j]);
            assert((piece + rest)[j] == piece[j]);
        }
        // The layout of the first piece.
        assert(t[base] == '\n') by {
            assert(t[base + 0] == piece[0]);
        }
        assert forall|j: int| 0 <= j < tl implies t[base + 1 + j] == title[j] by {
            assert(t[base + (1 + j)] == piece[1 + j]);
        }
        assert(t[base + 1 + tl] == '\n') by {
            assert(t[base + (1 + tl)] == piece[1 + tl]);
        }
        assert(t[base + 2 + tl] == '=') by {
            assert(t[base + (2 + tl)] == piece[2 + tl]);
        }
        assert(t[base + 3 + tl] == '=') by {
            assert(t[base + (3 + tl)] == piece[3 + tl]);
        }
        assert(t[base + 4 + tl] == '\n') by {
            assert(t[base + (4 + tl)] == piece[4 + tl]);
        }
        assert(t[base + 5 + tl] == '\n') by {
            assert(t[base + (5 + tl)] == piece[5 + tl]);
        }
        assert forall|j: int| 0 <= j < bl implies t[base + 6 + tl + j] == body[j] by {
            assert(t[base + (6 + tl + j)] == piece[6 + tl + j]);
        }
        assert(t[base + 6 + tl + bl] == '\n') by {
            assert(t[base + (6 + tl + bl)] == piece[6 + tl + bl]);
        }
        // The heading at `base` matches.
        assert forall|j: int| base + 1 <= j < base + 1 + tl implies t[j] != '\n' by {
            assert(t[j] == title[j - base - 1]);
        }
        lemma_line_end_is(t, base + 1, base + 1 + tl);
        lemma_line_end_is(t, base + 2 + tl, base + 4 + tl);
        assert(rst_at(t, base)) by {
            assert(is_lower_alpha(t[base + 1])) by {
                assert(t[base + 1] == title[0]);
            }
            assert forall|j: int| base + 2 + tl <= j < base + 4 + tl implies is_underline_char(
                t[j],
            ) by {
                assert(j == base + 2 + tl || j == base + 3 + tl);
            }
        }
        assert(match_end(pat, t, base) == base + 6 + tl);
        assert(title_at(pat, t, base) =~= title);
        lemma_match_end_bounds(pat, t, base);
        assert(matches_from(pat, t, base) == seq![base] + matches_from(pat, t, base + 6 + tl));
        // No heading starts inside the body region.
        assert forall|q: int| base + 6 + tl <= q < next implies !match_at(pat, t, q) by {
            if q == base + 6 + tl {
                assert(t[q] == body[0]);
            } else {
                assert(base + 6 + tl <= q - 1 < base + 6 + tl + bl);
                assert(t[q - 1] == body[q - 1 - (base + 6 + tl)]);
                assert(!is_line_start(t, q));
            }
        }
        lemma_no_match_zone(pat, t, base + 6 + tl, next);
        // The rest of the text is the remaining sections.
        assert(t.skip(next) =~= rest) by {
            assert(t.skip(next).len() == rest.len());
            assert forall|j: int| 0 <= j < rest.len() implies t.skip(next)[j] == rest[j] by {
                assert(t.skip(next)[j] == t[next + j]);
                assert(t.skip(base)[plen + j] == t[base + (plen + j)]);
                assert((piece + rest)[plen + j] == rest[j]);
            }
        }
        assert(is_line_start(t, next)) by {
            assert(t[next - 1] == '\n');
        }
        lemma_build_scan(titles.drop_first(), bodies.drop_first(), t, next);
        let ms_rest = matches_from(pat, t, next);
        let ms = matches_from(pat, t, base);
        assert(ms == seq![base] + ms_rest);
        assert(t.subrange(base + 6 + tl, next) =~= body + seq!['\n']);
        if titles.len() == 1 {
            assert(ms.len() == 1);
            assert(next == t.len());
        } else {
            assert(ms_rest[0] == next);
            assert(ms[1] == next);
        }
        assert forall|i: int| 0 <= i < titles.len() implies title_at(pat, t, #[trigger] ms[i])
            == titles[i] by {
            if i > 0 {
                assert(ms[i] == ms_rest[i - 1]);
                assert(titles.drop_first()[i - 1] == titles[i]);
            }
        }
        assert forall|i: int| 0 <= i < titles.len() - 1 implies t.subrange(
            match_end(pat, t, #[trigger] ms[i]),
            ms[i + 1],
        ) == bodies[i] + seq!['\n'] by {
            if i > 0 {
                assert(ms[i] == ms_rest[i - 1]);
                assert(ms[i + 1] == ms_rest[i]);
                assert(bodies.drop_first()[i - 1] == bodies[i]);
            }
        }
        if titles.len() > 1 {
            let last = titles.len() - 1;
            assert(ms[last] == ms_rest[last - 1]);
            assert(bodies.drop_first()[last - 1] == bodies[last]);
        }
    }
}

/// Segmentation round trip: a text built by concatenating synthetic headings
/// and single-line bodies segments into exactly one paragraph per heading,
/// whose title is the heading's trimmed title and whose contents are the
/// trimmed body.
pub proof fn lemma_segmentation_round_trip(titles: Seq<Seq<char>>, bodies: Seq<Seq<char>>)
    requires
        titles.len() == bodies.len(),
        forall|i: int| 0 <= i < titles.len() ==> wf_rst_title(#[trigger] titles[i]),
        forall|i: int| 0 <= i < bodies.len() ==> wf_rst_body(#[trigger] bodies[i]),
    ensures
        ({
            let pat = SectionPattern::RstHeading;
            let text = build_rst(titles, bodies);
            &&& matches_from(pat, text, 0).len() == titles.len()
            &&& forall|i: int|
                0 <= i < titles.len() ==> #[trigger] spec_titles(pat, text)[i] == trim_seq(
                    titles[i],
                )
            &&& forall|i: int|
                0 <= i < titles.len() ==> #[trigger] spec_contents(pat, text)[i] == trim_seq(
                    bodies[i],
                )
        }),
{
    let pat = SectionPattern::RstHeading;
    let text = build_rst(titles, bodies);
    assert(text.skip(0) =~= text);
    lemma_build_scan(titles, bodies, text, 0);
    let ms = matches_from(pat, text, 0);
    assert forall|i: int| 0 <= i < titles.len() implies #[trigger] spec_titles(pat, text)[i]
        == trim_seq(titles[i]) by {
        assert(title_at(pat, text, ms[i]) == titles[i]);
    }
    assert forall|i: int| 0 <= i < titles.len() implies #[trigger] spec_contents(pat, text)[i]
        == trim_seq(bodies[i]) by {
        let raw = if i == ms.len() - 1 {
            text.subrange(match_end(pat, text, ms[i]), text.len() as int)
        } else {
            text.subrange(match_end(pat, text, ms[i]), ms[i + 1])
        };
        assert(raw == bodies[i] + seq!['\n']);
        assert(bodies[i].push('\n') =~= bodies[i] + seq!['\n']);
        crate::text::lemma_trim_push_space(bodies[i], '\n');
    }
}

} // verus!
