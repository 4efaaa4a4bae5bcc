//! Parse results: titled paragraphs extracted from a documentation file.

use vstd::prelude::*;

use crate::text::{trim_chars_range, trim_seq, trim_str};

verus! {

/// Representation of a paragraph in a [`Document`].
#[derive(Clone, Debug)]
pub struct Paragraph {
    /// Paragraph title.
    pub title: String,
    /// Raw contents of a paragraph.
    pub contents: String,
}

/// A recognized section heading: the characters of its title capture and the
/// bounds of the whole heading within the scanned text.
#[derive(Clone, Debug)]
pub struct Title {
    /// Title value.
    pub value: String,
    /// Start position of the heading.
    pub start_pos: usize,
    /// End position of the heading.
    pub end_pos: usize,
}

impl Paragraph {
    /// Constructs a new instance.
    pub fn new(title: String, contents: String) -> (r: Self)
        ensures
            r.title == title,
            r.contents == contents,
    {
        Self { title, contents }
    }
}

/// Titles are ordered, lie within a text of length `n`, and each heading ends
/// no later than the next begins.
pub open spec fn wf_titles(titles: Seq<Title>, n: int) -> bool {
    &&& forall|i: int|
        0 <= i < titles.len() ==> (#[trigger] titles[i]).start_pos <= titles[i].end_pos <= n
    &&& forall|i: int|
        0 < i < titles.len() ==> (#[trigger] titles[i]).start_pos >= titles[i - 1].end_pos
}

/// The trimmed contents belonging to title `i`: the text between the end of
/// heading `i` and the start of heading `i + 1`, or the end of the text for
/// the last heading.
pub open spec fn spec_contents_of(titles: Seq<Title>, t: Seq<char>, i: int) -> Seq<char> {
    if i == titles.len() - 1 {
        trim_seq(t.subrange(titles[i].end_pos as int, t.len() as int))
    } else {
        trim_seq(t.subrange(titles[i].end_pos as int, titles[i + 1].start_pos as int))
    }
}

impl Paragraph {
    /// Constructs the paragraphs delimited by the given headings: each
    /// paragraph's title is the heading's trimmed title, and its contents are
    /// the trimmed text between that heading and the next.
    pub fn from_titles(titles: &Vec<Title>, text: &[char]) -> (r: Vec<Paragraph>)
        requires
            wf_titles(titles@, text@.len() as int),
        ensures
            r@.len() == titles@.len(),
            forall|i: int|
                0 <= i < r@.len() ==> (#[trigger] r@[i]).title@ == trim_seq(titles@[i].value@),
            forall|i: int|
                0 <= i < r@.len() ==> (#[trigger] r@[i]).contents@ == spec_contents_of(
                    titles@,
                    text@,
                    i,
                ),
    {
        let mut r: Vec<Paragraph> = Vec::new();
        let n = titles.len();
        let mut i: usize = 0;
        while i < n
            invariant
                0 <= i <= n == titles@.len(),
                wf_titles(titles@, text@.len() as int),
                r@.len() == i,
                forall|j: int|
                    0 <= j < i ==> (#[trigger] r@[j]).title@ == trim_seq(titles@[j].value@),
                forall|j: int|
                    0 <= j < i ==> (#[trigger] r@[j]).contents@ == spec_contents_of(
                        titles@,
                        text@,
                        j,
                    ),
            decreases n - i,
        {
            let title = trim_str(titles[i].value.as_str());
            let from = titles[i].end_pos;
            let to = if i + 1 < n {
                titles[i + 1].start_pos
            } else {
                text.len()
            };
            proof {
                assert(titles@[i as int].start_pos <= titles@[i as int].end_pos <= text@.len());
                if i + 1 < n {
                    assert(titles@[i + 1].start_pos >= titles@[i as int].end_pos);
                    assert(titles@[i + 1].start_pos <= titles@[i + 1].end_pos <= text@.len());
                }
            }
            let contents = trim_chars_range(text, from, to);
            r.push(Paragraph { title, contents });
            i += 1;
        }
        r
    }
}

/// Representation of a parsed document which consists of paragraphs.
#[derive(Clone, Debug)]
pub struct Document {
    /// Paragraphs in the document.
    pub paragraphs: Vec<Paragraph>,
    /// Source of the document.
    pub path: String,
}

impl Document {
    /// Constructs a new instance.
    pub fn new(paragraphs: Vec<Paragraph>, path: String) -> (r: Self)
        ensures
            r.paragraphs == paragraphs,
            r.path == path,
    {
        Self { paragraphs, path }
    }
}

} // verus!
