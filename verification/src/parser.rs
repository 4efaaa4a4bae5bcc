//! Parser profiles: each profile pairs glob patterns selecting its files with
//! the heading dialect used to segment them. The caller enumerates the files
//! under the documentation root and reads the selected ones; everything that
//! decides — selection, required-file checks, decoding and segmentation — is
//! done here.

use vstd::prelude::*;
use vstd::string::StringExecFns;
use vstd::utf8::{decode_utf8, encode_utf8, encode_utf8_decode_utf8, valid_utf8};

use crate::document::Document;
use crate::error::Error;
use crate::glob::{glob_matches, spec_glob_match};
use crate::segment::{matches_from, spec_contents, spec_titles, SectionPattern};
use crate::text::{last_index_of, lemma_last_index_of, str_to_chars};

verus! {

/// Parser profile for text documents: glob patterns select the files,
/// required files must be among them, and the section pattern segments their
/// contents.
#[derive(Clone, Debug)]
pub struct Parser {
    /// Glob patterns to specify the files to parse.
    pub glob_path: Vec<String>,
    /// Files to check during path traversal.
    pub required_files: Vec<String>,
    /// Heading dialect to use for parsing.
    pub pattern: SectionPattern,
}

/// One documentation file handed over by the caller: its path relative to the
/// documentation root, and its raw bytes.
#[derive(Clone, Debug)]
pub struct SourceFile {
    /// Path of the file, relative to the documentation root.
    pub path: String,
    /// Raw bytes of the file.
    pub data: Vec<u8>,
}

/// What decompressing a gzip stream yields; the result is a function of the
/// compressed bytes alone.
pub uninterp spec fn gunzip_of(b: Seq<u8>) -> Seq<char>;

/// Decompresses a gzip stream into text.
///
/// Relies on flate2's `GzDecoder` together with `Read::read_to_string`:
/// decompression is deterministic in the input bytes, and an invalid stream
/// or non-UTF-8 contents report an error.
#[verifier::external_body]
fn gunzip(bytes: &Vec<u8>) -> (r: Result<String, Error>)
    ensures
        r matches Ok(s) ==> s@ == gunzip_of(bytes@),
        r matches Err(e) ==> e is IoError,
{
    let mut gz = flate2::read::GzDecoder::new(&bytes[..]);
    let mut s = String::new();
    match std::io::Read::read_to_string(&mut gz, &mut s) {
        Ok(_) => Ok(s),
        Err(e) => Err(Error::IoError(e.to_string())),
    }
}

/// Reads a byte buffer as UTF-8 text.
///
/// Relies on `String::from_utf8`: it succeeds exactly on valid UTF-8, and the
/// returned string holds exactly the given bytes.
#[verifier::external_body]
fn utf8_string(bytes: &Vec<u8>) -> (r: Result<String, Error>)
    ensures
        r is Ok <==> valid_utf8(bytes@),
        r matches Ok(s) ==> encode_utf8(s@) == bytes@,
        r matches Err(e) ==> e is Utf8Error,
{
    match String::from_utf8(bytes.clone()) {
        Ok(s) => Ok(s),
        Err(_) => Err(Error::Utf8Error),
    }
}

/// The paths selected by a list of glob patterns, in pattern order and, per
/// pattern, in listing order.
pub open spec fn spec_selected(globs: Seq<Seq<char>>, listing: Seq<Seq<char>>) -> Seq<Seq<char>>
    decreases globs.len(),
{
    if globs.len() == 0 {
        Seq::empty()
    } else {
        listing.filter(|f: Seq<char>| spec_glob_match(globs[0], f)) + spec_selected(
            globs.drop_first(),
            listing,
        )
    }
}

/// The file-name part of a relative path: everything after its last `/`.
pub open spec fn spec_file_name(path: Seq<char>) -> Seq<char> {
    path.subrange(last_index_of(path, '/') + 1, path.len() as int)
}

/// Some selected path carries the given file name.
pub open spec fn has_file(sel: Seq<Seq<char>>, name: Seq<char>) -> bool {
    exists|i: int| 0 <= i < sel.len() && spec_file_name(#[trigger] sel[i]) == name
}

/// Index of the first required, non-empty file name that no selected path
/// carries, or `-1` when every one is present.
pub open spec fn first_missing(required: Seq<Seq<char>>, sel: Seq<Seq<char>>) -> int
    decreases required.len(),
{
    if required.len() == 0 {
        -1
    } else if required[0].len() > 0 && !has_file(sel, required[0]) {
        0
    } else if first_missing(required.drop_first(), sel) == -1 {
        -1
    } else {
        first_missing(required.drop_first(), sel) + 1
    }
}

pub proof fn lemma_first_missing(required: Seq<Seq<char>>, sel: Seq<Seq<char>>)
    ensures
        -1 <= first_missing(required, sel) < required.len(),
        first_missing(required, sel) >= 0 ==> {
            let f = first_missing(required, sel);
            required[f].len() > 0 && !has_file(sel, required[f])
        },
        forall|k: int|
            0 <= k < first_missing(required, sel) ==> ((#[trigger] required[k]).len() == 0
                || has_file(sel, required[k])),
        first_missing(required, sel) == -1 ==> forall|k: int|
            0 <= k < required.len() ==> ((#[trigger] required[k]).len() == 0 || has_file(
                sel,
                required[k],
            )),
    decreases required.len(),
{
    if required.len() == 0 {
    } else if required[0].len() > 0 && !has_file(sel, required[0]) {
    } else {
        lemma_first_missing(required.drop_first(), sel);
        let r = first_missing(required.drop_first(), sel);
        if r >= 0 {
            assert(required.drop_first()[r] == required[r + 1]);
            assert forall|k: int| 0 <= k < first_missing(required, sel) implies ((#[trigger]
            required[k]).len() == 0 || has_file(sel, required[k])) by {
                if k > 0 {
                    assert(required.drop_first()[k - 1].len() == 0 || has_file(
                        sel,
                        required.drop_first()[k - 1],
                    ));
                }
            }
        } else {
            assert forall|k: int| 0 <= k < required.len() implies ((#[trigger]
            required[k]).len() == 0 || has_file(sel, required[k])) by {
                if k > 0 {
                    assert(required.drop_first()[k - 1].len() == 0 || has_file(
                        sel,
                        required.drop_first()[k - 1],
                    ));
                }
            }
        }
    }
}

/// Extracts the file-name part of a relative path.
fn file_name_of(path: &str) -> (r: Vec<char>)
    ensures
        r@ == spec_file_name(path@),
{
    let t = str_to_chars(path);
    proof {
        lemma_last_index_of(t@, '/');
    }
    let mut i: usize = t.len();
    while i > 0
        invariant
            0 <= i <= t@.len(),
            t@ == path@,
            forall|j: int| i <= j < t@.len() ==> t@[j] != '/',
        decreases i,
    {
        if t[i - 1] == '/' {
            proof {
                assert(last_index_of(t@, '/') == i - 1) by {
                    lemma_last_index_of(t@, '/');
                    if last_index_of(t@, '/') > i - 1 {
                        assert(t@[last_index_of(t@, '/')] != '/');
                    }
                    if last_index_of(t@, '/') < i - 1 {
                        assert(t@[i - 1] != '/');
                    }
                }
            }
            let s = vstd::slice::slice_subrange(t.as_slice(), i, t.len());
            let mut r: Vec<char> = Vec::new();
            r.extend_from_slice(s);
            proof {
                assert(r@ =~= spec_file_name(path@));
            }
            return r;
        }
        i -= 1;
    }
    proof {
        assert(last_index_of(t@, '/') == -1) by {
            lemma_last_index_of(t@, '/');
            if last_index_of(t@, '/') >= 0 {
                assert(t@[last_index_of(t@, '/')] != '/');
            }
        }
    }
    let s = vstd::slice::slice_subrange(t.as_slice(), 0, t.len());
    let mut r: Vec<char> = Vec::new();
    r.extend_from_slice(s);
    proof {
        assert(r@ =~= spec_file_name(path@));
    }
    r
}

/// The path names a gzip-compressed file.
pub open spec fn is_gz_path(p: Seq<char>) -> bool {
    p.len() >= 3 && p.subrange(p.len() - 3, p.len() as int) == seq!['.', 'g', 'z']
}

/// The text a source file decodes to: gzip files decompress, all others are
/// read as UTF-8.
pub open spec fn spec_decoded(f: SourceFile) -> Seq<char> {
    if is_gz_path(f.path@) {
        gunzip_of(f.data@)
    } else {
        decode_utf8(f.data@)
    }
}

/// The document that parsing a source file with dialect `pat` must produce:
/// the file's own path, and the paragraphs that segmenting its decoded text
/// yields.
pub open spec fn doc_matches_file(d: Document, f: SourceFile, pat: SectionPattern) -> bool {
    let t = spec_decoded(f);
    &&& d.path@ == f.path@
    &&& d.paragraphs@.len() == matches_from(pat, t, 0).len()
    &&& forall|k: int|
        0 <= k < d.paragraphs@.len() ==> (#[trigger] d.paragraphs@[k]).title@ == spec_titles(
            pat,
            t,
        )[k]
    &&& forall|k: int|
        0 <= k < d.paragraphs@.len() ==> (#[trigger] d.paragraphs@[k]).contents@ == spec_contents(
            pat,
            t,
        )[k]
}

fn ends_with_gz(path: &str) -> (r: bool)
    ensures
        r == is_gz_path(path@),
{
    let t = str_to_chars(path);
    let n = t.len();
    if n < 3 {
        return false;
    }
    let hit = t[n - 3] == '.' && t[n - 2] == 'g' && t[n - 1] == 'z';
    proof {
        if hit {
            assert(t@.subrange(n - 3, n as int) =~= seq!['.', 'g', 'z']);
        } else {
            if path@.subrange(n - 3, n as int) == seq!['.', 'g', 'z'] {
                assert(path@.subrange(n - 3, n as int)[0] == '.');
                assert(path@.subrange(n - 3, n as int)[1] == 'g');
                assert(path@.subrange(n - 3, n as int)[2] == 'z');
            }
        }
    }
    hit
}

impl Parser {
    /// Constructs a new instance.
    pub fn new(glob_path: Vec<String>, required_files: Vec<String>, pattern: SectionPattern) -> (r:
        Parser)
        ensures
            r.glob_path == glob_path,
            r.required_files == required_files,
            r.pattern == pattern,
    {
        Parser { glob_path, required_files, pattern }
    }

    /// Selects from a listing of the documentation root the files this
    /// profile parses: the paths matching its glob patterns, in pattern
    /// order. An empty selection is an error, as is a selection missing one
    /// of the required file names.
    pub fn select_files(&self, listing: &Vec<String>) -> (r: Result<Vec<String>, Error>)
        ensures
            ({
                let sel = spec_selected(
                    self.glob_path@.map_values(|g: String| g@),
                    listing@.map_values(|f: String| f@),
                );
                let req = self.required_files@.map_values(|q: String| q@);
                match r {
                    Ok(v) => v@.map_values(|f: String| f@) == sel && sel.len() > 0
                        && first_missing(req, sel) == -1,
                    Err(Error::EmptyFileListError) => sel.len() == 0,
                    Err(Error::MissingFileError(n)) => sel.len() > 0 && first_missing(req, sel)
                        >= 0 && n@ == req[first_missing(req, sel)],
                    Err(_) => false,
                }
            }),
    {
        let ghost globs = self.glob_path@.map_values(|g: String| g@);
        let ghost files = listing@.map_values(|f: String| f@);
        let mut sel: Vec<String> = Vec::new();
        proof {
            assert(globs.subrange(0, globs.len() as int) =~= globs);
            assert(sel@.map_values(|f: String| f@) =~= Seq::<Seq<char>>::empty());
        }
        let mut gi: usize = 0;
        while gi < self.glob_path.len()
            invariant
                0 <= gi <= self.glob_path@.len(),
                globs == self.glob_path@.map_values(|g: String| g@),
                files == listing@.map_values(|f: String| f@),
                spec_selected(globs, files) == sel@.map_values(|f: String| f@) + spec_selected(
                    globs.subrange(gi as int, globs.len() as int),
                    files,
                ),
            decreases self.glob_path@.len() - gi,
        {
            let ghost suffix = globs.subrange(gi as int, globs.len() as int);
            let ghost pred = |f: Seq<char>| spec_glob_match(suffix[0], f);
            proof {
                assert(suffix[0] == globs[gi as int]);
                assert(suffix.drop_first() =~= globs.subrange(gi + 1, globs.len() as int));
            }
            let g = &self.glob_path[gi];
            let mut fv: Vec<String> = Vec::new();
            let mut fi: usize = 0;
            while fi < listing.len()
                invariant
                    0 <= fi <= listing@.len(),
                    files == listing@.map_values(|f: String| f@),
                    suffix == globs.subrange(gi as int, globs.len() as int),
                    pred == (|f: Seq<char>| spec_glob_match(suffix[0], f)),
                    gi < globs.len(),
                    g@ == globs[gi as int],
                    g@ == suffix[0],
                    fv@.map_values(|f: String| f@) == files.subrange(0, fi as int).filter(pred),
                decreases listing@.len() - fi,
            {
                let ghost prefix = files.subrange(0, fi as int);
                let ghost next = files.subrange(0, fi + 1);
                proof {
                    assert(next.drop_last() =~= prefix);
                    assert(next.last() == files[fi as int]);
                    assert(files[fi as int] == listing@[fi as int]@);
                }
                if glob_matches(g.as_str(), listing[fi].as_str()) {
                    let item = listing[fi].clone();
                    fv.push(item);
                    proof {
                        assert(fv@.map_values(|f: String| f@) =~= prefix.filter(pred).push(
                            files[fi as int],
                        ));
                    }
                }
                proof {
                    reveal_with_fuel(Seq::filter, 2);
                    assert(fv@.map_values(|f: String| f@) =~= next.filter(pred));
                }
                fi += 1;
            }
            proof {
                assert(files.subrange(0, files.len() as int) =~= files);
            }
            let ghost old_sel = sel@;
            let mut si: usize = 0;
            while si < fv.len()
                invariant
                    0 <= si <= fv@.len(),
                    sel@ == old_sel + fv@.subrange(0, si as int),
                decreases fv@.len() - si,
            {
                let item = fv[si].clone();
                sel.push(item);
                proof {
                    assert(old_sel + fv@.subrange(0, si + 1) =~= (old_sel + fv@.subrange(
                        0,
                        si as int,
                    )).push(fv@[si as int]));
                }
                si += 1;
            }
            proof {
                assert(fv@.subrange(0, fv@.len() as int) =~= fv@);
                assert(sel@.map_values(|f: String| f@) =~= old_sel.map_values(|f: String| f@)
                    + fv@.map_values(|f: String| f@));
                assert(spec_selected(suffix, files) == files.filter(pred) + spec_selected(
                    suffix.drop_first(),
                    files,
                ));
                assert(spec_selected(globs, files) =~= sel@.map_values(|f: String| f@)
                    + spec_selected(globs.subrange(gi + 1, globs.len() as int), files));
            }
            gi += 1;
        }
        proof {
            assert(globs.subrange(globs.len() as int, globs.len() as int)
                =~= Seq::<Seq<char>>::empty());
            assert(spec_selected(globs, files) =~= sel@.map_values(|f: String| f@));
        }
        if sel.len() == 0 {
            return Err(Error::EmptyFileListError);
        }
        let ghost selv = sel@.map_values(|f: String| f@);
        let ghost req = self.required_files@.map_values(|q: String| q@);
        let mut qi: usize = 0;
        while qi < self.required_files.len()
            invariant
                0 <= qi <= self.required_files@.len(),
                req == self.required_files@.map_values(|q: String| q@),
                selv == sel@.map_values(|f: String| f@),
                selv == spec_selected(
                    self.glob_path@.map_values(|g: String| g@),
                    listing@.map_values(|f: String| f@),
                ),
                sel@.len() > 0,
                forall|k: int|
                    0 <= k < qi ==> ((#[trigger] req[k]).len() == 0 || has_file(selv, req[k])),
            decreases self.required_files@.len() - qi,
        {
            let q = &self.required_files[qi];
            proof {
                assert(req[qi as int] == q@);
            }
            if !q.as_str().is_empty() {
                let qc = str_to_chars(q.as_str());
                let mut found = false;
                let mut si: usize = 0;
                while !found && si < sel.len()
                    invariant
                        0 <= si <= sel@.len(),
                        selv == sel@.map_values(|f: String| f@),
                        qc@ == q@,
                        !found ==> forall|k: int|
                            0 <= k < si ==> spec_file_name(#[trigger] selv[k]) != q@,
                        found ==> has_file(selv, q@),
                    decreases sel@.len() - si + (if found {
                        0int
                    } else {
                        1int
                    }),
                {
                    let fname = file_name_of(sel[si].as_str());
                    proof {
                        assert(selv[si as int] == sel@[si as int]@);
                    }
                    if crate::text::chars_eq(fname.as_slice(), qc.as_slice()) {
                        found = true;
                        proof {
                            assert(spec_file_name(selv[si as int]) == q@);
                        }
                    } else {
                        si += 1;
                    }
                }
                if !found {
                    proof {
                        assert(!has_file(selv, q@)) by {
                            if has_file(selv, q@) {
                                let w = choose|i: int|
                                    0 <= i < selv.len() && spec_file_name(#[trigger] selv[i])
                                        == q@;
                                assert(spec_file_name(selv[w]) != q@);
                            }
                        }
                        lemma_first_missing(req, selv);
                        let fm = first_missing(req, selv);
                        if fm == -1 {
                            assert(req[qi as int].len() == 0 || has_file(selv, req[qi as int]));
                        }
                        if fm >= 0 && fm < qi {
                            assert(req[fm].len() == 0 || has_file(selv, req[fm]));
                        }
                        if fm > qi {
                            assert(req[qi as int].len() == 0 || has_file(selv, req[qi as int]));
                        }
                    }
                    return Err(Error::MissingFileError(q.clone()));
                }
            }
            qi += 1;
        }
        proof {
            lemma_first_missing(req, selv);
            let fm = first_missing(req, selv);
            if fm >= 0 {
                assert(req[fm].len() == 0 || has_file(selv, req[fm]));
            }
        }
        Ok(sel)
    }

    /// Parses the given source files into documents: each file is
    /// decompressed or read as UTF-8, segmented with this profile's heading
    /// dialect, and returned under its own path. Reading a plain file that is
    /// not valid UTF-8 is an error; decoding never fails on valid inputs.
    pub fn parse_documents(&self, files: &Vec<SourceFile>) -> (r: Result<Vec<Document>, Error>)
        ensures
            r matches Ok(docs) ==> docs@.len() == files@.len() && forall|i: int|
                0 <= i < docs@.len() ==> doc_matches_file(
                    #[trigger] docs@[i],
                    files@[i],
                    self.pattern,
                ),
            (forall|i: int|
                0 <= i < files@.len() ==> !is_gz_path((#[trigger] files@[i]).path@) && valid_utf8(
                    files@[i].data@,
                )) ==> r is Ok,
            r matches Err(e) ==> (e is Utf8Error && exists|i: int|
                0 <= i < files@.len() && !is_gz_path((#[trigger] files@[i]).path@) && !valid_utf8(
                    files@[i].data@,
                )) || (e is IoError && exists|i: int|
                0 <= i < files@.len() && is_gz_path((#[trigger] files@[i]).path@)),
    {
        let mut docs: Vec<Document> = Vec::new();
        let mut i: usize = 0;
        while i < files.len()
            invariant
                0 <= i <= files@.len(),
                docs@.len() == i,
                forall|k: int|
                    0 <= k < i ==> doc_matches_file(#[trigger] docs@[k], files@[k], self.pattern),
            decreases files@.len() - i,
        {
            let f = &files[i];
            let text: String = if ends_with_gz(f.path.as_str()) {
                match gunzip(&f.data) {
                    Ok(s) => s,
                    Err(e) => {
                        return Err(e);
                    },
                }
            } else {
                match utf8_string(&f.data) {
                    Ok(s) => {
                        proof {
                            encode_utf8_decode_utf8(s@);
                        }
                        s
                    },
                    Err(e) => {
                        return Err(e);
                    },
                }
            };
            proof {
                assert(text@ == spec_decoded(files@[i as int]));
            }
            let paras = self.pattern.segment(text.as_str());
            let doc = Document { paragraphs: paras, path: f.path.clone() };
            docs.push(doc);
            i += 1;
        }
        Ok(docs)
    }
}

/// The fixed profile table for the Linux kernel documentation: the general
/// tunable documents under `admin-guide/sysctl`, and the networking tunable
/// documents under `networking`.
pub fn default_parsers() -> (r: Vec<Parser>)
    ensures
        r@.len() == 2,
        r@[0].glob_path@.map_values(|g: String| g@) == seq!["admin-guide/sysctl/*.rst*"@],
        r@[0].required_files@.map_values(|q: String| q@) == seq!["index.rst"@],
        r@[0].pattern == SectionPattern::RstHeading,
        r@[1].glob_path@.map_values(|g: String| g@) == seq![
            "networking/*-sysctl.rst"@,
            "networking/*-sysctl.txt*"@,
        ],
        r@[1].required_files@.len() == 0,
        r@[1].pattern == SectionPattern::DashHeading,
{
    let mut g1: Vec<String> = Vec::new();
    g1.push(String::from_str("admin-guide/sysctl/*.rst*"));
    let mut q1: Vec<String> = Vec::new();
    q1.push(String::from_str("index.rst"));
    let p1 = Parser::new(g1, q1, SectionPattern::RstHeading);
    let mut g2: Vec<String> = Vec::new();
    g2.push(String::from_str("networking/*-sysctl.rst"));
    g2.push(String::from_str("networking/*-sysctl.txt*"));
    let q2: Vec<String> = Vec::new();
    let p2 = Parser::new(g2, q2, SectionPattern::DashHeading);
    let mut r: Vec<Parser> = Vec::new();
    r.push(p1);
    r.push(p2);
    proof {
        assert(r@[0].glob_path@.map_values(|g: String| g@) =~= seq![
            "admin-guide/sysctl/*.rst*"@,
        ]);
        assert(r@[0].required_files@.map_values(|q: String| q@) =~= seq!["index.rst"@]);
        assert(r@[1].glob_path@.map_values(|g: String| g@) =~= seq![
            "networking/*-sysctl.rst"@,
            "networking/*-sysctl.txt*"@,
        ]);
    }
    r
}

} // verus!
