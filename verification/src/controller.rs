//! The controller: holds the live parameter set, associates parameters with
//! their documentation paragraphs, answers queries, and decides when a cache
//! snapshot may stand in for a full resolution pass.

use vstd::prelude::*;

use crate::config::Config;
use crate::document::{Document, Paragraph};
use crate::parameter::{ParamView, Parameter};
use crate::section::Section;
use crate::text::{chars_eq, chars_to_string, contains_chars, contains_seq, leaf_chars, leaf_of, str_to_chars};

verus! {

/// A paragraph title gives documentation to a parameter leaf name exactly when
/// the leaf is longer than two characters and the title equals or contains it.
/// The length floor keeps short generic leaf names from matching unrelated
/// paragraphs.
pub open spec fn title_matches(title: Seq<char>, leaf: Seq<char>) -> bool {
    leaf.len() > 2 && (title == leaf || contains_seq(title, leaf))
}

/// Some paragraph of the document matches the leaf name.
pub open spec fn doc_has_match(d: Document, leaf: Seq<char>) -> bool {
    exists|j: int|
        0 <= j < d.paragraphs@.len() && title_matches(
            (#[trigger] d.paragraphs@[j]).title@,
            leaf,
        )
}

/// The document can document the parameter: it classifies into the
/// parameter's section and holds a matching paragraph.
pub open spec fn doc_relevant(d: Document, p: ParamView) -> bool {
    Section::spec_from_path(d.path@) == p.section && doc_has_match(d, leaf_of(p.name))
}

/// Index of the first relevant document, or `-1` when none is.
pub open spec fn first_match_doc(docs: Seq<Document>, p: ParamView) -> int
    decreases docs.len(),
{
    if docs.len() == 0 {
        -1
    } else if doc_relevant(docs[0], p) {
        0
    } else if first_match_doc(docs.drop_first(), p) == -1 {
        -1
    } else {
        first_match_doc(docs.drop_first(), p) + 1
    }
}

/// Index of the first matching paragraph, or `-1` when none matches.
pub open spec fn first_match_para(paras: Seq<Paragraph>, leaf: Seq<char>) -> int
    decreases paras.len(),
{
    if paras.len() == 0 {
        -1
    } else if title_matches(paras[0].title@, leaf) {
        0
    } else if first_match_para(paras.drop_first(), leaf) == -1 {
        -1
    } else {
        first_match_para(paras.drop_first(), leaf) + 1
    }
}

pub proof fn lemma_first_match_doc(docs: Seq<Document>, p: ParamView)
    ensures
        -1 <= first_match_doc(docs, p) < docs.len(),
        first_match_doc(docs, p) >= 0 ==> doc_relevant(docs[first_match_doc(docs, p)], p),
        forall|k: int|
            0 <= k < first_match_doc(docs, p) ==> !doc_relevant(#[trigger] docs[k], p),
        first_match_doc(docs, p) == -1 ==> forall|k: int|
            0 <= k < docs.len() ==> !doc_relevant(#[trigger] docs[k], p),
    decreases docs.len(),
{
    if docs.len() == 0 {
    } else if doc_relevant(docs[0], p) {
    } else {
        lemma_first_match_doc(docs.drop_first(), p);
        let r = first_match_doc(docs.drop_first(), p);
        if r >= 0 {
            assert(docs.drop_first()[r] == docs[r + 1]);
            assert forall|k: int| 0 <= k < first_match_doc(docs, p) implies !doc_relevant(
                #[trigger] docs[k],
                p,
            ) by {
                if k > 0 {
                    assert(!doc_relevant(docs.drop_first()[k - 1], p));
                }
            }
        } else {
            assert forall|k: int| 0 <= k < docs.len() implies !doc_relevant(
                #[trigger] docs[k],
                p,
            ) by {
                if k > 0 {
                    assert(!doc_relevant(docs.drop_first()[k - 1], p));
                }
            }
        }
    }
}

pub proof fn lemma_first_match_para(paras: Seq<Paragraph>, leaf: Seq<char>)
    ensures
        -1 <= first_match_para(paras, leaf) < paras.len(),
        first_match_para(paras, leaf) >= 0 ==> title_matches(
            paras[first_match_para(paras, leaf)].title@,
            leaf,
        ),
        forall|k: int|
            0 <= k < first_match_para(paras, leaf) ==> !title_matches(
                (#[trigger] paras[k]).title@,
                leaf,
            ),
        first_match_para(paras, leaf) == -1 ==> forall|k: int|
            0 <= k < paras.len() ==> !title_matches((#[trigger] paras[k]).title@, leaf),
    decreases paras.len(),
{
    if paras.len() == 0 {
    } else if title_matches(paras[0].title@, leaf) {
    } else {
        lemma_first_match_para(paras.drop_first(), leaf);
        let r = first_match_para(paras.drop_first(), leaf);
        if r >= 0 {
            assert(paras.drop_first()[r] == paras[r + 1]);
            assert forall|k: int| 0 <= k < first_match_para(paras, leaf) implies !title_matches(
                (#[trigger] paras[k]).title@,
                leaf,
            ) by {
                if k > 0 {
                    assert(!title_matches(paras.drop_first()[k - 1].title@, leaf));
                }
            }
        } else {
            assert forall|k: int| 0 <= k < paras.len() implies !title_matches(
                (#[trigger] paras[k]).title@,
                leaf,
            ) by {
                if k > 0 {
                    assert(!title_matches(paras.drop_first()[k - 1].title@, leaf));
                }
            }
        }
    }
}

/// What one resolution pass makes of a parameter: a parameter that already has
/// a description keeps it; otherwise the first relevant document's first
/// matching paragraph fills the description, title and path, and a parameter
/// with no match anywhere is unchanged.
pub open spec fn spec_resolve(p: ParamView, docs: Seq<Document>) -> ParamView {
    if p.description is Some {
        p
    } else {
        let di = first_match_doc(docs, p);
        if di == -1 {
            p
        } else {
            let pj = first_match_para(docs[di].paragraphs@, leaf_of(p.name));
            ParamView {
                description: Some(docs[di].paragraphs@[pj].contents@),
                docs_title: docs[di].paragraphs@[pj].title@,
                docs_path: docs[di].path@,
                ..p
            }
        }
    }
}

/// Finds the first paragraph whose title matches the leaf name.
fn find_para(paras: &Vec<Paragraph>, leaf: &[char]) -> (r: Option<usize>)
    ensures
        match r {
            Some(k) => k == first_match_para(paras@, leaf@),
            None => first_match_para(paras@, leaf@) == -1,
        },
{
    let mut k: usize = 0;
    while k < paras.len()
        invariant
            0 <= k <= paras@.len(),
            forall|m: int| 0 <= m < k ==> !title_matches((#[trigger] paras@[m]).title@, leaf@),
        decreases paras@.len() - k,
    {
        let t = str_to_chars(paras[k].title.as_str());
        let hit = leaf.len() > 2 && (chars_eq(t.as_slice(), leaf) || contains_chars(
            t.as_slice(),
            leaf,
        ));
        if hit {
            proof {
                lemma_first_match_para(paras@, leaf@);
                let f = first_match_para(paras@, leaf@);
                if f < k {
                    assert(!title_matches(paras@[f].title@, leaf@));
                }
                if f > k as int || f == -1 {
                    assert(!title_matches(paras@[k as int].title@, leaf@));
                }
            }
            return Some(k);
        }
        k += 1;
    }
    proof {
        lemma_first_match_para(paras@, leaf@);
        let f = first_match_para(paras@, leaf@);
        if f >= 0 {
            assert(!title_matches(paras@[f].title@, leaf@));
        }
    }
    None
}

/// Resolves one parameter against the document set, per [`spec_resolve`].
fn resolve_param(p: &Parameter, docs: &Vec<Document>) -> (r: Parameter)
    ensures
        r@ == spec_resolve(p@, docs@),
{
    if p.description.is_some() {
        return p.duplicate();
    }
    let name = str_to_chars(p.name.as_str());
    let leaf = leaf_chars(name.as_slice());
    let mut j: usize = 0;
    while j < docs.len()
        invariant
            0 <= j <= docs@.len(),
            leaf@ == leaf_of(p@.name),
            p@.description is None,
            forall|k: int| 0 <= k < j ==> !doc_relevant(#[trigger] docs@[k], p@),
        decreases docs@.len() - j,
    {
        let sec = Section::from_path(docs[j].path.as_str());
        if sec == p.section {
            match find_para(&docs[j].paragraphs, leaf.as_slice()) {
                Some(k) => {
                    proof {
                        lemma_first_match_para(docs@[j as int].paragraphs@, leaf@);
                        assert(doc_has_match(docs@[j as int], leaf@)) by {
                            assert(title_matches(
                                docs@[j as int].paragraphs@[k as int].title@,
                                leaf@,
                            ));
                        }
                        lemma_first_match_doc(docs@, p@);
                        let f = first_match_doc(docs@, p@);
                        if f < j {
                            assert(!doc_relevant(docs@[f], p@));
                        }
                        if f > j as int || f == -1 {
                            assert(!doc_relevant(docs@[j as int], p@));
                        }
                    }
                    let para = &docs[j].paragraphs[k];
                    return Parameter {
                        name: p.name.clone(),
                        value: p.value.clone(),
                        description: Some(para.contents.clone()),
                        section: p.section,
                        docs_path: docs[j].path.clone(),
                        docs_title: para.title.clone(),
                    };
                },
                None => {
                    proof {
                        lemma_first_match_para(docs@[j as int].paragraphs@, leaf@);
                        assert(!doc_has_match(docs@[j as int], leaf@));
                    }
                },
            }
        }
        j += 1;
    }
    proof {
        lemma_first_match_doc(docs@, p@);
        let f = first_match_doc(docs@, p@);
        if f >= 0 {
            assert(!doc_relevant(docs@[f], p@));
        }
    }
    p.duplicate()
}

/// Sysctl wrapper for managing the kernel parameters.
#[derive(Clone, Debug)]
pub struct Sysctl {
    /// Available kernel parameters.
    pub parameters: Vec<Parameter>,
    /// Configuration.
    pub config: Config,
}

/// A deprecated parameter, skipped while listing unless configured otherwise.
pub open spec fn spec_deprecated(name: Seq<char>) -> bool {
    leaf_of(name) == seq![
        'b', 'a', 's', 'e', '_', 'r', 'e', 'a', 'c', 'h', 'a', 'b', 'l', 'e', '_', 't', 'i',
        'm', 'e',
    ] || leaf_of(name) == seq!['r', 'e', 't', 'r', 'a', 'n', 's', '_', 't', 'i', 'm', 'e']
}

fn is_deprecated(name: &str) -> (r: bool)
    ensures
        r == spec_deprecated(name@),
{
    let t = str_to_chars(name);
    let leaf = leaf_chars(t.as_slice());
    let a: Vec<char> = vec![
        'b', 'a', 's', 'e', '_', 'r', 'e', 'a', 'c', 'h', 'a', 'b', 'l', 'e', '_', 't', 'i',
        'm', 'e',
    ];
    let b: Vec<char> = vec!['r', 'e', 't', 'r', 'a', 'n', 's', '_', 't', 'i', 'm', 'e'];
    proof {
        assert(a@ =~= seq![
            'b', 'a', 's', 'e', '_', 'r', 'e', 'a', 'c', 'h', 'a', 'b', 'l', 'e', '_', 't', 'i',
            'm', 'e',
        ]);
        assert(b@ =~= seq!['r', 'e', 't', 'r', 'a', 'n', 's', '_', 't', 'i', 'm', 'e']);
    }
    chars_eq(leaf.as_slice(), a.as_slice()) || chars_eq(leaf.as_slice(), b.as_slice())
}

/// Index of the first parameter in `list` that carries the given name, or
/// `-1` when none does.
pub open spec fn first_name_match(list: Seq<Parameter>, name: Seq<char>) -> int
    decreases list.len(),
{
    if list.len() == 0 {
        -1
    } else if list[0]@.name == name {
        0
    } else if first_name_match(list.drop_first(), name) == -1 {
        -1
    } else {
        first_name_match(list.drop_first(), name) + 1
    }
}

pub proof fn lemma_first_name_match(list: Seq<Parameter>, name: Seq<char>)
    ensures
        -1 <= first_name_match(list, name) < list.len(),
        first_name_match(list, name) >= 0 ==> list[first_name_match(list, name)]@.name == name,
        forall|k: int|
            0 <= k < first_name_match(list, name) ==> (#[trigger] list[k])@.name != name,
        first_name_match(list, name) == -1 ==> forall|k: int|
            0 <= k < list.len() ==> (#[trigger] list[k])@.name != name,
    decreases list.len(),
{
    if list.len() == 0 {
    } else if list[0]@.name == name {
    } else {
        lemma_first_name_match(list.drop_first(), name);
        let r = first_name_match(list.drop_first(), name);
        if r >= 0 {
            assert(list.drop_first()[r] == list[r + 1]);
            assert forall|k: int| 0 <= k < first_name_match(list, name) implies (#[trigger]
            list[k])@.name != name by {
                if k > 0 {
                    assert(list.drop_first()[k - 1]@.name != name);
                }
            }
        } else {
            assert forall|k: int| 0 <= k < list.len() implies (#[trigger] list[k])@.name
                != name by {
                if k > 0 {
                    assert(list.drop_first()[k - 1]@.name != name);
                }
            }
        }
    }
}

/// What merging a stored snapshot makes of a parameter: the documentation
/// fields of the first snapshot entry with the same name are taken over, and
/// the name, value and section stay as they are; a parameter absent from the
/// snapshot is unchanged.
pub open spec fn spec_merge(p: ParamView, list: Seq<Parameter>) -> ParamView {
    let i = first_name_match(list, p.name);
    if i == -1 {
        p
    } else {
        ParamView {
            description: list[i]@.description,
            docs_path: list[i]@.docs_path,
            docs_title: list[i]@.docs_title,
            ..p
        }
    }
}

fn merge_param(p: &Parameter, list: &Vec<Parameter>) -> (r: Parameter)
    ensures
        r@ == spec_merge(p@, list@),
{
    let mut k: usize = 0;
    while k < list.len()
        invariant
            0 <= k <= list@.len(),
            forall|m: int| 0 <= m < k ==> (#[trigger] list@[m])@.name != p@.name,
        decreases list@.len() - k,
    {
        if list[k].name == p.name {
            proof {
                lemma_first_name_match(list@, p@.name);
                let f = first_name_match(list@, p@.name);
                if f < k {
                    assert(list@[f]@.name != p@.name);
                }
                if f > k as int || f == -1 {
                    assert(list@[k as int]@.name != p@.name);
                }
            }
            return Parameter {
                name: p.name.clone(),
                value: p.value.clone(),
                description: match &list[k].description {
                    Some(d) => Some(d.clone()),
                    None => None,
                },
                section: p.section,
                docs_path: list[k].docs_path.clone(),
                docs_title: list[k].docs_title.clone(),
            };
        }
        k += 1;
    }
    proof {
        lemma_first_name_match(list@, p@.name);
        let f = first_name_match(list@, p@.name);
        if f >= 0 {
            assert(list@[f]@.name != p@.name);
        }
    }
    p.duplicate()
}

/// A parameter answers a query when the query is its full name, its leaf
/// name, or one of its subsection prefixes.
pub open spec fn query_matches(p: ParamView, q: Seq<char>) -> bool {
    p.name == q || leaf_of(p.name) == q || Parameter::spec_is_in_section(p, q)
}

/// The query with every `/` read as a `.` separator.
pub open spec fn normalize_query(q: Seq<char>) -> Seq<char> {
    q.map_values(|c: char| if c == '/' { '.' } else { c })
}

impl Sysctl {
    /// Constructs a new instance from the live parameters that the external
    /// source handed over: deprecated parameters are left out unless the
    /// configuration asks for them.
    pub fn init(parameters: Vec<Parameter>, config: Config) -> (r: Sysctl)
        ensures
            r.config == config,
            config.display_deprecated ==> r.parameters@ == parameters@,
            !config.display_deprecated ==> r.parameters@ == parameters@.filter(
                |p: Parameter| !spec_deprecated(p@.name),
            ),
    {
        if config.display_deprecated {
            return Sysctl { parameters, config };
        }
        let mut kept: Vec<Parameter> = Vec::new();
        let pred = Ghost(|p: Parameter| !spec_deprecated(p@.name));
        let mut i: usize = 0;
        while i < parameters.len()
            invariant
                0 <= i <= parameters@.len(),
                pred@ == (|p: Parameter| !spec_deprecated(p@.name)),
                kept@ == parameters@.subrange(0, i as int).filter(pred@),
            decreases parameters@.len() - i,
        {
            let ghost prefix = parameters@.subrange(0, i as int);
            let ghost next = parameters@.subrange(0, i + 1);
            proof {
                assert(next.drop_last() =~= prefix);
                assert(next.last() == parameters@[i as int]);
            }
            if !is_deprecated(parameters[i].name.as_str()) {
                let item = parameters[i].duplicate();
                kept.push(item);
            }
            proof {
                reveal_with_fuel(Seq::filter, 2);
                assert(kept@ == next.filter(pred@));
            }
            i += 1;
        }
        proof {
            assert(parameters@.subrange(0, parameters@.len() as int) =~= parameters@);
        }
        Sysctl { parameters: kept, config }
    }

    /// Updates the descriptions of the kernel parameters from the parsed
    /// documents: one resolution pass per [`spec_resolve`].
    pub fn update_docs(&mut self, docs: &Vec<Document>)
        ensures
            final(self).parameters@.len() == old(self).parameters@.len(),
            final(self).config == old(self).config,
            forall|i: int|
                0 <= i < final(self).parameters@.len() ==> (#[trigger] final(self).parameters@[i])@
                    == spec_resolve(old(self).parameters@[i]@, docs@),
    {
        let mut resolved: Vec<Parameter> = Vec::new();
        let n = self.parameters.len();
        let mut i: usize = 0;
        while i < n
            invariant
                0 <= i <= n == self.parameters@.len(),
                self.parameters == old(self).parameters,
                self.config == old(self).config,
                resolved@.len() == i,
                forall|k: int|
                    0 <= k < i ==> (#[trigger] resolved@[k])@ == spec_resolve(
                        old(self).parameters@[k]@,
                        docs@,
                    ),
            decreases n - i,
        {
            let item = resolve_param(&self.parameters[i], docs);
            resolved.push(item);
            i += 1;
        }
        self.parameters = resolved;
    }

    /// Updates the parameters internally using the given list, taking over
    /// the documentation fields of same-named entries and keeping the
    /// original values.
    pub fn update_params(&mut self, parameters: Vec<Parameter>)
        ensures
            final(self).parameters@.len() == old(self).parameters@.len(),
            final(self).config == old(self).config,
            forall|i: int|
                0 <= i < final(self).parameters@.len() ==> (#[trigger] final(self).parameters@[i])@
                    == spec_merge(old(self).parameters@[i]@, parameters@),
    {
        let mut merged: Vec<Parameter> = Vec::new();
        let n = self.parameters.len();
        let mut i: usize = 0;
        while i < n
            invariant
                0 <= i <= n == self.parameters@.len(),
                self.parameters == old(self).parameters,
                self.config == old(self).config,
                merged@.len() == i,
                forall|k: int|
                    0 <= k < i ==> (#[trigger] merged@[k])@ == spec_merge(
                        old(self).parameters@[k]@,
                        parameters@,
                    ),
            decreases n - i,
        {
            let item = merge_param(&self.parameters[i], &parameters);
            merged.push(item);
            i += 1;
        }
        self.parameters = merged;
    }

    /// Returns the parameters that match the given query: by full name, by
    /// leaf name, or by subsection prefix, with `/` separators read as dots.
    pub fn get_parameters(&self, query: &str) -> (r: Vec<Parameter>)
        ensures
            r@ == self.parameters@.filter(
                |p: Parameter| query_matches(p@, normalize_query(query@)),
            ),
    {
        let q = str_to_chars(query);
        let mut nq: Vec<char> = Vec::new();
        let mut i: usize = 0;
        while i < q.len()
            invariant
                0 <= i <= q@.len(),
                q@ == query@,
                nq@ == normalize_query(query@).subrange(0, i as int),
            decreases q@.len() - i,
        {
            let c = q[i];
            let mapped = if c == '/' {
                '.'
            } else {
                c
            };
            nq.push(mapped);
            proof {
                assert(normalize_query(query@).subrange(0, i + 1) =~= normalize_query(
                    query@,
                ).subrange(0, i as int).push(mapped));
            }
            i += 1;
        }
        proof {
            assert(normalize_query(query@).subrange(0, normalize_query(query@).len() as int)
                =~= normalize_query(query@));
        }
        let nq_string = chars_to_string(nq.as_slice());
        let pred = Ghost(|p: Parameter| query_matches(p@, normalize_query(query@)));
        let mut r: Vec<Parameter> = Vec::new();
        let mut k: usize = 0;
        while k < self.parameters.len()
            invariant
                0 <= k <= self.parameters@.len(),
                pred@ == (|p: Parameter| query_matches(p@, normalize_query(query@))),
                nq@ == normalize_query(query@),
                nq_string@ == normalize_query(query@),
                r@ == self.parameters@.subrange(0, k as int).filter(pred@),
            decreases self.parameters@.len() - k,
        {
            let ghost prefix = self.parameters@.subrange(0, k as int);
            let ghost next = self.parameters@.subrange(0, k + 1);
            proof {
                assert(next.drop_last() =~= prefix);
                assert(next.last() == self.parameters@[k as int]);
            }
            let p = &self.parameters[k];
            let name = str_to_chars(p.name.as_str());
            let name_leaf = leaf_chars(name.as_slice());
            let hit = chars_eq(name.as_slice(), nq.as_slice()) || chars_eq(
                name_leaf.as_slice(),
                nq.as_slice(),
            ) || p.is_in_section(nq_string.as_str());
            if hit {
                let item = p.duplicate();
                r.push(item);
            }
            proof {
                reveal_with_fuel(Seq::filter, 2);
                assert(r@ == next.filter(pred@));
            }
            k += 1;
        }
        proof {
            assert(self.parameters@.subrange(0, self.parameters@.len() as int)
                =~= self.parameters@);
        }
        r
    }

    /// Returns the parameters whose names contain the query as a substring:
    /// the free-form search of the query surface.
    pub fn search(&self, query: &str) -> (r: Vec<Parameter>)
        ensures
            r@ == self.parameters@.filter(|p: Parameter| contains_seq(p@.name, query@)),
    {
        let q = str_to_chars(query);
        let pred = Ghost(|p: Parameter| contains_seq(p@.name, query@));
        let mut r: Vec<Parameter> = Vec::new();
        let mut k: usize = 0;
        while k < self.parameters.len()
            invariant
                0 <= k <= self.parameters@.len(),
                pred@ == (|p: Parameter| contains_seq(p@.name, query@)),
                q@ == query@,
                r@ == self.parameters@.subrange(0, k as int).filter(pred@),
            decreases self.parameters@.len() - k,
        {
            let ghost prefix = self.parameters@.subrange(0, k as int);
            let ghost next = self.parameters@.subrange(0, k + 1);
            proof {
                assert(next.drop_last() =~= prefix);
                assert(next.last() == self.parameters@[k as int]);
            }
            let p = &self.parameters[k];
            let name = str_to_chars(p.name.as_str());
            if contains_chars(name.as_slice(), q.as_slice()) {
                let item = p.duplicate();
                r.push(item);
            }
            proof {
                reveal_with_fuel(Seq::filter, 2);
                assert(r@ == next.filter(pred@));
            }
            k += 1;
        }
        proof {
            assert(self.parameters@.subrange(0, self.parameters@.len() as int)
                =~= self.parameters@);
        }
        r
    }

    /// Applies a cache snapshot if it is fresh: the snapshot stands in for a
    /// resolution pass exactly when its timestamp equals the documentation
    /// root's current modification time; a stale snapshot leaves the
    /// parameters untouched.
    pub fn update_docs_from_cache(
        &mut self,
        data: &Vec<Parameter>,
        cache_timestamp: u64,
        docs_timestamp: u64,
    ) -> (used: bool)
        ensures
            used == (cache_timestamp == docs_timestamp),
            final(self).config == old(self).config,
            final(self).parameters@.len() == old(self).parameters@.len(),
            used ==> forall|i: int|
                0 <= i < final(self).parameters@.len() ==> (#[trigger] final(self).parameters@[i])@
                    == spec_merge(old(self).parameters@[i]@, data@),
            !used ==> final(self).parameters == old(self).parameters,
    {
        if cache_timestamp == docs_timestamp {
            let mut copy: Vec<Parameter> = Vec::new();
            let mut i: usize = 0;
            while i < data.len()
                invariant
                    0 <= i <= data@.len(),
                    copy@.len() == i,
                    forall|k: int| 0 <= k < i ==> #[trigger] copy@[k] == data@[k],
                decreases data@.len() - i,
            {
                let item = data[i].duplicate();
                copy.push(item);
                i += 1;
            }
            proof {
                assert(copy@ =~= data@);
            }
            self.update_params(copy);
            true
        } else {
            false
        }
    }
}

/// Matcher leaf-length floor: a parameter whose leaf name has at most two
/// characters never receives a description, whatever the document set holds —
/// even a paragraph titled with exactly that leaf, or with a longer
/// superstring of it, does not match.
pub proof fn lemma_leaf_length_floor(p: ParamView, docs: Seq<Document>)
    requires
        p.description is None,
        leaf_of(p.name).len() <= 2,
    ensures
        spec_resolve(p, docs) == p,
        spec_resolve(p, docs).description is None,
{
    let leaf = leaf_of(p.name);
    assert forall|i: int| 0 <= i < docs.len() implies !doc_relevant(#[trigger] docs[i], p) by {
        if doc_has_match(docs[i], leaf) {
            let j = choose|j: int|
                0 <= j < docs[i].paragraphs@.len() && title_matches(
                    (#[trigger] docs[i].paragraphs@[j]).title@,
                    leaf,
                );
            assert(!title_matches(docs[i].paragraphs@[j].title@, leaf));
        }
    }
    lemma_first_match_doc(docs, p);
    let f = first_match_doc(docs, p);
    if f >= 0 {
        assert(!doc_relevant(docs[f], p));
    }
}

/// Resolution never happens against a missing documentation root: with no
/// documents at all, every parameter keeps exactly the fields it had, and an
/// undocumented parameter stays undocumented.
pub proof fn lemma_empty_docs(p: ParamView)
    ensures
        spec_resolve(p, Seq::<Document>::empty()) == p,
{
}

/// Determinism of resolution: what a pass assigns to a parameter is a
/// function of the parameter and the document set alone, so two passes over
/// an unchanged documentation root agree on every description, title and
/// path.
pub proof fn lemma_resolution_deterministic(
    p1: ParamView,
    p2: ParamView,
    d1: Seq<Document>,
    d2: Seq<Document>,
)
    requires
        p1 == p2,
        d1 == d2,
    ensures
        spec_resolve(p1, d1) == spec_resolve(p2, d2),
{
}

} // verus!
