//! Representation of a kernel parameter and its resolved documentation.

use vstd::prelude::*;
use vstd::string::StringExecFns;
use vstd::string::StrSliceExecFns;

use crate::section::Section;
use crate::text::{
    chars_eq, chars_to_string, join_with, leaf_chars, leaf_of, lemma_split_seq_len, split_chars,
    split_seq, str_to_chars,
};

verus! {

/// Representation of a kernel parameter.
#[derive(Clone, Debug)]
pub struct Parameter {
    /// Name of the kernel parameter.
    pub name: String,
    /// Value of the kernel parameter.
    pub value: String,
    /// Description of the kernel parameter.
    pub description: Option<String>,
    /// Section of the kernel parameter.
    pub section: Section,
    /// Documentation path.
    pub docs_path: String,
    /// Title of the kernel parameter taken from the documentation.
    pub docs_title: String,
}

/// The mathematical value of a [`Parameter`].
pub ghost struct ParamView {
    /// Name of the kernel parameter.
    pub name: Seq<char>,
    /// Value of the kernel parameter.
    pub value: Seq<char>,
    /// Description of the kernel parameter.
    pub description: Option<Seq<char>>,
    /// Section of the kernel parameter.
    pub section: Section,
    /// Documentation path.
    pub docs_path: Seq<char>,
    /// Title of the kernel parameter taken from the documentation.
    pub docs_title: Seq<char>,
}

impl View for Parameter {
    type V = ParamView;

    open spec fn view(&self) -> ParamView {
        ParamView {
            name: self.name@,
            value: self.value@,
            description: match self.description {
                Some(d) => Some(d@),
                None => None,
            },
            section: self.section,
            docs_path: self.docs_path@,
            docs_title: self.docs_title@,
        }
    }
}

impl Parameter {
    /// Builds a fresh, still unresolved parameter: its section is classified
    /// from its name, and its documentation fields are empty.
    pub fn new(name: String, value: String, description: Option<String>) -> (r: Parameter)
        ensures
            r@.name == name@,
            r@.value == value@,
            r@.description == (match description {
                Some(d) => Some(d@),
                None => None::<Seq<char>>,
            }),
            r@.section == Section::spec_from_name(name@),
            r@.docs_path == Seq::<char>::empty(),
            r@.docs_title == Seq::<char>::empty(),
    {
        let section = Section::from_name(name.as_str());
        Parameter {
            name,
            value,
            description,
            section,
            docs_path: String::new(),
            docs_title: String::new(),
        }
    }

    /// Copies the parameter; the copy equals the original.
    pub fn duplicate(&self) -> (r: Parameter)
        ensures
            r == *self,
    {
        Parameter {
            name: self.name.clone(),
            value: self.value.clone(),
            description: match &self.description {
                Some(d) => Some(d.clone()),
                None => None,
            },
            section: self.section,
            docs_path: self.docs_path.clone(),
            docs_title: self.docs_title.clone(),
        }
    }

    /// Returns the absolute name of the parameter: its last dot-separated
    /// component, without the sections.
    pub fn get_absolute_name(&self) -> (r: Option<String>)
        ensures
            match r {
                Some(l) => l@ == leaf_of(self@.name),
                None => false,
            },
    {
        let t = str_to_chars(self.name.as_str());
        let l = leaf_chars(t.as_slice());
        Some(chars_to_string(l.as_slice()))
    }

    /// The subsection prefixes that a query may name: the section's canonical
    /// name followed by the first `j` inner name components, for any `j`
    /// smaller than the number of components that follow the leading one.
    pub open spec fn spec_is_in_section(p: ParamView, q: Seq<char>) -> bool {
        let comps = split_seq(p.name, '.');
        exists|j: int|
            1 <= j <= comps.len() - 1 && q == #[trigger] join_with(
                seq![p.section.spec_name()] + comps.subrange(1, j),
                '.',
            )
    }

    /// Performs a search for given query and returns true if the parameter is
    /// in the given sub/section.
    pub fn is_in_section(&self, query: &str) -> (r: bool)
        ensures
            r == Parameter::spec_is_in_section(self@, query@),
    {
        let q = str_to_chars(query);
        let t = str_to_chars(self.name.as_str());
        let comps = split_chars(t.as_slice(), '.');
        proof {
            lemma_split_seq_len(self@.name, '.');
        }
        let ghost spec_comps = split_seq(self@.name, '.');
        let mut sub = self.section.name_chars();
        let m = comps.len();
        if m < 2 {
            proof {
                assert(spec_comps.len() == m);
                assert(!Parameter::spec_is_in_section(self@, query@));
            }
            return false;
        }
        proof {
            assert(seq![self@.section.spec_name()] + spec_comps.subrange(1, 1)
                =~= seq![self@.section.spec_name()]);
        }
        let mut j: usize = 1;
        while j <= m - 1
            invariant
                1 <= j <= m - 1,
                m == spec_comps.len() >= 2,
                comps@.map_values(|x: String| x@) == spec_comps,
                spec_comps == split_seq(self@.name, '.'),
                q@ == query@,
                sub@ == join_with(
                    seq![self@.section.spec_name()] + spec_comps.subrange(1, j as int),
                    '.',
                ),
                forall|k: int|
                    1 <= k < j ==> query@ != #[trigger] join_with(
                        seq![self@.section.spec_name()] + spec_comps.subrange(1, k),
                        '.',
                    ),
            decreases m - j,
        {
            if chars_eq(q.as_slice(), sub.as_slice()) {
                return true;
            }
            if j < m - 1 {
                sub.push('.');
                let comp = str_to_chars(comps[j].as_str());
                proof {
                    assert(comp@ == spec_comps[j as int]) by {
                        assert(comps@.map_values(|x: String| x@)[j as int] == spec_comps[
                            j as int]);
                    }
                }
                let mut ci: usize = 0;
                while ci < comp.len()
                    invariant
                        0 <= ci <= comp@.len(),
                        sub@ == join_with(
                            seq![self@.section.spec_name()] + spec_comps.subrange(1, j as int),
                            '.',
                        ) + seq!['.'] + comp@.subrange(0, ci as int),
                    decreases comp@.len() - ci,
                {
                    let c = comp[ci];
                    sub.push(c);
                    proof {
                        assert(comp@.subrange(0, ci + 1) =~= comp@.subrange(0, ci as int).push(c));
                        assert(sub@ =~= join_with(
                            seq![self@.section.spec_name()] + spec_comps.subrange(1, j as int),
                            '.',
                        ) + seq!['.'] + comp@.subrange(0, ci + 1));
                    }
                    ci += 1;
                }
                proof {
                    assert(comp@.subrange(0, comp@.len() as int) =~= comp@);
                    let parts = seq![self@.section.spec_name()] + spec_comps.subrange(
                        1,
                        j as int,
                    );
                    lemma_join_push(parts, spec_comps[j as int], '.');
                    assert(parts.push(spec_comps[j as int]) =~= seq![self@.section.spec_name()]
                        + spec_comps.subrange(1, j + 1));
                }
            } else {
                proof {
                    assert(!Parameter::spec_is_in_section(self@, query@));
                }
                return false;
            }
            j += 1;
        }
        proof {
            assert(!Parameter::spec_is_in_section(self@, query@));
        }
        false
    }

    /// The rendered documentation of a resolved parameter: the matched title,
    /// an underline of equals signs of the title's length, the description,
    /// and a trailer naming the parameter and the source file.
    pub open spec fn spec_documentation(p: ParamView) -> Option<Seq<char>> {
        match p.description {
            None => None,
            Some(d) => Some(
                p.docs_title + "\n"@ + Seq::new(p.docs_title.len(), |i: int| '=') + "\n"@ + d
                    + "\n-\nParameter: "@ + p.name + "\nReference: "@ + p.docs_path,
            ),
        }
    }

    /// Returns the parameter documentation if it exists.
    pub fn get_documentation(&self) -> (r: Option<String>)
        ensures
            match r {
                Some(s) => Parameter::spec_documentation(self@) == Some(s@),
                None => self@.description is None,
            },
    {
        match &self.description {
            None => None,
            Some(d) => {
                let mut s = self.docs_title.clone();
                s.append("\n");
                let n = self.docs_title.as_str().unicode_len();
                let ghost underline = Seq::new(self@.docs_title.len(), |k: int| '=');
                let mut uv: Vec<char> = Vec::new();
                let mut i: usize = 0;
                while i < n
                    invariant
                        0 <= i <= n == self@.docs_title.len(),
                        underline == Seq::new(self@.docs_title.len(), |k: int| '='),
                        uv@ == underline.subrange(0, i as int),
                    decreases n - i,
                {
                    uv.push('=');
                    proof {
                        assert(underline.subrange(0, i + 1) =~= underline.subrange(
                            0,
                            i as int,
                        ).push('='));
                    }
                    i += 1;
                }
                proof {
                    assert(underline.subrange(0, underline.len() as int) =~= underline);
                }
                let us = chars_to_string(uv.as_slice());
                s.append(us.as_str());
                s.append("\n");
                s.append(d.as_str());
                s.append("\n-\nParameter: ");
                s.append(self.name.as_str());
                s.append("\nReference: ");
                s.append(self.docs_path.as_str());
                proof {
                    assert(s@ =~= Parameter::spec_documentation(self@)->Some_0);
                }
                Some(s)
            },
        }
    }
}

/// The key between the name and the value in bulk JSON output.
pub open spec fn lit_value() -> Seq<char> {
    seq![',', '"', 'v', 'a', 'l', 'u', 'e', '"', ':']
}

/// One parameter as a bulk JSON object: its name, current value, and the
/// lowercase name of its section.
pub open spec fn spec_bulk_entry(p: ParamView) -> Seq<char> {
    crate::cache::lit_name() + crate::json::enc_string(p.name) + lit_value()
        + crate::json::enc_string(p.value) + crate::cache::lit_sec() + crate::json::enc_string(
        p.section.spec_name(),
    ) + seq!['}']
}

/// The bulk JSON objects after the first, each preceded by a comma.
pub open spec fn spec_bulk_more(ps: Seq<ParamView>) -> Seq<char>
    decreases ps.len(),
{
    if ps.len() == 0 {
        Seq::empty()
    } else {
        seq![','] + spec_bulk_entry(ps[0]) + spec_bulk_more(ps.drop_first())
    }
}

/// A list of parameters as one JSON array.
pub open spec fn spec_bulk_json(ps: Seq<ParamView>) -> Seq<char> {
    if ps.len() == 0 {
        seq!['['] + seq![']']
    } else {
        seq!['['] + spec_bulk_entry(ps[0]) + spec_bulk_more(ps.drop_first()) + seq![']']
    }
}

proof fn lemma_bulk_more_push(ps: Seq<ParamView>, p: ParamView)
    ensures
        spec_bulk_more(ps.push(p)) == spec_bulk_more(ps) + seq![','] + spec_bulk_entry(p),
    decreases ps.len(),
{
    if ps.len() == 0 {
        assert(ps.push(p).len() == 1);
        assert(ps.push(p)[0] == p);
        assert(ps.push(p).drop_first() =~= Seq::<ParamView>::empty());
        assert(spec_bulk_more(ps.push(p)) == seq![','] + spec_bulk_entry(ps.push(p)[0])
            + spec_bulk_more(ps.push(p).drop_first()));
        assert(spec_bulk_more(Seq::<ParamView>::empty()) == Seq::<char>::empty());
        assert((seq![','] + spec_bulk_entry(p)) + Seq::<char>::empty() =~= Seq::<char>::empty()
            + seq![','] + spec_bulk_entry(p));
    } else {
        lemma_bulk_more_push(ps.drop_first(), p);
        assert(ps.push(p)[0] == ps[0]);
        assert(ps.push(p).drop_first() =~= ps.drop_first().push(p));
        assert(seq![','] + spec_bulk_entry(ps[0]) + (spec_bulk_more(ps.drop_first()) + seq![',']
            + spec_bulk_entry(p)) =~= (seq![','] + spec_bulk_entry(ps[0]) + spec_bulk_more(
            ps.drop_first(),
        )) + seq![','] + spec_bulk_entry(p));
    }
}

fn push_bulk_entry(out: &mut Vec<char>, p: &Parameter)
    ensures
        final(out)@ == old(out)@ + spec_bulk_entry(p@),
{
    let l1: Vec<char> = vec!['{', '"', 'n', 'a', 'm', 'e', '"', ':'];
    proof {
        assert(l1@ =~= crate::cache::lit_name());
    }
    crate::cache::push_lit(out, l1.as_slice());
    crate::json::enc_push_string(out, p.name.as_str());
    let l2: Vec<char> = vec![',', '"', 'v', 'a', 'l', 'u', 'e', '"', ':'];
    proof {
        assert(l2@ =~= lit_value());
    }
    crate::cache::push_lit(out, l2.as_slice());
    crate::json::enc_push_string(out, p.value.as_str());
    let l3: Vec<char> = vec![',', '"', 's', 'e', 'c', 't', 'i', 'o', 'n', '"', ':'];
    proof {
        assert(l3@ =~= crate::cache::lit_sec());
    }
    crate::cache::push_lit(out, l3.as_slice());
    let sec = p.section.name();
    crate::json::enc_push_string(out, sec.as_str());
    out.push('}');
    proof {
        assert(final(out)@ =~= old(out)@ + spec_bulk_entry(p@));
    }
}

impl Parameter {
    /// Renders the given parameters as one JSON array of objects holding each
    /// parameter's name, current value, and section.
    pub fn display_bulk_json(parameters: &Vec<Parameter>) -> (r: String)
        ensures
            r@ == spec_bulk_json(parameters@.map_values(|p: Parameter| p@)),
    {
        let ghost views = parameters@.map_values(|p: Parameter| p@);
        let mut out: Vec<char> = Vec::new();
        out.push('[');
        if parameters.len() > 0 {
            push_bulk_entry(&mut out, &parameters[0]);
            proof {
                assert(views.subrange(1, 1) =~= Seq::<ParamView>::empty());
                assert(out@ =~= seq!['['] + spec_bulk_entry(views[0]) + spec_bulk_more(
                    views.subrange(1, 1),
                ));
            }
            let mut i: usize = 1;
            while i < parameters.len()
                invariant
                    1 <= i <= parameters@.len(),
                    views == parameters@.map_values(|p: Parameter| p@),
                    out@ == seq!['['] + spec_bulk_entry(views[0]) + spec_bulk_more(
                        views.subrange(1, i as int),
                    ),
                decreases parameters@.len() - i,
            {
                out.push(',');
                push_bulk_entry(&mut out, &parameters[i]);
                proof {
                    assert(views.subrange(1, i + 1) =~= views.subrange(1, i as int).push(
                        views[i as int],
                    ));
                    lemma_bulk_more_push(views.subrange(1, i as int), views[i as int]);
                    assert(out@ =~= seq!['['] + spec_bulk_entry(views[0]) + spec_bulk_more(
                        views.subrange(1, i + 1),
                    ));
                }
                i += 1;
            }
            proof {
                assert(views.subrange(1, views.len() as int) =~= views.drop_first());
            }
        }
        out.push(']');
        proof {
            if views.len() == 0 {
                assert(out@ =~= spec_bulk_json(views));
            } else {
                assert(out@ =~= spec_bulk_json(views));
            }
        }
        chars_to_string(out.as_slice())
    }
}

/// Joining one more component appends a separator and the component.
pub proof fn lemma_join_push(parts: Seq<Seq<char>>, x: Seq<char>, sep: char)
    requires
        parts.len() >= 1,
    ensures
        join_with(parts.push(x), sep) == join_with(parts, sep) + seq![sep] + x,
    decreases parts.len(),
{
    if parts.len() == 1 {
        let p = parts.push(x);
        assert(p.len() == 2);
        assert(p.drop_first() =~= seq![x]);
        assert(join_with(p, sep) == p[0] + seq![sep] + join_with(p.drop_first(), sep));
        assert(join_with(seq![x], sep) == x);
        assert(p[0] == parts[0]);
    } else {
        lemma_join_push(parts.drop_first(), x, sep);
        let p = parts.push(x);
        assert(p.drop_first() =~= parts.drop_first().push(x));
        assert(p[0] == parts[0]);
        assert(join_with(p, sep) == p[0] + seq![sep] + join_with(p.drop_first(), sep));
        assert(join_with(parts, sep) + seq![sep] + x =~= parts[0] + seq![sep] + (join_with(
            parts.drop_first(),
            sep,
        ) + seq![sep] + x));
    }
}

} // verus!
