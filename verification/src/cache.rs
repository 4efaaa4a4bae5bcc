//! The resolution cache: a parameter snapshot together with the timestamp of
//! the documentation root it was resolved against. The snapshot is written as
//! one JSON object `{"data":[...],"timestamp":N}`; the mutable `value` field
//! is deliberately excluded from the persisted shape. Reading back a written
//! snapshot is proved to reproduce it.

use vstd::prelude::*;

use crate::error::Error;
use crate::json::{
    d_lit, d_string, d_u64, enc_nat, enc_push_string, enc_push_u64, enc_string, lemma_p_lit,
    lemma_p_string, lemma_p_u64, p_lit, p_string, p_u64,
};
use crate::parameter::{ParamView, Parameter};
use crate::section::Section;
use crate::text::{chars_to_string, str_to_chars};
use vstd::string::StringExecFns;

verus! {

/// The serialized variant name of a section.
pub open spec fn variant_seq(s: Section) -> Seq<char> {
    match s {
        Section::Abi => seq!['A', 'b', 'i'],
        Section::Fs => seq!['F', 's'],
        Section::Kernel => seq!['K', 'e', 'r', 'n', 'e', 'l'],
        Section::Net => seq!['N', 'e', 't'],
        Section::Sunrpc => seq!['S', 'u', 'n', 'r', 'p', 'c'],
        Section::User => seq!['U', 's', 'e', 'r'],
        Section::Vm => seq!['V', 'm'],
        Section::Unknown => seq!['U', 'n', 'k', 'n', 'o', 'w', 'n'],
    }
}

/// The section a serialized variant name denotes.
pub open spec fn section_of_variant(v: Seq<char>) -> Option<Section> {
    if v == variant_seq(Section::Abi) {
        Some(Section::Abi)
    } else if v == variant_seq(Section::Fs) {
        Some(Section::Fs)
    } else if v == variant_seq(Section::Kernel) {
        Some(Section::Kernel)
    } else if v == variant_seq(Section::Net) {
        Some(Section::Net)
    } else if v == variant_seq(Section::Sunrpc) {
        Some(Section::Sunrpc)
    } else if v == variant_seq(Section::User) {
        Some(Section::User)
    } else if v == variant_seq(Section::Vm) {
        Some(Section::Vm)
    } else if v == variant_seq(Section::Unknown) {
        Some(Section::Unknown)
    } else {
        None
    }
}

pub proof fn lemma_section_variant_round(s: Section)
    ensures
        section_of_variant(variant_seq(s)) == Some(s),
{
}

/// The opening of a serialized parameter, up to its name value.
pub open spec fn lit_name() -> Seq<char> {
    seq!['{', '"', 'n', 'a', 'm', 'e', '"', ':']
}

/// The key between the name and the description.
pub open spec fn lit_desc() -> Seq<char> {
    seq![',', '"', 'd', 'e', 's', 'c', 'r', 'i', 'p', 't', 'i', 'o', 'n', '"', ':']
}

/// The key between the description and the section.
pub open spec fn lit_sec() -> Seq<char> {
    seq![',', '"', 's', 'e', 'c', 't', 'i', 'o', 'n', '"', ':']
}

/// The key between the section and the documentation path.
pub open spec fn lit_path() -> Seq<char> {
    seq![',', '"', 'd', 'o', 'c', 's', '_', 'p', 'a', 't', 'h', '"', ':']
}

/// The key between the documentation path and the documentation title.
pub open spec fn lit_title() -> Seq<char> {
    seq![',', '"', 'd', 'o', 'c', 's', '_', 't', 'i', 't', 'l', 'e', '"', ':']
}

/// The literal `null`.
pub open spec fn lit_null() -> Seq<char> {
    seq!['n', 'u', 'l', 'l']
}

/// The opening of a serialized snapshot, up to the start of the data array.
pub open spec fn lit_data() -> Seq<char> {
    seq!['{', '"', 'd', 'a', 't', 'a', '"', ':', '[']
}

/// The close of the data array and the timestamp key.
pub open spec fn lit_ts() -> Seq<char> {
    seq![']', ',', '"', 't', 'i', 'm', 'e', 's', 't', 'a', 'm', 'p', '"', ':']
}

/// A serialized description: `null` or a string.
pub open spec fn enc_desc(d: Option<Seq<char>>) -> Seq<char> {
    match d {
        None => lit_null(),
        Some(t) => enc_string(t),
    }
}

/// A serialized parameter: its name, description, section, documentation
/// path and documentation title, without its value.
pub open spec fn enc_param(p: ParamView) -> Seq<char> {
    lit_name() + enc_string(p.name) + lit_desc() + enc_desc(p.description) + lit_sec()
        + enc_string(variant_seq(p.section)) + lit_path() + enc_string(p.docs_path) + lit_title()
        + enc_string(p.docs_title) + seq!['}']
}

/// The remaining serialized parameters, each preceded by a comma.
pub open spec fn enc_params_more(ps: Seq<ParamView>) -> Seq<char>
    decreases ps.len(),
{
    if ps.len() == 0 {
        Seq::empty()
    } else {
        seq![','] + enc_param(ps[0]) + enc_params_more(ps.drop_first())
    }
}

/// The serialized parameter array body.
pub open spec fn enc_params(ps: Seq<ParamView>) -> Seq<char> {
    if ps.len() == 0 {
        Seq::empty()
    } else {
        enc_param(ps[0]) + enc_params_more(ps.drop_first())
    }
}

/// A serialized snapshot.
pub open spec fn enc_cache(ps: Seq<ParamView>, ts: u64) -> Seq<char> {
    lit_data() + enc_params(ps) + lit_ts() + enc_nat(ts as int) + seq!['}']
}

/// A parameter as the snapshot stores it: with an empty value.
pub open spec fn strip_value(p: ParamView) -> ParamView {
    ParamView { value: Seq::empty(), ..p }
}

/// Parses a description: `null` or a string.
pub open spec fn p_desc(s: Seq<char>) -> Option<(Option<Seq<char>>, Seq<char>)> {
    match p_lit(s, lit_null()) {
        Some(r) => Some((None, r)),
        None => match p_string(s) {
            Some(pr) => Some((Some(pr.0), pr.1)),
            None => None,
        },
    }
}

/// Parses one serialized parameter.
pub open spec fn p_param(s: Seq<char>) -> Option<(ParamView, Seq<char>)> {
    match p_lit(s, lit_name()) {
        None => None,
        Some(s1) => match p_string(s1) {
            None => None,
            Some((name, s2)) => match p_lit(s2, lit_desc()) {
                None => None,
                Some(s3) => match p_desc(s3) {
                    None => None,
                    Some((desc, s4)) => match p_lit(s4, lit_sec()) {
                        None => None,
                        Some(s5) => match p_string(s5) {
                            None => None,
                            Some((secv, s6)) => match section_of_variant(secv) {
                                None => None,
                                Some(sec) => match p_lit(s6, lit_path()) {
                                    None => None,
                                    Some(s7) => match p_string(s7) {
                                        None => None,
                                        Some((path, s8)) => match p_lit(s8, lit_title()) {
                                            None => None,
                                            Some(s9) => match p_string(s9) {
                                                None => None,
                                                Some((title, s10)) => match p_lit(
                                                    s10,
                                                    seq!['}'],
                                                ) {
                                                    None => None,
                                                    Some(s11) => Some(
                                                        (
                                                            ParamView {
                                                                name,
                                                                value: Seq::empty(),
                                                                description: desc,
                                                                section: sec,
                                                                docs_path: path,
                                                                docs_title: title,
                                                            },
                                                            s11,
                                                        ),
                                                    ),
                                                },
                                            },
                                        },
                                    },
                                },
                            },
                        },
                    },
                },
            },
        },
    }
}

/// Parses the comma-led continuation of the parameter array.
pub open spec fn p_params_more(s: Seq<char>) -> Option<(Seq<ParamView>, Seq<char>)>
    decreases s.len(),
{
    if s.len() > 0 && s[0] == ',' {
        match p_param(s.drop_first()) {
            None => None,
            Some((p, r)) => if r.len() < s.len() {
                match p_params_more(r) {
                    None => None,
                    Some((ps, r2)) => Some((seq![p] + ps, r2)),
                }
            } else {
                None
            },
        }
    } else {
        Some((Seq::empty(), s))
    }
}

/// The parameter-array part of a snapshot: the opening literal, then either
/// an immediately closed array or a first parameter and its comma-led
/// continuation.
pub open spec fn p_cache_body(s: Seq<char>) -> Option<(Seq<ParamView>, Seq<char>)> {
    match p_lit(s, lit_data()) {
        None => None,
        Some(s1) => if s1.len() > 0 && s1[0] == ']' {
            Some((Seq::<ParamView>::empty(), s1))
        } else {
            match p_param(s1) {
                None => None,
                Some((p0, r)) => match p_params_more(r) {
                    None => None,
                    Some((ps, r2)) => Some((seq![p0] + ps, r2)),
                },
            }
        },
    }
}

/// Parses a whole serialized snapshot; the entire input must be consumed.
pub open spec fn p_cache(s: Seq<char>) -> Option<(Seq<ParamView>, u64)> {
    match p_cache_body(s) {
        None => None,
        Some((params, s2)) => match p_lit(s2, lit_ts()) {
            None => None,
            Some(s3) => match p_u64(s3) {
                None => None,
                Some((ts, s4)) => match p_lit(s4, seq!['}']) {
                    None => None,
                    Some(s5) => if s5.len() == 0 {
                        Some((params, ts))
                    } else {
                        None
                    },
                },
            },
        },
    }
}

/// A written parameter parses back, stripped of its value, leaving exactly
/// the rest.
#[verifier::rlimit(100)]
pub proof fn lemma_p_param(p: ParamView, rest: Seq<char>)
    ensures
        p_param(enc_param(p) + rest) == Some((strip_value(p), rest)),
{
    let r10 = seq!['}'] + rest;
    let r9 = enc_string(p.docs_title) + r10;
    let r8 = lit_title() + r9;
    let r7 = enc_string(p.docs_path) + r8;
    let r6 = lit_path() + r7;
    let r5 = enc_string(variant_seq(p.section)) + r6;
    let r4 = lit_sec() + r5;
    let r3 = enc_desc(p.description) + r4;
    let r2 = lit_desc() + r3;
    let r1 = enc_string(p.name) + r2;
    let input = enc_param(p) + rest;
    assert(input =~= lit_name() + r1);
    lemma_p_lit(lit_name(), r1);
    lemma_p_string(p.name, r2);
    assert(r2 =~= lit_desc() + r3);
    lemma_p_lit(lit_desc(), r3);
    match p.description {
        None => {
            assert(r3 =~= lit_null() + r4);
            lemma_p_lit(lit_null(), r4);
        },
        Some(d) => {
            assert(r3 =~= enc_string(d) + r4);
            lemma_p_string(d, r4);
            assert(r3[0] == '"');
            assert(!crate::text::starts_with_seq(r3, lit_null())) by {
                if crate::text::starts_with_seq(r3, lit_null()) {
                    assert(r3.subrange(0, 4)[0] == 'n');
                }
            }
        },
    }
    assert(r4 =~= lit_sec() + r5);
    lemma_p_lit(lit_sec(), r5);
    lemma_p_string(variant_seq(p.section), r6);
    lemma_section_variant_round(p.section);
    assert(r6 =~= lit_path() + r7);
    lemma_p_lit(lit_path(), r7);
    lemma_p_string(p.docs_path, r8);
    assert(r8 =~= lit_title() + r9);
    lemma_p_lit(lit_title(), r9);
    lemma_p_string(p.docs_title, r10);
    assert(r10 =~= seq!['}'] + rest);
    lemma_p_lit(seq!['}'], rest);
}

/// A written parameter starts with an opening brace.
pub proof fn lemma_enc_param_first(p: ParamView)
    ensures
        enc_param(p).len() > 0,
        enc_param(p)[0] == '{',
{
    assert(enc_param(p)[0] == lit_name()[0]);
}

/// The written continuation of the array parses back, stripped of values.
#[verifier::rlimit(100)]
pub proof fn lemma_p_params_more(ps: Seq<ParamView>, rest: Seq<char>)
    requires
        rest.len() > 0,
        rest[0] != ',',
    ensures
        p_params_more(enc_params_more(ps) + rest) == Some(
            (ps.map_values(|p: ParamView| strip_value(p)), rest),
        ),
    decreases ps.len(),
{
    let input = enc_params_more(ps) + rest;
    if ps.len() == 0 {
        assert(input =~= rest);
        assert(ps.map_values(|p: ParamView| strip_value(p)) =~= Seq::<ParamView>::empty());
    } else {
        let tail_enc = enc_params_more(ps.drop_first()) + rest;
        assert(input =~= seq![','] + (enc_param(ps[0]) + tail_enc));
        assert(input[0] == ',');
        assert(input.drop_first() =~= enc_param(ps[0]) + tail_enc);
        lemma_p_param(ps[0], tail_enc);
        lemma_p_params_more(ps.drop_first(), rest);
        assert(tail_enc.len() < input.len());
        assert(seq![strip_value(ps[0])] + ps.drop_first().map_values(
            |p: ParamView| strip_value(p),
        ) =~= ps.map_values(|p: ParamView| strip_value(p)));
    }
}

/// Cache round trip: a snapshot written with any payload and timestamp parses
/// back to exactly that payload (with values stripped, as stored) and that
/// timestamp.
#[verifier::rlimit(100)]
pub proof fn lemma_cache_round_trip(ps: Seq<ParamView>, ts: u64)
    ensures
        p_cache(enc_cache(ps, ts)) == Some((ps.map_values(|p: ParamView| strip_value(p)), ts)),
{
    let tail = lit_ts() + enc_nat(ts as int) + seq!['}'];
    let input = enc_cache(ps, ts);
    assert(input =~= lit_data() + (enc_params(ps) + tail));
    lemma_p_lit(lit_data(), enc_params(ps) + tail);
    let s1 = enc_params(ps) + tail;
    crate::json::lemma_enc_nat_digits(ts as int);
    let num_rest = seq!['}'];
    assert(tail =~= lit_ts() + (enc_nat(ts as int) + num_rest));
    if ps.len() == 0 {
        assert(s1 =~= tail);
        assert(s1[0] == ']');
        lemma_p_lit(lit_ts(), enc_nat(ts as int) + num_rest);
        lemma_p_u64(ts, num_rest);
        lemma_p_lit(seq!['}'], Seq::empty());
        assert(num_rest =~= seq!['}'] + Seq::<char>::empty());
        assert(ps.map_values(|p: ParamView| strip_value(p)) =~= Seq::<ParamView>::empty());
    } else {
        let more = enc_params_more(ps.drop_first()) + tail;
        assert(s1 =~= enc_param(ps[0]) + more);
        lemma_enc_param_first(ps[0]);
        assert(s1[0] == '{');
        lemma_p_param(ps[0], more);
        assert(tail[0] == ']');
        lemma_p_params_more(ps.drop_first(), tail);
        assert(more =~= enc_params_more(ps.drop_first()) + tail);
        lemma_p_lit(lit_ts(), enc_nat(ts as int) + num_rest);
        lemma_p_u64(ts, num_rest);
        lemma_p_lit(seq!['}'], Seq::empty());
        assert(num_rest =~= seq!['}'] + Seq::<char>::empty());
        assert(seq![strip_value(ps[0])] + ps.drop_first().map_values(
            |p: ParamView| strip_value(p),
        ) =~= ps.map_values(|p: ParamView| strip_value(p)));
    }
}

/// Cache data to store on the file system.
#[derive(Clone, Debug)]
pub struct CacheData {
    /// Cache data: the parameter snapshot.
    pub data: Vec<Parameter>,
    /// Timestamp of the data.
    pub timestamp: u64,
}

pub(crate) fn push_lit(out: &mut Vec<char>, lit: &[char])
    ensures
        final(out)@ == old(out)@ + lit@,
{
    let ghost start = out@;
    let mut i: usize = 0;
    while i < lit.len()
        invariant
            0 <= i <= lit@.len(),
            out@ == start + lit@.subrange(0, i as int),
        decreases lit@.len() - i,
    {
        let c = lit[i];
        out.push(c);
        proof {
            assert(start + lit@.subrange(0, i + 1) =~= (start + lit@.subrange(0, i as int)).push(
                c,
            ));
        }
        i += 1;
    }
    proof {
        assert(lit@.subrange(0, lit@.len() as int) =~= lit@);
    }
}

fn variant_chars(s: &Section) -> (r: Vec<char>)
    ensures
        r@ == variant_seq(*s),
{
    let r: Vec<char> = match s {
        Section::Abi => vec!['A', 'b', 'i'],
        Section::Fs => vec!['F', 's'],
        Section::Kernel => vec!['K', 'e', 'r', 'n', 'e', 'l'],
        Section::Net => vec!['N', 'e', 't'],
        Section::Sunrpc => vec!['S', 'u', 'n', 'r', 'p', 'c'],
        Section::User => vec!['U', 's', 'e', 'r'],
        Section::Vm => vec!['V', 'm'],
        Section::Unknown => vec!['U', 'n', 'k', 'n', 'o', 'w', 'n'],
    };
    proof {
        assert(r@ =~= variant_seq(*s));
    }
    r
}

fn enc_push_param(out: &mut Vec<char>, p: &Parameter)
    ensures
        final(out)@ == old(out)@ + enc_param(p@),
{
    let l1: Vec<char> = vec!['{', '"', 'n', 'a', 'm', 'e', '"', ':'];
    proof {
        assert(l1@ =~= lit_name());
    }
    push_lit(out, l1.as_slice());
    enc_push_string(out, p.name.as_str());
    let l2: Vec<char> = vec![
        ',', '"', 'd', 'e', 's', 'c', 'r', 'i', 'p', 't', 'i', 'o', 'n', '"', ':',
    ];
    proof {
        assert(l2@ =~= lit_desc());
    }
    push_lit(out, l2.as_slice());
    match &p.description {
        None => {
            let ln: Vec<char> = vec!['n', 'u', 'l', 'l'];
            proof {
                assert(ln@ =~= lit_null());
            }
            push_lit(out, ln.as_slice());
        },
        Some(d) => {
            enc_push_string(out, d.as_str());
        },
    }
    let l3: Vec<char> = vec![',', '"', 's', 'e', 'c', 't', 'i', 'o', 'n', '"', ':'];
    proof {
        assert(l3@ =~= lit_sec());
    }
    push_lit(out, l3.as_slice());
    let vc = variant_chars(&p.section);
    let vs = chars_to_string(vc.as_slice());
    enc_push_string(out, vs.as_str());
    let l4: Vec<char> = vec![',', '"', 'd', 'o', 'c', 's', '_', 'p', 'a', 't', 'h', '"', ':'];
    proof {
        assert(l4@ =~= lit_path());
    }
    push_lit(out, l4.as_slice());
    enc_push_string(out, p.docs_path.as_str());
    let l5: Vec<char> = vec![
        ',', '"', 'd', 'o', 'c', 's', '_', 't', 'i', 't', 'l', 'e', '"', ':',
    ];
    proof {
        assert(l5@ =~= lit_title());
    }
    push_lit(out, l5.as_slice());
    enc_push_string(out, p.docs_title.as_str());
    out.push('}');
    proof {
        assert(final(out)@ =~= old(out)@ + enc_param(p@));
    }
}

/// Appending one more parameter to a written array body.
proof fn lemma_enc_params_push(ps: Seq<ParamView>, p: ParamView)
    ensures
        ps.len() == 0 ==> enc_params(ps.push(p)) == enc_param(p),
        ps.len() > 0 ==> enc_params(ps.push(p)) == enc_params(ps) + seq![','] + enc_param(p),
    decreases ps.len(),
{
    if ps.len() == 0 {
        assert(ps.push(p)[0] == p);
        assert(ps.push(p).drop_first() =~= Seq::<ParamView>::empty());
        assert(enc_param(p) + Seq::<char>::empty() =~= enc_param(p));
    } else {
        lemma_enc_params_more_push(ps.drop_first(), p);
        assert(ps.push(p)[0] == ps[0]);
        assert(ps.push(p).drop_first() =~= ps.drop_first().push(p));
        assert(enc_param(ps[0]) + (enc_params_more(ps.drop_first()) + seq![','] + enc_param(p))
            =~= (enc_param(ps[0]) + enc_params_more(ps.drop_first())) + seq![','] + enc_param(p));
    }
}

proof fn lemma_enc_params_more_push(ps: Seq<ParamView>, p: ParamView)
    ensures
        enc_params_more(ps.push(p)) == enc_params_more(ps) + seq![','] + enc_param(p),
    decreases ps.len(),
{
    if ps.len() == 0 {
        assert(ps.push(p).len() == 1);
        assert(ps.push(p)[0] == p);
        assert(ps.push(p).drop_first() =~= Seq::<ParamView>::empty());
        assert(enc_params_more(ps.push(p)) == seq![','] + enc_param(ps.push(p)[0])
            + enc_params_more(ps.push(p).drop_first()));
        assert(enc_params_more(Seq::<ParamView>::empty()) == Seq::<char>::empty());
        assert(enc_params_more(ps) == Seq::<char>::empty());
        assert((seq![','] + enc_param(p)) + Seq::<char>::empty() =~= Seq::<char>::empty() + seq![
            ','
        ] + enc_param(p));
    } else {
        lemma_enc_params_more_push(ps.drop_first(), p);
        assert(ps.push(p)[0] == ps[0]);
        assert(ps.push(p).drop_first() =~= ps.drop_first().push(p));
        assert(seq![','] + enc_param(ps[0]) + (enc_params_more(ps.drop_first()) + seq![',']
            + enc_param(p)) =~= (seq![','] + enc_param(ps[0]) + enc_params_more(ps.drop_first()))
            + seq![','] + enc_param(p));
    }
}

impl CacheData {
    /// Constructs a new instance.
    pub fn new(data: Vec<Parameter>, timestamp: u64) -> (r: Self)
        ensures
            r.data == data,
            r.timestamp == timestamp,
    {
        Self { data, timestamp }
    }

    /// Serializes the snapshot.
    pub fn encode(&self) -> (r: String)
        ensures
            r@ == enc_cache(self.data@.map_values(|p: Parameter| p@), self.timestamp),
    {
        let ghost views = self.data@.map_values(|p: Parameter| p@);
        let mut out: Vec<char> = Vec::new();
        let ld: Vec<char> = vec!['{', '"', 'd', 'a', 't', 'a', '"', ':', '['];
        proof {
            assert(ld@ =~= lit_data());
        }
        push_lit(&mut out, ld.as_slice());
        let mut i: usize = 0;
        while i < self.data.len()
            invariant
                0 <= i <= self.data@.len(),
                views == self.data@.map_values(|p: Parameter| p@),
                out@ == lit_data() + enc_params(views.subrange(0, i as int)),
            decreases self.data@.len() - i,
        {
            if i > 0 {
                out.push(',');
            }
            enc_push_param(&mut out, &self.data[i]);
            proof {
                assert(views.subrange(0, i + 1) =~= views.subrange(0, i as int).push(
                    self.data@[i as int]@,
                ));
                lemma_enc_params_push(views.subrange(0, i as int), self.data@[i as int]@);
                assert(out@ =~= lit_data() + enc_params(views.subrange(0, i + 1)));
            }
            i += 1;
        }
        proof {
            assert(views.subrange(0, views.len() as int) =~= views);
        }
        let lt: Vec<char> = vec![
            ']', ',', '"', 't', 'i', 'm', 'e', 's', 't', 'a', 'm', 'p', '"', ':',
        ];
        proof {
            assert(lt@ =~= lit_ts());
        }
        push_lit(&mut out, lt.as_slice());
        enc_push_u64(&mut out, self.timestamp);
        out.push('}');
        proof {
            assert(out@ =~= enc_cache(views, self.timestamp));
        }
        chars_to_string(out.as_slice())
    }

    /// Reads a serialized snapshot back; anything that does not parse is a
    /// cache error, which callers treat as a cache miss.
    pub fn decode(s: &str) -> (r: Result<CacheData, Error>)
        ensures
            match r {
                Ok(cd) => p_cache(s@) == Some(
                    (cd.data@.map_values(|p: Parameter| p@), cd.timestamp),
                ),
                Err(Error::CacheError(_)) => p_cache(s@) is None,
                Err(_) => false,
            },
    {
        let t = str_to_chars(s);
        proof {
            assert(t@.skip(0) =~= s@);
        }
        match Self::decode_chars(t.as_slice()) {
            Some(cd) => Ok(cd),
            None => Err(Error::CacheError(String::from_str("invalid snapshot"))),
        }
    }

    fn decode_chars(t: &[char]) -> (r: Option<CacheData>)
        ensures
            match r {
                Some(cd) => p_cache(t@) == Some(
                    (cd.data@.map_values(|p: Parameter| p@), cd.timestamp),
                ),
                None => p_cache(t@) is None,
            },
    {
        proof {
            assert(t@.skip(0) =~= t@);
        }
        let ld: Vec<char> = vec!['{', '"', 'd', 'a', 't', 'a', '"', ':', '['];
        proof {
            assert(ld@ =~= lit_data());
        }
        let p1 = match d_lit(t, 0, ld.as_slice()) {
            Some(p) => p,
            None => {
                return None;
            },
        };
        let mut params: Vec<Parameter> = Vec::new();
        let mut pos = p1;
        let mut done = false;
        if pos < t.len() && t[pos] == ']' {
            proof {
                assert(t@.skip(pos as int)[0] == ']');
                assert(params@.map_values(|p: Parameter| p@) =~= Seq::<ParamView>::empty());
            }
        } else {
            proof {
                if t@.skip(pos as int).len() > 0 && t@.skip(pos as int)[0] == ']' {
                    assert(t@[pos as int] == ']');
                }
            }
            let (p0, p2) = match d_param(t, pos) {
                Some(v) => v,
                None => {
                    return None;
                },
            };
            params.push(p0);
            pos = p2;
            proof {
                assert(params@.map_values(|p: Parameter| p@) =~= seq![p0@]);
            }
            while !done
                invariant
                    pos <= t@.len(),
                    !done ==> (match p_params_more(t@.skip(pos as int)) {
                        Some((ps, r)) => p_cache_body(t@) == Some(
                            (params@.map_values(|p: Parameter| p@) + ps, r),
                        ),
                        None => p_cache_body(t@) is None,
                    }),
                    done ==> p_cache_body(t@) == Some(
                        (params@.map_values(|p: Parameter| p@), t@.skip(pos as int)),
                    ),
                decreases t@.len() - pos + (if done {
                    0int
                } else {
                    1int
                }),
            {
                if !(pos < t.len() && t[pos] == ',') {
                    proof {
                        let s = t@.skip(pos as int);
                        if pos < t@.len() {
                            assert(s[0] == t@[pos as int]);
                        }
                        assert(p_params_more(s) == Some((Seq::<ParamView>::empty(), s)));
                        assert(params@.map_values(|p: Parameter| p@) + Seq::<ParamView>::empty()
                            =~= params@.map_values(|p: Parameter| p@));
                    }
                    done = true;
                } else {
                    proof {
                        assert(t@.skip(pos as int)[0] == ',');
                        assert(t@.skip(pos as int).drop_first() =~= t@.skip(pos + 1));
                    }
                    let (pn, p3) = match d_param(t, pos + 1) {
                        Some(v) => v,
                        None => {
                            proof {
                                assert(p_params_more(t@.skip(pos as int)) is None);
                            }
                            return None;
                        },
                    };
                    let ghost old_views = params@.map_values(|p: Parameter| p@);
                    params.push(pn);
                    proof {
                        let s = t@.skip(pos as int);
                        let r = t@.skip(p3 as int);
                        assert(r.len() < s.len());
                        let new_views = params@.map_values(|p: Parameter| p@);
                        assert(new_views =~= old_views.push(pn@));
                        if p_params_more(r) is Some {
                            let pr = p_params_more(r)->Some_0;
                            assert(p_params_more(s) == Some((seq![pn@] + pr.0, pr.1)));
                            assert(old_views + (seq![pn@] + pr.0) =~= new_views + pr.0);
                        } else {
                            assert(p_params_more(s) is None);
                        }
                    }
                    pos = p3;
                }
            }
        }
        let lt: Vec<char> = vec![
            ']', ',', '"', 't', 'i', 'm', 'e', 's', 't', 'a', 'm', 'p', '"', ':',
        ];
        proof {
            assert(lt@ =~= lit_ts());
        }
        let p4 = match d_lit(t, pos, lt.as_slice()) {
            Some(p) => p,
            None => {
                return None;
            },
        };
        let (ts, p5) = match d_u64(t, p4) {
            Some(v) => v,
            None => {
                return None;
            },
        };
        let cb: Vec<char> = vec!['}'];
        proof {
            assert(cb@ =~= seq!['}']);
        }
        let p6 = match d_lit(t, p5, cb.as_slice()) {
            Some(p) => p,
            None => {
                return None;
            },
        };
        if p6 != t.len() {
            proof {
                assert(t@.skip(p6 as int).len() != 0);
            }
            return None;
        }
        proof {
            assert(t@.skip(p6 as int).len() == 0);
        }
        Some(CacheData { data: params, timestamp: ts })
    }
}

/// Parses one parameter at position `pos`.
fn d_param(t: &[char], pos: usize) -> (r: Option<(Parameter, usize)>)
    requires
        pos <= t@.len(),
    ensures
        match r {
            Some(v) => pos < v.1 <= t@.len() && p_param(t@.skip(pos as int)) == Some(
                (v.0@, t@.skip(v.1 as int)),
            ),
            None => p_param(t@.skip(pos as int)) is None,
        },
{
    let l1: Vec<char> = vec!['{', '"', 'n', 'a', 'm', 'e', '"', ':'];
    proof {
        assert(l1@ =~= lit_name());
    }
    let s1 = match d_lit(t, pos, l1.as_slice()) {
        Some(p) => p,
        None => {
            return None;
        },
    };
    let (name, s2) = match d_string(t, s1) {
        Some(v) => v,
        None => {
            return None;
        },
    };
    let l2: Vec<char> = vec![
        ',', '"', 'd', 'e', 's', 'c', 'r', 'i', 'p', 't', 'i', 'o', 'n', '"', ':',
    ];
    proof {
        assert(l2@ =~= lit_desc());
    }
    let s3 = match d_lit(t, s2, l2.as_slice()) {
        Some(p) => p,
        None => {
            return None;
        },
    };
    let ln: Vec<char> = vec!['n', 'u', 'l', 'l'];
    proof {
        assert(ln@ =~= lit_null());
    }
    let (desc, s4): (Option<String>, usize) = match d_lit(t, s3, ln.as_slice()) {
        Some(p) => (None, p),
        None => {
            match d_string(t, s3) {
                Some(v) => (Some(v.0), v.1),
                None => {
                    return None;
                },
            }
        },
    };
    let l3: Vec<char> = vec![',', '"', 's', 'e', 'c', 't', 'i', 'o', 'n', '"', ':'];
    proof {
        assert(l3@ =~= lit_sec());
    }
    let s5 = match d_lit(t, s4, l3.as_slice()) {
        Some(p) => p,
        None => {
            return None;
        },
    };
    let (secv, s6) = match d_string(t, s5) {
        Some(v) => v,
        None => {
            return None;
        },
    };
    let sec = match section_from_chars(secv.as_str()) {
        Some(x) => x,
        None => {
            return None;
        },
    };
    let l4: Vec<char> = vec![',', '"', 'd', 'o', 'c', 's', '_', 'p', 'a', 't', 'h', '"', ':'];
    proof {
        assert(l4@ =~= lit_path());
    }
    let s7 = match d_lit(t, s6, l4.as_slice()) {
        Some(p) => p,
        None => {
            return None;
        },
    };
    let (path, s8) = match d_string(t, s7) {
        Some(v) => v,
        None => {
            return None;
        },
    };
    let l5: Vec<char> = vec![
        ',', '"', 'd', 'o', 'c', 's', '_', 't', 'i', 't', 'l', 'e', '"', ':',
    ];
    proof {
        assert(l5@ =~= lit_title());
    }
    let s9 = match d_lit(t, s8, l5.as_slice()) {
        Some(p) => p,
        None => {
            return None;
        },
    };
    let (title, s10) = match d_string(t, s9) {
        Some(v) => v,
        None => {
            return None;
        },
    };
    let cb: Vec<char> = vec!['}'];
    proof {
        assert(cb@ =~= seq!['}']);
    }
    let s11 = match d_lit(t, s10, cb.as_slice()) {
        Some(p) => p,
        None => {
            return None;
        },
    };
    let param = Parameter {
        name,
        value: String::new(),
        description: desc,
        section: sec,
        docs_path: path,
        docs_title: title,
    };
    Some((param, s11))
}

fn section_from_chars(v: &str) -> (r: Option<Section>)
    ensures
        r == section_of_variant(v@),
{
    let t = str_to_chars(v);
    let n_abi: Vec<char> = vec!['A', 'b', 'i'];
    let n_fs: Vec<char> = vec!['F', 's'];
    let n_kernel: Vec<char> = vec!['K', 'e', 'r', 'n', 'e', 'l'];
    let n_net: Vec<char> = vec!['N', 'e', 't'];
    let n_sunrpc: Vec<char> = vec!['S', 'u', 'n', 'r', 'p', 'c'];
    let n_user: Vec<char> = vec!['U', 's', 'e', 'r'];
    let n_vm: Vec<char> = vec!['V', 'm'];
    let n_unknown: Vec<char> = vec!['U', 'n', 'k', 'n', 'o', 'w', 'n'];
    proof {
        assert(n_abi@ =~= variant_seq(Section::Abi));
        assert(n_fs@ =~= variant_seq(Section::Fs));
        assert(n_kernel@ =~= variant_seq(Section::Kernel));
        assert(n_net@ =~= variant_seq(Section::Net));
        assert(n_sunrpc@ =~= variant_seq(Section::Sunrpc));
        assert(n_user@ =~= variant_seq(Section::User));
        assert(n_vm@ =~= variant_seq(Section::Vm));
        assert(n_unknown@ =~= variant_seq(Section::Unknown));
    }
    if crate::text::chars_eq(t.as_slice(), n_abi.as_slice()) {
        Some(Section::Abi)
    } else if crate::text::chars_eq(t.as_slice(), n_fs.as_slice()) {
        Some(Section::Fs)
    } else if crate::text::chars_eq(t.as_slice(), n_kernel.as_slice()) {
        Some(Section::Kernel)
    } else if crate::text::chars_eq(t.as_slice(), n_net.as_slice()) {
        Some(Section::Net)
    } else if crate::text::chars_eq(t.as_slice(), n_sunrpc.as_slice()) {
        Some(Section::Sunrpc)
    } else if crate::text::chars_eq(t.as_slice(), n_user.as_slice()) {
        Some(Section::User)
    } else if crate::text::chars_eq(t.as_slice(), n_vm.as_slice()) {
        Some(Section::Vm)
    } else if crate::text::chars_eq(t.as_slice(), n_unknown.as_slice()) {
        Some(Section::Unknown)
    } else {
        None
    }
}

} // verus!
