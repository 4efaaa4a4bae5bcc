//! The closed taxonomy of kernel subsystems and the classification of
//! parameter names and documentation paths into it.

use vstd::prelude::*;

use crate::text::{
    chars_eq, chars_to_string, last_index_of, lemma_last_index_of, lemma_split_seq_len,
    split_chars, split_seq, starts_with_chars, starts_with_seq, str_to_chars,
};

verus! {

/// One kernel subsystem of the sysctl documentation, or `Unknown` when no
/// member of the taxonomy applies.
#[derive(Clone, Copy, Debug, Eq, Hash, PartialEq, Structural)]
pub enum Section {
    /// Documentation for `/proc/sys/abi/*`
    Abi,
    /// Documentation for `/proc/sys/fs/*`
    Fs,
    /// Documentation for `/proc/sys/kernel/*`
    Kernel,
    /// Documentation for `/proc/sys/net/*`
    Net,
    /// Documentation for `/proc/sys/sunrpc/*`
    Sunrpc,
    /// Documentation for `/proc/sys/user/*`
    User,
    /// Documentation for `/proc/sys/vm/*`
    Vm,
    /// Unknown.
    Unknown,
}

impl Section {
    /// The canonical lowercase name of this section.
    pub open spec fn spec_name(self) -> Seq<char> {
        match self {
            Section::Abi => seq!['a', 'b', 'i'],
            Section::Fs => seq!['f', 's'],
            Section::Kernel => seq!['k', 'e', 'r', 'n', 'e', 'l'],
            Section::Net => seq!['n', 'e', 't'],
            Section::Sunrpc => seq!['s', 'u', 'n', 'r', 'p', 'c'],
            Section::User => seq!['u', 's', 'e', 'r'],
            Section::Vm => seq!['v', 'm'],
            Section::Unknown => seq!['u', 'n', 'k', 'n', 'o', 'w', 'n'],
        }
    }

    /// The canonical lowercase name of this section.
    pub fn name(&self) -> (r: String)
        ensures
            r@ == self.spec_name(),
    {
        let v = self.name_chars();
        chars_to_string(v.as_slice())
    }

    /// The canonical lowercase name of this section, as characters.
    pub fn name_chars(&self) -> (r: Vec<char>)
        ensures
            r@ == self.spec_name(),
    {
        let r: Vec<char> = match self {
            Section::Abi => vec!['a', 'b', 'i'],
            Section::Fs => vec!['f', 's'],
            Section::Kernel => vec!['k', 'e', 'r', 'n', 'e', 'l'],
            Section::Net => vec!['n', 'e', 't'],
            Section::Sunrpc => vec!['s', 'u', 'n', 'r', 'p', 'c'],
            Section::User => vec!['u', 's', 'e', 'r'],
            Section::Vm => vec!['v', 'm'],
            Section::Unknown => vec!['u', 'n', 'k', 'n', 'o', 'w', 'n'],
        };
        proof {
            assert(r@ =~= self.spec_name());
        }
        r
    }

    fn prefix_chars(&self) -> (r: Vec<char>)
        ensures
            r@ == self.spec_name() + seq!['.'],
    {
        let mut v = self.name_chars();
        v.push('.');
        proof {
            assert(v@ =~= self.spec_name() + seq!['.']);
        }
        v
    }

    /// The taxonomy members, in declaration order (without `Unknown`).
    pub open spec fn spec_variants() -> Seq<Section> {
        seq![
            Section::Abi,
            Section::Fs,
            Section::Kernel,
            Section::Net,
            Section::Sunrpc,
            Section::User,
            Section::Vm,
        ]
    }

    /// Returns the taxonomy members, in declaration order (without `Unknown`).
    pub fn variants() -> (r: Vec<Section>)
        ensures
            r@ == Section::spec_variants(),
    {
        let r: Vec<Section> = vec![
            Section::Abi,
            Section::Fs,
            Section::Kernel,
            Section::Net,
            Section::Sunrpc,
            Section::User,
            Section::Vm,
        ];
        proof {
            assert(r@ =~= Section::spec_variants());
        }
        r
    }

    /// The section of a parameter name: the first taxonomy member whose name,
    /// followed by a dot, begins the parameter name.
    pub open spec fn spec_from_name(name: Seq<char>) -> Section {
        if starts_with_seq(name, Section::Abi.spec_name() + seq!['.']) {
            Section::Abi
        } else if starts_with_seq(name, Section::Fs.spec_name() + seq!['.']) {
            Section::Fs
        } else if starts_with_seq(name, Section::Kernel.spec_name() + seq!['.']) {
            Section::Kernel
        } else if starts_with_seq(name, Section::Net.spec_name() + seq!['.']) {
            Section::Net
        } else if starts_with_seq(name, Section::Sunrpc.spec_name() + seq!['.']) {
            Section::Sunrpc
        } else if starts_with_seq(name, Section::User.spec_name() + seq!['.']) {
            Section::User
        } else if starts_with_seq(name, Section::Vm.spec_name() + seq!['.']) {
            Section::Vm
        } else {
            Section::Unknown
        }
    }

    /// Returns the section of the given parameter name.
    pub fn from_name(name: &str) -> (r: Section)
        ensures
            r == Section::spec_from_name(name@),
    {
        let t = str_to_chars(name);
        let variants = Section::variants();
        let mut i: usize = 0;
        while i < variants.len()
            invariant
                0 <= i <= variants@.len(),
                variants@ == Section::spec_variants(),
                t@ == name@,
                forall|j: int|
                    0 <= j < i ==> !starts_with_seq(
                        name@,
                        variants@[j].spec_name() + seq!['.'],
                    ),
            decreases variants@.len() - i,
        {
            let p = variants[i].prefix_chars();
            if starts_with_chars(t.as_slice(), p.as_slice()) {
                return variants[i];
            }
            i += 1;
        }
        Section::Unknown
    }

    /// The file stem of a file name: the part before the final dot, or the
    /// whole name when it has no dot past its first character.
    pub open spec fn spec_file_stem(f: Seq<char>) -> Seq<char> {
        if last_index_of(f, '.') <= 0 {
            f
        } else {
            f.subrange(0, last_index_of(f, '.'))
        }
    }

    /// The section of a documentation file path: `Net` for any file under a
    /// `networking` directory, otherwise the first taxonomy member whose name
    /// begins the file's stem.
    /// The characters of the literal directory name `networking`.
    pub open spec fn networking_seq() -> Seq<char> {
        seq!['n', 'e', 't', 'w', 'o', 'r', 'k', 'i', 'n', 'g']
    }

    pub open spec fn spec_from_path(path: Seq<char>) -> Section {
        let comps = split_seq(path, '/');
        if exists|j: int| 0 <= j < comps.len() && comps[j] == Section::networking_seq() {
            Section::Net
        } else {
            let stem = Section::spec_file_stem(comps[comps.len() - 1]);
            if starts_with_seq(stem, Section::Abi.spec_name()) {
                Section::Abi
            } else if starts_with_seq(stem, Section::Fs.spec_name()) {
                Section::Fs
            } else if starts_with_seq(stem, Section::Kernel.spec_name()) {
                Section::Kernel
            } else if starts_with_seq(stem, Section::Net.spec_name()) {
                Section::Net
            } else if starts_with_seq(stem, Section::Sunrpc.spec_name()) {
                Section::Sunrpc
            } else if starts_with_seq(stem, Section::User.spec_name()) {
                Section::User
            } else if starts_with_seq(stem, Section::Vm.spec_name()) {
                Section::Vm
            } else {
                Section::Unknown
            }
        }
    }

    /// Returns the section of the given documentation file path.
    pub fn from_path(path: &str) -> (r: Section)
        ensures
            r == Section::spec_from_path(path@),
    {
        let t = str_to_chars(path);
        let comps = split_chars(t.as_slice(), '/');
        proof {
            lemma_split_seq_len(path@, '/');
        }
        let networking: Vec<char> = vec!['n', 'e', 't', 'w', 'o', 'r', 'k', 'i', 'n', 'g'];
        proof {
            assert(networking@ =~= Section::networking_seq());
        }
        let ghost spec_comps = split_seq(path@, '/');
        let mut j: usize = 0;
        while j < comps.len()
            invariant
                0 <= j <= comps@.len(),
                networking@ == Section::networking_seq(),
                comps@.map_values(|x: String| x@) == spec_comps,
                spec_comps == split_seq(path@, '/'),
                forall|k: int| 0 <= k < j ==> spec_comps[k] != Section::networking_seq(),
            decreases comps@.len() - j,
        {
            let comp = str_to_chars(comps[j].as_str());
            proof {
                assert(comp@ == spec_comps[j as int]) by {
                    assert(comps@.map_values(|x: String| x@)[j as int] == spec_comps[j as int]);
                }
            }
            if chars_eq(comp.as_slice(), networking.as_slice()) {
                return Section::Net;
            }
            j += 1;
        }
        let last = str_to_chars(comps[comps.len() - 1].as_str());
        proof {
            assert(last@ == spec_comps[spec_comps.len() - 1]) by {
                let n = spec_comps.len() - 1;
                assert(comps@.map_values(|x: String| x@)[n] == spec_comps[n]);
            }
        }
        let stem = Section::file_stem_chars(last.as_slice());
        let variants = Section::variants();
        let mut i: usize = 0;
        while i < variants.len()
            invariant
                0 <= i <= variants@.len(),
                variants@ == Section::spec_variants(),
                stem@ == Section::spec_file_stem(split_seq(path@, '/').last()),
                forall|k: int| 0 <= k < split_seq(path@, '/').len() ==> split_seq(path@, '/')[k]
                    != Section::networking_seq(),
                forall|k: int| 0 <= k < i ==> !starts_with_seq(stem@, variants@[k].spec_name()),
            decreases variants@.len() - i,
        {
            let p = variants[i].name_chars();
            if starts_with_chars(stem.as_slice(), p.as_slice()) {
                return variants[i];
            }
            i += 1;
        }
        Section::Unknown
    }

    fn file_stem_chars(t: &[char]) -> (r: Vec<char>)
        ensures
            r@ == Section::spec_file_stem(t@),
    {
        proof {
            lemma_last_index_of(t@, '.');
        }
        let mut i: usize = t.len();
        while i > 0
            invariant
                0 <= i <= t@.len(),
                forall|j: int| i <= j < t@.len() ==> t@[j] != '.',
            decreases i,
        {
            if t[i - 1] == '.' {
                proof {
                    assert(last_index_of(t@, '.') == i - 1) by {
                        lemma_last_index_of(t@, '.');
                        if last_index_of(t@, '.') > i - 1 {
                            assert(t@[last_index_of(t@, '.')] != '.');
                        }
                        if last_index_of(t@, '.') < i - 1 {
                            assert(t@[i - 1] != '.');
                        }
                    }
                }
                let upto = if i - 1 > 0 {
                    i - 1
                } else {
                    t.len()
                };
                let s = vstd::slice::slice_subrange(t, 0, upto);
                let mut r: Vec<char> = Vec::new();
                r.extend_from_slice(s);
                proof {
                    if i - 1 > 0 {
                        assert(r@ =~= Section::spec_file_stem(t@));
                    } else {
                        assert(t@.subrange(0, t@.len() as int) =~= t@);
                        assert(r@ =~= Section::spec_file_stem(t@));
                    }
                }
                return r;
            }
            i -= 1;
        }
        proof {
            assert(last_index_of(t@, '.') == -1) by {
                lemma_last_index_of(t@, '.');
                if last_index_of(t@, '.') >= 0 {
                    assert(t@[last_index_of(t@, '.')] != '.');
                }
            }
        }
        let s = vstd::slice::slice_subrange(t, 0, t.len());
        let mut r: Vec<char> = Vec::new();
        r.extend_from_slice(s);
        proof {
            assert(r@ =~= Section::spec_file_stem(t@));
        }
        r
    }

    /// The ASCII uppercase counterpart of a lowercase letter; any other
    /// character is its own counterpart.
    pub open spec fn spec_upper_of(c: char) -> char {
        match c {
            'a' => 'A',
            'b' => 'B',
            'c' => 'C',
            'd' => 'D',
            'e' => 'E',
            'f' => 'F',
            'g' => 'G',
            'h' => 'H',
            'i' => 'I',
            'j' => 'J',
            'k' => 'K',
            'l' => 'L',
            'm' => 'M',
            'n' => 'N',
            'o' => 'O',
            'p' => 'P',
            'q' => 'Q',
            'r' => 'R',
            's' => 'S',
            't' => 'T',
            'u' => 'U',
            'v' => 'V',
            'w' => 'W',
            'x' => 'X',
            'y' => 'Y',
            'z' => 'Z',
            _ => c,
        }
    }

    /// A single character compared ignoring ASCII case.
    pub open spec fn chars_eq_ci(a: char, b: char) -> bool {
        a == b || a == Section::spec_upper_of(b) || b == Section::spec_upper_of(a)
    }

    /// Two labels compared ignoring ASCII case.
    pub open spec fn label_eq_ci(a: Seq<char>, b: Seq<char>) -> bool {
        a.len() == b.len() && forall|i: int| 0 <= i < a.len() ==> Section::chars_eq_ci(a[i], b[i])
    }

    /// The section whose canonical name equals the label, compared ignoring
    /// ASCII case; `Unknown` when none does.
    pub open spec fn spec_from_label(v: Seq<char>) -> Section {
        if Section::label_eq_ci(v, Section::Abi.spec_name()) {
            Section::Abi
        } else if Section::label_eq_ci(v, Section::Fs.spec_name()) {
            Section::Fs
        } else if Section::label_eq_ci(v, Section::Kernel.spec_name()) {
            Section::Kernel
        } else if Section::label_eq_ci(v, Section::Net.spec_name()) {
            Section::Net
        } else if Section::label_eq_ci(v, Section::Sunrpc.spec_name()) {
            Section::Sunrpc
        } else if Section::label_eq_ci(v, Section::User.spec_name()) {
            Section::User
        } else if Section::label_eq_ci(v, Section::Vm.spec_name()) {
            Section::Vm
        } else {
            Section::Unknown
        }
    }
}

proof fn lemma_prefix_first_char(name: Seq<char>, p: Seq<char>)
    requires
        starts_with_seq(name, p),
        p.len() > 0,
    ensures
        name.len() > 0,
        name[0] == p[0],
{
    assert(name.subrange(0, p.len() as int)[0] == name[0]);
}

/// Classification recognizes every recognized prefix: a parameter name that
/// begins with a taxonomy member's canonical name followed by a dot
/// classifies to exactly that member. Classification itself is a total
/// function of the name: no input errors.
pub proof fn lemma_from_name_recognizes_prefix(name: Seq<char>, s: Section)
    requires
        s != Section::Unknown,
        starts_with_seq(name, s.spec_name() + seq!['.']),
    ensures
        Section::spec_from_name(name) == s,
{
    let own = s.spec_name() + seq!['.'];
    lemma_prefix_first_char(name, own);
    assert(own[0] == s.spec_name()[0]);
    assert forall|m: Section|
        m != Section::Unknown && m != s implies !starts_with_seq(
        name,
        #[trigger] m.spec_name() + seq!['.'],
    ) by {
        let mp = m.spec_name() + seq!['.'];
        if starts_with_seq(name, mp) {
            lemma_prefix_first_char(name, mp);
            assert(mp[0] == m.spec_name()[0]);
            assert(m.spec_name()[0] != s.spec_name()[0]);
        }
    }
    assert(!starts_with_seq(name, Section::Abi.spec_name() + seq!['.']) || s == Section::Abi);
    assert(!starts_with_seq(name, Section::Fs.spec_name() + seq!['.']) || s == Section::Fs);
    assert(!starts_with_seq(name, Section::Kernel.spec_name() + seq!['.']) || s
        == Section::Kernel);
    assert(!starts_with_seq(name, Section::Net.spec_name() + seq!['.']) || s == Section::Net);
    assert(!starts_with_seq(name, Section::Sunrpc.spec_name() + seq!['.']) || s
        == Section::Sunrpc);
    assert(!starts_with_seq(name, Section::User.spec_name() + seq!['.']) || s == Section::User);
    assert(!starts_with_seq(name, Section::Vm.spec_name() + seq!['.']) || s == Section::Vm);
}

fn upper_char(c: char) -> (r: char)
    ensures
        r == Section::spec_upper_of(c),
{
    match c {
        'a' => 'A',
        'b' => 'B',
        'c' => 'C',
        'd' => 'D',
        'e' => 'E',
        'f' => 'F',
        'g' => 'G',
        'h' => 'H',
        'i' => 'I',
        'j' => 'J',
        'k' => 'K',
        'l' => 'L',
        'm' => 'M',
        'n' => 'N',
        'o' => 'O',
        'p' => 'P',
        'q' => 'Q',
        'r' => 'R',
        's' => 'S',
        't' => 'T',
        'u' => 'U',
        'v' => 'V',
        'w' => 'W',
        'x' => 'X',
        'y' => 'Y',
        'z' => 'Z',
        _ => c,
    }
}

fn label_matches(a: &[char], b: &[char]) -> (r: bool)
    ensures
        r == Section::label_eq_ci(a@, b@),
{
    if a.len() != b.len() {
        return false;
    }
    let mut i: usize = 0;
    while i < a.len()
        invariant
            0 <= i <= a@.len(),
            a@.len() == b@.len(),
            forall|j: int| 0 <= j < i ==> Section::chars_eq_ci(a@[j], b@[j]),
        decreases a@.len() - i,
    {
        let ca = a[i];
        let cb = b[i];
        let same = ca == cb || ca == upper_char(cb) || cb == upper_char(ca);
        if !same {
            return false;
        }
        i += 1;
    }
    true
}

impl From<String> for Section {
    /// The member whose canonical name equals the given label, ignoring ASCII
    /// case; `Unknown` when none does.
    fn from(value: String) -> (r: Section) {
        let t = str_to_chars(value.as_str());
        let variants = Section::variants();
        let mut i: usize = 0;
        while i < variants.len()
            invariant
                0 <= i <= variants@.len(),
                variants@ == Section::spec_variants(),
                t@ == value@,
                forall|j: int|
                    0 <= j < i ==> !Section::label_eq_ci(value@, variants@[j].spec_name()),
            decreases variants@.len() - i,
        {
            let p = variants[i].name_chars();
            if label_matches(t.as_slice(), p.as_slice()) {
                return variants[i];
            }
            i += 1;
        }
        Section::Unknown
    }
}

impl vstd::std_specs::convert::FromSpecImpl<String> for Section {
    open spec fn obeys_from_spec() -> bool {
        true
    }

    open spec fn from_spec(v: String) -> Section {
        Section::spec_from_label(v@)
    }
}

} // verus!
