//! String lookup of a name: pseudo-variables, virtual namespaces, then the frames.
use unicode_segmentation::UnicodeSegmentation;
use vstd::prelude::*;
use crate::color::{render, render_color};
use crate::hex::{byte_char, hex_byte, parse_hex_byte, HexError};
use crate::text::{
    chars_of, has_prefix, replace, replace_all, same_chars, segments, split_segments, string_of,
    sub_chars,
};
use crate::value::{views, Value, ValueModel};
use crate::variables::{
    env_get, frame_get, frame_index, law_super_qualifier, lookup, super_ns,
    supers, Variables, VarsModel,
};

verus! {

/// Why a name has no string value.
#[derive(Debug)]
pub enum ExpansionError {
    /// The name is bound to no string, and the environment does not set it.
    VariableNotFound,
    /// The name is qualified by a namespace that does not exist; it holds the qualifier.
    UnsupportedNamespace(String),
    /// The text after `x::` or `hex::` is not a byte in hexadecimal.
    InvalidHex(String, HexError),
    /// The environment does not set the name after `env::`.
    UnknownEnv(String),
    /// The text after `c::` or `color::` names no color or attribute.
    InvalidColor(String),
}

/// The outcome of a string lookup, as a model.
pub enum StrLookup {
    Found(Seq<char>),
    NotFound,
    Unsupported(Seq<char>),
    BadHex(Seq<char>, HexError),
    NoEnv(Seq<char>),
    BadColor(Seq<char>),
}

/// The model of the result of a string lookup.
pub open spec fn outcome(r: Result<String, ExpansionError>) -> StrLookup {
    match r {
        Ok(s) => StrLookup::Found(s@),
        Err(ExpansionError::VariableNotFound) => StrLookup::NotFound,
        Err(ExpansionError::UnsupportedNamespace(p)) => StrLookup::Unsupported(p@),
        Err(ExpansionError::InvalidHex(t, e)) => StrLookup::BadHex(t@, e),
        Err(ExpansionError::UnknownEnv(n)) => StrLookup::NoEnv(n@),
        Err(ExpansionError::InvalidColor(t)) => StrLookup::BadColor(t@),
    }
}

/// The extended grapheme clusters of a text, in order.
pub uninterp spec fn graphemes_of(s: Seq<char>) -> Seq<Seq<char>>;

/// Relies on `UnicodeSegmentation::graphemes(s, true)` of unicode_segmentation: the
/// extended grapheme clusters of `s`, in order.
#[verifier::external_body]
fn graphemes(s: &str) -> (r: Vec<String>)
    ensures
        views(r@) == graphemes_of(s@),
{
    s.graphemes(true).map(|g| g.to_string()).collect()
}

/// What stands for a path component in a minimal path, given its grapheme clusters: the
/// first cluster, and the second too where the first is a dot.
pub open spec fn lead_of(g: Seq<Seq<char>>) -> Seq<char> {
    if g.len() == 0 {
        Seq::empty()
    } else if g[0] == seq!['.'] && g.len() > 1 {
        g[0] + g[1]
    } else {
        g[0]
    }
}

/// What stands for a path component in a minimal path, given its grapheme clusters.
pub fn leading_grapheme(g: &Vec<String>) -> (r: String)
    ensures
        r@ == lead_of(views(g@)),
{
    if g.len() == 0 {
        return String::new();
    }
    let first = g[0].clone();
    let dot: Vec<char> = vec!['.'];
    assert(dot@ =~= seq!['.']);
    let c = chars_of(first.as_str());
    if g.len() > 1 && same_chars(&c, &dot) {
        let mut r = first;
        r.append(g[1].as_str());
        r
    } else {
        first
    }
}

/// The leading clusters of each component, each followed by `/`.
pub open spec fn abbreviated(es: Seq<Seq<char>>) -> Seq<char>
    decreases es.len(),
{
    if es.len() == 0 {
        Seq::empty()
    } else {
        abbreviated(es.drop_last()) + lead_of(graphemes_of(es.last())) + seq!['/']
    }
}

/// A path with more than two components, with each component but the last cut to its
/// leading cluster; a path of two components or fewer as it is.
pub open spec fn minimal(path: Seq<char>) -> Seq<char> {
    let es = segments(path);
    if es.len() > 2 {
        abbreviated(es.drop_last()) + es.last()
    } else {
        path
    }
}

/// The minimal form of a path: with more than two components, each but the last is cut
/// to its leading grapheme cluster (`/var/log/nix` becomes `v/l/nix`).
pub fn minimize_path(path: &str) -> (r: String)
    ensures
        r@ == minimal(path@),
{
    let p = chars_of(path);
    let es = split_segments(&p);
    let ghost ev = es@.map_values(|v: Vec<char>| v@);
    if es.len() <= 2 {
        return string_of(&p);
    }
    let mut out = String::new();
    let mut i: usize = 0;
    while i + 1 < es.len()
        invariant
            ev == es@.map_values(|v: Vec<char>| v@),
            i + 1 <= es.len(),
            out@ == abbreviated(ev.subrange(0, i as int)),
        decreases es.len() - i,
    {
        assert(ev.subrange(0, i + 1).drop_last() =~= ev.subrange(0, i as int));
        let s = string_of(&es[i]);
        let g = graphemes(s.as_str());
        let lead = leading_grapheme(&g);
        out.append(lead.as_str());
        crate::text::push_char(&mut out, '/');
        i += 1;
    }
    assert(ev.subrange(0, i as int) =~= ev.drop_last());
    let last = string_of(&es[i]);
    out.append(last.as_str());
    out
}

pub open spec fn home_name() -> Seq<char> {
    seq!['H', 'O', 'M', 'E']
}

pub open spec fn pwd_name() -> Seq<char> {
    seq!['P', 'W', 'D']
}

/// The home directory as the store sees it: the string variable `HOME`, else the
/// environment's `HOME`, else `?`.
pub open spec fn home_of(m: VarsModel) -> Seq<char> {
    match lookup(m.frames, home_name()) {
        Some(ValueModel::Str(v)) => v,
        _ => match env_get(m.env, home_name()) {
            Some(v) => v,
            None => seq!['?'],
        },
    }
}

/// The working directory with each occurrence of the home directory written `~`;
/// `None` where the environment sets no `PWD`.
pub open spec fn simplified(m: VarsModel) -> Option<Seq<char>> {
    match env_get(m.env, pwd_name()) {
        Some(p) => Some(replace_all(p, home_of(m), seq!['~'])),
        None => None,
    }
}

/// The position of the first `::` in a name, searched from `i` on.
pub open spec fn find_sep_from(s: Seq<char>, i: int) -> Option<int>
    decreases s.len() - i,
{
    if i < 0 || i + 1 >= s.len() {
        None
    } else if s[i] == ':' && s[i + 1] == ':' {
        Some(i)
    } else {
        find_sep_from(s, i + 1)
    }
}

/// A name bound to a string, else set in the environment, else not found.
pub open spec fn plain_lookup(m: VarsModel, name: Seq<char>) -> StrLookup {
    match lookup(m.frames, name) {
        Some(ValueModel::Str(v)) => StrLookup::Found(v),
        _ => match env_get(m.env, name) {
            Some(v) => StrLookup::Found(v),
            None => StrLookup::NotFound,
        },
    }
}

/// What a name expands to as a string: `MWD` and `SWD` are computed from the working
/// directory; `c::`/`color::` render colors, `x::`/`hex::` a byte as a character, `env::`
/// reads the environment; a bare name, or one qualified `super::` or `global::`, is looked
/// up in the frames and then in the environment; any other qualifier is refused.
pub open spec fn str_lookup(m: VarsModel, name: Seq<char>) -> StrLookup {
    if name == seq!['M', 'W', 'D'] {
        match simplified(m) {
            Some(s) => StrLookup::Found(minimal(s)),
            None => StrLookup::NotFound,
        }
    } else if name == seq!['S', 'W', 'D'] {
        match simplified(m) {
            Some(s) => StrLookup::Found(s),
            None => StrLookup::NotFound,
        }
    } else {
        match find_sep_from(name, 0) {
            Some(i) => {
                let pre = name.subrange(0, i);
                let rest = name.subrange(i + 2, name.len() as int);
                if pre == seq!['c'] || pre == seq!['c', 'o', 'l', 'o', 'r'] {
                    match render(rest) {
                        Some(t) => StrLookup::Found(t),
                        None => StrLookup::BadColor(rest),
                    }
                } else if pre == seq!['x'] || pre == seq!['h', 'e', 'x'] {
                    match hex_byte(rest) {
                        Ok(b) => StrLookup::Found(seq![(b as u8) as char]),
                        Err(e) => StrLookup::BadHex(rest, e),
                    }
                } else if pre == seq!['e', 'n', 'v'] {
                    match env_get(m.env, rest) {
                        Some(v) => StrLookup::Found(v),
                        None => StrLookup::NoEnv(rest),
                    }
                } else if pre == seq!['s', 'u', 'p', 'e', 'r'] || pre == seq!['g', 'l', 'o', 'b', 'a', 'l'] {
                    plain_lookup(m, name)
                } else {
                    StrLookup::Unsupported(pre)
                }
            },
            None => plain_lookup(m, name),
        }
    }
}

/// The position of the first `::` in a name.
fn find_sep(n: &Vec<char>) -> (r: Option<usize>)
    ensures
        r matches Some(i) ==> find_sep_from(n@, 0) == Some(i as int) && i + 1 < n.len(),
        r is None ==> find_sep_from(n@, 0) is None,
{
    let mut i: usize = 0;
    while i < n.len()
        invariant
            find_sep_from(n@, 0) == find_sep_from(n@, i as int),
        decreases n.len() - i,
    {
        if i + 1 >= n.len() {
            return None;
        }
        if n[i] == ':' && n[i + 1] == ':' {
            return Some(i);
        }
        i += 1;
    }
    None
}

impl Variables {
    /// The home directory as the store sees it.
    fn home(&self) -> (r: String)
        requires
            self.wf(),
        ensures
            r@ == home_of(self@),
    {
        let home: Vec<char> = vec!['H', 'O', 'M', 'E'];
        assert(home@ =~= home_name());
        let key = string_of(&home);
        match self.get_ref(key.as_str()) {
            Some(Value::Str(v)) => v.clone(),
            _ => match self.env_var(&key) {
                Some(v) => v,
                None => string_of(&vec!['?']),
            },
        }
    }

    /// The value of the `SWD` pseudo-variable: the working directory with the home
    /// directory written `~`; `None` where the environment sets no `PWD`.
    pub fn get_simplified_directory(&self) -> (r: Option<String>)
        requires
            self.wf(),
        ensures
            r matches Some(s) ==> simplified(self@) == Some(s@),
            r is None ==> simplified(self@) is None,
    {
        let pwd: Vec<char> = vec!['P', 'W', 'D'];
        assert(pwd@ =~= pwd_name());
        match self.env_var(&string_of(&pwd)) {
            Some(p) => {
                let home = self.home();
                let tilde: Vec<char> = vec!['~'];
                assert(tilde@ =~= seq!['~']);
                Some(replace(&chars_of(p.as_str()), &chars_of(home.as_str()), &tilde))
            },
            None => None,
        }
    }

    /// The value of the `MWD` pseudo-variable: the minimal form of `SWD`.
    pub fn get_minimal_directory(&self) -> (r: Option<String>)
        requires
            self.wf(),
        ensures
            r matches Some(s) ==> simplified(self@) matches Some(d) && s@ == minimal(d),
            r is None ==> simplified(self@) is None,
    {
        match self.get_simplified_directory() {
            Some(s) => Some(minimize_path(s.as_str())),
            None => None,
        }
    }

    fn plain_str(&self, name: &str) -> (r: Result<String, ExpansionError>)
        requires
            self.wf(),
        ensures
            outcome(r) == plain_lookup(self@, name@),
    {
        match self.get_ref(name) {
            Some(Value::Str(v)) => Ok(v.clone()),
            _ => {
                let key = string_of(&chars_of(name));
                match self.env_var(&key) {
                    Some(v) => Ok(v),
                    None => Err(ExpansionError::VariableNotFound),
                }
            },
        }
    }

    /// The string value of a possibly qualified name.
    pub fn get_str(&self, name: &str) -> (r: Result<String, ExpansionError>)
        requires
            self.wf(),
        ensures
            outcome(r) == str_lookup(self@, name@),
    {
        let n = chars_of(name);
        let mwd: Vec<char> = vec!['M', 'W', 'D'];
        let swd: Vec<char> = vec!['S', 'W', 'D'];
        assert(mwd@ =~= seq!['M', 'W', 'D']);
        assert(swd@ =~= seq!['S', 'W', 'D']);
        if same_chars(&n, &mwd) {
            return match self.get_minimal_directory() {
                Some(s) => Ok(s),
                None => Err(ExpansionError::VariableNotFound),
            };
        }
        if same_chars(&n, &swd) {
            return match self.get_simplified_directory() {
                Some(s) => Ok(s),
                None => Err(ExpansionError::VariableNotFound),
            };
        }
        let sep = find_sep(&n);
        match sep {
            None => self.plain_str(name),
            Some(i) => {
                let pre = sub_chars(&n, 0, i);
                let rest = sub_chars(&n, i + 2, n.len());
                let c: Vec<char> = vec!['c'];
                let color: Vec<char> = vec!['c', 'o', 'l', 'o', 'r'];
                let x: Vec<char> = vec!['x'];
                let hex: Vec<char> = vec!['h', 'e', 'x'];
                let env: Vec<char> = vec!['e', 'n', 'v'];
                let sup: Vec<char> = vec!['s', 'u', 'p', 'e', 'r'];
                let glob: Vec<char> = vec!['g', 'l', 'o', 'b', 'a', 'l'];
                assert(c@ =~= seq!['c']);
                assert(color@ =~= seq!['c', 'o', 'l', 'o', 'r']);
                assert(x@ =~= seq!['x']);
                assert(hex@ =~= seq!['h', 'e', 'x']);
                assert(env@ =~= seq!['e', 'n', 'v']);
                assert(sup@ =~= seq!['s', 'u', 'p', 'e', 'r']);
                assert(glob@ =~= seq!['g', 'l', 'o', 'b', 'a', 'l']);
                if same_chars(&pre, &c) || same_chars(&pre, &color) {
                    match render_color(&rest) {
                        Some(t) => Ok(t),
                        None => Err(ExpansionError::InvalidColor(string_of(&rest))),
                    }
                } else if same_chars(&pre, &x) || same_chars(&pre, &hex) {
                    match parse_hex_byte(&rest) {
                        Ok(b) => {
                            let one: Vec<char> = vec![byte_char(b)];
                            assert(one@ =~= seq![b as char]);
                            Ok(string_of(&one))
                        },
                        Err(e) => Err(ExpansionError::InvalidHex(string_of(&rest), e)),
                    }
                } else if same_chars(&pre, &env) {
                    match self.env_var(&string_of(&rest)) {
                        Some(v) => Ok(v),
                        None => Err(ExpansionError::UnknownEnv(string_of(&rest))),
                    }
                } else if same_chars(&pre, &sup) || same_chars(&pre, &glob) {
                    self.plain_str(name)
                } else {
                    Err(ExpansionError::UnsupportedNamespace(string_of(&pre)))
                }
            },
        }
    }
}

/// A name with leading `super::` qualifiers expands as the lookup in the frames, falling
/// back to the environment.
pub proof fn lemma_super_name_is_plain(m: VarsModel, k: nat, n: Seq<char>)
    requires
        !has_prefix(n, super_ns()),
    ensures
        str_lookup(m, supers(k + 1) + n) == plain_lookup(m, supers(k + 1) + n),
{
    let name = supers(k + 1) + n;
    let rest = supers(k) + n;
    assert(name =~= super_ns() + rest);
    assert(name[0] == 's' && name[1] == 'u' && name[2] == 'p' && name[3] == 'e' && name[4] == 'r');
    assert(name[5] == ':' && name[6] == ':');
    assert(find_sep_from(name, 5) == Some(5int));
    assert(find_sep_from(name, 4) == Some(5int));
    assert(find_sep_from(name, 3) == Some(5int));
    assert(find_sep_from(name, 2) == Some(5int));
    assert(find_sep_from(name, 1) == Some(5int));
    assert(find_sep_from(name, 0) == Some(5int));
    assert(name.subrange(0, 5) =~= seq!['s', 'u', 'p', 'e', 'r']);
    assert(name.len() >= 7);
    assert(name != seq!['M', 'W', 'D']);
    assert(name != seq!['S', 'W', 'D']);
}

/// Qualifier `super::` in string expansion: with k + 1 of them in front of a name, a stack
/// of k + 2 frames whose outermost alone binds the name to a string expands to that
/// string; a stack of k + 1 frames finds nothing, and where the environment does not set
/// the qualified name either, the expansion fails with "variable not found".
pub proof fn law_super_expansion(m: VarsModel, short: VarsModel, k: nat, n: Seq<char>, v: Seq<char>)
    requires
        !has_prefix(n, super_ns()),
        m.frames.len() == k + 2,
        frame_get(m.frames[0].vars, n) == Some(ValueModel::Str(v)),
        forall|i: int| 1 <= i < m.frames.len() ==> frame_index(#[trigger] m.frames[i].vars, n) is None,
        short.frames.len() == k + 1,
        env_get(short.env, supers(k + 1) + n) is None,
    ensures
        str_lookup(m, supers(k + 1) + n) == StrLookup::Found(v),
        str_lookup(short, supers(k + 1) + n) == StrLookup::NotFound,
{
    law_super_qualifier(m.frames, short.frames, k, n, ValueModel::Str(v));
    lemma_super_name_is_plain(m, k, n);
    lemma_super_name_is_plain(short, k, n);
}

/// The position of the first `}` in `s` from `i` on.
pub open spec fn find_close(s: Seq<char>, i: int) -> Option<int>
    decreases s.len() - i,
{
    if i < 0 || i >= s.len() {
        None
    } else if s[i] == '}' {
        Some(i)
    } else {
        find_close(s, i + 1)
    }
}

/// What `${name}` stands for: the string value of the name, or nothing where it has none.
pub open spec fn value_or_empty(m: VarsModel, name: Seq<char>) -> Seq<char> {
    match str_lookup(m, name) {
        StrLookup::Found(v) => v,
        _ => Seq::empty(),
    }
}

/// A template with each `${name}` replaced by what the name stands for; `None` where a
/// `${` has no closing `}`.
pub open spec fn expand_template(m: VarsModel, s: Seq<char>) -> Option<Seq<char>>
    decreases s.len(),
{
    if s.len() == 0 {
        Some(Seq::empty())
    } else if s.len() >= 2 && s[0] == '$' && s[1] == '{' {
        match find_close(s, 2) {
            Some(j) if 2 <= j < s.len() => match expand_template(m, s.subrange(j + 1, s.len() as int)) {
                Some(r) => Some(value_or_empty(m, s.subrange(2, j)) + r),
                None => None,
            },
            _ => None,
        }
    } else {
        match expand_template(m, s.drop_first()) {
            Some(r) => Some(seq![s[0]] + r),
            None => None,
        }
    }
}

pub proof fn lemma_find_close(s: Seq<char>, i: int)
    ensures
        find_close(s, i) matches Some(j) ==> i <= j < s.len() && s[j] == '}',
    decreases s.len() - i,
{
    if 0 <= i < s.len() && s[i] != '}' {
        lemma_find_close(s, i + 1);
    }
}

fn find_close_from(s: &Vec<char>, from: usize) -> (r: Option<usize>)
    ensures
        r matches Some(j) ==> find_close(s@, from as int) == Some(j as int) && from <= j < s.len(),
        r is None ==> find_close(s@, from as int) is None,
{
    let mut i: usize = from;
    while i < s.len()
        invariant
            from <= i,
            find_close(s@, from as int) == find_close(s@, i as int),
        decreases s.len() - i,
    {
        if s[i] == '}' {
            return Some(i);
        }
        i += 1;
    }
    None
}

impl Variables {
    /// Expands each `${name}` of a template to the string value of the name, or to nothing
    /// where it has none; `None` where a `${` is not closed.
    pub fn expand_braces(&self, template: &str) -> (r: Option<String>)
        requires
            self.wf(),
        ensures
            r matches Some(t) ==> expand_template(self@, template@) == Some(t@),
            r is None ==> expand_template(self@, template@) is None,
    {
        let s = chars_of(template);
        let mut out = String::new();
        let mut pos: usize = 0;
        assert(s@.subrange(0, s@.len() as int) =~= s@);
        while pos < s.len()
            invariant
                self.wf(),
                s@ == template@,
                pos <= s.len(),
                expand_template(self@, s@) == match expand_template(self@, s@.subrange(pos as int, s@.len() as int)) {
                    Some(r) => Some(out@ + r),
                    None => None::<Seq<char>>,
                },
            decreases s.len() - pos,
        {
            let ghost rest = s@.subrange(pos as int, s@.len() as int);
            let ghost o = out@;
            if pos + 1 < s.len() && s[pos] == '$' && s[pos + 1] == '{' {
                assert(rest[0] == '$' && rest[1] == '{');
                match find_close_from(&s, pos + 2) {
                    None => {
                        proof { lemma_close_shift(s@, pos as int, pos + 2); }
                        return None;
                    },
                    Some(j) => {
                        proof {
                            lemma_close_shift(s@, pos as int, pos + 2);
                            lemma_find_close(rest, 2);
                        }
                        assert(rest.subrange(2, j - pos) =~= s@.subrange(pos + 2, j as int));
                        assert(rest.subrange(j - pos + 1, rest.len() as int) =~= s@.subrange(j + 1, s@.len() as int));
                        let name = string_of(&sub_chars(&s, pos + 2, j));
                        match self.get_str(name.as_str()) {
                            Ok(v) => out.append(v.as_str()),
                            Err(_) => {},
                        }
                        assert(out@ == o + value_or_empty(self@, s@.subrange(pos + 2, j as int)));
                        pos = j + 1;
                    },
                }
            } else {
                assert(rest.drop_first() =~= s@.subrange(pos + 1, s@.len() as int));
                assert(rest[0] == s@[pos as int]);
                crate::text::push_char(&mut out, s[pos]);
                assert(out@ == o + seq![rest[0]]);
                pos += 1;
            }
        }
        assert(s@.subrange(pos as int, s@.len() as int) =~= Seq::<char>::empty());
        assert(out@ + Seq::<char>::empty() =~= out@);
        Some(out)
    }
}

/// Searching the rest of a text from an offset is searching the text from that offset
/// moved by where the rest starts.
pub proof fn lemma_close_shift(s: Seq<char>, start: int, i: int)
    requires
        0 <= start <= i,
        start <= s.len(),
    ensures
        find_close(s.subrange(start, s.len() as int), i - start) == match find_close(s, i) {
            Some(j) => Some(j - start),
            None => None::<int>,
        },
    decreases s.len() - i,
{
    let rest = s.subrange(start, s.len() as int);
    if i < s.len() {
        assert(rest[i - start] == s[i]);
        if s[i] != '}' {
            lemma_close_shift(s, start, i + 1);
        }
    }
}

} // verus!
