//! Escaping of file names offered for completion, and merging of completers.
use vstd::prelude::*;
use crate::text::{chars_of, has_prefix, push_char, string_of, sub_chars};
use crate::variables::{array_entries, entries_innermost_first, entries_outermost_first, string_entries, Variables};
use crate::value::views;

verus! {

/// The characters that a file name offered for completion carries behind a backslash.
pub open spec fn is_special(c: char) -> bool {
    c == '(' || c == ')' || c == '[' || c == ']' || c == '&' || c == '$' || c == '@' || c == '{'
        || c == '}' || c == '<' || c == '>' || c == ';' || c == '"' || c == '\'' || c == '#'
        || c == '^' || c == '*' || c == ' '
}

fn special(c: char) -> (r: bool)
    ensures
        r == is_special(c),
{
    c == '(' || c == ')' || c == '[' || c == ']' || c == '&' || c == '$' || c == '@' || c == '{'
        || c == '}' || c == '<' || c == '>' || c == ';' || c == '"' || c == '\'' || c == '#'
        || c == '^' || c == '*' || c == ' '
}

/// A text with a backslash before each special character.
pub open spec fn escaped(s: Seq<char>) -> Seq<char>
    decreases s.len(),
{
    if s.len() == 0 {
        Seq::empty()
    } else if is_special(s.last()) {
        escaped(s.drop_last()) + seq!['\\', s.last()]
    } else {
        escaped(s.drop_last()).push(s.last())
    }
}

/// A text read from the left, `pending` saying whether a backslash was just seen: a
/// backslash before a special character is dropped, one before any other character is
/// kept, and one at the very end is dropped.
pub open spec fn unescaped(s: Seq<char>, pending: bool) -> Seq<char>
    decreases s.len(),
{
    if s.len() == 0 {
        Seq::empty()
    } else {
        let c = s[0];
        let rest = s.drop_first();
        if c == '\\' && !pending {
            unescaped(rest, true)
        } else if pending && is_special(c) {
            seq![c] + unescaped(rest, false)
        } else if pending {
            seq!['\\', c] + unescaped(rest, false)
        } else {
            seq![c] + unescaped(rest, false)
        }
    }
}

/// Escapes a file name so that its special characters are read literally.
pub fn escape(input: &str) -> (r: String)
    ensures
        r@ == escaped(input@),
{
    let s = crate::text::chars_of(input);
    let mut out: Vec<char> = Vec::new();
    let mut i: usize = 0;
    while i < s.len()
        invariant
            i <= s.len(),
            out@ == escaped(s@.subrange(0, i as int)),
        decreases s.len() - i,
    {
        assert(s@.subrange(0, i + 1).drop_last() =~= s@.subrange(0, i as int));
        let ghost o = out@;
        if special(s[i]) {
            out.push('\\');
        }
        out.push(s[i]);
        assert(out@ =~= escaped(s@.subrange(0, i + 1)));
        i += 1;
    }
    assert(s@.subrange(0, s@.len() as int) =~= s@);
    string_of(&out)
}

/// Undoes the escaping of a file name.
pub fn unescape(input: &str) -> (r: String)
    ensures
        r@ == unescaped(input@, false),
{
    let s = crate::text::chars_of(input);
    let mut out: Vec<char> = Vec::new();
    let mut check = false;
    let mut i: usize = 0;
    assert(s@.subrange(0, s@.len() as int) =~= s@);
    while i < s.len()
        invariant
            i <= s.len(),
            out@ + unescaped(s@.subrange(i as int, s@.len() as int), check) == unescaped(s@, false),
        decreases s.len() - i,
    {
        let c = s[i];
        let ghost rest = s@.subrange(i as int, s@.len() as int);
        let ghost o = out@;
        assert(rest[0] == c);
        assert(rest.drop_first() =~= s@.subrange(i + 1, s@.len() as int));
        if c == '\\' && !check {
            check = true;
        } else if check && special(c) {
            out.push(c);
            check = false;
            assert(out@ + unescaped(rest.drop_first(), false) =~= o + unescaped(rest, true));
        } else if check {
            out.push('\\');
            out.push(c);
            check = false;
            assert(out@ + unescaped(rest.drop_first(), false) =~= o + unescaped(rest, true));
        } else {
            out.push(c);
            assert(out@ + unescaped(rest.drop_first(), false) =~= o + unescaped(rest, false));
        }
        i += 1;
    }
    assert(out@ + unescaped(Seq::<char>::empty(), check) =~= out@);
    assert(s@.subrange(s@.len() as int, s@.len() as int) =~= Seq::<char>::empty());
    string_of(&out)
}

/// A completer that combines the suggestions of several completers.
pub struct MultiCompleter<A>(Vec<A>);

impl<A> MultiCompleter<A> {
    /// The completers combined, in order.
    pub closed spec fn parts(&self) -> Seq<A> {
        self.0@
    }

    pub fn new(completions: Vec<A>) -> (r: Self)
        ensures
            r.parts() == completions@,
    {
        MultiCompleter(completions)
    }

    /// The completers combined, in order.
    pub fn completers(&self) -> (r: &Vec<A>)
        ensures
            r@ == self.parts(),
    {
        &self.0
    }
}

/// The suggestions of several completers, one list after another.
pub open spec fn concat_all(lists: Seq<Seq<Seq<char>>>) -> Seq<Seq<char>>
    decreases lists.len(),
{
    if lists.len() == 0 {
        Seq::empty()
    } else {
        concat_all(lists.drop_last()) + lists.last()
    }
}

/// The suggestions of several completers, one list after another, each in its order.
pub fn merge_completions(lists: &Vec<Vec<String>>) -> (r: Vec<String>)
    ensures
        views(r@) == concat_all(lists@.map_values(|l: Vec<String>| views(l@))),
{
    let ghost lv = lists@.map_values(|l: Vec<String>| views(l@));
    let mut r: Vec<String> = Vec::new();
    let mut i: usize = 0;
    while i < lists.len()
        invariant
            i <= lists.len(),
            lv == lists@.map_values(|l: Vec<String>| views(l@)),
            views(r@) == concat_all(lv.subrange(0, i as int)),
        decreases lists.len() - i,
    {
        assert(lv.subrange(0, i + 1).drop_last() =~= lv.subrange(0, i as int));
        let l = &lists[i];
        let ghost base = views(r@);
        let mut j: usize = 0;
        while j < l.len()
            invariant
                j <= l.len(),
                views(r@) == base + views(l@).subrange(0, j as int),
            decreases l.len() - j,
        {
            let s = l[j].clone();
            let ghost r0 = r@;
            r.push(s);
            assert(views(r@) =~= views(r0).push(s@));
            assert(views(l@).subrange(0, j + 1) =~= views(l@).subrange(0, j as int).push(s@));
            j += 1;
        }
        assert(views(l@).subrange(0, l@.len() as int) =~= views(l@));
        assert(lv[i as int] == views(l@));
        i += 1;
    }
    assert(lv.subrange(0, lv.len() as int) =~= lv);
    r
}

/// The names in `entries` that start with `prefix`, each written after `sigil`, in order.
pub open spec fn sigil_matches<V>(entries: Seq<(Seq<char>, V)>, prefix: Seq<char>, sigil: char) -> Seq<Seq<char>>
    decreases entries.len(),
{
    if entries.len() == 0 {
        Seq::empty()
    } else {
        let prev = sigil_matches(entries.drop_last(), prefix, sigil);
        if has_prefix(entries.last().0, prefix) {
            prev.push(seq![sigil] + entries.last().0)
        } else {
            prev
        }
    }
}

/// The completions of a word that names a variable: after `$`, the string variables
/// whose names start with the rest of the word, outermost frame first; after `@`, the
/// arrays, innermost frame first; for any other word, none.
pub open spec fn variable_completions_of(st: Seq<crate::variables::FrameModel>, start: Seq<char>) -> Seq<Seq<char>> {
    if start.len() > 0 && start[0] == '$' {
        sigil_matches(string_entries(entries_outermost_first(st)), start.drop_first(), '$')
    } else if start.len() > 0 && start[0] == '@' {
        sigil_matches(array_entries(entries_innermost_first(st)), start.drop_first(), '@')
    } else {
        Seq::empty()
    }
}

fn push_if_match(out: &mut Vec<String>, name: &String, prefix: &Vec<char>, sigil: char)
    ensures
        views(final(out)@) == if has_prefix(name@, prefix@) {
            views(old(out)@).push(seq![sigil] + name@)
        } else {
            views(old(out)@)
        },
{
    let n = chars_of(name.as_str());
    if prefix.len() <= n.len() {
        let head = sub_chars(&n, 0, prefix.len());
        if crate::text::same_chars(&head, prefix) {
            let mut s = String::new();
            push_char(&mut s, sigil);
            s.append(name.as_str());
            let ghost o = out@;
            out.push(s);
            assert(views(out@) =~= views(o).push(seq![sigil] + name@));
        }
    }
}

/// The completions of a word that names a variable, `$` for strings and `@` for arrays.
pub fn variable_completions(vars: &Variables, start: &str) -> (r: Vec<String>)
    ensures
        views(r@) == variable_completions_of(vars@.frames, start@),
{
    let s = chars_of(start);
    let mut out: Vec<String> = Vec::new();
    if s.len() == 0 || (s[0] != '$' && s[0] != '@') {
        return out;
    }
    let prefix = sub_chars(&s, 1, s.len());
    assert(prefix@ =~= start@.drop_first());
    if s[0] == '$' {
        let all = vars.string_vars();
        let ghost ev = all@.map_values(|e: (String, String)| (e.0@, e.1@));
        let mut i: usize = 0;
        while i < all.len()
            invariant
                i <= all.len(),
                ev == all@.map_values(|e: (String, String)| (e.0@, e.1@)),
                views(out@) == sigil_matches(ev.subrange(0, i as int), prefix@, '$'),
            decreases all.len() - i,
        {
            assert(ev.subrange(0, i + 1).drop_last() =~= ev.subrange(0, i as int));
            push_if_match(&mut out, &all[i].0, &prefix, '$');
            i += 1;
        }
        assert(ev.subrange(0, ev.len() as int) =~= ev);
    } else {
        let all = vars.arrays();
        let ghost ev = all@.map_values(|e: (String, Vec<String>)| (e.0@, views(e.1@)));
        let mut i: usize = 0;
        while i < all.len()
            invariant
                i <= all.len(),
                ev == all@.map_values(|e: (String, Vec<String>)| (e.0@, views(e.1@))),
                views(out@) == sigil_matches(ev.subrange(0, i as int), prefix@, '@'),
            decreases all.len() - i,
        {
            assert(ev.subrange(0, i + 1).drop_last() =~= ev.subrange(0, i as int));
            push_if_match(&mut out, &all[i].0, &prefix, '@');
            i += 1;
        }
        assert(ev.subrange(0, ev.len() as int) =~= ev);
    }
    out
}

/// Where the cursor stands among the words of the line being edited.
#[derive(Clone, Copy, Debug, PartialEq, Eq, Structural)]
pub enum CursorPosition {
    InWord(usize),
    OnWordLeftEdge(usize),
    OnWordRightEdge(usize),
    /// Between two words: the index of the word before, and of the word after.
    InSpace(Option<usize>, Option<usize>),
}

/// A request to the completion process: the words of the statement under the cursor, and
/// the index of the word being completed.
pub struct AutocompRequest {
    pub argv: Vec<String>,
    pub word: u16,
}

/// What to complete at the cursor.
pub enum CompletionType {
    Nothing,
    /// A command name.
    Command,
    /// A variable or a file name, asking the completion process.
    VariableAndFiles(AutocompRequest),
}

/// What to complete at the cursor, as a model; a request is its words and word index.
pub enum CompletionModel {
    Nothing,
    Command,
    VariableAndFiles(Seq<Seq<char>>, u16),
}

pub open spec fn completion_view(c: CompletionType) -> CompletionModel {
    match c {
        CompletionType::Nothing => CompletionModel::Nothing,
        CompletionType::Command => CompletionModel::Command,
        CompletionType::VariableAndFiles(r) => CompletionModel::VariableAndFiles(views(r.argv@), r.word),
    }
}

/// Whether a word ends a statement: it ends with `|`, `&` or `;`.
pub open spec fn ends_statement(w: Seq<char>) -> bool {
    w.len() > 0 && (w.last() == '|' || w.last() == '&' || w.last() == ';')
}

/// The number of words at the end of the line that follow the last word ending a statement.
pub open spec fn statement_len(ws: Seq<Seq<char>>) -> nat
    decreases ws.len(),
{
    if ws.len() == 0 || ends_statement(ws.last()) {
        0
    } else {
        1 + statement_len(ws.drop_last())
    }
}

/// The request for the word at `index`: the words of the last statement, with an empty
/// word added when `append`, and `index` counted from the statement's first word, modulo
/// 2^16.
pub open spec fn request_for(ws: Seq<Seq<char>>, index: int, append: bool) -> CompletionModel {
    let n = statement_len(ws);
    let tail = ws.subrange(ws.len() - n, ws.len() as int);
    let argv = if append { tail.push(Seq::empty()) } else { tail };
    CompletionModel::VariableAndFiles(argv, ((index - (ws.len() - n)) % 65536) as u16)
}

/// What to complete at the cursor: nothing on an empty line; a command at the first word,
/// or right after a word that ends a statement; else a variable or a file name.
pub open spec fn completion_for(ws: Seq<Seq<char>>, pos: CursorPosition) -> CompletionModel {
    if ws.len() == 0 {
        CompletionModel::Nothing
    } else {
        match pos {
            CursorPosition::InWord(0) => CompletionModel::Command,
            CursorPosition::OnWordRightEdge(0) => CompletionModel::Command,
            CursorPosition::InSpace(None, _) => CompletionModel::Command,
            CursorPosition::OnWordRightEdge(index) => if index - 1 < ws.len() && ends_statement(ws[index - 1]) {
                CompletionModel::Command
            } else {
                request_for(ws, index as int, false)
            },
            CursorPosition::InWord(index) => request_for(ws, index as int, false),
            CursorPosition::OnWordLeftEdge(index) => request_for(ws, index as int, false),
            CursorPosition::InSpace(_, Some(index)) => request_for(ws, index as int, false),
            CursorPosition::InSpace(Some(index), None) => request_for(ws, index + 1, true),
        }
    }
}

fn ends_statement_word(w: &String) -> (r: bool)
    ensures
        r == ends_statement(w@),
{
    let c = chars_of(w.as_str());
    if c.len() == 0 {
        return false;
    }
    let last = c[c.len() - 1];
    last == '|' || last == '&' || last == ';'
}

proof fn lemma_wrap(index: int, e: int, start: int, at: int, w: int)
    requires
        index >= 0,
        start >= 0,
        0 <= e <= 1,
        at == (index % 65536 + e) % 65536,
        w == (at + 65536 - start % 65536) % 65536,
    ensures
        w == ((index + e) - start) % 65536,
{
    vstd::arithmetic::div_mod::lemma_add_mod_noop_right(e, index, 65536);
    vstd::arithmetic::div_mod::lemma_mod_add_multiples_vanish(at - start % 65536, 65536);
    vstd::arithmetic::div_mod::lemma_sub_mod_noop(index + e, start, 65536);
}

fn request(words: &Vec<String>, index: usize, extra: bool, append: bool) -> (r: CompletionType)
    ensures
        completion_view(r) == request_for(views(words@), index + if extra { 1int } else { 0int }, append),
{
    let ghost ws = views(words@);
    let mut n: usize = 0;
    assert(ws.subrange(0, ws.len() as int) =~= ws);
    while n < words.len() && !ends_statement_word(&words[words.len() - 1 - n])
        invariant
            n <= words.len(),
            ws == views(words@),
            statement_len(ws) == n + statement_len(ws.subrange(0, ws.len() - n)),
        decreases words.len() - n,
    {
        let ghost pre = ws.subrange(0, ws.len() - n);
        assert(pre.drop_last() =~= ws.subrange(0, ws.len() - n - 1));
        assert(pre.last() == words@[words.len() - 1 - n]@);
        n += 1;
    }
    proof {
        let pre = ws.subrange(0, ws.len() - n);
        if n < words.len() {
            assert(pre.last() == words@[words.len() - 1 - n]@);
        }
    }
    let start = words.len() - n;
    let mut argv: Vec<String> = Vec::new();
    let mut i: usize = start;
    while i < words.len()
        invariant
            start <= i <= words.len(),
            ws == views(words@),
            views(argv@) == ws.subrange(start as int, i as int),
        decreases words.len() - i,
    {
        let w = words[i].clone();
        let ghost a0 = argv@;
        argv.push(w);
        assert(views(argv@) =~= views(a0).push(w@));
        assert(ws.subrange(start as int, i + 1) =~= ws.subrange(start as int, i as int).push(ws[i as int]));
        i += 1;
    }
    if append {
        let ghost a0 = argv@;
        argv.push(String::new());
        assert(views(argv@) =~= views(a0).push(Seq::empty()));
    }
    let e: usize = if extra { 1 } else { 0 };
    let at: usize = (index % 65536 + e) % 65536;
    let w: usize = (at + 65536 - start % 65536) % 65536;
    proof { lemma_wrap(index as int, e as int, start as int, at as int, w as int); }
    CompletionType::VariableAndFiles(AutocompRequest { argv, word: w as u16 })
}

/// What to complete at the cursor, given the words of the line.
pub fn completion_type(words: &Vec<String>, pos: CursorPosition) -> (r: CompletionType)
    ensures
        completion_view(r) == completion_for(views(words@), pos),
{
    if words.len() == 0 {
        return CompletionType::Nothing;
    }
    match pos {
        CursorPosition::InWord(0) | CursorPosition::OnWordRightEdge(0) | CursorPosition::InSpace(None, _) => CompletionType::Command,
        CursorPosition::OnWordRightEdge(index) => {
            if index - 1 < words.len() && ends_statement_word(&words[index - 1]) {
                CompletionType::Command
            } else {
                request(words, index, false, false)
            }
        },
        CursorPosition::InWord(index) | CursorPosition::OnWordLeftEdge(index) | CursorPosition::InSpace(_, Some(index)) => {
            request(words, index, false, false)
        },
        CursorPosition::InSpace(Some(index), None) => request(words, index, true, true),
    }
}

/// The suggestions offered for a word: each suffix that the completion process gave,
/// after the text already typed.
pub fn with_prefix(start: &str, suffixes: &Vec<String>) -> (r: Vec<String>)
    ensures
        views(r@) == suffixes@.map_values(|s: String| start@ + s@),
{
    let mut r: Vec<String> = Vec::new();
    let mut i: usize = 0;
    while i < suffixes.len()
        invariant
            i <= suffixes.len(),
            views(r@) == suffixes@.subrange(0, i as int).map_values(|s: String| start@ + s@),
        decreases suffixes.len() - i,
    {
        let mut s = start.to_string();
        s.append(suffixes[i].as_str());
        let ghost r0 = r@;
        r.push(s);
        assert(views(r@) =~= views(r0).push(start@ + suffixes@[i as int]@));
        assert(suffixes@.subrange(0, i + 1).map_values(|s: String| start@ + s@)
            =~= suffixes@.subrange(0, i as int).map_values(|s: String| start@ + s@).push(start@ + suffixes@[i as int]@));
        i += 1;
    }
    assert(suffixes@.subrange(0, suffixes@.len() as int) =~= suffixes@);
    r
}

} // verus!
