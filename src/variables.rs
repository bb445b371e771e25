//! The scoped variable store: a stack of frames, innermost last.
use vstd::prelude::*;
use crate::text::{chars_of, has_prefix, occurs_at, string_of, string_of_range};
use crate::text::{push_decimal, signed_decimal};
use crate::value::{views, Value, ValueModel};

verus! {

/// One binding of a frame, as a model.
pub type EntryModel = (Seq<char>, ValueModel);

/// One level of the scope stack, as a model.
pub struct FrameModel {
    pub namespace: bool,
    pub vars: Seq<EntryModel>,
}

/// One level of the scope stack: its bindings, and whether it opens a function's namespace.
pub struct Frame {
    pub namespace: bool,
    pub vars: Vec<(String, Value)>,
}

/// The model of a list of bindings.
pub open spec fn entries_view(v: Seq<(String, Value)>) -> Seq<EntryModel> {
    v.map_values(|e: (String, Value)| (e.0@, e.1@))
}

impl View for Frame {
    type V = FrameModel;

    open spec fn view(&self) -> FrameModel {
        FrameModel { namespace: self.namespace, vars: entries_view(self.vars@) }
    }
}

/// The models of a list of frames.
pub open spec fn frames_view(v: Seq<Frame>) -> Seq<FrameModel> {
    v.map_values(|f: Frame| f@)
}

/// The position of the binding of `k` in a frame: the last one, as later writes win.
pub open spec fn frame_index(vars: Seq<EntryModel>, k: Seq<char>) -> Option<int>
    decreases vars.len(),
{
    if vars.len() == 0 {
        None
    } else if vars.last().0 == k {
        Some(vars.len() - 1)
    } else {
        frame_index(vars.drop_last(), k)
    }
}

/// What `k` is bound to in a frame.
pub open spec fn frame_get(vars: Seq<EntryModel>, k: Seq<char>) -> Option<ValueModel> {
    match frame_index(vars, k) {
        Some(j) => Some(vars[j].1),
        None => None,
    }
}

/// The bindings of a frame but those of `k`.
pub open spec fn without(vars: Seq<EntryModel>, k: Seq<char>) -> Seq<EntryModel>
    decreases vars.len(),
{
    if vars.len() == 0 {
        vars
    } else if vars.last().0 == k {
        without(vars.drop_last(), k)
    } else {
        without(vars.drop_last(), k).push(vars.last())
    }
}

/// The index of the innermost frame that binds `k`.
pub open spec fn stack_frame_of(st: Seq<FrameModel>, k: Seq<char>) -> Option<int>
    decreases st.len(),
{
    if st.len() == 0 {
        None
    } else if frame_index(st.last().vars, k) is Some {
        Some(st.len() - 1)
    } else {
        stack_frame_of(st.drop_last(), k)
    }
}

/// What `k` resolves to, searching from the innermost frame outward.
pub open spec fn stack_get(st: Seq<FrameModel>, k: Seq<char>) -> Option<ValueModel> {
    match stack_frame_of(st, k) {
        Some(i) => frame_get(st[i].vars, k),
        None => None,
    }
}

pub open spec fn global_ns() -> Seq<char> {
    seq!['g', 'l', 'o', 'b', 'a', 'l', ':', ':']
}

pub open spec fn super_ns() -> Seq<char> {
    seq!['s', 'u', 'p', 'e', 'r', ':', ':']
}

/// Whether a name is qualified `global::` or `super::`, and so read-only.
pub open spec fn is_outer_qualified(name: Seq<char>) -> bool {
    has_prefix(name, global_ns()) || has_prefix(name, super_ns())
}

/// The number of leading `super::` qualifiers of a name, and what follows them.
pub open spec fn strip_supers(name: Seq<char>) -> (nat, Seq<char>)
    decreases name.len(),
{
    if has_prefix(name, super_ns()) {
        let r = strip_supers(name.subrange(7, name.len() as int));
        (r.0 + 1, r.1)
    } else {
        (0, name)
    }
}

/// What a possibly qualified name resolves to in a stack of frames:
/// `global::` looks in the outermost frame only, `super::` repeated k times skips the
/// k innermost frames, and a bare name searches every frame from the innermost outward.
pub open spec fn lookup(st: Seq<FrameModel>, name: Seq<char>) -> Option<ValueModel> {
    if has_prefix(name, global_ns()) {
        if st.len() > 0 {
            frame_get(st[0].vars, name.subrange(8, name.len() as int))
        } else {
            None
        }
    } else if has_prefix(name, super_ns()) {
        let (k, base) = strip_supers(name);
        if k <= st.len() {
            stack_get(st.subrange(0, st.len() - k), base)
        } else {
            None
        }
    } else {
        stack_get(st, name)
    }
}

/// A frame with `k` bound to `v`: the existing binding is overwritten, or a new one added.
pub open spec fn frame_assign(f: FrameModel, k: Seq<char>, v: ValueModel) -> FrameModel {
    match frame_index(f.vars, k) {
        Some(j) => FrameModel { vars: f.vars.update(j, (k, v)), ..f },
        None => FrameModel { vars: f.vars.push((k, v)), ..f },
    }
}

/// The stack after assigning `v` to `name`: the innermost frame that binds it is updated,
/// else the binding is created in the innermost frame. Qualified names are read-only.
pub open spec fn assign(st: Seq<FrameModel>, name: Seq<char>, v: ValueModel) -> Seq<FrameModel> {
    if is_outer_qualified(name) || st.len() == 0 {
        st
    } else {
        match stack_frame_of(st, name) {
            Some(i) => st.update(i, frame_assign(st[i], name, v)),
            None => st.update(st.len() - 1, frame_assign(st.last(), name, v)),
        }
    }
}

/// The stack after removing `name` from the innermost frame that binds it.
/// Qualified names are read-only.
pub open spec fn remove(st: Seq<FrameModel>, name: Seq<char>) -> Seq<FrameModel> {
    if is_outer_qualified(name) {
        st
    } else {
        match stack_frame_of(st, name) {
            Some(i) => st.update(i, FrameModel { vars: without(st[i].vars, name), ..st[i] }),
            None => st,
        }
    }
}

/// The stack with `name` unbound in every frame.
pub open spec fn unset(st: Seq<FrameModel>, name: Seq<char>) -> Seq<FrameModel> {
    st.map_values(|f: FrameModel| FrameModel { vars: without(f.vars, name), ..f })
}

// ---- lemmas on frames ----

pub proof fn lemma_frame_index(vars: Seq<EntryModel>, k: Seq<char>)
    ensures
        frame_index(vars, k) matches Some(j) ==> 0 <= j < vars.len() && vars[j].0 == k
            && forall|l: int| j < l < vars.len() ==> vars[l].0 != k,
        frame_index(vars, k) is None ==> forall|l: int| 0 <= l < vars.len() ==> vars[l].0 != k,
    decreases vars.len(),
{
    if vars.len() > 0 {
        lemma_frame_index(vars.drop_last(), k);
        assert forall|l: int| 0 <= l < vars.len() - 1 implies vars.drop_last()[l] == vars[l] by {}
    }
}

pub proof fn lemma_frame_update_same_key(vars: Seq<EntryModel>, j: int, e: EntryModel, m: Seq<char>)
    requires
        0 <= j < vars.len(),
        vars[j].0 == e.0,
    ensures
        frame_index(vars.update(j, e), m) == frame_index(vars, m),
    decreases vars.len(),
{
    let u = vars.update(j, e);
    if j < vars.len() - 1 {
        assert(u.drop_last() =~= vars.drop_last().update(j, e));
        lemma_frame_update_same_key(vars.drop_last(), j, e, m);
    } else {
        assert(u.drop_last() =~= vars.drop_last());
    }
}

pub proof fn lemma_frame_push(vars: Seq<EntryModel>, e: EntryModel, m: Seq<char>)
    ensures
        m == e.0 ==> frame_index(vars.push(e), m) == Some(vars.len() as int),
        m != e.0 ==> frame_index(vars.push(e), m) == frame_index(vars, m),
{
    assert(vars.push(e).drop_last() =~= vars);
}

/// Assigning in a frame binds the key and leaves every other key as it was.
pub proof fn lemma_frame_assign(f: FrameModel, k: Seq<char>, v: ValueModel, m: Seq<char>)
    ensures
        frame_get(frame_assign(f, k, v).vars, k) == Some(v),
        m != k ==> frame_get(frame_assign(f, k, v).vars, m) == frame_get(f.vars, m),
        frame_assign(f, k, v).namespace == f.namespace,
{
    lemma_frame_index(f.vars, k);
    match frame_index(f.vars, k) {
        Some(j) => {
            lemma_frame_update_same_key(f.vars, j, (k, v), k);
            lemma_frame_update_same_key(f.vars, j, (k, v), m);
            lemma_frame_index(f.vars, m);
        },
        None => {
            lemma_frame_push(f.vars, (k, v), k);
            lemma_frame_push(f.vars, (k, v), m);
            lemma_frame_index(f.vars, m);
            lemma_frame_index(f.vars.push((k, v)), m);
        },
    }
}

/// Removing a key from a frame unbinds it and leaves every other key as it was.
pub proof fn lemma_without(vars: Seq<EntryModel>, k: Seq<char>, m: Seq<char>)
    ensures
        frame_index(without(vars, k), k) is None,
        m != k ==> frame_get(without(vars, k), m) == frame_get(vars, m),
    decreases vars.len(),
{
    if vars.len() > 0 {
        let d = vars.drop_last();
        lemma_without(d, k, m);
        let w = without(d, k);
        if vars.last().0 != k {
            lemma_frame_push(w, vars.last(), k);
            lemma_frame_push(w, vars.last(), m);
        }
        if m != k && vars.last().0 != m {
            if let Some(j) = frame_index(d, m) {
                lemma_frame_index(d, m);
                assert(d[j] == vars[j]);
            }
            if let Some(j) = frame_index(w, m) {
                lemma_frame_index(w, m);
                assert(w.push(vars.last())[j] == w[j]);
            }
        }
    }
}

// ---- lemmas on stacks ----

pub proof fn lemma_stack_frame_of(st: Seq<FrameModel>, k: Seq<char>)
    ensures
        stack_frame_of(st, k) matches Some(i) ==> 0 <= i < st.len() && frame_index(st[i].vars, k) is Some
            && forall|l: int| i < l < st.len() ==> frame_index(#[trigger] st[l].vars, k) is None,
        stack_frame_of(st, k) is None ==> forall|l: int| 0 <= l < st.len() ==> frame_index(#[trigger] st[l].vars, k) is None,
    decreases st.len(),
{
    if st.len() > 0 {
        lemma_stack_frame_of(st.drop_last(), k);
        assert forall|l: int| 0 <= l < st.len() - 1 implies st.drop_last()[l] == st[l] by {}
    }
}

/// The resolution of `m` in a stack depends only on what each frame binds `m` to.
pub proof fn lemma_stack_same(a: Seq<FrameModel>, b: Seq<FrameModel>, m: Seq<char>)
    requires
        a.len() == b.len(),
        forall|i: int| 0 <= i < a.len() ==> frame_get(#[trigger] a[i].vars, m) == frame_get(b[i].vars, m),
    ensures
        stack_get(a, m) == stack_get(b, m),
        stack_frame_of(a, m) == stack_frame_of(b, m),
    decreases a.len(),
{
    if a.len() > 0 {
        assert(frame_get(a[a.len() - 1].vars, m) == frame_get(b[b.len() - 1].vars, m));
        assert forall|i: int| 0 <= i < a.len() - 1 implies frame_get(#[trigger] a.drop_last()[i].vars, m)
            == frame_get(b.drop_last()[i].vars, m) by {
            assert(a.drop_last()[i] == a[i]);
            assert(b.drop_last()[i] == b[i]);
        }
        lemma_stack_same(a.drop_last(), b.drop_last(), m);
        lemma_stack_frame_of(a, m);
        lemma_stack_frame_of(b, m);
    }
}

/// After an assignment to a bare name, the name resolves to the value assigned,
/// and every other name resolves as before.
pub proof fn lemma_assign(st: Seq<FrameModel>, k: Seq<char>, v: ValueModel, m: Seq<char>)
    requires
        st.len() > 0,
        !is_outer_qualified(k),
    ensures
        stack_get(assign(st, k, v), k) == Some(v),
        m != k ==> stack_get(assign(st, k, v), m) == stack_get(st, m),
        assign(st, k, v).len() == st.len(),
{
    let n = assign(st, k, v);
    lemma_stack_frame_of(st, k);
    let i = match stack_frame_of(st, k) {
        Some(i) => i,
        None => st.len() - 1,
    };
    lemma_frame_assign(st[i], k, v, m);
    if m != k {
        assert forall|l: int| 0 <= l < st.len() implies frame_get(#[trigger] n[l].vars, m)
            == frame_get(st[l].vars, m) by {}
        lemma_stack_same(n, st, m);
    }
    lemma_frame_assign(st[i], k, v, k);
    lemma_stack_frame_of(n, k);
    lemma_frame_index(n[i].vars, k);
    if let Some(j) = stack_frame_of(n, k) {
        assert(j == i);
    }
}

/// After a removal, every other name resolves as before.
pub proof fn lemma_remove_others(st: Seq<FrameModel>, k: Seq<char>, m: Seq<char>)
    requires
        m != k,
    ensures
        stack_get(remove(st, k), m) == stack_get(st, m),
{
    let n = remove(st, k);
    if !is_outer_qualified(k) && stack_frame_of(st, k) is Some {
        lemma_stack_frame_of(st, k);
        assert forall|l: int| 0 <= l < st.len() implies frame_get(#[trigger] n[l].vars, m)
            == frame_get(st[l].vars, m) by {
            lemma_without(st[l].vars, k, m);
        }
        lemma_stack_same(n, st, m);
    }
}

/// After unsetting a name everywhere, it resolves to nothing and every other name as before.
pub proof fn lemma_unset(st: Seq<FrameModel>, k: Seq<char>, m: Seq<char>)
    ensures
        stack_get(unset(st, k), k) is None,
        m != k ==> stack_get(unset(st, k), m) == stack_get(st, m),
        unset(st, k).len() == st.len(),
{
    let n = unset(st, k);
    assert forall|l: int| 0 <= l < st.len() implies frame_index(#[trigger] n[l].vars, k) is None by {
        lemma_without(st[l].vars, k, m);
    }
    lemma_stack_frame_of(n, k);
    if m != k {
        assert forall|l: int| 0 <= l < st.len() implies frame_get(#[trigger] n[l].vars, m)
            == frame_get(st[l].vars, m) by {
            lemma_without(st[l].vars, k, m);
        }
        lemma_stack_same(n, st, m);
    }
}


/// What `k` is set to in an environment table: the last entry for it.
pub open spec fn env_get(env: Seq<(Seq<char>, Seq<char>)>, k: Seq<char>) -> Option<Seq<char>>
    decreases env.len(),
{
    if env.len() == 0 {
        None
    } else if env.last().0 == k {
        Some(env.last().1)
    } else {
        env_get(env.drop_last(), k)
    }
}

/// The store as a model: its frames, outermost first, and the environment it was given.
pub struct VarsModel {
    pub frames: Seq<FrameModel>,
    pub env: Seq<(Seq<char>, Seq<char>)>,
}

/// The variable store. The outermost frame always exists.
pub struct Variables {
    frames: Vec<Frame>,
    env: Vec<(String, String)>,
}

/// The models of an environment table.
pub open spec fn env_view(v: Seq<(String, String)>) -> Seq<(Seq<char>, Seq<char>)> {
    v.map_values(|e: (String, String)| (e.0@, e.1@))
}

impl View for Variables {
    type V = VarsModel;

    closed spec fn view(&self) -> VarsModel {
        VarsModel { frames: frames_view(self.frames@), env: env_view(self.env@) }
    }
}

/// The position of the last binding of `k` in a list of bindings.
fn find_in_frame(vars: &Vec<(String, Value)>, k: &String) -> (r: Option<usize>)
    ensures
        r matches Some(j) ==> frame_index(entries_view(vars@), k@) == Some(j as int),
        r is None ==> frame_index(entries_view(vars@), k@) is None,
{
    let ghost ev = entries_view(vars@);
    let mut i: usize = vars.len();
    assert(ev.subrange(0, vars.len() as int) =~= ev);
    while i > 0
        invariant
            i <= vars.len(),
            ev == entries_view(vars@),
            frame_index(ev, k@) == frame_index(ev.subrange(0, i as int), k@),
        decreases i,
    {
        let j = i - 1;
        assert(ev.subrange(0, i as int).drop_last() =~= ev.subrange(0, j as int));
        if vars[j].0 == *k {
            return Some(j);
        }
        i = j;
    }
    assert(ev.subrange(0, 0) =~= Seq::<EntryModel>::empty());
    None
}

impl Variables {
    /// The store is well formed: the outermost frame exists.
    pub closed spec fn wf(&self) -> bool {
        self.frames@.len() > 0
    }

    /// The index of the innermost frame below `limit` that binds `k`.
    fn find_frame(&self, k: &String, limit: usize) -> (r: Option<usize>)
        requires
            limit <= self.frames@.len(),
        ensures
            r matches Some(i) ==> i < limit && stack_frame_of(self@.frames.subrange(0, limit as int), k@) == Some(i as int),
            r is None ==> stack_frame_of(self@.frames.subrange(0, limit as int), k@) is None,
    {
        let ghost st = self@.frames;
        let mut i: usize = limit;
        assert(st.subrange(0, limit as int) =~= st.subrange(0, limit as int));
        while i > 0
            invariant
                i <= limit <= self.frames@.len(),
                st == self@.frames,
                st.len() == self.frames@.len(),
                stack_frame_of(st.subrange(0, limit as int), k@) == stack_frame_of(st.subrange(0, i as int), k@),
            decreases i,
        {
            let j = i - 1;
            assert(st.subrange(0, i as int).drop_last() =~= st.subrange(0, j as int));
            assert(st[j as int] == self.frames@[j as int]@);
            if find_in_frame(&self.frames[j].vars, k).is_some() {
                return Some(j);
            }
            i = j;
        }
        None
    }

    /// The value that a possibly qualified name resolves to.
    pub fn get_ref(&self, name: &str) -> (r: Option<&Value>)
        requires
            self.wf(),
        ensures
            r matches Some(v) ==> lookup(self@.frames, name@) == Some(v@),
            r is None ==> lookup(self@.frames, name@) is None,
    {
        let ghost st = self@.frames;
        let n = chars_of(name);
        let glob: Vec<char> = vec!['g', 'l', 'o', 'b', 'a', 'l', ':', ':'];
        let sup: Vec<char> = vec!['s', 'u', 'p', 'e', 'r', ':', ':'];
        assert(glob@ =~= global_ns());
        assert(sup@ =~= super_ns());
        assert(n@.subrange(0, n@.len() as int) =~= n@);
        if occurs_at(&n, 0, &glob) {
            let base = string_of_range(&n, 8, n.len());
            let found = find_in_frame(&self.frames[0].vars, &base);
            assert(st[0] == self.frames@[0]@);
            match found {
                Some(j) => {
                    proof { lemma_frame_index(st[0].vars, base@); }
                    Some(&self.frames[0].vars[j].1)
                },
                None => None,
            }
        } else if occurs_at(&n, 0, &sup) {
            let mut pos: usize = 0;
            let mut up: usize = 0;
            while occurs_at(&n, pos, &sup)
                invariant
                    pos <= n.len(),
                    up <= pos,
                    sup@ == super_ns(),
                    strip_supers(n@).0 == up + strip_supers(n@.subrange(pos as int, n@.len() as int)).0,
                    strip_supers(n@).1 == strip_supers(n@.subrange(pos as int, n@.len() as int)).1,
                decreases n.len() - pos,
            {
                let ghost rest = n@.subrange(pos as int, n@.len() as int);
                assert(rest.subrange(7, rest.len() as int) =~= n@.subrange(pos + 7, n@.len() as int));
                pos = pos + 7;
                up = up + 1;
            }
            if up > self.frames.len() {
                return None;
            }
            let base = string_of_range(&n, pos, n.len());
            self.lookup_below(&base, self.frames.len() - up)
        } else {
            let base = string_of_range(&n, 0, n.len());
            assert(st.subrange(0, st.len() as int) =~= st);
            self.lookup_below(&base, self.frames.len())
        }
    }

    /// What `k` resolves to in the frames below `limit`, searched from the innermost outward.
    fn lookup_below(&self, k: &String, limit: usize) -> (r: Option<&Value>)
        requires
            limit <= self.frames@.len(),
        ensures
            r matches Some(v) ==> stack_get(self@.frames.subrange(0, limit as int), k@) == Some(v@),
            r is None ==> stack_get(self@.frames.subrange(0, limit as int), k@) is None,
    {
        let ghost st = self@.frames;
        match self.find_frame(k, limit) {
            Some(i) => {
                let ghost sub = st.subrange(0, limit as int);
                assert(sub[i as int] == self.frames@[i as int]@);
                match find_in_frame(&self.frames[i].vars, k) {
                    Some(j) => {
                        proof { lemma_frame_index(sub[i as int].vars, k@); }
                        Some(&self.frames[i].vars[j].1)
                    },
                    None => None,
                }
            },
            None => None,
        }
    }
}

/// Whether a name, given by its characters, is qualified `global::` or `super::`.
fn is_read_only(n: &Vec<char>) -> (r: bool)
    ensures
        r == is_outer_qualified(n@),
{
    let glob: Vec<char> = vec!['g', 'l', 'o', 'b', 'a', 'l', ':', ':'];
    let sup: Vec<char> = vec!['s', 'u', 'p', 'e', 'r', ':', ':'];
    assert(glob@ =~= global_ns());
    assert(sup@ =~= super_ns());
    assert(n@.subrange(0, n@.len() as int) =~= n@);
    occurs_at(n, 0, &glob) || occurs_at(n, 0, &sup)
}

/// Takes every binding of `k` out of a list of bindings; returns the rest, in order,
/// and the value of the last binding taken.
fn strip_key(vars: Vec<(String, Value)>, k: &String) -> (r: (Vec<(String, Value)>, Option<Value>))
    ensures
        entries_view(r.0@) == without(entries_view(vars@), k@),
        r.1 matches Some(v) ==> frame_get(entries_view(vars@), k@) == Some(v@),
        r.1 is None ==> frame_get(entries_view(vars@), k@) is None,
{
    let ghost ev = entries_view(vars@);
    let total = vars.len();
    let mut rest = vars;
    let mut kept: Vec<(String, Value)> = Vec::new();
    let mut taken: Option<Value> = None;
    let mut i: usize = 0;
    assert(ev.subrange(0, 0) =~= Seq::<EntryModel>::empty());
    assert(ev.subrange(0, ev.len() as int) =~= ev);
    while rest.len() > 0
        invariant
            i + rest.len() == ev.len(),
            ev.len() == total,
            entries_view(rest@) == ev.subrange(i as int, ev.len() as int),
            entries_view(kept@) == without(ev.subrange(0, i as int), k@),
            taken matches Some(v) ==> frame_get(ev.subrange(0, i as int), k@) == Some(v@),
            taken is None ==> frame_get(ev.subrange(0, i as int), k@) is None,
        decreases rest.len(),
    {
        let ghost before = rest@;
        let e = rest.remove(0);
        let ghost pre = ev.subrange(0, i as int);
        let ghost post = ev.subrange(0, i + 1);
        assert(entries_view(before)[0] == (e.0@, e.1@));
        assert(post =~= pre.push((e.0@, e.1@)));
        assert(post.drop_last() =~= pre);
        assert(rest@ =~= before.subrange(1, before.len() as int));
        assert(entries_view(rest@) =~= entries_view(before).subrange(1, before.len() as int));
        assert(entries_view(rest@) =~= ev.subrange(i + 1, ev.len() as int));
        proof {
            lemma_frame_push(pre, (e.0@, e.1@), k@);
            if let Some(j) = frame_index(pre, k@) {
                lemma_frame_index(pre, k@);
                assert(post[j] == pre[j]);
            }
        }
        if e.0 == *k {
            taken = Some(e.1);
        } else {
            let ghost kb = kept@;
            kept.push(e);
            assert(entries_view(kept@) =~= entries_view(kb).push(post.last()));
        }
        i = i + 1;
    }
    (kept, taken)
}

impl Variables {
    /// Assigns `value` to `name`: the innermost frame that binds the name is updated,
    /// else the binding is created in the innermost frame. A name qualified `global::`
    /// or `super::` is read-only: the call then changes nothing.
    pub fn set(&mut self, name: &str, value: Value)
        requires
            old(self).wf(),
        ensures
            final(self).wf(),
            final(self)@.frames == assign(old(self)@.frames, name@, value@),
            final(self)@.env == old(self)@.env,
    {
        let ghost st = self@.frames;
        let n = chars_of(name);
        if is_read_only(&n) {
            return;
        }
        let key = string_of(&n);
        let len = self.frames.len();
        assert(st.subrange(0, len as int) =~= st);
        let i = match self.find_frame(&key, len) {
            Some(i) => i,
            None => len - 1,
        };
        let mut f = self.frames.remove(i);
        assert(f@ == st[i as int]);
        let ghost ev = f@.vars;
        let ghost v = value@;
        match find_in_frame(&f.vars, &key) {
            Some(j) => {
                proof { lemma_frame_index(ev, name@); }
                f.vars.remove(j);
                f.vars.insert(j, (key, value));
                assert(entries_view(f.vars@) =~= ev.update(j as int, (name@, v)));
            },
            None => {
                f.vars.push((key, value));
                assert(entries_view(f.vars@) =~= ev.push((name@, v)));
            },
        }
        self.frames.insert(i, f);
        assert(self@.frames =~= st.update(i as int, frame_assign(st[i as int], name@, v)));
    }

    /// Removes `name` from the innermost frame that binds it and returns what it was bound
    /// to. A name qualified `global::` or `super::` is read-only: the call then changes
    /// nothing and returns `None`.
    pub fn remove_variable(&mut self, name: &str) -> (r: Option<Value>)
        requires
            old(self).wf(),
        ensures
            final(self).wf(),
            final(self)@.frames == remove(old(self)@.frames, name@),
            final(self)@.env == old(self)@.env,
            r matches Some(v) ==> !is_outer_qualified(name@) && stack_get(old(self)@.frames, name@) == Some(v@),
            r is None ==> is_outer_qualified(name@) || stack_get(old(self)@.frames, name@) is None,
    {
        let ghost st = self@.frames;
        let n = chars_of(name);
        if is_read_only(&n) {
            return None;
        }
        let key = string_of(&n);
        let len = self.frames.len();
        assert(st.subrange(0, len as int) =~= st);
        match self.find_frame(&key, len) {
            Some(i) => {
                let f = self.frames.remove(i);
                assert(f@ == st[i as int]);
                let namespace = f.namespace;
                let (kept, taken) = strip_key(f.vars, &key);
                self.frames.insert(i, Frame { namespace, vars: kept });
                assert(self@.frames =~= st.update(i as int,
                    FrameModel { vars: without(st[i as int].vars, name@), ..st[i as int] }));
                taken
            },
            None => None,
        }
    }

    /// Unbinds `k` in every frame.
    pub fn unset_everywhere(&mut self, k: &String)
        requires
            old(self).wf(),
        ensures
            final(self).wf(),
            final(self)@.frames == unset(old(self)@.frames, k@),
            final(self)@.env == old(self)@.env,
    {
        let ghost st = self@.frames;
        let mut i: usize = 0;
        while i < self.frames.len()
            invariant
                self.frames@.len() == st.len(),
                i <= st.len(),
                self@.env == old(self)@.env,
                forall|l: int| 0 <= l < i ==> #[trigger] self@.frames[l] == unset(st, k@)[l],
                forall|l: int| i <= l < st.len() ==> #[trigger] self@.frames[l] == st[l],
            decreases st.len() - i,
        {
            let ghost cur = self@.frames;
            assert(self@.frames[i as int] == st[i as int]);
            assert(cur[i as int] == self.frames@[i as int]@);
            let f = self.frames.remove(i);
            assert(f@ == st[i as int]);
            let namespace = f.namespace;
            let (kept, _) = strip_key(f.vars, k);
            self.frames.insert(i, Frame { namespace, vars: kept });
            assert(self@.frames =~= cur.update(i as int, unset(st, k@)[i as int]));
            i = i + 1;
        }
        assert(self@.frames =~= unset(st, k@));
    }

    /// Pushes a new innermost frame; `namespace` marks it as the frame of a function call.
    pub fn new_scope(&mut self, namespace: bool)
        requires
            old(self).wf(),
        ensures
            final(self).wf(),
            final(self)@.frames == old(self)@.frames.push(
                FrameModel { namespace, vars: Seq::<EntryModel>::empty() }),
            final(self)@.env == old(self)@.env,
    {
        self.frames.push(Frame { namespace, vars: Vec::new() });
        assert(entries_view(Seq::<(String, Value)>::empty()) =~= Seq::<EntryModel>::empty());
        assert(self@.frames =~= old(self)@.frames.push(
            FrameModel { namespace, vars: Seq::<EntryModel>::empty() }));
    }

    /// Drops the innermost frame; the outermost frame is never dropped.
    pub fn pop_scope(&mut self)
        requires
            old(self).wf(),
        ensures
            final(self).wf(),
            final(self)@.frames == if old(self)@.frames.len() > 1 {
                old(self)@.frames.drop_last()
            } else {
                old(self)@.frames
            },
            final(self)@.env == old(self)@.env,
    {
        if self.frames.len() > 1 {
            self.frames.pop();
            assert(self@.frames =~= old(self)@.frames.drop_last());
        }
    }

    /// Detaches the frames from `index` on and hands them back, outermost first.
    /// The outermost frame is never detached: for `index` 0, or past the end, nothing is.
    pub fn pop_scopes(&mut self, index: usize) -> (r: Vec<Frame>)
        requires
            old(self).wf(),
        ensures
            final(self).wf(),
            1 <= index <= old(self)@.frames.len() ==> final(self)@.frames == old(self)@.frames.subrange(0, index as int)
                && frames_view(r@) == old(self)@.frames.subrange(index as int, old(self)@.frames.len() as int),
            !(1 <= index <= old(self)@.frames.len()) ==> final(self)@.frames == old(self)@.frames && r@.len() == 0,
            final(self)@.env == old(self)@.env,
    {
        if 1 <= index && index <= self.frames.len() {
            let r = self.frames.split_off(index);
            assert(self@.frames =~= old(self)@.frames.subrange(0, index as int));
            assert(frames_view(r@) =~= old(self)@.frames.subrange(index as int, old(self)@.frames.len() as int));
            r
        } else {
            Vec::new()
        }
    }

    /// Reattaches frames as the innermost ones, in the order given.
    pub fn append_scopes(&mut self, scopes: Vec<Frame>)
        requires
            old(self).wf(),
        ensures
            final(self).wf(),
            final(self)@.frames == old(self)@.frames + frames_view(scopes@),
            final(self)@.env == old(self)@.env,
    {
        let mut scopes = scopes;
        let ghost sv = frames_view(scopes@);
        self.frames.append(&mut scopes);
        assert(self@.frames =~= old(self)@.frames + sv);
    }

    /// The index of the innermost frame that binds `name`, taken literally.
    pub fn index_scope_for_var(&self, name: &str) -> (r: Option<usize>)
        requires
            self.wf(),
        ensures
            r matches Some(i) ==> stack_frame_of(self@.frames, name@) == Some(i as int),
            r is None ==> stack_frame_of(self@.frames, name@) is None,
    {
        let n = chars_of(name);
        let key = string_of(&n);
        assert(self@.frames.subrange(0, self@.frames.len() as int) =~= self@.frames);
        self.find_frame(&key, self.frames.len())
    }

    /// Sets `name` in the environment table that the store reads; later entries win.
    pub fn set_env(&mut self, name: &str, value: &str)
        ensures
            final(self)@.frames == old(self)@.frames,
            final(self)@.env == old(self)@.env.push((name@, value@)),
            old(self).wf() ==> final(self).wf(),
    {
        self.env.push((name.to_string(), value.to_string()));
        assert(self@.env =~= old(self)@.env.push((name@, value@)));
    }

    /// What `k` is set to in the environment table.
    pub fn env_var(&self, k: &String) -> (r: Option<String>)
        ensures
            r matches Some(v) ==> env_get(self@.env, k@) == Some(v@),
            r is None ==> env_get(self@.env, k@) is None,
    {
        let ghost ev = self@.env;
        let mut i: usize = self.env.len();
        assert(ev.subrange(0, i as int) =~= ev);
        while i > 0
            invariant
                i <= self.env@.len(),
                ev == self@.env,
                ev.len() == self.env@.len(),
                env_get(ev, k@) == env_get(ev.subrange(0, i as int), k@),
            decreases i,
        {
            let j = i - 1;
            assert(ev.subrange(0, i as int).drop_last() =~= ev.subrange(0, j as int));
            assert(ev[j as int] == (self.env@[j as int].0@, self.env@[j as int].1@));
            if self.env[j].0 == *k {
                return Some(self.env[j].1.clone());
            }
            i = j;
        }
        None
    }
}

/// The text of a process id: its decimal notation, or `?` where it could not be had.
pub open spec fn id_text(id: Option<u32>) -> Seq<char> {
    match id {
        Some(n) => signed_decimal(n as int),
        None => "?"@,
    }
}

/// The bindings of the outermost frame at startup.
pub open spec fn startup_vars(pid: Option<u32>, uid: Option<u32>, euid: Option<u32>, histfile: Option<Seq<char>>) -> Seq<EntryModel> {
    let head = seq![
        ("HISTORY_SIZE"@, ValueModel::Str("1000"@)),
        ("HISTFILE_SIZE"@, ValueModel::Str("100000"@)),
        ("PROMPT"@, ValueModel::Str("${x::1B}]0;${USER}: ${PWD}${x::07}${c::0x55,bold}${USER}${c::default}:${c::0x4B}${SWD}${c::default}# ${c::reset}"@)),
        ("PID"@, ValueModel::Str(id_text(pid))),
        ("UID"@, ValueModel::Str(id_text(uid))),
        ("EUID"@, ValueModel::Str(id_text(euid))),
    ];
    let hist = match histfile {
        Some(h) => seq![("HISTFILE"@, ValueModel::Str(h)), ("HISTFILE_ENABLED"@, ValueModel::Str("1"@))],
        None => Seq::empty(),
    };
    head + hist + seq![
        ("HISTORY_TIMESTAMP"@, ValueModel::Str("0"@)),
        ("HISTORY_IGNORE"@, ValueModel::Array(seq!["no_such_command"@, "whitespace"@, "duplicates"@])),
        ("CDPATH"@, ValueModel::Array(Seq::empty())),
    ]
}

/// The characters of an optional string.
pub open spec fn opt_view(o: Option<String>) -> Option<Seq<char>> {
    match o {
        Some(h) => Some(h@),
        None => None,
    }
}

fn id_string(id: Option<u32>) -> (r: String)
    ensures
        r@ == id_text(id),
{
    match id {
        Some(n) => {
            let mut r = String::new();
            push_decimal(&mut r, n as u64);
            r
        },
        None => "?".to_string(),
    }
}

fn text_value(s: &str) -> (r: Value)
    ensures
        r@ == ValueModel::Str(s@),
{
    Value::Str(s.to_string())
}

impl Variables {
    /// The store at shell startup: one frame with the shell's default settings, the ids of
    /// the process (`?` where one could not be had), the history file where there is one,
    /// and the environment table it reads.
    pub fn at_startup(
        env: Vec<(String, String)>,
        pid: Option<u32>,
        uid: Option<u32>,
        euid: Option<u32>,
        histfile: Option<String>,
    ) -> (r: Variables)
        ensures
            r.wf(),
            r@.frames == seq![FrameModel {
                namespace: false,
                vars: startup_vars(pid, uid, euid, opt_view(histfile)),
            }],
            r@.env == env_view(env@),
    {
        let ghost hv = opt_view(histfile);
        let mut vars: Vec<(String, Value)> = Vec::new();
        vars.push(("HISTORY_SIZE".to_string(), text_value("1000")));
        vars.push(("HISTFILE_SIZE".to_string(), text_value("100000")));
        vars.push(("PROMPT".to_string(), text_value("${x::1B}]0;${USER}: ${PWD}${x::07}${c::0x55,bold}${USER}${c::default}:${c::0x4B}${SWD}${c::default}# ${c::reset}")));
        vars.push(("PID".to_string(), Value::Str(id_string(pid))));
        vars.push(("UID".to_string(), Value::Str(id_string(uid))));
        vars.push(("EUID".to_string(), Value::Str(id_string(euid))));
        let ghost head = entries_view(vars@);
        match histfile {
            Some(h) => {
                vars.push(("HISTFILE".to_string(), Value::Str(h)));
                vars.push(("HISTFILE_ENABLED".to_string(), text_value("1")));
            },
            None => {},
        }
        let ghost mid = entries_view(vars@);
        vars.push(("HISTORY_TIMESTAMP".to_string(), text_value("0")));
        let mut ignore: Vec<String> = Vec::new();
        ignore.push("no_such_command".to_string());
        ignore.push("whitespace".to_string());
        ignore.push("duplicates".to_string());
        assert(views(ignore@) =~= seq!["no_such_command"@, "whitespace"@, "duplicates"@]);
        vars.push(("HISTORY_IGNORE".to_string(), Value::Array(ignore)));
        let empty: Vec<String> = Vec::new();
        assert(views(empty@) =~= Seq::<Seq<char>>::empty());
        vars.push(("CDPATH".to_string(), Value::Array(empty)));
        let ghost sv = startup_vars(pid, uid, euid, hv);
        assert(head =~= sv.subrange(0, 6));
        assert(mid =~= sv.subrange(0, mid.len() as int));
        assert(entries_view(vars@) =~= sv);
        let mut frames: Vec<Frame> = Vec::new();
        frames.push(Frame { namespace: false, vars });
        let r = Variables { frames, env };
        assert(r@.frames =~= seq![FrameModel { namespace: false, vars: sv }]);
        r
    }
}

impl Default for Variables {
    /// The store at startup with no environment, no process ids and no history file.
    fn default() -> (r: Variables)
        ensures
            r.wf(),
            r@.frames == seq![FrameModel { namespace: false, vars: startup_vars(None, None, None, None) }],
            r@.env == Seq::<(Seq<char>, Seq<char>)>::empty(),
    {
        let r = Variables::at_startup(Vec::new(), None, None, None, None);
        assert(r@.env =~= Seq::<(Seq<char>, Seq<char>)>::empty());
        r
    }
}

/// `k` qualifiers `super::` in a row.
pub open spec fn supers(k: nat) -> Seq<char>
    decreases k,
{
    if k == 0 {
        Seq::empty()
    } else {
        super_ns() + supers((k - 1) as nat)
    }
}

pub proof fn lemma_strip_supers(k: nat, n: Seq<char>)
    requires
        !has_prefix(n, super_ns()),
    ensures
        strip_supers(supers(k) + n) == (k, n),
        k > 0 ==> has_prefix(supers(k) + n, super_ns()),
        k > 0 ==> !has_prefix(supers(k) + n, global_ns()),
    decreases k,
{
    if k > 0 {
        let s = supers(k) + n;
        let t = supers((k - 1) as nat) + n;
        assert(s =~= super_ns() + t);
        assert(s.subrange(0, 7) =~= super_ns());
        assert(s.subrange(7, s.len() as int) =~= t);
        lemma_strip_supers((k - 1) as nat, n);
        assert(s[0] == 's');
    }
}

/// Qualifier `super::`: k + 1 of them in front of a name skip the k + 1 innermost frames.
/// In a stack of k + 2 frames where only the outermost binds the name, the lookup finds
/// that binding; in a stack of k + 1 frames it finds nothing.
pub proof fn law_super_qualifier(
    st: Seq<FrameModel>,
    short: Seq<FrameModel>,
    k: nat,
    n: Seq<char>,
    v: ValueModel,
)
    requires
        !has_prefix(n, super_ns()),
        st.len() == k + 2,
        frame_get(st[0].vars, n) == Some(v),
        forall|i: int| 1 <= i < st.len() ==> frame_index(#[trigger] st[i].vars, n) is None,
        short.len() == k + 1,
    ensures
        lookup(st, supers(k + 1) + n) == Some(v),
        lookup(short, supers(k + 1) + n) is None,
{
    lemma_strip_supers(k + 1, n);
    let sub = st.subrange(0, 1);
    assert(sub.drop_last() =~= Seq::<FrameModel>::empty());
    assert(sub[0] == st[0]);
    assert(frame_index(st[0].vars, n) is Some);
    assert(short.subrange(0, 0) =~= Seq::<FrameModel>::empty());
}

/// Names qualified `global::` or `super::` are read-only: assigning or removing through
/// one leaves the stack as it was, so every later read sees what it saw before.
pub proof fn law_qualified_writes_change_nothing(st: Seq<FrameModel>, name: Seq<char>, v: ValueModel, m: Seq<char>)
    requires
        is_outer_qualified(name),
    ensures
        assign(st, name, v) == st,
        remove(st, name) == st,
        lookup(assign(st, name, v), m) == lookup(st, m),
        lookup(remove(st, name), m) == lookup(st, m),
{
}

/// The bindings of frames `0..=i`, the frame `i` first and the outermost last.
pub open spec fn entries_inward_from(st: Seq<FrameModel>, i: int) -> Seq<EntryModel>
    decreases i + 1,
{
    if i < 0 || i >= st.len() {
        Seq::empty()
    } else {
        st[i].vars + entries_inward_from(st, i - 1)
    }
}

/// The bindings of all frames, the innermost frame first.
pub open spec fn entries_innermost_first(st: Seq<FrameModel>) -> Seq<EntryModel> {
    entries_inward_from(st, st.len() - 1)
}

/// The bindings of all frames, the outermost frame first.
pub open spec fn entries_outermost_first(st: Seq<FrameModel>) -> Seq<EntryModel>
    decreases st.len(),
{
    if st.len() == 0 {
        Seq::empty()
    } else {
        entries_outermost_first(st.drop_last()) + st.last().vars
    }
}

/// The names bound to strings, with their values, in order.
pub open spec fn string_entries(es: Seq<EntryModel>) -> Seq<(Seq<char>, Seq<char>)>
    decreases es.len(),
{
    if es.len() == 0 {
        Seq::empty()
    } else {
        let prev = string_entries(es.drop_last());
        match es.last().1 {
            ValueModel::Str(v) => prev.push((es.last().0, v)),
            _ => prev,
        }
    }
}

/// The names bound to aliases, with their replacements, in order.
pub open spec fn alias_entries(es: Seq<EntryModel>) -> Seq<(Seq<char>, Seq<char>)>
    decreases es.len(),
{
    if es.len() == 0 {
        Seq::empty()
    } else {
        let prev = alias_entries(es.drop_last());
        match es.last().1 {
            ValueModel::Alias(v) => prev.push((es.last().0, v)),
            _ => prev,
        }
    }
}

/// The names bound to arrays, with their elements, in order.
pub open spec fn array_entries(es: Seq<EntryModel>) -> Seq<(Seq<char>, Seq<Seq<char>>)>
    decreases es.len(),
{
    if es.len() == 0 {
        Seq::empty()
    } else {
        let prev = array_entries(es.drop_last());
        match es.last().1 {
            ValueModel::Array(v) => prev.push((es.last().0, v)),
            _ => prev,
        }
    }
}

/// The names bound to functions, with their parameters and bodies, in order.
pub open spec fn function_entries(es: Seq<EntryModel>) -> Seq<(Seq<char>, (Seq<Seq<char>>, Seq<Seq<char>>))>
    decreases es.len(),
{
    if es.len() == 0 {
        Seq::empty()
    } else {
        let prev = function_entries(es.drop_last());
        match es.last().1 {
            ValueModel::Function(p, b) => prev.push((es.last().0, (p, b))),
            _ => prev,
        }
    }
}

/// Appends copies of `src` to `out`.
fn append_copies(out: &mut Vec<(String, Value)>, src: &Vec<(String, Value)>)
    ensures
        entries_view(final(out)@) == entries_view(old(out)@) + entries_view(src@),
{
    let mut i: usize = 0;
    while i < src.len()
        invariant
            i <= src.len(),
            entries_view(out@) == entries_view(old(out)@) + entries_view(src@).subrange(0, i as int),
        decreases src.len() - i,
    {
        let e = (src[i].0.clone(), src[i].1.copy());
        let ghost o = out@;
        out.push(e);
        assert(entries_view(out@) =~= entries_view(o).push((e.0@, e.1@)));
        assert(entries_view(src@).subrange(0, i + 1) =~= entries_view(src@).subrange(0, i as int).push((e.0@, e.1@)));
        i += 1;
    }
    assert(entries_view(src@).subrange(0, src@.len() as int) =~= entries_view(src@));
}

impl Variables {
    /// Copies of all bindings, the outermost frame first.
    fn all_outermost_first(&self) -> (r: Vec<(String, Value)>)
        ensures
            entries_view(r@) == entries_outermost_first(self@.frames),
    {
        let ghost st = self@.frames;
        let mut r: Vec<(String, Value)> = Vec::new();
        let mut i: usize = 0;
        assert(entries_view(r@) =~= entries_outermost_first(st.subrange(0, 0)));
        while i < self.frames.len()
            invariant
                st == self@.frames,
                st.len() == self.frames@.len(),
                i <= self.frames@.len(),
                entries_view(r@) == entries_outermost_first(st.subrange(0, i as int)),
            decreases self.frames@.len() - i,
        {
            assert(st.subrange(0, i + 1).drop_last() =~= st.subrange(0, i as int));
            assert(st[i as int] == self.frames@[i as int]@);
            append_copies(&mut r, &self.frames[i].vars);
            i += 1;
        }
        assert(st.subrange(0, st.len() as int) =~= st);
        r
    }

    /// Copies of all bindings, the innermost frame first.
    fn all_innermost_first(&self) -> (r: Vec<(String, Value)>)
        ensures
            entries_view(r@) == entries_innermost_first(self@.frames),
    {
        let ghost st = self@.frames;
        let mut r: Vec<(String, Value)> = Vec::new();
        let mut i: usize = self.frames.len();
        while i > 0
            invariant
                st == self@.frames,
                st.len() == self.frames@.len(),
                i <= self.frames@.len(),
                entries_view(r@) + entries_inward_from(st, i - 1) == entries_innermost_first(st),
            decreases i,
        {
            assert(st[i - 1] == self.frames@[i - 1]@);
            let ghost r0 = entries_view(r@);
            append_copies(&mut r, &self.frames[i - 1].vars);
            assert(r0 + entries_inward_from(st, i - 1) =~= entries_view(r@) + entries_inward_from(st, i - 2));
            i -= 1;
        }
        assert(entries_view(r@) =~= entries_view(r@) + entries_inward_from(st, -1));
        r
    }

    /// The string variables with their values, the outermost frame first.
    pub fn string_vars(&self) -> (r: Vec<(String, String)>)
        ensures
            r@.map_values(|e: (String, String)| (e.0@, e.1@)) == string_entries(entries_outermost_first(self@.frames)),
    {
        let all = self.all_outermost_first();
        let ghost ev = entries_view(all@);
        let mut r: Vec<(String, String)> = Vec::new();
        let mut i: usize = 0;
        while i < all.len()
            invariant
                i <= all.len(),
                ev == entries_view(all@),
                r@.map_values(|e: (String, String)| (e.0@, e.1@)) == string_entries(ev.subrange(0, i as int)),
            decreases all.len() - i,
        {
            assert(ev.subrange(0, i + 1).drop_last() =~= ev.subrange(0, i as int));
            let ghost r0 = r@;
            if let Value::Str(v) = &all[i].1 {
                r.push((all[i].0.clone(), v.clone()));
                assert(r@.map_values(|e: (String, String)| (e.0@, e.1@)) =~= r0.map_values(|e: (String, String)| (e.0@, e.1@)).push((ev[i as int].0, v@)));
            }
            i += 1;
        }
        assert(ev.subrange(0, ev.len() as int) =~= ev);
        r
    }

    /// The aliases with their replacements, the innermost frame first.
    pub fn aliases(&self) -> (r: Vec<(String, String)>)
        ensures
            r@.map_values(|e: (String, String)| (e.0@, e.1@)) == alias_entries(entries_innermost_first(self@.frames)),
    {
        let all = self.all_innermost_first();
        let ghost ev = entries_view(all@);
        let mut r: Vec<(String, String)> = Vec::new();
        let mut i: usize = 0;
        while i < all.len()
            invariant
                i <= all.len(),
                ev == entries_view(all@),
                r@.map_values(|e: (String, String)| (e.0@, e.1@)) == alias_entries(ev.subrange(0, i as int)),
            decreases all.len() - i,
        {
            assert(ev.subrange(0, i + 1).drop_last() =~= ev.subrange(0, i as int));
            let ghost r0 = r@;
            if let Value::Alias(v) = &all[i].1 {
                r.push((all[i].0.clone(), v.clone()));
                assert(r@.map_values(|e: (String, String)| (e.0@, e.1@)) =~= r0.map_values(|e: (String, String)| (e.0@, e.1@)).push((ev[i as int].0, v@)));
            }
            i += 1;
        }
        assert(ev.subrange(0, ev.len() as int) =~= ev);
        r
    }

    /// The array variables with their elements, the innermost frame first.
    pub fn arrays(&self) -> (r: Vec<(String, Vec<String>)>)
        ensures
            r@.map_values(|e: (String, Vec<String>)| (e.0@, views(e.1@))) == array_entries(entries_innermost_first(self@.frames)),
    {
        let all = self.all_innermost_first();
        let ghost ev = entries_view(all@);
        let mut r: Vec<(String, Vec<String>)> = Vec::new();
        let mut i: usize = 0;
        while i < all.len()
            invariant
                i <= all.len(),
                ev == entries_view(all@),
                r@.map_values(|e: (String, Vec<String>)| (e.0@, views(e.1@))) == array_entries(ev.subrange(0, i as int)),
            decreases all.len() - i,
        {
            assert(ev.subrange(0, i + 1).drop_last() =~= ev.subrange(0, i as int));
            let ghost r0 = r@;
            if let Value::Array(v) = &all[i].1 {
                let c = crate::value::copy_strings(v);
                r.push((all[i].0.clone(), c));
                assert(r@.map_values(|e: (String, Vec<String>)| (e.0@, views(e.1@))) =~= r0.map_values(|e: (String, Vec<String>)| (e.0@, views(e.1@))).push((ev[i as int].0, views(v@))));
            }
            i += 1;
        }
        assert(ev.subrange(0, ev.len() as int) =~= ev);
        r
    }

    /// The functions with their definitions, the innermost frame first.
    pub fn functions(&self) -> (r: Vec<(String, crate::value::Function)>)
        ensures
            r@.map_values(|e: (String, crate::value::Function)| (e.0@, (views(e.1.params@), views(e.1.body@))))
                == function_entries(entries_innermost_first(self@.frames)),
    {
        let all = self.all_innermost_first();
        let ghost ev = entries_view(all@);
        let mut r: Vec<(String, crate::value::Function)> = Vec::new();
        let mut i: usize = 0;
        while i < all.len()
            invariant
                i <= all.len(),
                ev == entries_view(all@),
                r@.map_values(|e: (String, crate::value::Function)| (e.0@, (views(e.1.params@), views(e.1.body@))))
                    == function_entries(ev.subrange(0, i as int)),
            decreases all.len() - i,
        {
            assert(ev.subrange(0, i + 1).drop_last() =~= ev.subrange(0, i as int));
            let ghost r0 = r@;
            if let Value::Function(f) = &all[i].1 {
                let c = f.copy();
                r.push((all[i].0.clone(), c));
                assert(r@.map_values(|e: (String, crate::value::Function)| (e.0@, (views(e.1.params@), views(e.1.body@))))
                    =~= r0.map_values(|e: (String, crate::value::Function)| (e.0@, (views(e.1.params@), views(e.1.body@))))
                    .push((ev[i as int].0, (views(f.params@), views(f.body@)))));
            }
            i += 1;
        }
        assert(ev.subrange(0, ev.len() as int) =~= ev);
        r
    }
}

/// Whether a character is alphabetic or numeric in Unicode.
pub uninterp spec fn alphanumeric(c: char) -> bool;

/// Relies on `char::is_alphanumeric`: whether `c` is alphabetic or numeric in Unicode.
#[verifier::external_body]
fn is_alphanumeric(c: char) -> (r: bool)
    ensures
        r == alphanumeric(c),
{
    c.is_alphanumeric()
}

/// Whether a character may stand in a variable name, given whether it is alphanumeric:
/// an alphanumeric character, or one of `_ ? . - +`.
pub open spec fn name_char(c: char, alnum: bool) -> bool {
    alnum || c == '_' || c == '?' || c == '.' || c == '-' || c == '+'
}

/// Whether every character of a name may stand in a variable name.
pub open spec fn valid_name(name: Seq<char>) -> bool {
    forall|i: int| 0 <= i < name.len() ==> name_char(#[trigger] name[i], alphanumeric(name[i]))
}

/// Whether a character may stand in a variable name, given whether it is alphanumeric.
pub fn name_char_given(c: char, alnum: bool) -> (r: bool)
    ensures
        r == name_char(c, alnum),
{
    alnum || c == '_' || c == '?' || c == '.' || c == '-' || c == '+'
}

impl Variables {
    /// Whether every character of `name` may stand in a variable name.
    pub fn is_valid_variable_name(name: &str) -> (r: bool)
        ensures
            r == valid_name(name@),
    {
        let n = chars_of(name);
        let mut i: usize = 0;
        while i < n.len()
            invariant
                n@ == name@,
                i <= n.len(),
                forall|j: int| 0 <= j < i ==> name_char(#[trigger] n@[j], alphanumeric(n@[j])),
            decreases n.len() - i,
        {
            if !Variables::is_valid_variable_character(n[i]) {
                return false;
            }
            i += 1;
        }
        true
    }

    /// Whether a character may stand in a variable name: an alphanumeric character, or one
    /// of `_ ? . - +`.
    pub fn is_valid_variable_character(c: char) -> (r: bool)
        ensures
            r == name_char(c, alphanumeric(c)),
    {
        name_char_given(c, is_alphanumeric(c))
    }
}

} // verus!
