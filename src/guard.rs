//! Binding a function's parameters, and putting back what they shadowed.
use vstd::prelude::*;
use crate::value::{Value, ValueModel};
use crate::variables::{
    assign, is_outer_qualified, lemma_assign, lemma_unset, lookup, stack_get, unset, FrameModel,
    Variables,
};

verus! {

/// What a call saved, for each parameter in order: its name, and the value it resolved to
/// at the call site, or `None` where it resolved to nothing.
pub struct Captures {
    names: Vec<String>,
    saved: Vec<Option<Value>>,
}

/// The model of a saved value.
pub open spec fn saved_view(o: Option<Value>) -> Option<ValueModel> {
    match o {
        Some(v) => Some(v@),
        None => None,
    }
}

impl View for Captures {
    type V = Seq<(Seq<char>, Option<ValueModel>)>;

    closed spec fn view(&self) -> Seq<(Seq<char>, Option<ValueModel>)> {
        Seq::new(self.names@.len(), |i: int| (self.names@[i]@, saved_view(self.saved@[i])))
    }
}

impl Captures {
    pub closed spec fn wf(&self) -> bool {
        self.names@.len() == self.saved@.len()
    }
}

/// What each parameter resolves to before the call.
pub open spec fn capture(st: Seq<FrameModel>, params: Seq<Seq<char>>) -> Seq<(Seq<char>, Option<ValueModel>)> {
    Seq::new(params.len(), |i: int| (params[i], lookup(st, params[i])))
}

/// The stack after binding each parameter to its argument, in order.
pub open spec fn bind(st: Seq<FrameModel>, params: Seq<Seq<char>>, args: Seq<Seq<char>>) -> Seq<FrameModel>
    decreases params.len(),
{
    if params.len() == 0 || args.len() == 0 {
        st
    } else {
        assign(bind(st, params.drop_last(), args.drop_last()), params.last(), ValueModel::Str(args.last()))
    }
}

/// The stack without its innermost frame; the outermost frame stays.
pub open spec fn leave_frame(st: Seq<FrameModel>) -> Seq<FrameModel> {
    if st.len() > 1 {
        st.drop_last()
    } else {
        st
    }
}

/// The stack after putting back what was saved, in order: a saved value is assigned
/// again, and a name that resolved to nothing is unbound everywhere.
pub open spec fn replay(st: Seq<FrameModel>, caps: Seq<(Seq<char>, Option<ValueModel>)>) -> Seq<FrameModel>
    decreases caps.len(),
{
    if caps.len() == 0 {
        st
    } else {
        let prev = replay(st, caps.drop_last());
        match caps.last().1 {
            Some(v) => assign(prev, caps.last().0, v),
            None => unset(prev, caps.last().0),
        }
    }
}

/// After a replay of saved values that agree wherever the names agree, each name resolves
/// to what was saved for it.
pub proof fn lemma_replay(st: Seq<FrameModel>, caps: Seq<(Seq<char>, Option<ValueModel>)>, i: int)
    requires
        st.len() > 0,
        0 <= i < caps.len(),
        forall|j: int| 0 <= j < caps.len() ==> !is_outer_qualified(#[trigger] caps[j].0),
        forall|j: int, l: int| 0 <= j < caps.len() && 0 <= l < caps.len() && caps[j].0 == caps[l].0
            ==> #[trigger] caps[j].1 == #[trigger] caps[l].1,
    ensures
        stack_get(replay(st, caps), caps[i].0) == caps[i].1,
        replay(st, caps).len() == st.len(),
    decreases caps.len(),
{
    let d = caps.drop_last();
    let last = caps.last();
    assert forall|j: int| 0 <= j < d.len() implies !is_outer_qualified(#[trigger] d[j].0) by {
        assert(d[j] == caps[j]);
    }
    assert forall|j: int, l: int| 0 <= j < d.len() && 0 <= l < d.len() && d[j].0 == d[l].0
        implies #[trigger] d[j].1 == #[trigger] d[l].1 by {
        assert(d[j] == caps[j]);
        assert(d[l] == caps[l]);
    }
    if d.len() > 0 {
        lemma_replay(st, d, 0);
    }
    let prev = replay(st, d);
    assert(!is_outer_qualified(caps[caps.len() - 1].0));
    match last.1 {
        Some(v) => lemma_assign(prev, last.0, v, caps[i].0),
        None => lemma_unset(prev, last.0, caps[i].0),
    }
    if i < caps.len() - 1 && caps[i].0 != last.0 {
        lemma_replay(st, d, i);
        assert(d[i] == caps[i]);
    }
}

/// A call puts back what its parameters shadowed: whatever the body did to the stack,
/// once the call's frame is left and the saved values replayed, each parameter name
/// resolves exactly as it did before the call, with the same value or to nothing.
pub proof fn law_call_restores(
    before: Seq<FrameModel>,
    params: Seq<Seq<char>>,
    after_body: Seq<FrameModel>,
    i: int,
)
    requires
        before.len() > 0,
        after_body.len() > 0,
        0 <= i < params.len(),
        forall|j: int| 0 <= j < params.len() ==> !is_outer_qualified(#[trigger] params[j]),
    ensures
        stack_get(replay(leave_frame(after_body), capture(before, params)), params[i])
            == stack_get(before, params[i]),
{
    let caps = capture(before, params);
    assert forall|j: int| 0 <= j < caps.len() implies !is_outer_qualified(#[trigger] caps[j].0) by {
        assert(caps[j].0 == params[j]);
    }
    assert(lookup(before, params[i]) == stack_get(before, params[i]));
    lemma_replay(leave_frame(after_body), caps, i);
}

/// Starts a call: saves what each parameter resolves to, enters a new frame that opens a
/// namespace, and binds each parameter to its argument.
pub fn begin_call(vars: &mut Variables, params: &Vec<String>, args: &Vec<String>) -> (caps: Captures)
    requires
        old(vars).wf(),
        params.len() == args.len(),
    ensures
        final(vars).wf(),
        caps.wf(),
        caps@ == capture(old(vars)@.frames, crate::value::views(params@)),
        final(vars)@.frames == bind(
            old(vars)@.frames.push(FrameModel { namespace: true, vars: Seq::empty() }),
            crate::value::views(params@),
            crate::value::views(args@),
        ),
        final(vars)@.env == old(vars)@.env,
{
    let ghost pv = crate::value::views(params@);
    let ghost av = crate::value::views(args@);
    let ghost st0 = vars@.frames;
    let mut names: Vec<String> = Vec::new();
    let mut saved: Vec<Option<Value>> = Vec::new();
    let mut i: usize = 0;
    while i < params.len()
        invariant
            vars.wf(),
            vars@ == old(vars)@,
            st0 == old(vars)@.frames,
            i <= params.len(),
            names@.len() == i,
            saved@.len() == i,
            pv == crate::value::views(params@),
            forall|j: int| 0 <= j < i ==> (#[trigger] names@[j])@ == pv[j],
            forall|j: int| 0 <= j < i ==> saved_view(#[trigger] saved@[j]) == lookup(st0, pv[j]),
        decreases params.len() - i,
    {
        let found = match vars.get_ref(params[i].as_str()) {
            Some(v) => Some(v.copy()),
            None => None,
        };
        assert(pv[i as int] == params@[i as int]@);
        assert(saved_view(found) == lookup(st0, pv[i as int]));
        let name = params[i].clone();
        assert(name@ == pv[i as int]);
        let ghost n0 = names@;
        let ghost s0 = saved@;
        names.push(name);
        saved.push(found);
        assert forall|j: int| 0 <= j < i + 1 implies (#[trigger] names@[j])@ == pv[j] by {
            if j < i {
                assert(names@[j] == n0[j]);
            }
        }
        assert forall|j: int| 0 <= j < i + 1 implies saved_view(#[trigger] saved@[j]) == lookup(st0, pv[j]) by {
            if j < i {
                assert(saved@[j] == s0[j]);
            }
        }
        i += 1;
    }
    let caps = Captures { names, saved };
    assert(caps@ =~= capture(st0, pv));
    vars.new_scope(true);
    let ghost st1 = vars@.frames;
    let mut k: usize = 0;
    assert(pv.subrange(0, 0) =~= Seq::<Seq<char>>::empty());
    while k < params.len()
        invariant
            vars.wf(),
            k <= params.len(),
            params.len() == args.len(),
            pv == crate::value::views(params@),
            av == crate::value::views(args@),
            vars@.env == old(vars)@.env,
            vars@.frames == bind(st1, pv.subrange(0, k as int), av.subrange(0, k as int)),
        decreases params.len() - k,
    {
        assert(pv.subrange(0, k + 1).drop_last() =~= pv.subrange(0, k as int));
        assert(av.subrange(0, k + 1).drop_last() =~= av.subrange(0, k as int));
        vars.set(params[k].as_str(), Value::Str(args[k].clone()));
        k += 1;
    }
    assert(pv.subrange(0, pv.len() as int) =~= pv);
    assert(av.subrange(0, av.len() as int) =~= av);
    caps
}

/// Ends a call: leaves the call's frame, then puts back what was saved, in order.
pub fn end_call(vars: &mut Variables, caps: Captures)
    requires
        old(vars).wf(),
        caps.wf(),
    ensures
        final(vars).wf(),
        final(vars)@.frames == replay(leave_frame(old(vars)@.frames), caps@),
        final(vars)@.env == old(vars)@.env,
{
    vars.pop_scope();
    let ghost st = vars@.frames;
    let ghost cv = caps@;
    let mut i: usize = 0;
    assert(cv.subrange(0, 0) =~= Seq::<(Seq<char>, Option<ValueModel>)>::empty());
    while i < caps.names.len()
        invariant
            vars.wf(),
            caps.wf(),
            cv == caps@,
            i <= caps.names@.len(),
            vars@.env == old(vars)@.env,
            vars@.frames == replay(st, cv.subrange(0, i as int)),
        decreases caps.names@.len() - i,
    {
        assert(cv.subrange(0, i + 1).drop_last() =~= cv.subrange(0, i as int));
        assert(cv[i as int] == (caps.names@[i as int]@, saved_view(caps.saved@[i as int])));
        match &caps.saved[i] {
            Some(v) => vars.set(caps.names[i].as_str(), v.copy()),
            None => vars.unset_everywhere(&caps.names[i]),
        }
        i += 1;
    }
    assert(cv.subrange(0, cv.len() as int) =~= cv);
}

} // verus!
