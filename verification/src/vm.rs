use vstd::prelude::*;
use crate::compiler::Chunk;
use crate::error::{ErrorKind, Fault};
use crate::value::{lemma_vals_view, val_view, vals_view, values_equal, Value, ValueV};

verus! {

/// One frame of the scope chain: its named bindings and its operand stack.
/// Frames form a single chain; the deepest frame is the active one for
/// every stack operation.
pub struct Scope {
    pub callframe: Vec<(String, Value)>,
    pub stack: Vec<Value>,
}

impl Scope {
    /// A fresh frame with no bindings and an empty stack.
    pub fn new() -> (r: Scope)
        ensures
            scope_view(r) == empty_scope(),
    {
        Scope { callframe: Vec::new(), stack: Vec::new() }
    }
}

/// The model of one frame.
#[verifier::ext_equal]
pub ghost struct ScopeV {
    pub frame: Seq<(Seq<char>, ValueV)>,
    pub stack: Seq<ValueV>,
}

/// A frame with nothing in it.
pub open spec fn empty_scope() -> ScopeV {
    ScopeV { frame: Seq::empty(), stack: Seq::empty() }
}

/// Model of a binding list.
pub open spec fn frame_view(fr: Seq<(String, Value)>) -> Seq<(Seq<char>, ValueV)> {
    Seq::new(fr.len(), |i: int| (fr[i].0@, val_view(fr[i].1)))
}

/// Model of one frame.
pub open spec fn scope_view(s: Scope) -> ScopeV {
    ScopeV { frame: frame_view(s.callframe@), stack: vals_view_seq(s.stack@) }
}

/// Model of an operand stack.
pub open spec fn vals_view_seq(s: Seq<Value>) -> Seq<ValueV> {
    Seq::new(s.len(), |i: int| val_view(s[i]))
}

/// Model of the whole chain, root first; the last frame is the innermost.
pub open spec fn scopes_view(ss: Seq<Scope>) -> Seq<ScopeV> {
    Seq::new(ss.len(), |i: int| scope_view(ss[i]))
}

/// The value bound to `n` in a binding list: the earliest binding wins.
pub open spec fn frame_get(fr: Seq<(Seq<char>, ValueV)>, n: Seq<char>) -> Option<ValueV>
    decreases fr.len(),
{
    if fr.len() == 0 {
        Option::None
    } else if fr[0].0 == n {
        Option::Some(fr[0].1)
    } else {
        frame_get(fr.drop_first(), n)
    }
}

/// Whether a binding list binds `n`.
pub open spec fn frame_has(fr: Seq<(Seq<char>, ValueV)>, n: Seq<char>) -> bool {
    frame_get(fr, n) is Some
}

/// Overwrite the earliest binding of `n`, or append one.
pub open spec fn frame_put(fr: Seq<(Seq<char>, ValueV)>, n: Seq<char>, v: ValueV) -> Seq<
    (Seq<char>, ValueV),
>
    decreases fr.len(),
{
    if fr.len() == 0 {
        seq![(n, v)]
    } else if fr[0].0 == n {
        fr.update(0, (n, v))
    } else {
        seq![fr[0]] + frame_put(fr.drop_first(), n, v)
    }
}

/// Load resolution: search the chain innermost to outermost; the first
/// frame that binds the name wins.
pub open spec fn lookup(fs: Seq<ScopeV>, n: Seq<char>) -> Option<ValueV>
    decreases fs.len(),
{
    if fs.len() == 0 {
        Option::None
    } else {
        match frame_get(fs.last().frame, n) {
            Option::Some(v) => Option::Some(v),
            Option::None => lookup(fs.drop_last(), n),
        }
    }
}

/// Store resolution: the frame a store writes to.  The chain is searched
/// from the root towards the innermost frame, the innermost frame itself
/// excepted, for an existing binding; when none is found the innermost
/// frame takes a new binding.
pub open spec fn store_idx(fs: Seq<ScopeV>, n: Seq<char>) -> int
    decreases fs.len(),
{
    if fs.len() <= 1 {
        0
    } else if frame_has(fs[0].frame, n) {
        0
    } else {
        1 + store_idx(fs.drop_first(), n)
    }
}

/// Store a value under a name, by store resolution.
pub open spec fn store(fs: Seq<ScopeV>, n: Seq<char>, v: ValueV) -> Seq<ScopeV> {
    let k = store_idx(fs, n);
    fs.update(k, ScopeV { frame: frame_put(fs[k].frame, n, v), stack: fs[k].stack })
}

/// Bind a value in the innermost frame, shadowing outer bindings.
pub open spec fn bind_innermost(fs: Seq<ScopeV>, n: Seq<char>, v: ValueV) -> Seq<ScopeV> {
    let k = fs.len() - 1;
    fs.update(k, ScopeV { frame: frame_put(fs[k].frame, n, v), stack: fs[k].stack })
}

/// Push a value on the innermost operand stack.
pub open spec fn push_top(fs: Seq<ScopeV>, v: ValueV) -> Seq<ScopeV> {
    let k = fs.len() - 1;
    fs.update(k, ScopeV { frame: fs[k].frame, stack: fs[k].stack.push(v) })
}

/// Drop the top value of the innermost operand stack.
pub open spec fn pop_top(fs: Seq<ScopeV>) -> Seq<ScopeV> {
    let k = fs.len() - 1;
    fs.update(k, ScopeV { frame: fs[k].frame, stack: fs[k].stack.drop_last() })
}

/// The innermost operand stack.
pub open spec fn top_stack(fs: Seq<ScopeV>) -> Seq<ValueV> {
    fs.last().stack
}

/// Where a store lands: inside the chain only on an existing binding, and
/// never before an existing binding is passed over.
pub proof fn lemma_store_idx(fs: Seq<ScopeV>, n: Seq<char>)
    requires
        fs.len() >= 1,
    ensures
        0 <= store_idx(fs, n) < fs.len(),
        store_idx(fs, n) < fs.len() - 1 ==> frame_has(fs[store_idx(fs, n)].frame, n),
        forall|j: int| 0 <= j < store_idx(fs, n) ==> !frame_has(fs[j].frame, n),
    decreases fs.len(),
{
    if fs.len() > 1 && !frame_has(fs[0].frame, n) {
        lemma_store_idx(fs.drop_first(), n);
        assert forall|j: int| 0 <= j < store_idx(fs, n) implies !frame_has(fs[j].frame, n) by {
            if j > 0 {
                assert(fs.drop_first()[j - 1] == fs[j]);
            }
        }
        if store_idx(fs, n) < fs.len() - 1 {
            assert(fs.drop_first()[store_idx(fs, n) - 1] == fs[store_idx(fs, n)]);
        }
    }
}

/// What `frame_get` returns after `frame_put`: the stored value for the
/// stored name, the old answer for every other name.
pub proof fn lemma_frame_put_get(fr: Seq<(Seq<char>, ValueV)>, n: Seq<char>, v: ValueV)
    ensures
        frame_get(frame_put(fr, n, v), n) == Option::Some(v),
        forall|m: Seq<char>|
            m != n ==> frame_get(frame_put(fr, n, v), m) == frame_get(fr, m),
        frame_put(fr, n, v).len() >= fr.len(),
    decreases fr.len(),
{
    if fr.len() == 0 {
        assert forall|m: Seq<char>|
            m != n implies frame_get(frame_put(fr, n, v), m) == frame_get(fr, m) by {
            reveal_with_fuel(frame_get, 2);
            assert(frame_put(fr, n, v).drop_first() =~= Seq::<(Seq<char>, ValueV)>::empty());
        }
    } else if fr[0].0 == n {
        assert(frame_put(fr, n, v)[0] == (n, v));
        assert forall|m: Seq<char>|
            m != n implies frame_get(frame_put(fr, n, v), m) == frame_get(fr, m) by {
            assert(frame_put(fr, n, v).drop_first() =~= fr.drop_first());
        }
    } else {
        lemma_frame_put_get(fr.drop_first(), n, v);
        assert(frame_put(fr, n, v)[0] == fr[0]);
        assert(frame_put(fr, n, v).drop_first() =~= frame_put(fr.drop_first(), n, v));
        assert(frame_get(frame_put(fr, n, v), n) == Option::Some(v));
        assert forall|m: Seq<char>|
            m != n implies frame_get(frame_put(fr, n, v), m) == frame_get(fr, m) by {
            assert(frame_put(fr, n, v).drop_first() =~= frame_put(fr.drop_first(), n, v));
            if fr[0].0 != m {
                assert(frame_get(fr, m) == frame_get(fr.drop_first(), m));
            }
        }
    }
}

/// `frame_get` answers with the earliest binding.
pub proof fn lemma_frame_get_first(fr: Seq<(Seq<char>, ValueV)>, n: Seq<char>, i: int)
    requires
        0 <= i < fr.len(),
        fr[i].0 == n,
        forall|j: int| 0 <= j < i ==> fr[j].0 != n,
    ensures
        frame_get(fr, n) == Option::Some(fr[i].1),
    decreases i,
{
    if i > 0 {
        lemma_frame_get_first(fr.drop_first(), n, i - 1);
    }
}

/// A name bound nowhere in the list is not found.
pub proof fn lemma_frame_get_none(fr: Seq<(Seq<char>, ValueV)>, n: Seq<char>)
    requires
        forall|j: int| 0 <= j < fr.len() ==> fr[j].0 != n,
    ensures
        frame_get(fr, n) is None,
    decreases fr.len(),
{
    if fr.len() > 0 {
        lemma_frame_get_none(fr.drop_first(), n);
    }
}

/// `frame_put` at the earliest binding overwrites in place.
pub proof fn lemma_frame_put_at(fr: Seq<(Seq<char>, ValueV)>, n: Seq<char>, v: ValueV, i: int)
    requires
        0 <= i < fr.len(),
        fr[i].0 == n,
        forall|j: int| 0 <= j < i ==> fr[j].0 != n,
    ensures
        frame_put(fr, n, v) =~= fr.update(i, (n, v)),
    decreases i,
{
    if i == 0 {
    } else {
        lemma_frame_put_at(fr.drop_first(), n, v, i - 1);
        assert(fr.drop_first().update(i - 1, (n, v)) =~= fr.update(i, (n, v)).drop_first());
    }
}

/// `frame_put` of an unbound name appends.
pub proof fn lemma_frame_put_none(fr: Seq<(Seq<char>, ValueV)>, n: Seq<char>, v: ValueV)
    requires
        forall|j: int| 0 <= j < fr.len() ==> fr[j].0 != n,
    ensures
        frame_put(fr, n, v) =~= fr.push((n, v)),
    decreases fr.len(),
{
    if fr.len() > 0 {
        lemma_frame_put_none(fr.drop_first(), n, v);
        assert(fr.drop_first().push((n, v)) =~= fr.push((n, v)).drop_first());
    }
}

/// The load answer comes from the innermost frame that binds the name.
pub proof fn lemma_lookup_at(fs: Seq<ScopeV>, n: Seq<char>, i: int)
    requires
        0 <= i < fs.len(),
        frame_has(fs[i].frame, n),
        forall|j: int| i < j < fs.len() ==> !frame_has(fs[j].frame, n),
    ensures
        lookup(fs, n) == frame_get(fs[i].frame, n),
    decreases fs.len(),
{
    if i < fs.len() - 1 {
        assert(!frame_has(fs.last().frame, n));
        lemma_lookup_at(fs.drop_last(), n, i);
    }
}

/// A name bound in no frame is undefined.
pub proof fn lemma_lookup_none(fs: Seq<ScopeV>, n: Seq<char>)
    requires
        forall|j: int| 0 <= j < fs.len() ==> !frame_has(fs[j].frame, n),
    ensures
        lookup(fs, n) is None,
    decreases fs.len(),
{
    if fs.len() > 0 {
        lemma_lookup_none(fs.drop_last(), n);
    }
}

/// Storing a name and loading it straight back returns the stored value,
/// provided the name is not bound twice along the chain (an inner duplicate
/// would shadow the frame the store wrote to).
pub proof fn lemma_store_then_load(fs: Seq<ScopeV>, n: Seq<char>, v: ValueV)
    requires
        fs.len() >= 1,
        forall|i: int, j: int|
            (0 <= i < fs.len() && 0 <= j < fs.len() && #[trigger] frame_has(fs[i].frame, n)
                && #[trigger] frame_has(fs[j].frame, n)) ==> i == j,
    ensures
        lookup(store(fs, n, v), n) == Option::Some(v),
{
    let k = store_idx(fs, n);
    lemma_store_idx(fs, n);
    let fs2 = store(fs, n, v);
    lemma_frame_put_get(fs[k].frame, n, v);
    assert(frame_get(fs2[k].frame, n) == Option::Some(v));
    assert forall|j: int| k < j < fs2.len() implies !frame_has(fs2[j].frame, n) by {
        assert(fs2[j] == fs[j]);
        if frame_has(fs[j].frame, n) {
            if k < fs.len() - 1 {
                assert(frame_has(fs[k].frame, n));
            } else {
                assert(j == fs.len() - 1 && k == fs.len() - 1);
            }
        }
    }
    lemma_lookup_at(fs2, n, k);
}

/// A name first bound inside a freshly opened frame is undefined again once
/// that frame closes, and the outer frames come back exactly as they were.
pub proof fn lemma_scope_close_forgets(fs: Seq<ScopeV>, n: Seq<char>, v: ValueV)
    requires
        fs.len() >= 1,
        forall|j: int| 0 <= j < fs.len() ==> !frame_has(#[trigger] fs[j].frame, n),
    ensures
        store(fs.push(empty_scope()), n, v).drop_last() =~= fs,
        lookup(store(fs.push(empty_scope()), n, v).drop_last(), n) is None,
{
    let opened = fs.push(empty_scope());
    let k = store_idx(opened, n);
    lemma_store_idx(opened, n);
    if k < opened.len() - 1 {
        assert(opened[k] == fs[k]);
        assert(frame_has(fs[k].frame, n));
        assert(false);
    }
    assert(store(opened, n, v).drop_last() =~= fs);
    lemma_lookup_none(fs, n);
}

/// A function the machine has read out of a definition marker sequence:
/// its stored body and its parameter names in declared order.
pub struct FunctionDef {
    pub name: String,
    pub code: Vec<crate::opcode::OpCode>,
    pub params: Vec<String>,
}

/// The model of a stored function.
#[verifier::ext_equal]
pub ghost struct FnV {
    pub name: Seq<char>,
    pub code: Seq<crate::opcode::OpCodeV>,
    pub params: Seq<Seq<char>>,
}

/// Model of one stored function.
pub open spec fn fn_view(f: FunctionDef) -> FnV {
    FnV {
        name: f.name@,
        code: crate::opcode::ops_view(f.code@),
        params: Seq::new(f.params@.len(), |i: int| f.params@[i]@),
    }
}

/// Model of the function table, in insertion order.
pub open spec fn fns_view(fs: Seq<FunctionDef>) -> Seq<FnV> {
    Seq::new(fs.len(), |i: int| fn_view(fs[i]))
}

/// A native function's declared interface: its name and fixed arity.
pub struct NativeSig {
    pub name: String,
    pub arity: usize,
}

/// Model of the native declarations.
pub open spec fn natives_view(ns: Seq<NativeSig>) -> Seq<(Seq<char>, usize)> {
    Seq::new(ns.len(), |i: int| (ns[i].name@, ns[i].arity))
}

/// The value bound to a name in one frame, if any (a copy of it).
fn frame_lookup(frame: &Vec<(String, Value)>, name: &String) -> (r: Option<Value>)
    ensures
        (match frame_get(frame_view(frame@), name@) {
            Option::Some(vv) => r is Some && val_view(r.unwrap()) == vv,
            Option::None => r is None,
        }),
{
    let mut j: usize = 0;
    while j < frame.len()
        invariant
            0 <= j <= frame@.len(),
            forall|k: int| 0 <= k < j ==> frame@[k].0@ != name@,
        decreases frame@.len() - j,
    {
        if frame[j].0 == *name {
            proof {
                lemma_frame_get_first(frame_view(frame@), name@, j as int);
            }
            return Option::Some(frame[j].1.duplicate());
        }
        j = j + 1;
    }
    proof {
        lemma_frame_get_none(frame_view(frame@), name@);
    }
    Option::None
}

/// Overwrite the earliest binding of the name in one frame, or append one.
fn frame_put_exec(frame: &mut Vec<(String, Value)>, name: String, v: Value)
    ensures
        frame_view(final(frame)@) == frame_put(frame_view(old(frame)@), name@, val_view(v)),
{
    let mut j: usize = 0;
    while j < frame.len()
        invariant
            0 <= j <= frame@.len(),
            *frame == *old(frame),
            forall|k: int| 0 <= k < j ==> frame@[k].0@ != name@,
        decreases frame@.len() - j,
    {
        if frame[j].0 == name {
            proof {
                lemma_frame_put_at(frame_view(frame@), name@, val_view(v), j as int);
            }
            frame[j] = (name, v);
            proof {
                assert(frame_view(frame@) =~~= frame_put(
                    frame_view(old(frame)@),
                    name@,
                    val_view(v),
                ));
            }
            return ;
        }
        j = j + 1;
    }
    proof {
        lemma_frame_put_none(frame_view(frame@), name@, val_view(v));
    }
    frame.push((name, v));
    proof {
        assert(frame_view(frame@) =~~= frame_put(frame_view(old(frame)@), name@, val_view(v)));
    }
}

/// The frames after the store instruction has taken its value: the top of
/// the innermost stack goes, or nothing does when that stack is empty.
pub open spec fn after_pop(fs: Seq<ScopeV>) -> Seq<ScopeV> {
    if top_stack(fs).len() > 0 {
        pop_top(fs)
    } else {
        fs
    }
}

/// The value a store instruction takes: the top of the innermost stack, or
/// the none value when that stack is empty.
pub open spec fn popped_val(fs: Seq<ScopeV>) -> ValueV {
    if top_stack(fs).len() > 0 {
        top_stack(fs).last()
    } else {
        ValueV::Nil
    }
}

/// The virtual machine: the chunk it executes (which grows when a function
/// is invoked), the scope chain rooted at one persistent global frame, the
/// instruction pointer, the function and native tables, and the output
/// printed so far.
pub struct VM<'a> {
    pub chunk: Chunk,
    pub scopes: Vec<Scope>,
    pub index: usize,
    pub filename: &'a str,
    pub functions: Vec<FunctionDef>,
    pub natives: Vec<NativeSig>,
    pub output: Vec<String>,
}

impl<'a> VM<'a> {
    /// The model of the scope chain.
    pub open spec fn frames(self) -> Seq<ScopeV> {
        scopes_view(self.scopes@)
    }

    /// The model of the loaded code.
    pub open spec fn code_v(self) -> Seq<crate::opcode::OpCodeV> {
        crate::opcode::ops_view(self.chunk.code@)
    }

    /// The model of the output printed so far.
    pub open spec fn out_v(self) -> Seq<Seq<char>> {
        Seq::new(self.output@.len(), |i: int| self.output@[i]@)
    }

    /// The machine's invariant: the chain is never empty (the global frame
    /// persists) and the line table stays aligned with the code.
    pub open spec fn wf(self) -> bool {
        self.scopes@.len() >= 1 && self.chunk.code@.len() == self.chunk.lines@.len()
    }

    /// Everything but the scope chain is unchanged.
    pub open spec fn unchanged_but_scopes(pre: VM<'a>, post: VM<'a>) -> bool {
        post.chunk == pre.chunk && post.index == pre.index && post.filename == pre.filename
            && post.functions == pre.functions && post.natives == pre.natives && post.output
            == pre.output
    }

    /// A machine over a compiled chunk: instruction pointer at the start,
    /// one empty global frame, no functions, no natives, no output.
    pub fn new(chunk: Chunk, filename: &'a str) -> (r: VM<'a>)
        requires
            chunk.code@.len() == chunk.lines@.len(),
        ensures
            r.wf(),
            r.chunk == chunk,
            r.frames() == seq![empty_scope()],
            r.index == 0,
            r.filename == filename,
            fns_view(r.functions@) == Seq::<FnV>::empty(),
            natives_view(r.natives@) == Seq::<(Seq<char>, usize)>::empty(),
            r.out_v() == Seq::<Seq<char>>::empty(),
    {
        let mut scopes: Vec<Scope> = Vec::new();
        scopes.push(Scope::new());
        let r = VM {
            chunk,
            scopes,
            index: 0,
            filename,
            functions: Vec::new(),
            natives: Vec::new(),
            output: Vec::new(),
        };
        proof {
            assert(r.frames() =~~= seq![empty_scope()]);
            assert(fns_view(r.functions@) =~= Seq::<FnV>::empty());
            assert(natives_view(r.natives@) =~= Seq::<(Seq<char>, usize)>::empty());
            assert(r.out_v() =~= Seq::<Seq<char>>::empty());
        }
        r
    }

    /// Declare a native function's name and arity to the machine.
    pub fn register_native(&mut self, name: String, arity: usize)
        requires
            old(self).wf(),
        ensures
            final(self).wf(),
            natives_view(final(self).natives@) == natives_view(old(self).natives@).push(
                (name@, arity),
            ),
            final(self).chunk == old(self).chunk && final(self).index == old(self).index && final(self).filename == old(self).filename && final(self).functions == old(self).functions
                && final(self).scopes == old(self).scopes && final(self).output == old(self).output,
    {
        self.natives.push(NativeSig { name, arity });
        proof {
            assert(natives_view(self.natives@) =~= natives_view(old(self).natives@).push(
                (name@, arity),
            ));
        }
    }

    /// The source line of the failing instruction, for a diagnostic.
    pub fn fault(&self, kind: ErrorKind, msg: String) -> (r: Fault)
        ensures
            r.kind == kind,
            r.msg == msg,
            r.line == (if self.index < self.chunk.lines@.len() {
                self.chunk.lines@[self.index as int]
            } else {
                0usize
            }),
    {
        let line: usize = if self.index < self.chunk.lines.len() {
            self.chunk.lines[self.index]
        } else {
            0
        };
        Fault { kind, line, msg }
    }

    /// Push a copy-owned value on the innermost operand stack.
    pub fn push(&mut self, v: Value)
        requires
            old(self).wf(),
        ensures
            final(self).wf(),
            Self::unchanged_but_scopes(*old(self), *final(self)),
            final(self).frames() == push_top(old(self).frames(), val_view(v)),
    {
        let k = self.scopes.len() - 1;
        self.scopes[k].stack.push(v);
        proof {
            assert(self.frames() =~~= push_top(old(self).frames(), val_view(v)));
        }
    }

    /// Take the top value off the innermost operand stack; on an empty
    /// stack nothing changes and nothing comes back.
    pub fn pop(&mut self) -> (r: Option<Value>)
        requires
            old(self).wf(),
        ensures
            final(self).wf(),
            Self::unchanged_but_scopes(*old(self), *final(self)),
            top_stack(old(self).frames()).len() > 0 ==> r is Some && val_view(r.unwrap())
                == top_stack(old(self).frames()).last() && final(self).frames() == pop_top(
                old(self).frames(),
            ),
            top_stack(old(self).frames()).len() == 0 ==> r is None && final(self).frames() == old(self).frames(),
    {
        let k = self.scopes.len() - 1;
        let r = self.scopes[k].stack.pop();
        proof {
            if top_stack(old(self).frames()).len() > 0 {
                assert(self.frames() =~~= pop_top(old(self).frames()));
            } else {
                assert(self.frames() =~~= old(self).frames());
            }
        }
        r
    }

    /// A copy of the top value of the innermost operand stack, which stays
    /// as it was; nothing comes back from an empty stack.
    pub fn top(&self) -> (r: Option<Value>)
        requires
            self.wf(),
        ensures
            top_stack(self.frames()).len() > 0 ==> r is Some && val_view(r.unwrap()) == top_stack(
                self.frames(),
            ).last(),
            top_stack(self.frames()).len() == 0 ==> r is None,
    {
        let k = self.scopes.len() - 1;
        let n = self.scopes[k].stack.len();
        if n == 0 {
            Option::None
        } else {
            Option::Some(self.scopes[k].stack[n - 1].duplicate())
        }
    }

    /// Open a fresh innermost frame.
    pub fn create_inner(&mut self)
        requires
            old(self).wf(),
        ensures
            final(self).wf(),
            Self::unchanged_but_scopes(*old(self), *final(self)),
            final(self).frames() == old(self).frames().push(empty_scope()),
    {
        self.scopes.push(Scope::new());
        proof {
            assert(self.frames() =~~= old(self).frames().push(empty_scope()));
        }
    }

    /// Discard the innermost frame entirely: its bindings and its operand
    /// stack vanish.  The global frame cannot be discarded.
    pub fn close_inner(&mut self) -> (ok: bool)
        requires
            old(self).wf(),
        ensures
            final(self).wf(),
            Self::unchanged_but_scopes(*old(self), *final(self)),
            old(self).frames().len() > 1 ==> ok && final(self).frames() == old(self).frames().drop_last(),
            old(self).frames().len() == 1 ==> !ok && final(self).frames() == old(self).frames(),
    {
        if self.scopes.len() > 1 {
            self.scopes.pop();
            proof {
                assert(self.frames() =~~= old(self).frames().drop_last());
            }
            true
        } else {
            false
        }
    }

    /// Load resolution: the value of the name, searched innermost to
    /// outermost; nothing comes back for an unbound name.
    #[verifier::loop_isolation(false)]
    pub fn get_var(&self, name: &String) -> (r: Option<Value>)
        requires
            self.wf(),
        ensures
            (match lookup(self.frames(), name@) {
                Option::Some(vv) => r is Some && val_view(r.unwrap()) == vv,
                Option::None => r is None,
            }),
    {
        let mut i: usize = self.scopes.len();
        while i > 0
            invariant
                0 <= i <= self.scopes@.len(),
                forall|j: int|
                    i <= j < self.frames().len() ==> !frame_has(
                        #[trigger] self.frames()[j].frame,
                        name@,
                    ),
            decreases i,
        {
            i = i - 1;
            let found = frame_lookup(&self.scopes[i].callframe, name);
            match found {
                Option::Some(v) => {
                    proof {
                        lemma_lookup_at(self.frames(), name@, i as int);
                    }
                    return Option::Some(v);
                }
                Option::None => {}
            }
        }
        proof {
            lemma_lookup_none(self.frames(), name@);
        }
        Option::None
    }

    /// Store resolution: take the top of the innermost stack (the none
    /// value when it is empty) and write it over an existing binding found
    /// anywhere outside the innermost frame, searched from the root; when
    /// no frame outside the innermost binds the name, bind it in the
    /// innermost frame.
    #[verifier::loop_isolation(false)]
    pub fn set_var(&mut self, name: String)
        requires
            old(self).wf(),
        ensures
            final(self).wf(),
            Self::unchanged_but_scopes(*old(self), *final(self)),
            final(self).frames() == store(
                after_pop(old(self).frames()),
                name@,
                popped_val(old(self).frames()),
            ),
    {
        let popped = self.pop();
        let v = match popped {
            Option::Some(x) => x,
            Option::None => Value::Nil,
        };
        let ghost fs = self.frames();
        let last = self.scopes.len() - 1;
        let mut i: usize = 0;
        let mut found = false;
        let mut target: usize = last;
        while i < last
            invariant
                0 <= i <= last,
                last == self.scopes@.len() - 1,
                found ==> target < i && frame_has(fs[target as int].frame, name@) && (forall|
                    j: int,
                |
                    0 <= j < target ==> !frame_has(#[trigger] fs[j].frame, name@)),
                !found ==> target == last && (forall|j: int|
                    0 <= j < i ==> !frame_has(#[trigger] fs[j].frame, name@)),
            decreases last - i,
        {
            if !found {
                let hit = frame_lookup(&self.scopes[i].callframe, &name);
                if hit.is_some() {
                    found = true;
                    target = i;
                }
            }
            i = i + 1;
        }
        proof {
            lemma_store_idx(fs, name@);
            let k = store_idx(fs, name@);
            if found {
                if k < target as int {
                    assert(frame_has(fs[k].frame, name@));
                    assert(false);
                }
                if k > target as int {
                    assert(!frame_has(fs[target as int].frame, name@));
                    assert(false);
                }
            } else {
                if k < last as int {
                    assert(frame_has(fs[k].frame, name@));
                    assert(false);
                }
            }
            assert(store_idx(fs, name@) == target as int);
        }
        frame_put_exec(&mut self.scopes[target].callframe, name, v);
        proof {
            assert(self.frames() =~~= store(fs, name@, val_view(v)));
        }
    }

    /// Bind the top of the innermost stack (the none value when it is
    /// empty) in the innermost frame itself, shadowing any outer binding.
    pub fn set_var_inner(&mut self, name: String)
        requires
            old(self).wf(),
        ensures
            final(self).wf(),
            Self::unchanged_but_scopes(*old(self), *final(self)),
            final(self).frames() == bind_innermost(
                after_pop(old(self).frames()),
                name@,
                popped_val(old(self).frames()),
            ),
    {
        let popped = self.pop();
        let v = match popped {
            Option::Some(x) => x,
            Option::None => Value::Nil,
        };
        let ghost fs = self.frames();
        let last = self.scopes.len() - 1;
        frame_put_exec(&mut self.scopes[last].callframe, name, v);
        proof {
            assert(self.frames() =~~= bind_innermost(fs, name@, val_view(v)));
        }
    }
}

/// Truncating division as the machine computes it; the one overflowing
/// quotient wraps.
pub open spec fn div64(l: i64, r: i64) -> i64 {
    match l.checked_div(r) {
        Option::Some(q) => q,
        Option::None => i64::MIN,
    }
}

/// Truncating remainder as the machine computes it; the one overflowing
/// case yields zero.
pub open spec fn rem64(l: i64, r: i64) -> i64 {
    match l.checked_rem(r) {
        Option::Some(q) => q,
        Option::None => 0i64,
    }
}

/// What a binary opcode produces from its left and right operands, or the
/// failure it dies with.  Arithmetic and ordering demand two numbers;
/// logical operators two booleans; division and remainder die on a zero
/// right operand; equality and inequality never fail, and compare across
/// kinds as plain false / true.
pub open spec fn binop_result(op: crate::token::TokenType, l: ValueV, r: ValueV) -> Result<
    ValueV,
    ErrorKind,
> {
    match op {
        crate::token::TokenType::Plus => match (l, r) {
            (ValueV::Number(x), ValueV::Number(y)) => Result::Ok(ValueV::Number(x.wrapping_add(y))),
            _ => Result::Err(ErrorKind::TypeMismatch),
        },
        crate::token::TokenType::Minus => match (l, r) {
            (ValueV::Number(x), ValueV::Number(y)) => Result::Ok(ValueV::Number(x.wrapping_sub(y))),
            _ => Result::Err(ErrorKind::TypeMismatch),
        },
        crate::token::TokenType::Star => match (l, r) {
            (ValueV::Number(x), ValueV::Number(y)) => Result::Ok(ValueV::Number(x.wrapping_mul(y))),
            _ => Result::Err(ErrorKind::TypeMismatch),
        },
        crate::token::TokenType::Slash => match (l, r) {
            (ValueV::Number(x), ValueV::Number(y)) => if y == 0 {
                Result::Err(ErrorKind::DivisionByZero)
            } else {
                Result::Ok(ValueV::Number(div64(x, y)))
            },
            _ => Result::Err(ErrorKind::TypeMismatch),
        },
        crate::token::TokenType::Modulo => match (l, r) {
            (ValueV::Number(x), ValueV::Number(y)) => if y == 0 {
                Result::Err(ErrorKind::DivisionByZero)
            } else {
                Result::Ok(ValueV::Number(rem64(x, y)))
            },
            _ => Result::Err(ErrorKind::TypeMismatch),
        },
        crate::token::TokenType::EqualEqual => Result::Ok(ValueV::Bool(values_equal(l, r))),
        crate::token::TokenType::BangEqual => Result::Ok(ValueV::Bool(!values_equal(l, r))),
        crate::token::TokenType::Less => match (l, r) {
            (ValueV::Number(x), ValueV::Number(y)) => Result::Ok(ValueV::Bool(x < y)),
            _ => Result::Err(ErrorKind::TypeMismatch),
        },
        crate::token::TokenType::LessEqual => match (l, r) {
            (ValueV::Number(x), ValueV::Number(y)) => Result::Ok(ValueV::Bool(x <= y)),
            _ => Result::Err(ErrorKind::TypeMismatch),
        },
        crate::token::TokenType::Greater => match (l, r) {
            (ValueV::Number(x), ValueV::Number(y)) => Result::Ok(ValueV::Bool(x > y)),
            _ => Result::Err(ErrorKind::TypeMismatch),
        },
        crate::token::TokenType::GreaterEqual => match (l, r) {
            (ValueV::Number(x), ValueV::Number(y)) => Result::Ok(ValueV::Bool(x >= y)),
            _ => Result::Err(ErrorKind::TypeMismatch),
        },
        crate::token::TokenType::And => match (l, r) {
            (ValueV::Bool(x), ValueV::Bool(y)) => Result::Ok(ValueV::Bool(x && y)),
            _ => Result::Err(ErrorKind::TypeMismatch),
        },
        crate::token::TokenType::Or => match (l, r) {
            (ValueV::Bool(x), ValueV::Bool(y)) => Result::Ok(ValueV::Bool(x || y)),
            _ => Result::Err(ErrorKind::TypeMismatch),
        },
        _ => Result::Err(ErrorKind::TypeMismatch),
    }
}

/// What a unary opcode produces, or the failure it dies with.
pub open spec fn unop_result(op: crate::token::TokenType, v: ValueV) -> Result<ValueV, ErrorKind> {
    match op {
        crate::token::TokenType::Bang => match v {
            ValueV::Bool(b) => Result::Ok(ValueV::Bool(!b)),
            _ => Result::Err(ErrorKind::TypeMismatch),
        },
        crate::token::TokenType::Minus => match v {
            ValueV::Number(x) => Result::Ok(ValueV::Number((0i64).wrapping_sub(x))),
            _ => Result::Err(ErrorKind::TypeMismatch),
        },
        _ => Result::Err(ErrorKind::TypeMismatch),
    }
}

/// Drop the top `n` values of the innermost operand stack.
pub open spec fn pop_n(fs: Seq<ScopeV>, n: int) -> Seq<ScopeV> {
    let k = fs.len() - 1;
    fs.update(k, ScopeV { frame: fs[k].frame, stack: fs[k].stack.take(fs[k].stack.len() - n) })
}

/// The materialized range: the values from `lo` (clamped below at the
/// start bound) going up by `step`, strictly below `hi`.
pub open spec fn range_seq(lo: int, hi: int, step: int) -> Seq<ValueV>
    decreases (if lo <= hi { hi - lo } else { 0 }),
        when step >= 1
{
    if lo >= hi || step < 1 {
        Seq::empty()
    } else {
        seq![ValueV::Number(#[verifier::truncate] (lo as i64))] + range_seq(lo + step, hi, step)
    }
}

/// Push a value on the operand stack of frame `k`.
pub open spec fn push_at(fs: Seq<ScopeV>, k: int, v: ValueV) -> Seq<ScopeV> {
    fs.update(k, ScopeV { frame: fs[k].frame, stack: fs[k].stack.push(v) })
}

/// Clamp a bound below at zero, as range materialization does.
pub open spec fn clamp0(x: int) -> int {
    if x < 0 {
        0
    } else {
        x
    }
}

/// The protocol the for-loop marker leaves behind after popping a list:
/// a fresh innermost frame carrying a done flag and the element for this
/// pass, and—when a pass is coming—the remaining tail stored on the frame
/// below the fresh one for the next round.
pub open spec fn for_loop_frames(fs1: Seq<ScopeV>, items: Seq<ValueV>) -> Seq<ScopeV> {
    if items.len() == 0 {
        push_top(push_top(fs1.push(empty_scope()), ValueV::Bool(true)), ValueV::Nil)
    } else {
        let with_new = push_top(
            push_top(fs1.push(empty_scope()), ValueV::Bool(false)),
            items[0],
        );
        push_at(with_new, with_new.len() - 2, ValueV::List(items.drop_first()))
    }
}

/// Balanced brace groups of the text, carrying the open depth: `{` opens,
/// a matching `}` at depth one completes one group.
pub open spec fn cb(s: Seq<char>, depth: int) -> nat
    decreases s.len(),
{
    if s.len() == 0 {
        0
    } else {
        let c = s[0];
        if c == '{' {
            cb(s.drop_first(), depth + 1)
        } else if c == '}' && depth > 0 {
            if depth == 1 {
                (1 + cb(s.drop_first(), 0)) as nat
            } else {
                cb(s.drop_first(), depth - 1)
            }
        } else {
            cb(s.drop_first(), depth)
        }
    }
}

/// How many values a print instruction consumes for the text.
pub open spec fn brace_count(s: Seq<char>) -> nat {
    cb(s, 0)
}

/// The position of the last `{}` occurrence, or -1 when there is none.
pub open spec fn rfind_pair(s: Seq<char>) -> int
    decreases s.len(),
{
    if s.len() < 2 {
        -1
    } else if s[s.len() - 2] == '{' && s[s.len() - 1] == '}' {
        s.len() - 2
    } else {
        rfind_pair(s.drop_last())
    }
}

/// The text with its last `{}` occurrence replaced, or the text itself
/// when it has none.
pub open spec fn replace_last(s: Seq<char>, repl: Seq<char>) -> Seq<char> {
    let i = rfind_pair(s);
    if i < 0 {
        s
    } else {
        s.take(i) + repl + s.skip(i + 2)
    }
}

/// The printed line: the values substituted into the text one by one, each
/// rendered and put into the last remaining `{}` occurrence, consuming the
/// sequence from its end (the top of the stack) first.
pub open spec fn interp(text: Seq<char>, vals: Seq<ValueV>) -> Seq<char>
    decreases vals.len(),
{
    if vals.len() == 0 {
        text
    } else {
        interp(
            replace_last(text, crate::render::render_view(vals.last())),
            vals.drop_last(),
        )
    }
}

/// The end of the run of store instructions beginning at `i`.
pub open spec fn store_run(ops: Seq<crate::opcode::OpCodeV>, i: int) -> int
    decreases ops.len() - i,
        when 0 <= i <= ops.len()
{
    if i >= ops.len() {
        i
    } else if ops[i] is Store {
        store_run(ops, i + 1)
    } else {
        i
    }
}

/// The position of the scope-close matching `depth` opens, scanning from
/// `i`; the code length when there is none.
pub open spec fn scope_end(ops: Seq<crate::opcode::OpCodeV>, i: int, depth: int) -> int
    decreases ops.len() - i,
        when 0 <= i <= ops.len()
{
    if i >= ops.len() {
        ops.len() as int
    } else if ops[i] is EndScope {
        if depth <= 1 {
            i
        } else {
            scope_end(ops, i + 1, depth - 1)
        }
    } else if ops[i] is Scope {
        scope_end(ops, i + 1, depth + 1)
    } else {
        scope_end(ops, i + 1, depth)
    }
}

/// The position of the first end-of-function sentinel at or after `i`;
/// the code length when there is none.
pub open spec fn endfn_pos(ops: Seq<crate::opcode::OpCodeV>, i: int) -> int
    decreases ops.len() - i,
        when 0 <= i <= ops.len()
{
    if i >= ops.len() {
        ops.len() as int
    } else if ops[i] is EndFn {
        i
    } else {
        endfn_pos(ops, i + 1)
    }
}

/// Scope-close minus scope-open occurrences over `[from, to)`.
pub open spec fn bal(ops: Seq<crate::opcode::OpCodeV>, from: int, to: int) -> int
    decreases to - from,
{
    if from >= to {
        0
    } else {
        (if 0 <= from < ops.len() {
            if ops[from] is EndScope {
                1int
            } else if ops[from] is Scope {
                -1int
            } else {
                0int
            }
        } else {
            0int
        }) + bal(ops, from + 1, to)
    }
}

/// The name a store instruction carries.
pub open spec fn op_store_name(op: crate::opcode::OpCodeV) -> Seq<char> {
    match op {
        crate::opcode::OpCodeV::Store(n) => n,
        _ => Seq::empty(),
    }
}

/// The names of a run of store instructions.
pub open spec fn param_names(ops: Seq<crate::opcode::OpCodeV>, a: int, b: int) -> Seq<Seq<char>> {
    Seq::new(if a <= b { (b - a) as nat } else { 0 }, |i: int| op_store_name(ops[a + i]))
}

/// The position of the function with this name, or the table length.
pub open spec fn fn_idx(fs: Seq<FnV>, n: Seq<char>) -> int
    decreases fs.len(),
{
    if fs.len() == 0 {
        0
    } else if fs[0].name == n {
        0
    } else {
        1 + fn_idx(fs.drop_first(), n)
    }
}

/// The stored function with this name, if any.
pub open spec fn fn_lookup(fs: Seq<FnV>, n: Seq<char>) -> Option<FnV> {
    if fn_idx(fs, n) < fs.len() {
        Option::Some(fs[fn_idx(fs, n)])
    } else {
        Option::None
    }
}

/// Define or redefine a function: an existing entry of the same name is
/// overwritten, a new name is appended.
pub open spec fn fn_put(fs: Seq<FnV>, f: FnV) -> Seq<FnV> {
    if fn_idx(fs, f.name) < fs.len() {
        fs.update(fn_idx(fs, f.name), f)
    } else {
        fs.push(f)
    }
}

/// The earliest entry decides a name's lookup and its overwrite.
pub proof fn lemma_fn_idx(fs: Seq<FnV>, n: Seq<char>)
    ensures
        0 <= fn_idx(fs, n) <= fs.len(),
        fn_idx(fs, n) < fs.len() ==> fs[fn_idx(fs, n)].name == n,
        forall|j: int| 0 <= j < fn_idx(fs, n) ==> fs[j].name != n,
    decreases fs.len(),
{
    if fs.len() > 0 && fs[0].name != n {
        lemma_fn_idx(fs.drop_first(), n);
        assert forall|j: int| 0 <= j < fn_idx(fs, n) implies fs[j].name != n by {
            if j > 0 {
                assert(fs.drop_first()[j - 1] == fs[j]);
            }
        }
        if fn_idx(fs, n) < fs.len() {
            assert(fs.drop_first()[fn_idx(fs, n) - 1] == fs[fn_idx(fs, n)]);
        }
    }
}

/// Extending the scanned region by one position adds that position's
/// contribution.
pub proof fn lemma_bal_snoc(ops: Seq<crate::opcode::OpCodeV>, a: int, b: int)
    requires
        a <= b,
    ensures
        bal(ops, a, b + 1) == bal(ops, a, b) + (if 0 <= b < ops.len() {
            if ops[b] is EndScope {
                1int
            } else if ops[b] is Scope {
                -1int
            } else {
                0int
            }
        } else {
            0int
        }),
    decreases b - a,
{
    if a < b {
        lemma_bal_snoc(ops, a + 1, b);
    } else {
        reveal_with_fuel(bal, 2);
    }
}

/// The balance is bounded by the region's width.
pub proof fn lemma_bal_bound(ops: Seq<crate::opcode::OpCodeV>, a: int, b: int)
    ensures
        -(if b - a > 0 {
            b - a
        } else {
            0
        }) <= bal(ops, a, b) <= (if b - a > 0 {
            b - a
        } else {
            0
        }),
    decreases b - a,
{
    if a < b {
        lemma_bal_bound(ops, a + 1, b);
    }
}

/// The position of the first native declaration with this name, or the
/// table length.
pub open spec fn native_idx(ns: Seq<(Seq<char>, usize)>, n: Seq<char>) -> int
    decreases ns.len(),
{
    if ns.len() == 0 {
        0
    } else if ns[0].0 == n {
        0
    } else {
        1 + native_idx(ns.drop_first(), n)
    }
}

/// The earliest declaration decides a native name.
pub proof fn lemma_native_idx(ns: Seq<(Seq<char>, usize)>, n: Seq<char>)
    ensures
        0 <= native_idx(ns, n) <= ns.len(),
        native_idx(ns, n) < ns.len() ==> ns[native_idx(ns, n)].0 == n,
        forall|j: int| 0 <= j < native_idx(ns, n) ==> ns[j].0 != n,
    decreases ns.len(),
{
    if ns.len() > 0 && ns[0].0 != n {
        lemma_native_idx(ns.drop_first(), n);
        assert forall|j: int| 0 <= j < native_idx(ns, n) implies ns[j].0 != n by {
            if j > 0 {
                assert(ns.drop_first()[j - 1] == ns[j]);
            }
        }
        if native_idx(ns, n) < ns.len() {
            assert(ns.drop_first()[native_idx(ns, n) - 1] == ns[native_idx(ns, n)]);
        }
    }
}

/// What one dispatch step came to: the instruction ran, the machine died
/// with a diagnostic, or a native call waits for the host to answer
/// through `resume_native`.
pub enum StepEvent {
    Ran,
    Stopped(Fault),
    AwaitNative { name: String, args: Vec<Value> },
}

/// What a bounded run came to: the program ran off the end of its code and
/// is done; it died with a diagnostic; a native call waits for the host;
/// or the step budget ran out with work left (run again to go on).
pub enum Outcome {
    Finished,
    Stopped(Fault),
    AwaitNative { name: String, args: Vec<Value> },
    StepLimit,
}

/// The operator token a binary opcode dispatches on.
pub open spec fn binop_token(op: crate::opcode::OpCodeV) -> crate::token::TokenType {
    match op {
        crate::opcode::OpCodeV::Add => crate::token::TokenType::Plus,
        crate::opcode::OpCodeV::Subtract => crate::token::TokenType::Minus,
        crate::opcode::OpCodeV::Multiply => crate::token::TokenType::Star,
        crate::opcode::OpCodeV::Divide => crate::token::TokenType::Slash,
        crate::opcode::OpCodeV::Modulo => crate::token::TokenType::Modulo,
        crate::opcode::OpCodeV::EqualEqual => crate::token::TokenType::EqualEqual,
        crate::opcode::OpCodeV::NotEqual => crate::token::TokenType::BangEqual,
        crate::opcode::OpCodeV::Less => crate::token::TokenType::Less,
        crate::opcode::OpCodeV::LessEqual => crate::token::TokenType::LessEqual,
        crate::opcode::OpCodeV::Greater => crate::token::TokenType::Greater,
        crate::opcode::OpCodeV::GreaterEqual => crate::token::TokenType::GreaterEqual,
        crate::opcode::OpCodeV::LogicalAnd => crate::token::TokenType::And,
        crate::opcode::OpCodeV::LogicalOr => crate::token::TokenType::Or,
        _ => crate::token::TokenType::Eof,
    }
}

/// Whether an opcode is one of the binary operators.
pub open spec fn is_binop_opcode(op: crate::opcode::OpCodeV) -> bool {
    crate::compiler::is_binary_op(binop_token(op))
}

/// Whether an instruction is a store, without looking at its name.
fn op_is_store(op: &crate::opcode::OpCode) -> (b: bool)
    ensures
        b == (crate::opcode::op_view(*op) is Store),
{
    match op {
        crate::opcode::OpCode::Store(x) => true,
        _ => false,
    }
}

/// Whether an instruction is the end-of-function sentinel.
fn op_is_endfn(op: &crate::opcode::OpCode) -> (b: bool)
    ensures
        b == (crate::opcode::op_view(*op) is EndFn),
{
    match op {
        crate::opcode::OpCode::EndFn => true,
        _ => false,
    }
}

/// The frame a function call binds: each parameter, in declared order,
/// takes the argument at its own position; the bindings are written from
/// the last parameter to the first.
pub open spec fn bind_params(
    fr: Seq<(Seq<char>, ValueV)>,
    params: Seq<Seq<char>>,
    args: Seq<ValueV>,
    i: int,
) -> Seq<(Seq<char>, ValueV)>
    decreases i + 1,
{
    if i < 0 {
        fr
    } else {
        bind_params(frame_put(fr, params[i], args[i]), params, args, i - 1)
    }
}

/// With distinct parameter names, every parameter reads back as the
/// argument at its own position, whatever order the push site used.
pub proof fn lemma_params_bound_in_order(
    fr: Seq<(Seq<char>, ValueV)>,
    params: Seq<Seq<char>>,
    args: Seq<ValueV>,
    i: int,
    j: int,
)
    requires
        0 <= j < params.len(),
        j <= i < params.len(),
        args.len() == params.len(),
        forall|a: int, b: int|
            0 <= a < params.len() && 0 <= b < params.len() && a != b ==> params[a] != params[b],
    ensures
        frame_get(bind_params(fr, params, args, i), params[j]) == Option::Some(args[j]),
    decreases i + 1,
{
    if i == j {
        lemma_frame_put_get(fr, params[i], args[i]);
        lemma_bind_params_other(frame_put(fr, params[i], args[i]), params, args, i - 1, params[j]);
    } else {
        lemma_params_bound_in_order(frame_put(fr, params[i], args[i]), params, args, i - 1, j);
    }
}

/// Binding parameters leaves every other name's answer alone.
pub proof fn lemma_bind_params_other(
    fr: Seq<(Seq<char>, ValueV)>,
    params: Seq<Seq<char>>,
    args: Seq<ValueV>,
    i: int,
    m: Seq<char>,
)
    requires
        i < params.len(),
        forall|a: int| 0 <= a <= i ==> params[a] != m,
    ensures
        frame_get(bind_params(fr, params, args, i), m) == frame_get(fr, m),
    decreases i + 1,
{
    if i >= 0 {
        lemma_frame_put_get(fr, params[i], args[i]);
        lemma_bind_params_other(frame_put(fr, params[i], args[i]), params, args, i - 1, m);
    }
}

impl<'a> VM<'a> {
    /// Execute one binary opcode: pop the right operand, then the left, and
    /// push what the operator yields.  A failing operator pops both
    /// operands and pushes nothing.
    pub fn bin_op(&mut self, operation: crate::token::TokenType) -> (r: Option<Fault>)
        requires
            old(self).wf(),
            crate::compiler::is_binary_op(operation),
        ensures
            final(self).wf(),
            Self::unchanged_but_scopes(*old(self), *final(self)),
            top_stack(old(self).frames()).len() < 2 ==> r is Some && r.unwrap().kind
                == ErrorKind::StackUnderflow && final(self).frames() == old(self).frames(),
            top_stack(old(self).frames()).len() >= 2 ==> (match binop_result(
                operation,
                top_stack(old(self).frames())[top_stack(old(self).frames()).len() - 2],
                top_stack(old(self).frames()).last(),
            ) {
                Result::Ok(v) => r is None && final(self).frames() == push_top(
                    pop_n(old(self).frames(), 2),
                    v,
                ),
                Result::Err(k) => r is Some && r.unwrap().kind == k && final(self).frames()
                    == pop_n(old(self).frames(), 2),
            }),
    {
        let k = self.scopes.len() - 1;
        if self.scopes[k].stack.len() < 2 {
            return Option::Some(
                self.fault(
                    ErrorKind::StackUnderflow,
                    String::from_str("the operand stack holds too few values"),
                ),
            );
        }
        let ghost fs0 = self.frames();
        let right = match self.pop() {
            Option::Some(x) => x,
            Option::None => Value::Nil,
        };
        let left = match self.pop() {
            Option::Some(x) => x,
            Option::None => Value::Nil,
        };
        proof {
            assert(self.frames() =~~= pop_n(fs0, 2));
        }
        let outcome: Result<Value, (ErrorKind, &'static str)> = match operation {
            crate::token::TokenType::Plus => match (&left, &right) {
                (Value::Number(x), Value::Number(y)) => Result::Ok(Value::Number(x.wrapping_add(*y))),
                _ => Result::Err((ErrorKind::TypeMismatch, "can only add numbers")),
            },
            crate::token::TokenType::Minus => match (&left, &right) {
                (Value::Number(x), Value::Number(y)) => Result::Ok(Value::Number(x.wrapping_sub(*y))),
                _ => Result::Err((ErrorKind::TypeMismatch, "can only subtract numbers")),
            },
            crate::token::TokenType::Star => match (&left, &right) {
                (Value::Number(x), Value::Number(y)) => Result::Ok(Value::Number(x.wrapping_mul(*y))),
                _ => Result::Err((ErrorKind::TypeMismatch, "can only multiply numbers")),
            },
            crate::token::TokenType::Slash => match (&left, &right) {
                (Value::Number(x), Value::Number(y)) => {
                    if *y == 0 {
                        Result::Err((ErrorKind::DivisionByZero, "division by zero"))
                    } else {
                        let q = match x.checked_div(*y) {
                            Option::Some(q) => q,
                            Option::None => i64::MIN,
                        };
                        Result::Ok(Value::Number(q))
                    }
                }
                _ => Result::Err((ErrorKind::TypeMismatch, "can only divide numbers")),
            },
            crate::token::TokenType::Modulo => match (&left, &right) {
                (Value::Number(x), Value::Number(y)) => {
                    if *y == 0 {
                        Result::Err((ErrorKind::DivisionByZero, "no modulo by zero"))
                    } else {
                        let q = match x.checked_rem(*y) {
                            Option::Some(q) => q,
                            Option::None => 0i64,
                        };
                        Result::Ok(Value::Number(q))
                    }
                }
                _ => Result::Err((ErrorKind::TypeMismatch, "can only take the modulo of numbers")),
            },
            crate::token::TokenType::EqualEqual => Result::Ok(
                Value::Bool(Self::equal_values(&left, &right)),
            ),
            crate::token::TokenType::BangEqual => Result::Ok(
                Value::Bool(!Self::equal_values(&left, &right)),
            ),
            crate::token::TokenType::Less => match (&left, &right) {
                (Value::Number(x), Value::Number(y)) => Result::Ok(Value::Bool(*x < *y)),
                _ => Result::Err((ErrorKind::TypeMismatch, "can only compare numbers")),
            },
            crate::token::TokenType::LessEqual => match (&left, &right) {
                (Value::Number(x), Value::Number(y)) => Result::Ok(Value::Bool(*x <= *y)),
                _ => Result::Err((ErrorKind::TypeMismatch, "can only compare numbers")),
            },
            crate::token::TokenType::Greater => match (&left, &right) {
                (Value::Number(x), Value::Number(y)) => Result::Ok(Value::Bool(*x > *y)),
                _ => Result::Err((ErrorKind::TypeMismatch, "can only compare numbers")),
            },
            crate::token::TokenType::GreaterEqual => match (&left, &right) {
                (Value::Number(x), Value::Number(y)) => Result::Ok(Value::Bool(*x >= *y)),
                _ => Result::Err((ErrorKind::TypeMismatch, "can only compare numbers")),
            },
            crate::token::TokenType::And => match (&left, &right) {
                (Value::Bool(x), Value::Bool(y)) => Result::Ok(Value::Bool(*x && *y)),
                _ => Result::Err((ErrorKind::TypeMismatch, "can only AND boolean values")),
            },
            _ => match (&left, &right) {
                (Value::Bool(x), Value::Bool(y)) => Result::Ok(Value::Bool(*x || *y)),
                _ => Result::Err((ErrorKind::TypeMismatch, "can only OR boolean values")),
            },
        };
        match outcome {
            Result::Ok(v) => {
                self.push(v);
                Option::None
            }
            Result::Err((kind, msg)) => Option::Some(self.fault(kind, String::from_str(msg))),
        }
    }

    /// The language's `==`: within-kind comparison for numbers, booleans
    /// and strings; plain inequality across kinds.
    pub fn equal_values(a: &Value, b: &Value) -> (r: bool)
        ensures
            r == values_equal(val_view(*a), val_view(*b)),
    {
        match a {
            Value::Number(x) => match b {
                Value::Number(y) => *x == *y,
                _ => false,
            },
            Value::Bool(x) => match b {
                Value::Bool(y) => *x == *y,
                _ => false,
            },
            Value::Str { string: x, printables: px } => match b {
                Value::Str { string: y, printables: py } => *x == *y,
                _ => false,
            },
            _ => false,
        }
    }

    /// Execute a unary opcode: pop the operand, push what the operator
    /// yields.  A failing operator pops the operand and pushes nothing.
    pub fn un_op(&mut self, operation: crate::token::TokenType) -> (r: Option<Fault>)
        requires
            old(self).wf(),
            crate::compiler::is_unary_op(operation),
        ensures
            final(self).wf(),
            Self::unchanged_but_scopes(*old(self), *final(self)),
            top_stack(old(self).frames()).len() == 0 ==> r is Some && r.unwrap().kind
                == ErrorKind::StackUnderflow && final(self).frames() == old(self).frames(),
            top_stack(old(self).frames()).len() >= 1 ==> (match unop_result(
                operation,
                top_stack(old(self).frames()).last(),
            ) {
                Result::Ok(v) => r is None && final(self).frames() == push_top(
                    pop_top(old(self).frames()),
                    v,
                ),
                Result::Err(k) => r is Some && r.unwrap().kind == k && final(self).frames()
                    == pop_top(old(self).frames()),
            }),
    {
        let popped = match self.pop() {
            Option::Some(x) => x,
            Option::None => {
                return Option::Some(
                    self.fault(
                        ErrorKind::StackUnderflow,
                        String::from_str("the operand stack holds too few values"),
                    ),
                );
            }
        };
        match operation {
            crate::token::TokenType::Bang => match &popped {
                Value::Bool(b) => {
                    self.push(Value::Bool(!*b));
                    Option::None
                }
                _ => Option::Some(
                    self.fault(
                        ErrorKind::TypeMismatch,
                        String::from_str("can only use ! on booleans"),
                    ),
                ),
            },
            _ => match &popped {
                Value::Number(x) => {
                    self.push(Value::Number((0i64).wrapping_sub(*x)));
                    Option::None
                }
                _ => Option::Some(
                    self.fault(
                        ErrorKind::TypeMismatch,
                        String::from_str("can only negate numbers"),
                    ),
                ),
            },
        }
    }

    /// Materialize a range: pop the step (when one was compiled), the end
    /// bound and the start bound, and push the list of numbers from the
    /// start (clamped below at zero) up by the step to just below the end
    /// (clamped the same way).  A missing or non-numeric bound, or a step
    /// under one, is fatal and leaves the stacks untouched.
    pub fn range(&mut self, cstep: bool) -> (r: Option<Fault>)
        requires
            old(self).wf(),
        ensures
            final(self).wf(),
            Self::unchanged_but_scopes(*old(self), *final(self)),
            ({
                let ts = top_stack(old(self).frames());
                let need: int = if cstep { 3 } else { 2 };
                let ok = ts.len() >= need && (forall|j: int|
                    ts.len() - need <= j < ts.len() ==> #[trigger] ts[j] is Number) && (cstep
                    ==> ts.last()->Number_0 >= 1);
                if !ok {
                    r is Some && r.unwrap().kind == ErrorKind::TypeMismatch && final(self).frames()
                        == old(self).frames()
                } else {
                    let step: int = if cstep {
                        ts.last()->Number_0 as int
                    } else {
                        1
                    };
                    let hi = ts[ts.len() - need + 1]->Number_0 as int;
                    let lo = ts[ts.len() - need]->Number_0 as int;
                    r is None && final(self).frames() == push_top(
                        pop_n(old(self).frames(), need),
                        ValueV::List(range_seq(clamp0(lo), clamp0(hi), step)),
                    )
                }
            }),
    {
        let k = self.scopes.len() - 1;
        let n = self.scopes[k].stack.len();
        let need: usize = if cstep { 3 } else { 2 };
        if n < need {
            return Option::Some(
                self.fault(
                    ErrorKind::TypeMismatch,
                    String::from_str("the range bounds must be numbers"),
                ),
            );
        }
        let step: i64 = if cstep {
            match &self.scopes[k].stack[n - 1] {
                Value::Number(s) => *s,
                _ => {
                    return Option::Some(
                        self.fault(
                            ErrorKind::TypeMismatch,
                            String::from_str("the range step is not a number"),
                        ),
                    );
                }
            }
        } else {
            1
        };
        let hi: i64 = match &self.scopes[k].stack[n - need + 1] {
            Value::Number(v) => *v,
            _ => {
                return Option::Some(
                    self.fault(
                        ErrorKind::TypeMismatch,
                        String::from_str("the range end is not a number"),
                    ),
                );
            }
        };
        let lo: i64 = match &self.scopes[k].stack[n - need] {
            Value::Number(v) => *v,
            _ => {
                return Option::Some(
                    self.fault(
                        ErrorKind::TypeMismatch,
                        String::from_str("the range start is not a number"),
                    ),
                );
            }
        };
        if cstep && step < 1 {
            return Option::Some(
                self.fault(
                    ErrorKind::TypeMismatch,
                    String::from_str("the range step must be positive"),
                ),
            );
        }
        let ghost fs0 = self.frames();
        self.scopes[k].stack.truncate(n - need);
        proof {
            assert(self.frames() =~~= pop_n(fs0, need as int));
        }
        let lo_c: i64 = if lo < 0 { 0 } else { lo };
        let hi_c: i64 = if hi < 0 { 0 } else { hi };
        let ghost goal = range_seq(lo_c as int, hi_c as int, step as int);
        let mut items: Vec<Value> = Vec::new();
        let mut cur: i64 = lo_c;
        loop
            invariant_except_break
                step >= 1,
                vals_view_seq(items@) + range_seq(cur as int, hi_c as int, step as int) =~= goal,
            ensures
                vals_view_seq(items@) =~= goal,
            decreases (if cur <= hi_c { hi_c - cur } else { 0 }),
        {
            if cur >= hi_c {
                proof {
                    assert(vals_view_seq(items@) =~= goal);
                }
                break ;
            }
            let ghost before = items@;
            items.push(Value::Number(cur));
            proof {
                assert(vals_view_seq(items@) =~= vals_view_seq(before).push(ValueV::Number(cur)));
                assert(range_seq(cur as int, hi_c as int, step as int) =~= seq![
                    ValueV::Number(cur),
                ] + range_seq(cur as int + step as int, hi_c as int, step as int));
            }
            match cur.checked_add(step) {
                Option::Some(nx) => {
                    cur = nx;
                }
                Option::None => {
                    proof {
                        assert(cur as int + step as int > i64::MAX);
                        assert(range_seq(cur as int + step as int, hi_c as int, step as int)
                            =~= Seq::<ValueV>::empty());
                        assert(vals_view_seq(items@) =~= goal);
                    }
                    break ;
                }
            }
        }
        proof {
            broadcast use lemma_vals_view;

            assert(vals_view(items@) =~= vals_view_seq(items@));
            assert(val_view(Value::List(items)) == ValueV::List(vals_view(items@)));
        }
        self.push(Value::List(items));
        Option::None
    }

    /// Materialize a list literal: pop the compiled element count and push
    /// them back as one list in source order.  Too few values is fatal and
    /// leaves the stacks untouched.
    #[verifier::loop_isolation(false)]
    pub fn iterable(&mut self, n: usize) -> (r: Option<Fault>)
        requires
            old(self).wf(),
        ensures
            final(self).wf(),
            Self::unchanged_but_scopes(*old(self), *final(self)),
            top_stack(old(self).frames()).len() < n ==> r is Some && r.unwrap().kind
                == ErrorKind::StackUnderflow && final(self).frames() == old(self).frames(),
            top_stack(old(self).frames()).len() >= n ==> r is None && final(self).frames()
                == push_top(
                pop_n(old(self).frames(), n as int),
                ValueV::List(
                    top_stack(old(self).frames()).skip(
                        top_stack(old(self).frames()).len() - n as int,
                    ),
                ),
            ),
    {
        let k = self.scopes.len() - 1;
        let len = self.scopes[k].stack.len();
        if len < n {
            return Option::Some(
                self.fault(
                    ErrorKind::StackUnderflow,
                    String::from_str("the operand stack holds too few values"),
                ),
            );
        }
        let base = len - n;
        let mut items: Vec<Value> = Vec::new();
        let mut i: usize = 0;
        while i < n
            invariant
                0 <= i <= n,
                items@.len() == i,
                forall|j: int|
                    0 <= j < i ==> val_view(items@[j]) == val_view(
                        self.scopes@[k as int].stack@[base + j],
                    ),
            decreases n - i,
        {
            items.push(self.scopes[k].stack[base + i].duplicate());
            i = i + 1;
        }
        let ghost fs0 = self.frames();
        self.scopes[k].stack.truncate(base);
        proof {
            broadcast use lemma_vals_view;

            assert(self.frames() =~~= pop_n(fs0, n as int));
            assert(vals_view_seq(items@) =~= top_stack(fs0).skip(top_stack(fs0).len() - n as int));
            assert(vals_view(items@) =~= vals_view_seq(items@));
        }
        self.push(Value::List(items));
        Option::None
    }

    /// Execute the for-loop marker: pop the iterable (a list), open a fresh
    /// frame, and leave the iteration protocol behind: a done flag and the
    /// element for this pass on the fresh frame, and—when an element was
    /// there—the remaining tail on the frame below it.  The instruction
    /// pointer skips the scope marker that follows.  A missing or non-list
    /// iterable is fatal.
    pub fn for_loop(&mut self) -> (r: Option<Fault>)
        requires
            old(self).wf(),
            old(self).index < old(self).chunk.code@.len(),
        ensures
            final(self).wf(),
            final(self).chunk == old(self).chunk && final(self).filename == old(self).filename
                && final(self).functions == old(self).functions && final(self).natives == old(self).natives && final(self).output == old(self).output,
            ({
                let ts = top_stack(old(self).frames());
                if ts.len() == 0 || !(ts.last() is List) {
                    r is Some && r.unwrap().kind == ErrorKind::TypeMismatch && final(self).index
                        == old(self).index && final(self).frames() == (if ts.len() == 0 {
                        old(self).frames()
                    } else {
                        pop_top(old(self).frames())
                    })
                } else {
                    r is None && final(self).index == old(self).index + 1 && final(self).frames()
                        == for_loop_frames(pop_top(old(self).frames()), ts.last()->List_0)
                }
            }),
    {
        let popped = match self.pop() {
            Option::Some(x) => x,
            Option::None => {
                return Option::Some(
                    self.fault(
                        ErrorKind::TypeMismatch,
                        String::from_str("the loop iterable is not a list"),
                    ),
                );
            }
        };
        let mut items = match popped {
            Value::List(v) => v,
            _ => {
                return Option::Some(
                    self.fault(
                        ErrorKind::TypeMismatch,
                        String::from_str("the loop iterable is not a list"),
                    ),
                );
            }
        };
        let clen = self.chunk.code.len();
        proof {
            assert(self.index < clen);
        }
        self.index = self.index + 1;
        self.create_inner();
        let ghost items0 = items@;
        if items.len() == 0 {
            self.push(Value::Bool(true));
            self.push(Value::Nil);
            proof {
                assert(self.frames() =~~= for_loop_frames(
                    pop_top(old(self).frames()),
                    top_stack(old(self).frames()).last()->List_0,
                ));
            }
        } else {
            let first = items.remove(0);
            proof {
                broadcast use lemma_vals_view;

                assert(items@ =~= items0.drop_first());
                assert(vals_view(items@) =~= vals_view(items0).drop_first());
                assert(val_view(first) == vals_view(items0)[0]);
            }
            self.push(Value::Bool(false));
            self.push(first);
            let k2 = self.scopes.len() - 2;
            let ghost fs_mid = self.frames();
            self.scopes[k2].stack.push(Value::List(items));
            proof {
                broadcast use lemma_vals_view;

                assert(self.frames() =~~= push_at(
                    fs_mid,
                    k2 as int,
                    ValueV::List(top_stack(old(self).frames()).last()->List_0.drop_first()),
                ));
                assert(self.frames() =~~= for_loop_frames(
                    pop_top(old(self).frames()),
                    top_stack(old(self).frames()).last()->List_0,
                ));
            }
        }
        Option::None
    }

    /// Count the balanced brace groups of the text: the interpolation
    /// placeholders a print instruction consumes one value for each of.
    pub fn count_braces(&self, string: &str) -> (count: usize)
        ensures
            count == brace_count(string@),
    {
        let len = string.unicode_len();
        let mut count: usize = 0;
        let mut depth: usize = 0;
        let mut i: usize = 0;
        proof {
            assert(string@.skip(0) =~= string@);
        }
        while i < len
            invariant
                0 <= i <= len,
                len == string@.len(),
                count <= i,
                depth <= i,
                brace_count(string@) == count + cb(string@.skip(i as int), depth as int),
            decreases len - i,
        {
            let c = string.get_char(i);
            proof {
                assert(string@.skip(i as int)[0] == string@[i as int]);
                assert(string@.skip(i as int).drop_first() =~= string@.skip(i + 1));
            }
            if c == '{' {
                depth = depth + 1;
            } else if c == '}' {
                if depth > 0 {
                    if depth == 1 {
                        count = count + 1;
                    }
                    depth = depth - 1;
                }
            }
            i = i + 1;
        }
        proof {
            assert(string@.skip(len as int) =~= Seq::<char>::empty());
        }
        count
    }

    /// Substitute the replacement for the last `{}` occurrence of the text;
    /// a text without one comes back unchanged.
    pub fn replace_last_braces(&self, string: &str, replacement: &str) -> (r: String)
        ensures
            r@ == replace_last(string@, replacement@),
    {
        let len = string.unicode_len();
        if len < 2 {
            return String::from_str(string);
        }
        let mut i: usize = len - 1;
        proof {
            assert(string@.take((len - 1) + 1) =~= string@);
        }
        while i >= 1
            invariant
                0 <= i <= len - 1,
                len == string@.len(),
                rfind_pair(string@) == rfind_pair(string@.take(i + 1)),
            decreases i,
        {
            let a = string.get_char(i - 1);
            let b = string.get_char(i);
            if a == '{' && b == '}' {
                proof {
                    assert(string@.take(i + 1)[i - 1] == string@[i - 1]);
                    assert(string@.take(i + 1)[i as int] == string@[i as int]);
                    assert(rfind_pair(string@.take(i + 1)) == i - 1);
                }
                let mut out = String::new();
                out.append(string.substring_char(0, i - 1));
                out.append(replacement);
                out.append(string.substring_char(i + 1, len));
                proof {
                    assert(out@ =~= replace_last(string@, replacement@));
                }
                return out;
            }
            proof {
                assert(string@.take(i + 1).drop_last() =~= string@.take(i as int));
                assert(string@.take(i + 1).last() == string@[i as int]);
                assert(string@.take(i + 1)[i - 1] == string@[i - 1]);
            }
            i = i - 1;
        }
        proof {
            assert(rfind_pair(string@.take(1)) == -1);
        }
        String::from_str(string)
    }

    /// Execute a print instruction: pop the literal text, pop one value per
    /// balanced brace group in it, substitute each popped value into the
    /// last remaining `{}` occurrence in turn (so the values read left to
    /// right on the printed line), and append the line to the output.  A
    /// missing or non-string literal, or too few values, is fatal and
    /// leaves stacks and output untouched.
    pub fn print(&mut self) -> (r: Option<Fault>)
        requires
            old(self).wf(),
        ensures
            final(self).wf(),
            final(self).chunk == old(self).chunk && final(self).index == old(self).index,
            final(self).filename == old(self).filename,
            final(self).functions == old(self).functions,
            final(self).natives == old(self).natives,
            ({
                let ts = top_stack(old(self).frames());
                if ts.len() == 0 || !(ts.last() is Str) {
                    r is Some && r.unwrap().kind == ErrorKind::TypeMismatch && final(self).frames()
                        == old(self).frames() && final(self).output == old(self).output
                } else {
                    let text = ts.last()->Str_0;
                    let k = brace_count(text);
                    if ts.len() - 1 < k {
                        r is Some && r.unwrap().kind == ErrorKind::StackUnderflow && final(self).frames() == old(self).frames() && final(self).output == old(self).output
                    } else {
                        r is None && final(self).frames() == pop_n(old(self).frames(), k + 1 as int)
                            && final(self).out_v() == old(self).out_v().push(
                            interp(text, ts.subrange(ts.len() - 1 - k, ts.len() - 1)),
                        )
                    }
                }
            }),
    {
        let ki = self.scopes.len() - 1;
        let n = self.scopes[ki].stack.len();
        if n == 0 {
            return Option::Some(
                self.fault(ErrorKind::TypeMismatch, String::from_str("print needs a string")),
            );
        }
        let text0: String = match &self.scopes[ki].stack[n - 1] {
            Value::Str { string, printables } => string.clone(),
            _ => {
                return Option::Some(
                    self.fault(ErrorKind::TypeMismatch, String::from_str("print needs a string")),
                );
            }
        };
        let count = self.count_braces(text0.as_str());
        if n - 1 < count {
            return Option::Some(
                self.fault(
                    ErrorKind::StackUnderflow,
                    String::from_str("the operand stack holds too few values"),
                ),
            );
        }
        let ghost fs0 = self.frames();
        let ghost seg = top_stack(fs0).subrange(n - 1 - count, n - 1);
        let base = self.pop();
        proof {
            assert(self.frames() =~~= pop_n(fs0, 1));
        }
        let mut text = text0;
        let mut j: usize = 0;
        proof {
            assert(seg.take(count as int) =~= seg);
        }
        while j < count
            invariant
                fs0 == old(self).frames(),
                fs0.len() >= 1,
                0 <= j <= count,
                n == top_stack(fs0).len(),
                count + 1 <= n,
                seg == top_stack(fs0).subrange(n - 1 - count, n - 1),
                self.wf(),
                Self::unchanged_but_scopes(*old(self), *self),
                self.frames() == pop_n(fs0, j + 1),
                interp(text@, seg.take(count - j)) == interp(text0@, seg),
            decreases count - j,
        {
            proof {
                assert(top_stack(pop_n(fs0, j + 1)) =~= top_stack(fs0).take(n - j - 1));
                assert(top_stack(self.frames()).last() == seg[count - j - 1]);
            }
            let v = match self.pop() {
                Option::Some(x) => x,
                Option::None => Value::Nil,
            };
            let rendered = crate::render::render_value(&v);
            text = self.replace_last_braces(text.as_str(), rendered.as_str());
            proof {
                assert(pop_top(pop_n(fs0, j + 1)) =~~= pop_n(fs0, j + 2));
                assert(self.frames() =~~= pop_n(fs0, j + 2));
                assert(seg.take(count - j).drop_last() =~= seg.take(count - j - 1));
                assert(seg.take(count - j).last() == seg[count - j - 1]);
            }
            j = j + 1;
        }
        proof {
            assert(seg.take(0) =~= Seq::<ValueV>::empty());
            assert(text@ == interp(text0@, seg));
        }
        self.output.push(text);
        proof {
            assert(self.out_v() =~= old(self).out_v().push(interp(text0@, seg)));
        }
        Option::None
    }

    /// Execute a function-definition marker.  The machine scans forward:
    /// a run of store instructions names the parameters; then the body,
    /// bracketed in scope markers (tracking nesting depth, since the body
    /// may hold blocks of its own); then one trailing store names the
    /// function.  The body is stored, not executed, and the instruction
    /// pointer lands on the trailing store.  Code not of this shape is
    /// fatal and changes nothing.
    #[verifier::rlimit(100)]
    pub fn function(&mut self) -> (r: Option<Fault>)
        requires
            old(self).wf(),
            old(self).index < old(self).chunk.code@.len(),
        ensures
            final(self).wf(),
            final(self).chunk == old(self).chunk,
            final(self).filename == old(self).filename,
            final(self).natives == old(self).natives,
            final(self).output == old(self).output,
            final(self).scopes == old(self).scopes,
            ({
                let ops = old(self).code_v();
                let len = ops.len() as int;
                let p = store_run(ops, old(self).index + 1);
                let e = if p + 1 <= len {
                    scope_end(ops, p + 1, 1)
                } else {
                    len
                };
                let ok = p < len && ops[p] is Scope && e < len && e + 1 < len && ops[e + 1] is Store;
                if ok {
                    r is None && final(self).index == e + 1 && fns_view(final(self).functions@)
                        == fn_put(
                        fns_view(old(self).functions@),
                        (FnV {
                            name: op_store_name(ops[e + 1]),
                            code: ops.subrange(p + 1, e),
                            params: param_names(ops, old(self).index + 1, p),
                        }),
                    )
                } else {
                    r is Some && r.unwrap().kind == ErrorKind::TypeMismatch && final(self).index
                        == old(self).index && final(self).functions == old(self).functions
                }
            }),
    {
        let ghost ops = self.code_v();
        let len = self.chunk.code.len();
        let start = self.index + 1;
        let mut j = start;
        let mut params: Vec<String> = Vec::new();
        while j < len && op_is_store(&self.chunk.code[j])
            invariant
                *self == *old(self),
                ops == self.code_v(),
                len == self.chunk.code@.len(),
                start == old(self).index + 1,
                start <= j <= len,
                store_run(ops, start as int) == store_run(ops, j as int),
                params@.len() == j - start,
                forall|k: int|
                    0 <= k < params@.len() ==> params@[k]@ == op_store_name(ops[start + k]),
            decreases len - j,
        {
            match &self.chunk.code[j] {
                crate::opcode::OpCode::Store(x) => {
                    params.push(x.clone());
                }
                _ => {}
            }
            j = j + 1;
        }
        let p = j;
        proof {
            assert(store_run(ops, p as int) == p);
        }
        if p >= len {
            return Option::Some(
                self.fault(
                    ErrorKind::TypeMismatch,
                    String::from_str("malformed function definition"),
                ),
            );
        }
        let is_scope = match &self.chunk.code[p] {
            crate::opcode::OpCode::Scope => true,
            _ => false,
        };
        if !is_scope {
            return Option::Some(
                self.fault(
                    ErrorKind::TypeMismatch,
                    String::from_str("malformed function definition"),
                ),
            );
        }
        let mut body: Vec<crate::opcode::OpCode> = Vec::new();
        let mut d: usize = 1;
        let mut i2 = p + 1;
        loop
            invariant_except_break
                *self == *old(self),
                ops == self.code_v(),
                len == self.chunk.code@.len(),
                p + 1 <= i2 <= len,
                1 <= d <= i2,
                scope_end(ops, p + 1, 1) == scope_end(ops, i2 as int, d as int),
                body@.len() == i2 - p - 1,
                forall|k: int|
                    0 <= k < body@.len() ==> crate::opcode::op_view(#[trigger] body@[k]) == ops[p
                        + 1 + k],
            ensures
                *self == *old(self),
                p + 1 <= i2 <= len,
                body@.len() == i2 - p - 1,
                forall|k: int|
                    0 <= k < body@.len() ==> crate::opcode::op_view(#[trigger] body@[k]) == ops[p
                        + 1 + k],
                scope_end(ops, p + 1, 1) == (if i2 < len {
                    i2 as int
                } else {
                    len as int
                }),
                i2 < len ==> ops[i2 as int] is EndScope,
            decreases len - i2,
        {
            if i2 >= len {
                break ;
            }
            let stop = match &self.chunk.code[i2] {
                crate::opcode::OpCode::EndScope => {
                    if d == 1 {
                        true
                    } else {
                        d = d - 1;
                        false
                    }
                }
                crate::opcode::OpCode::Scope => {
                    d = d + 1;
                    false
                }
                _ => false,
            };
            if stop {
                break ;
            }
            let ghost body0 = body@;
            let copied = self.chunk.code[i2].duplicate();
            body.push(copied);
            proof {
                assert(crate::opcode::op_view(copied) == ops[i2 as int]);
                assert(body@ == body0.push(copied));
            }
            i2 = i2 + 1;
        }
        if i2 >= len {
            return Option::Some(
                self.fault(
                    ErrorKind::TypeMismatch,
                    String::from_str("malformed function definition"),
                ),
            );
        }
        let e = i2;
        if e + 1 >= len {
            return Option::Some(
                self.fault(
                    ErrorKind::TypeMismatch,
                    String::from_str("malformed function definition"),
                ),
            );
        }
        let fname = match &self.chunk.code[e + 1] {
            crate::opcode::OpCode::Store(x) => x.clone(),
            _ => {
                return Option::Some(
                    self.fault(
                        ErrorKind::TypeMismatch,
                        String::from_str("malformed function definition"),
                    ),
                );
            }
        };
        let flen = self.functions.len();
        let mut q: usize = 0;
        let mut ffound = false;
        let mut tgt: usize = flen;
        while q < flen
            invariant
                *self == *old(self),
                flen == self.functions@.len(),
                0 <= q <= flen,
                ffound ==> tgt < q && fns_view(self.functions@)[tgt as int].name == fname@ && (
                forall|k: int|
                    0 <= k < tgt ==> fns_view(self.functions@)[k].name != fname@),
                !ffound ==> tgt == flen && (forall|k: int|
                    0 <= k < q ==> fns_view(self.functions@)[k].name != fname@),
            decreases flen - q,
        {
            if !ffound {
                if self.functions[q].name == fname {
                    ffound = true;
                    tgt = q;
                }
            }
            q = q + 1;
        }
        proof {
            lemma_fn_idx(fns_view(self.functions@), fname@);
            assert(fn_idx(fns_view(self.functions@), fname@) == tgt as int);
            assert(ops.len() == len as int);
            assert(crate::opcode::ops_view(body@) =~= ops.subrange(p + 1, e as int));
        }
        let newfn = FunctionDef { name: fname, code: body, params };
        let ghost old_fns = fns_view(self.functions@);
        let ghost newfn_v = fn_view(newfn);
        if ffound {
            self.functions[tgt] = newfn;
        } else {
            self.functions.push(newfn);
        }
        self.index = e + 1;
        proof {
            assert(fns_view(self.functions@) =~~= fn_put(old_fns, newfn_v));
            assert(newfn_v =~~= (FnV {
                name: op_store_name(ops[e + 1]),
                code: ops.subrange(p + 1, e as int),
                params: param_names(ops, old(self).index + 1, p as int),
            }));
        }
        Option::None
    }

    /// Execute a return instruction: take the return value off the stack
    /// when one was compiled (the none value on an empty stack), scan
    /// forward to the matching end-of-function sentinel counting scope
    /// markers on the way, close exactly the scopes still open since the
    /// call (unwinding through any blocks opened meanwhile), land the
    /// instruction pointer on the sentinel, and push the value onto the
    /// caller's stack.
    #[verifier::rlimit(100)]
    pub fn ret(&mut self, has_value: bool) -> (r: Option<Fault>)
        requires
            old(self).wf(),
            old(self).index < old(self).chunk.code@.len(),
        ensures
            final(self).wf(),
            final(self).chunk == old(self).chunk,
            final(self).filename == old(self).filename,
            final(self).functions == old(self).functions,
            final(self).natives == old(self).natives,
            final(self).output == old(self).output,
            ({
                let ops = old(self).code_v();
                let len = ops.len() as int;
                let e = endfn_pos(ops, old(self).index as int);
                let popped = if has_value {
                    after_pop(old(self).frames())
                } else {
                    old(self).frames()
                };
                let v = popped_val(old(self).frames());
                let c = 1 + bal(ops, old(self).index + 1, e + 1);
                let closes: int = if c > 0 {
                    c
                } else {
                    0
                };
                if e >= len {
                    r is Some && r.unwrap().kind == ErrorKind::OutOfBoundsJump && final(self).index
                        == old(self).index && final(self).frames() == popped
                } else if popped.len() - closes < 1 {
                    r is Some && r.unwrap().kind == ErrorKind::StackUnderflow && final(self).index
                        == old(self).index && final(self).frames() == popped
                } else {
                    r is None && final(self).index == e && final(self).frames() == (if has_value {
                        push_top(popped.take(popped.len() - closes), v)
                    } else {
                        popped.take(popped.len() - closes)
                    })
                }
            }),
    {
        let val: Option<Value> = if has_value {
            match self.pop() {
                Option::Some(x) => Option::Some(x),
                Option::None => Option::Some(Value::Nil),
            }
        } else {
            Option::None
        };
        let ghost popped = self.frames();
        let ghost ops = self.code_v();
        let len = self.chunk.code.len();
        let mut j = self.index;
        let mut c: i128 = 1;
        while j < len && !op_is_endfn(&self.chunk.code[j])
            invariant
                self.wf(),
                Self::unchanged_but_scopes(*old(self), *self),
                self.frames() == popped,
                ops == self.code_v(),
                len == self.chunk.code@.len(),
                old(self).index <= j <= len,
                endfn_pos(ops, old(self).index as int) == endfn_pos(ops, j as int),
                c == 1 + bal(ops, old(self).index + 1, j + 1),
            decreases len - j,
        {
            proof {
                lemma_bal_bound(ops, old(self).index + 1, j + 1);
                lemma_bal_snoc(ops, old(self).index + 1, j + 1);
            }
            j = j + 1;
            if j < len {
                match &self.chunk.code[j] {
                    crate::opcode::OpCode::Scope => {
                        c = c - 1;
                    }
                    crate::opcode::OpCode::EndScope => {
                        c = c + 1;
                    }
                    _ => {}
                }
            }
            proof {
                assert(c == 1 + bal(ops, old(self).index + 1, j + 1));
            }
        }
        if j >= len {
            return Option::Some(
                self.fault(
                    ErrorKind::OutOfBoundsJump,
                    String::from_str("return without an end-of-function sentinel"),
                ),
            );
        }
        proof {
            assert(endfn_pos(ops, old(self).index as int) == j as int);
        }
        let scount = self.scopes.len();
        if c >= scount as i128 {
            return Option::Some(
                self.fault(
                    ErrorKind::StackUnderflow,
                    String::from_str("return would close the global scope"),
                ),
            );
        }
        let closes: usize = if c <= 0 {
            0
        } else {
            c as usize
        };
        let mut t = closes;
        while t > 0
            invariant
                self.wf(),
                Self::unchanged_but_scopes(*old(self), *self),
                0 <= t <= closes,
                closes < popped.len(),
                self.frames() == popped.take(popped.len() - (closes - t)),
            decreases t,
        {
            proof {
                assert(self.frames().len() == popped.len() - (closes - t));
            }
            let ok = self.close_inner();
            proof {
                assert(popped.take(popped.len() - (closes - t)).drop_last() =~= popped.take(
                    popped.len() - (closes - t) - 1,
                ));
            }
            t = t - 1;
        }
        proof {
            assert(popped.take(popped.len() - closes) =~= self.frames());
        }
        self.index = j;
        match val {
            Option::Some(v) => {
                self.push(v);
            }
            Option::None => {}
        }
        Option::None
    }

    /// Execute a native call: find the name among the declared natives,
    /// hold the declared arity against the compiled argument count, pop
    /// that many values, and hand name and arguments (in source order) to
    /// the host.  The instruction pointer stays put until the host answers.
    #[verifier::loop_isolation(false)]
    pub fn native_call(&mut self, callee: String, argc: usize) -> (r: StepEvent)
        requires
            old(self).wf(),
        ensures
            final(self).wf(),
            Self::unchanged_but_scopes(*old(self), *final(self)),
            ({
                let ns = natives_view(old(self).natives@);
                let idx = native_idx(ns, callee@);
                if idx >= ns.len() {
                    (r matches StepEvent::Stopped(f) && f.kind == ErrorKind::UnknownNativeFunction)
                        && final(self).frames() == old(self).frames()
                } else if ns[idx].1 != argc {
                    (r matches StepEvent::Stopped(f) && f.kind == ErrorKind::NativeArityMismatch)
                        && final(self).frames() == old(self).frames()
                } else if top_stack(old(self).frames()).len() < argc {
                    (r matches StepEvent::Stopped(f) && f.kind == ErrorKind::StackUnderflow)
                        && final(self).frames() == old(self).frames()
                } else {
                    (r matches StepEvent::AwaitNative { name, args } && name@ == callee@
                        && vals_view_seq(args@) == top_stack(old(self).frames()).skip(
                        top_stack(old(self).frames()).len() - argc,
                    )) && final(self).frames() == pop_n(old(self).frames(), argc as int)
                }
            }),
    {
        let nlen = self.natives.len();
        let mut q: usize = 0;
        let mut nfound = false;
        let mut tgt: usize = nlen;
        while q < nlen
            invariant
                0 <= q <= nlen,
                nfound ==> tgt < q && natives_view(self.natives@)[tgt as int].0 == callee@ && (
                forall|k: int|
                    0 <= k < tgt ==> natives_view(self.natives@)[k].0 != callee@),
                !nfound ==> tgt == nlen && (forall|k: int|
                    0 <= k < q ==> natives_view(self.natives@)[k].0 != callee@),
            decreases nlen - q,
        {
            if !nfound {
                if self.natives[q].name == callee {
                    nfound = true;
                    tgt = q;
                }
            }
            q = q + 1;
        }
        proof {
            lemma_native_idx(natives_view(self.natives@), callee@);
            assert(native_idx(natives_view(self.natives@), callee@) == tgt as int);
        }
        if !nfound {
            return StepEvent::Stopped(
                self.fault(
                    ErrorKind::UnknownNativeFunction,
                    String::from_str("no native function goes by that name"),
                ),
            );
        }
        if self.natives[tgt].arity != argc {
            return StepEvent::Stopped(
                self.fault(
                    ErrorKind::NativeArityMismatch,
                    String::from_str("the native function takes another number of arguments"),
                ),
            );
        }
        let k = self.scopes.len() - 1;
        let len = self.scopes[k].stack.len();
        if len < argc {
            return StepEvent::Stopped(
                self.fault(
                    ErrorKind::StackUnderflow,
                    String::from_str("the operand stack holds too few values"),
                ),
            );
        }
        let base = len - argc;
        let mut args: Vec<Value> = Vec::new();
        let mut i: usize = 0;
        while i < argc
            invariant
                0 <= i <= argc,
                args@.len() == i,
                forall|j: int|
                    0 <= j < i ==> val_view(args@[j]) == val_view(
                        self.scopes@[k as int].stack@[base + j],
                    ),
            decreases argc - i,
        {
            args.push(self.scopes[k].stack[base + i].duplicate());
            i = i + 1;
        }
        let ghost fs0 = self.frames();
        self.scopes[k].stack.truncate(base);
        proof {
            assert(self.frames() =~~= pop_n(fs0, argc as int));
            assert(vals_view_seq(args@) =~= top_stack(fs0).skip(top_stack(fs0).len() - argc));
        }
        StepEvent::AwaitNative { name: callee, args }
    }

    /// Execute a call instruction.  The callee is looked up in the function
    /// table — which the call leaves exactly as it was, so the function can
    /// call itself and be called again.  A fresh frame is opened; one
    /// argument per declared parameter is popped off the caller's stack, in
    /// reverse parameter order, and bound by name in the fresh frame.  The
    /// callee's instructions, followed by one end-of-function sentinel, are
    /// spliced into the chunk just after the call instruction, where the
    /// dispatch loop falls through into them.
    #[verifier::rlimit(100)]
    pub fn call(&mut self, callee: String) -> (r: Option<Fault>)
        requires
            old(self).wf(),
            old(self).index < old(self).chunk.code@.len(),
        ensures
            final(self).wf(),
            final(self).index == old(self).index,
            final(self).filename == old(self).filename,
            final(self).functions == old(self).functions,
            final(self).natives == old(self).natives,
            final(self).output == old(self).output,
            final(self).chunk.code@.len() >= old(self).chunk.code@.len(),
            ({
                let fv = fns_view(old(self).functions@);
                match fn_lookup(fv, callee@) {
                    Option::None => r is Some && r.unwrap().kind == ErrorKind::UnknownFunction
                        && final(self).chunk == old(self).chunk && final(self).frames() == old(self).frames(),
                    Option::Some(f) => {
                        let arity = f.params.len() as int;
                        let ts = top_stack(old(self).frames());
                        if ts.len() < arity {
                            r is Some && r.unwrap().kind == ErrorKind::ArityMismatch && final(self).chunk == old(self).chunk && final(self).frames() == old(self).frames()
                        } else {
                            r is None && crate::opcode::ops_view(final(self).chunk.code@) == old(self).code_v().subrange(0, old(self).index + 1) + f.code + seq![
                                crate::opcode::OpCodeV::EndFn,
                            ] + old(self).code_v().skip(old(self).index + 1) && final(self).chunk.code@.len() == final(self).chunk.lines@.len() && final(self).frames() == pop_n(old(self).frames(), arity).push(
                                (ScopeV {
                                    frame: bind_params(
                                        Seq::empty(),
                                        f.params,
                                        ts.skip(ts.len() - arity),
                                        arity - 1,
                                    ),
                                    stack: Seq::empty(),
                                }),
                            )
                        }
                    }
                }
            }),
    {
        let flen = self.functions.len();
        let mut q: usize = 0;
        let mut found = false;
        let mut tgt: usize = flen;
        while q < flen
            invariant
                *self == *old(self),
                flen == self.functions@.len(),
                0 <= q <= flen,
                found ==> tgt < q && fns_view(self.functions@)[tgt as int].name == callee@ && (
                forall|k: int|
                    0 <= k < tgt ==> fns_view(self.functions@)[k].name != callee@),
                !found ==> tgt == flen && (forall|k: int|
                    0 <= k < q ==> fns_view(self.functions@)[k].name != callee@),
            decreases flen - q,
        {
            if !found {
                if self.functions[q].name == callee {
                    found = true;
                    tgt = q;
                }
            }
            q = q + 1;
        }
        proof {
            lemma_fn_idx(fns_view(self.functions@), callee@);
            assert(fn_idx(fns_view(self.functions@), callee@) == tgt as int);
        }
        if !found {
            return Option::Some(
                self.fault(
                    ErrorKind::UnknownFunction,
                    String::from_str("no function goes by that name"),
                ),
            );
        }
        let ghost fdef = fn_lookup(fns_view(old(self).functions@), callee@).unwrap();
        let arity = self.functions[tgt].params.len();
        let k = self.scopes.len() - 1;
        let n0 = self.scopes[k].stack.len();
        if n0 < arity {
            return Option::Some(
                self.fault(
                    ErrorKind::ArityMismatch,
                    String::from_str("too few arguments on the stack for the call"),
                ),
            );
        }
        let mut params_c: Vec<String> = Vec::new();
        let mut pi: usize = 0;
        while pi < arity
            invariant
                *self == *old(self),
                tgt < self.functions@.len(),
                arity == self.functions@[tgt as int].params@.len(),
                fdef == fn_view(self.functions@[tgt as int]),
                0 <= pi <= arity,
                params_c@.len() == pi,
                forall|j: int| 0 <= j < pi ==> params_c@[j]@ == fdef.params[j],
            decreases arity - pi,
        {
            params_c.push(self.functions[tgt].params[pi].clone());
            pi = pi + 1;
        }
        let blen = self.functions[tgt].code.len();
        let mut body_c: Vec<crate::opcode::OpCode> = Vec::new();
        let mut bi0: usize = 0;
        while bi0 < blen
            invariant
                *self == *old(self),
                tgt < self.functions@.len(),
                blen == self.functions@[tgt as int].code@.len(),
                fdef == fn_view(self.functions@[tgt as int]),
                0 <= bi0 <= blen,
                body_c@.len() == bi0,
                forall|j: int|
                    0 <= j < bi0 ==> crate::opcode::op_view(#[trigger] body_c@[j]) == fdef.code[j],
            decreases blen - bi0,
        {
            body_c.push(self.functions[tgt].code[bi0].duplicate());
            bi0 = bi0 + 1;
        }
        let ghost fs0 = old(self).frames();
        let ghost ts = top_stack(fs0);
        let ghost argsv = ts.skip(ts.len() - arity as int);
        let ghost pv = fdef.params;
        self.create_inner();
        let last = k + 1;
        let mut bi = arity;
        while bi > 0
            invariant
                0 <= bi <= arity,
                arity as int == pv.len(),
                argsv.len() == arity as int,
                argsv == ts.skip(ts.len() - arity as int),
                ts == top_stack(fs0),
                fs0 == old(self).frames(),
                fs0.len() >= 1,
                n0 == ts.len(),
                arity <= n0,
                k == fs0.len() - 1,
                last == k + 1,
                params_c@.len() == arity,
                forall|j: int| 0 <= j < arity ==> params_c@[j]@ == pv[j],
                self.wf(),
                Self::unchanged_but_scopes(*old(self), *self),
                self.frames().len() == fs0.len() + 1,
                forall|j: int| 0 <= j < k ==> self.frames()[j] == fs0[j],
                self.frames()[k as int] == (ScopeV {
                    frame: fs0[k as int].frame,
                    stack: ts.take(n0 - (arity - bi)),
                }),
                self.frames().last().stack == Seq::<ValueV>::empty(),
                bind_params(self.frames().last().frame, pv, argsv, bi - 1) == bind_params(
                    Seq::empty(),
                    pv,
                    argsv,
                    arity - 1,
                ),
            decreases bi,
        {
            let ghost fr_before = self.frames().last().frame;
            let arg = match self.scopes[k].stack.pop() {
                Option::Some(a) => a,
                Option::None => Value::Nil,
            };
            proof {
                assert(ts.take(n0 - (arity - bi)).last() == argsv[bi - 1]);
                assert(ts.take(n0 - (arity - bi)).drop_last() =~= ts.take(n0 - (arity - bi) - 1));
            }
            let pname = params_c[bi - 1].clone();
            frame_put_exec(&mut self.scopes[last].callframe, pname, arg);
            proof {
                assert(self.frames().last().frame == frame_put(fr_before, pv[bi - 1], argsv[bi - 1]));
                assert(self.frames()[k as int] == (ScopeV {
                    frame: fs0[k as int].frame,
                    stack: ts.take(n0 - (arity - (bi - 1))),
                }));
            }
            bi = bi - 1;
        }
        proof {
            assert(self.frames() =~~= pop_n(fs0, arity as int).push(
                (ScopeV {
                    frame: bind_params(Seq::empty(), pv, argsv, arity - 1),
                    stack: Seq::empty(),
                }),
            ));
        }
        let ghost fs_bound = self.frames();
        let idx = self.index;
        let clen = self.chunk.code.len();
        let m = body_c.len();
        let ghost ops0 = old(self).code_v();
        let mut newcode: Vec<crate::opcode::OpCode> = Vec::new();
        let mut newlines: Vec<usize> = Vec::new();
        let mut ci: usize = 0;
        while ci < idx + 1
            invariant
                self.chunk == old(self).chunk,
                idx == old(self).index,
                idx < clen,
                clen == self.chunk.code@.len(),
                clen == self.chunk.lines@.len(),
                ops0 == old(self).code_v(),
                0 <= ci <= idx + 1,
                newcode@.len() == ci,
                newlines@.len() == ci,
                forall|j: int|
                    0 <= j < ci ==> crate::opcode::op_view(#[trigger] newcode@[j]) == ops0[j],
            decreases idx + 1 - ci,
        {
            newcode.push(self.chunk.code[ci].duplicate());
            newlines.push(self.chunk.lines[ci]);
            ci = ci + 1;
        }
        let mut si: usize = 0;
        while si < m
            invariant
                m == body_c@.len(),
                forall|j: int|
                    0 <= j < m ==> crate::opcode::op_view(#[trigger] body_c@[j]) == fdef.code[j],
                0 <= si <= m,
                newcode@.len() == idx + 1 + si,
                newlines@.len() == newcode@.len(),
                forall|j: int|
                    0 <= j < idx + 1 ==> crate::opcode::op_view(#[trigger] newcode@[j]) == ops0[j],
                forall|j: int|
                    idx + 1 <= j < idx + 1 + si ==> crate::opcode::op_view(#[trigger] newcode@[j])
                        == fdef.code[j - idx - 1],
            decreases m - si,
        {
            newcode.push(body_c[si].duplicate());
            newlines.push(0);
            si = si + 1;
        }
        newcode.push(crate::opcode::OpCode::EndFn);
        newlines.push(0);
        let mut ci2 = idx + 1;
        while ci2 < clen
            invariant
                self.chunk == old(self).chunk,
                idx == old(self).index,
                idx < clen,
                clen == self.chunk.code@.len(),
                clen == self.chunk.lines@.len(),
                ops0 == old(self).code_v(),
                m == body_c@.len(),
                m == fdef.code.len(),
                idx + 1 <= ci2 <= clen,
                newcode@.len() == idx + 2 + m + (ci2 - idx - 1),
                newlines@.len() == newcode@.len(),
                forall|j: int|
                    0 <= j < idx + 1 ==> crate::opcode::op_view(#[trigger] newcode@[j]) == ops0[j],
                forall|j: int|
                    idx + 1 <= j < idx + 1 + m ==> crate::opcode::op_view(#[trigger] newcode@[j])
                        == fdef.code[j - idx - 1],
                crate::opcode::op_view(newcode@[idx + 1 + m]) == crate::opcode::OpCodeV::EndFn,
                forall|j: int|
                    idx + 2 + m <= j < newcode@.len() ==> crate::opcode::op_view(
                        #[trigger] newcode@[j],
                    ) == ops0[j - m - 1],
            decreases clen - ci2,
        {
            newcode.push(self.chunk.code[ci2].duplicate());
            newlines.push(self.chunk.lines[ci2]);
            ci2 = ci2 + 1;
        }
        self.chunk.code = newcode;
        self.chunk.lines = newlines;
        proof {
            assert(self.frames() == fs_bound);
            assert(crate::opcode::ops_view(self.chunk.code@) =~= ops0.subrange(0, idx + 1)
                + fdef.code + seq![crate::opcode::OpCodeV::EndFn] + ops0.skip(idx + 1));
        }
        Option::None
    }

    /// Take the host's answer to a native call: push the returned value if
    /// one came back, and move past the call instruction.
    pub fn resume_native(&mut self, ret: Option<Value>)
        requires
            old(self).wf(),
            old(self).index < old(self).chunk.code@.len(),
        ensures
            final(self).wf(),
            final(self).index == old(self).index + 1,
            final(self).chunk == old(self).chunk,
            final(self).filename == old(self).filename,
            final(self).functions == old(self).functions,
            final(self).natives == old(self).natives,
            final(self).output == old(self).output,
            final(self).frames() == (match ret {
                Option::Some(v) => push_top(old(self).frames(), val_view(v)),
                Option::None => old(self).frames(),
            }),
    {
        match ret {
            Option::Some(v) => {
                self.push(v);
            }
            Option::None => {}
        }
        let clen = self.chunk.code.len();
        proof {
            assert(self.index < clen);
        }
        self.index = self.index + 1;
    }

    /// The destination of a relative jump, when it stays inside
    /// `[0, len(code)]`; nothing comes back for a jump that would leave it.
    pub fn jump_dest(&self, x: i128) -> (t: Option<usize>)
        requires
            self.index <= self.chunk.code@.len(),
        ensures
            (0 <= self.index + x <= self.chunk.code@.len()) <==> t is Some,
            t is Some ==> t.unwrap() == self.index + x,
    {
        let len = self.chunk.code.len();
        if x >= 0 {
            if x <= (len - self.index) as i128 {
                Option::Some(self.index + (x as usize))
            } else {
                Option::None
            }
        } else {
            if x < -(self.index as i128) {
                Option::None
            } else {
                Option::Some(self.index - ((-x) as usize))
            }
        }
    }

    /// One dispatch step: fetch the instruction under the pointer, execute
    /// it, and report how it went.  Only control-flow instructions move the
    /// pointer themselves; for every other instruction the driving loop
    /// advances it after the step.  Reaching the end-of-function sentinel
    /// itself - a body that fell off without an explicit return - performs
    /// the same unwind as a valueless return: the call scope closes and no
    /// value is produced.  `step_post` states what each instruction does.
    #[verifier::rlimit(100)]
    pub fn once(&mut self) -> (r: StepEvent)
        requires
            old(self).wf(),
            old(self).index < old(self).chunk.code@.len(),
        ensures
            final(self).wf(),
            final(self).index <= final(self).chunk.code@.len(),
            step_post(*old(self), *final(self), r),
    {
        let op = self.chunk.code[self.index].duplicate();
        match op {
            crate::opcode::OpCode::Constant(x) => {
                self.push(x);
                StepEvent::Ran
            }
            crate::opcode::OpCode::Store(x) => {
                self.set_var(x);
                StepEvent::Ran
            }
            crate::opcode::OpCode::Load(x) => {
                match self.get_var(&x) {
                    Option::Some(v) => {
                        self.push(v);
                        StepEvent::Ran
                    }
                    Option::None => StepEvent::Stopped(
                        self.fault(
                            ErrorKind::UndefinedVariable,
                            String::from_str("no variable goes by that name"),
                        ),
                    ),
                }
            }
            crate::opcode::OpCode::Add => evt(self.bin_op(crate::token::TokenType::Plus)),
            crate::opcode::OpCode::Subtract => evt(self.bin_op(crate::token::TokenType::Minus)),
            crate::opcode::OpCode::Multiply => evt(self.bin_op(crate::token::TokenType::Star)),
            crate::opcode::OpCode::Divide => evt(self.bin_op(crate::token::TokenType::Slash)),
            crate::opcode::OpCode::Modulo => evt(self.bin_op(crate::token::TokenType::Modulo)),
            crate::opcode::OpCode::EqualEqual => evt(
                self.bin_op(crate::token::TokenType::EqualEqual),
            ),
            crate::opcode::OpCode::NotEqual => evt(self.bin_op(crate::token::TokenType::BangEqual)),
            crate::opcode::OpCode::Less => evt(self.bin_op(crate::token::TokenType::Less)),
            crate::opcode::OpCode::LessEqual => evt(self.bin_op(crate::token::TokenType::LessEqual)),
            crate::opcode::OpCode::Greater => evt(self.bin_op(crate::token::TokenType::Greater)),
            crate::opcode::OpCode::GreaterEqual => evt(
                self.bin_op(crate::token::TokenType::GreaterEqual),
            ),
            crate::opcode::OpCode::LogicalAnd => evt(self.bin_op(crate::token::TokenType::And)),
            crate::opcode::OpCode::LogicalOr => evt(self.bin_op(crate::token::TokenType::Or)),
            crate::opcode::OpCode::LogicalNot => evt(self.un_op(crate::token::TokenType::Bang)),
            crate::opcode::OpCode::Negate => evt(self.un_op(crate::token::TokenType::Minus)),
            crate::opcode::OpCode::Jump(x) => {
                match self.jump_dest(x) {
                    Option::Some(t) => {
                        self.index = t;
                        StepEvent::Ran
                    }
                    Option::None => StepEvent::Stopped(
                        self.fault(
                            ErrorKind::OutOfBoundsJump,
                            String::from_str("the jump would leave the program"),
                        ),
                    ),
                }
            }
            crate::opcode::OpCode::JumpIf(x, pops) => {
                if pops {
                    match self.pop() {
                        Option::None => StepEvent::Stopped(
                            self.fault(
                                ErrorKind::StackUnderflow,
                                String::from_str("the operand stack holds too few values"),
                            ),
                        ),
                        Option::Some(Value::Bool(true)) => {
                            match self.jump_dest(x) {
                                Option::Some(t) => {
                                    self.index = t;
                                    StepEvent::Ran
                                }
                                Option::None => StepEvent::Stopped(
                                    self.fault(
                                        ErrorKind::OutOfBoundsJump,
                                        String::from_str("the jump would leave the program"),
                                    ),
                                ),
                            }
                        }
                        Option::Some(v) => StepEvent::Ran,
                    }
                } else {
                    match self.top() {
                        Option::None => StepEvent::Stopped(
                            self.fault(
                                ErrorKind::StackUnderflow,
                                String::from_str("the operand stack holds too few values"),
                            ),
                        ),
                        Option::Some(Value::Bool(true)) => {
                            match self.jump_dest(x) {
                                Option::Some(t) => {
                                    self.index = t;
                                    StepEvent::Ran
                                }
                                Option::None => StepEvent::Stopped(
                                    self.fault(
                                        ErrorKind::OutOfBoundsJump,
                                        String::from_str("the jump would leave the program"),
                                    ),
                                ),
                            }
                        }
                        Option::Some(v) => StepEvent::Ran,
                    }
                }
            }
            crate::opcode::OpCode::Call(x) => evt(self.call(x)),
            crate::opcode::OpCode::NativeCall(x, y) => self.native_call(x, y),
            crate::opcode::OpCode::Print => evt(self.print()),
            crate::opcode::OpCode::Range(b) => evt(self.range(b)),
            crate::opcode::OpCode::Scope => {
                self.create_inner();
                StepEvent::Ran
            }
            crate::opcode::OpCode::EndScope => {
                if self.close_inner() {
                    StepEvent::Ran
                } else {
                    StepEvent::Stopped(
                        self.fault(
                            ErrorKind::StackUnderflow,
                            String::from_str("no inner scope is open"),
                        ),
                    )
                }
            }
            crate::opcode::OpCode::EndFn => {
                if self.close_inner() {
                    StepEvent::Ran
                } else {
                    StepEvent::Stopped(
                        self.fault(
                            ErrorKind::StackUnderflow,
                            String::from_str("no call scope is open at the end of a function"),
                        ),
                    )
                }
            }
            crate::opcode::OpCode::Eof => StepEvent::Ran,
            crate::opcode::OpCode::Return(b) => evt(self.ret(b)),
            crate::opcode::OpCode::For => evt(self.for_loop()),
            crate::opcode::OpCode::FnDef => evt(self.function()),
            crate::opcode::OpCode::Iterable(nn) => evt(self.iterable(nn)),
        }
    }

    /// Drive the dispatch loop for at most `steps` instructions: until the
    /// pointer runs off the end of the code, a fatal diagnostic stops the
    /// program, a native call waits for the host, or the budget runs out
    /// (run again to go on).  `run_post` ties the final state to the
    /// starting one: a trace of completed dispatch iterations — fetch,
    /// execute per `step_post`, advance the pointer by one — ended the way
    /// the outcome says.
    pub fn run(&mut self, steps: u64) -> (r: Outcome)
        requires
            old(self).wf(),
        ensures
            final(self).wf(),
            final(self).filename == old(self).filename,
            final(self).natives == old(self).natives,
            r is Finished ==> final(self).index >= final(self).chunk.code@.len(),
            r is StepLimit ==> final(self).index < final(self).chunk.code@.len(),
            run_post(*old(self), *final(self), r, steps),
    {
        let mut left = steps;
        let ghost mut done: nat = 0;
        loop
            invariant
                self.wf(),
                self.filename == old(self).filename,
                self.natives == old(self).natives,
                done + left == steps,
                drives(*old(self), *self, done),
            decreases left,
        {
            if self.index >= self.chunk.code.len() {
                proof {
                    assert(drives(*old(self), *self, done));
                }
                return Outcome::Finished;
            }
            if left == 0 {
                proof {
                    assert(done == steps);
                    assert(drives(*old(self), *self, done));
                }
                return Outcome::StepLimit;
            }
            left = left - 1;
            let ghost prev = *self;
            match self.once() {
                StepEvent::Ran => {
                    if self.index < self.chunk.code.len() {
                        proof {
                            lemma_drives_snoc(*old(self), prev, *self, done);
                        }
                        let ghost stepped = *self;
                        self.index = self.index + 1;
                        proof {
                            assert(*self == advanced(stepped));
                            done = done + 1;
                        }
                    } else {
                        proof {
                            assert(drives(*old(self), prev, done));
                            assert(step_post(prev, *self, StepEvent::Ran));
                        }
                        return Outcome::Finished;
                    }
                }
                StepEvent::Stopped(f) => {
                    proof {
                        assert(drives(*old(self), prev, done));
                        assert(step_post(prev, *self, StepEvent::Stopped(f)));
                    }
                    return Outcome::Stopped(f);
                }
                StepEvent::AwaitNative { name, args } => {
                    proof {
                        assert(drives(*old(self), prev, done));
                        assert(step_post(prev, *self, (StepEvent::AwaitNative { name, args })));
                    }
                    return Outcome::AwaitNative { name, args };
                }
            }
        }
    }
}

/// The effect of one dispatch step, instruction by instruction: what the
/// fetched opcode does to the scope chain, the instruction pointer, the
/// chunk, the function table and the output, and which failures it can
/// die with.
pub open spec fn step_post<'a>(pre: VM<'a>, post: VM<'a>, r: StepEvent) -> bool {
    let op = pre.code_v()[pre.index as int];
    let fs = pre.frames();
    let ts = top_stack(fs);
    let len = pre.code_v().len() as int;
    match op {
        crate::opcode::OpCodeV::Constant(vv) => r is Ran && VM::unchanged_but_scopes(pre, post)
            && post.frames() == push_top(fs, vv),
        crate::opcode::OpCodeV::Store(n) => r is Ran && VM::unchanged_but_scopes(pre, post)
            && post.frames() == store(after_pop(fs), n, popped_val(fs)),
        crate::opcode::OpCodeV::Load(n) => VM::unchanged_but_scopes(pre, post) && (match lookup(
            fs,
            n,
        ) {
            Option::Some(v) => r is Ran && post.frames() == push_top(fs, v),
            Option::None => (r matches StepEvent::Stopped(f) && f.kind
                == ErrorKind::UndefinedVariable) && post.frames() == fs,
        }),
        crate::opcode::OpCodeV::Jump(x) => ctx_still(pre, post) && post.frames() == fs && (if 0
            <= pre.index + x <= len {
            r is Ran && post.index == pre.index + x
        } else {
            (r matches StepEvent::Stopped(f) && f.kind == ErrorKind::OutOfBoundsJump) && post.index
                == pre.index
        }),
        crate::opcode::OpCodeV::JumpIf(x, pops) => ctx_still(pre, post) && (if pops {
            if ts.len() == 0 {
                (r matches StepEvent::Stopped(f) && f.kind == ErrorKind::StackUnderflow)
                    && post.frames() == fs && post.index == pre.index
            } else {
                post.frames() == pop_top(fs) && (if ts.last() == ValueV::Bool(true) {
                    if 0 <= pre.index + x <= len {
                        r is Ran && post.index == pre.index + x
                    } else {
                        (r matches StepEvent::Stopped(f) && f.kind == ErrorKind::OutOfBoundsJump)
                            && post.index == pre.index
                    }
                } else {
                    r is Ran && post.index == pre.index
                })
            }
        } else {
            post.frames() == fs && (if ts.len() == 0 {
                (r matches StepEvent::Stopped(f) && f.kind == ErrorKind::StackUnderflow)
                    && post.index == pre.index
            } else if ts.last() == ValueV::Bool(true) {
                if 0 <= pre.index + x <= len {
                    r is Ran && post.index == pre.index + x
                } else {
                    (r matches StepEvent::Stopped(f) && f.kind == ErrorKind::OutOfBoundsJump)
                        && post.index == pre.index
                }
            } else {
                r is Ran && post.index == pre.index
            })
        }),
        crate::opcode::OpCodeV::Call(n) => post.index == pre.index && post.filename == pre.filename
            && post.functions == pre.functions && post.natives == pre.natives && post.output
            == pre.output && (match fn_lookup(fns_view(pre.functions@), n) {
            Option::None => (r matches StepEvent::Stopped(f) && f.kind
                == ErrorKind::UnknownFunction) && post.chunk == pre.chunk && post.frames() == fs,
            Option::Some(fd) => {
                let arity = fd.params.len() as int;
                if ts.len() < arity {
                    (r matches StepEvent::Stopped(f) && f.kind == ErrorKind::ArityMismatch)
                        && post.chunk == pre.chunk && post.frames() == fs
                } else {
                    r is Ran && crate::opcode::ops_view(post.chunk.code@) == pre.code_v().subrange(
                        0,
                        pre.index + 1,
                    ) + fd.code + seq![crate::opcode::OpCodeV::EndFn] + pre.code_v().skip(
                        pre.index + 1,
                    ) && post.chunk.code@.len() == post.chunk.lines@.len() && post.frames()
                        == pop_n(fs, arity).push(
                        (ScopeV {
                            frame: bind_params(
                                Seq::empty(),
                                fd.params,
                                ts.skip(ts.len() - arity),
                                arity - 1,
                            ),
                            stack: Seq::empty(),
                        }),
                    )
                }
            }
        }),
        crate::opcode::OpCodeV::NativeCall(n, argc) => VM::unchanged_but_scopes(pre, post) && ({
            let ns = natives_view(pre.natives@);
            let idx = native_idx(ns, n);
            if idx >= ns.len() {
                (r matches StepEvent::Stopped(f) && f.kind == ErrorKind::UnknownNativeFunction)
                    && post.frames() == fs
            } else if ns[idx].1 != argc {
                (r matches StepEvent::Stopped(f) && f.kind == ErrorKind::NativeArityMismatch)
                    && post.frames() == fs
            } else if ts.len() < argc {
                (r matches StepEvent::Stopped(f) && f.kind == ErrorKind::StackUnderflow)
                    && post.frames() == fs
            } else {
                (r matches StepEvent::AwaitNative { name, args } && name@ == n && vals_view_seq(
                    args@,
                ) == ts.skip(ts.len() - argc)) && post.frames() == pop_n(fs, argc as int)
            }
        }),
        crate::opcode::OpCodeV::Print => post.chunk == pre.chunk && post.index == pre.index
            && post.filename == pre.filename && post.functions == pre.functions && post.natives
            == pre.natives && (if ts.len() == 0 || !(ts.last() is Str) {
            (r matches StepEvent::Stopped(f) && f.kind == ErrorKind::TypeMismatch) && post.frames()
                == fs && post.output == pre.output
        } else {
            let text = ts.last()->Str_0;
            let k = brace_count(text);
            if ts.len() - 1 < k {
                (r matches StepEvent::Stopped(f) && f.kind == ErrorKind::StackUnderflow)
                    && post.frames() == fs && post.output == pre.output
            } else {
                r is Ran && post.frames() == pop_n(fs, k + 1 as int) && post.out_v()
                    == pre.out_v().push(interp(text, ts.subrange(ts.len() - 1 - k, ts.len() - 1)))
            }
        }),
        crate::opcode::OpCodeV::Range(cstep) => VM::unchanged_but_scopes(pre, post) && ({
            let need: int = if cstep {
                3
            } else {
                2
            };
            let ok = ts.len() >= need && (forall|j: int|
                ts.len() - need <= j < ts.len() ==> #[trigger] ts[j] is Number) && (cstep
                ==> ts.last()->Number_0 >= 1);
            if !ok {
                (r matches StepEvent::Stopped(f) && f.kind == ErrorKind::TypeMismatch)
                    && post.frames() == fs
            } else {
                let step: int = if cstep {
                    ts.last()->Number_0 as int
                } else {
                    1
                };
                let hi = ts[ts.len() - need + 1]->Number_0 as int;
                let lo = ts[ts.len() - need]->Number_0 as int;
                r is Ran && post.frames() == push_top(
                    pop_n(fs, need),
                    ValueV::List(range_seq(clamp0(lo), clamp0(hi), step)),
                )
            }
        }),
        crate::opcode::OpCodeV::Scope => r is Ran && VM::unchanged_but_scopes(pre, post)
            && post.frames() == fs.push(empty_scope()),
        crate::opcode::OpCodeV::EndScope => VM::unchanged_but_scopes(pre, post) && (if fs.len()
            > 1 {
            r is Ran && post.frames() == fs.drop_last()
        } else {
            (r matches StepEvent::Stopped(f) && f.kind == ErrorKind::StackUnderflow)
                && post.frames() == fs
        }),
        crate::opcode::OpCodeV::EndFn => VM::unchanged_but_scopes(pre, post) && (if fs.len()
            > 1 {
            r is Ran && post.frames() == fs.drop_last()
        } else {
            (r matches StepEvent::Stopped(f) && f.kind == ErrorKind::StackUnderflow)
                && post.frames() == fs
        }),
        crate::opcode::OpCodeV::Eof => r is Ran && VM::unchanged_but_scopes(pre, post)
            && post.frames() == fs,
        crate::opcode::OpCodeV::Return(has_value) => post.chunk == pre.chunk && post.filename
            == pre.filename && post.functions == pre.functions && post.natives == pre.natives
            && post.output == pre.output && ({
            let ops = pre.code_v();
            let e = endfn_pos(ops, pre.index as int);
            let popped = if has_value {
                after_pop(fs)
            } else {
                fs
            };
            let v = popped_val(fs);
            let c = 1 + bal(ops, pre.index + 1, e + 1);
            let closes: int = if c > 0 {
                c
            } else {
                0
            };
            if e >= len {
                (r matches StepEvent::Stopped(f) && f.kind == ErrorKind::OutOfBoundsJump)
                    && post.index == pre.index && post.frames() == popped
            } else if popped.len() - closes < 1 {
                (r matches StepEvent::Stopped(f) && f.kind == ErrorKind::StackUnderflow)
                    && post.index == pre.index && post.frames() == popped
            } else {
                r is Ran && post.index == e && post.frames() == (if has_value {
                    push_top(popped.take(popped.len() - closes), v)
                } else {
                    popped.take(popped.len() - closes)
                })
            }
        }),
        crate::opcode::OpCodeV::For => post.chunk == pre.chunk && post.filename == pre.filename
            && post.functions == pre.functions && post.natives == pre.natives && post.output
            == pre.output && (if ts.len() == 0 || !(ts.last() is List) {
            (r matches StepEvent::Stopped(f) && f.kind == ErrorKind::TypeMismatch) && post.index
                == pre.index && post.frames() == (if ts.len() == 0 {
                fs
            } else {
                pop_top(fs)
            })
        } else {
            r is Ran && post.index == pre.index + 1 && post.frames() == for_loop_frames(
                pop_top(fs),
                ts.last()->List_0,
            )
        }),
        crate::opcode::OpCodeV::FnDef => post.chunk == pre.chunk && post.filename == pre.filename
            && post.natives == pre.natives && post.output == pre.output && post.scopes == pre.scopes
            && ({
            let ops = pre.code_v();
            let p = store_run(ops, pre.index + 1);
            let e = if p + 1 <= len {
                scope_end(ops, p + 1, 1)
            } else {
                len
            };
            let ok = p < len && ops[p] is Scope && e < len && e + 1 < len && ops[e + 1] is Store;
            if ok {
                r is Ran && post.index == e + 1 && fns_view(post.functions@) == fn_put(
                    fns_view(pre.functions@),
                    (FnV {
                        name: op_store_name(ops[e + 1]),
                        code: ops.subrange(p + 1, e),
                        params: param_names(ops, pre.index + 1, p),
                    }),
                )
            } else {
                (r matches StepEvent::Stopped(f) && f.kind == ErrorKind::TypeMismatch)
                    && post.index == pre.index && post.functions == pre.functions
            }
        }),
        crate::opcode::OpCodeV::LogicalNot => unstep(pre, post, r, crate::token::TokenType::Bang),
        crate::opcode::OpCodeV::Negate => unstep(pre, post, r, crate::token::TokenType::Minus),
        crate::opcode::OpCodeV::Iterable(nn) => VM::unchanged_but_scopes(pre, post) && (if ts.len()
            < nn {
            (r matches StepEvent::Stopped(f) && f.kind == ErrorKind::StackUnderflow)
                && post.frames() == fs
        } else {
            r is Ran && post.frames() == push_top(
                pop_n(fs, nn as int),
                ValueV::List(ts.skip(ts.len() - nn as int)),
            )
        }),
        _ => VM::unchanged_but_scopes(pre, post) && (if ts.len() < 2 {
            (r matches StepEvent::Stopped(f) && f.kind == ErrorKind::StackUnderflow)
                && post.frames() == fs
        } else if is_binop_opcode(op) {
            match binop_result(binop_token(op), ts[ts.len() - 2], ts.last()) {
                Result::Ok(v) => r is Ran && post.frames() == push_top(pop_n(fs, 2), v),
                Result::Err(k) => (r matches StepEvent::Stopped(f) && f.kind == k) && post.frames()
                    == pop_n(fs, 2),
            }
        } else {
            true
        }),
    }
}

/// The effect of a unary operator step.
pub open spec fn unstep<'a>(pre: VM<'a>, post: VM<'a>, r: StepEvent, tok: crate::token::TokenType) -> bool {
    let fs = pre.frames();
    let ts = top_stack(fs);
    VM::unchanged_but_scopes(pre, post) && (if ts.len() == 0 {
        (r matches StepEvent::Stopped(f) && f.kind == ErrorKind::StackUnderflow) && post.frames()
            == fs
    } else {
        match unop_result(tok, ts.last()) {
            Result::Ok(v) => r is Ran && post.frames() == push_top(pop_top(fs), v),
            Result::Err(k) => (r matches StepEvent::Stopped(f) && f.kind == k) && post.frames()
                == pop_top(fs),
        }
    })
}

/// Everything but the scope chain and the instruction pointer stays.
pub open spec fn ctx_still<'a>(pre: VM<'a>, post: VM<'a>) -> bool {
    post.chunk == pre.chunk && post.filename == pre.filename && post.functions == pre.functions
        && post.natives == pre.natives && post.output == pre.output
}

/// The machine as the dispatch loop leaves it after a completed step: the
/// instruction pointer one further on, everything else as the step left
/// it.
pub open spec fn advanced<'a>(m: VM<'a>) -> VM<'a> {
    VM {
        chunk: m.chunk,
        scopes: m.scopes,
        index: (m.index + 1) as usize,
        filename: m.filename,
        functions: m.functions,
        natives: m.natives,
        output: m.output,
    }
}

/// `n` completed dispatch iterations: each one fetches the instruction
/// under the pointer, executes it to a `Ran` verdict per `step_post`, and
/// advances the pointer by one, with the pointer in bounds before and
/// after each step.
pub open spec fn drives<'a>(pre: VM<'a>, post: VM<'a>, n: nat) -> bool
    decreases n,
{
    if n == 0 {
        post == pre
    } else {
        pre.index < pre.chunk.code@.len() && exists|mid: VM<'a>|
            (#[trigger] step_post(pre, mid, StepEvent::Ran)) && mid.index < mid.chunk.code@.len()
                && drives(advanced(mid), post, (n - 1) as nat)
    }
}

/// A completed trace extends by one completed iteration at its end.
pub proof fn lemma_drives_snoc<'a>(pre: VM<'a>, mid: VM<'a>, stepped: VM<'a>, n: nat)
    requires
        drives(pre, mid, n),
        mid.index < mid.chunk.code@.len(),
        step_post(mid, stepped, StepEvent::Ran),
        stepped.index < stepped.chunk.code@.len(),
    ensures
        drives(pre, advanced(stepped), n + 1),
    decreases n,
{
    if n == 0 {
        assert(mid == pre);
        assert(step_post(pre, stepped, StepEvent::Ran));
        assert(drives(advanced(stepped), advanced(stepped), 0));
    } else {
        let m1 = choose|m: VM<'a>|
            (#[trigger] step_post(pre, m, StepEvent::Ran)) && m.index < m.chunk.code@.len()
                && drives(advanced(m), mid, (n - 1) as nat);
        lemma_drives_snoc(advanced(m1), mid, stepped, (n - 1) as nat);
        assert(step_post(pre, m1, StepEvent::Ran));
    }
}

/// What a bounded run promises: from the starting state, some number of
/// completed dispatch iterations within the budget, ended the way the
/// outcome says — off the end of the code for `Finished` (possibly with
/// one last step whose own landing is past the end), a fatal step for
/// `Stopped`, a hand-off step for `AwaitNative`, or the whole budget spent
/// with work left for `StepLimit`.
pub open spec fn run_post<'a>(pre: VM<'a>, post: VM<'a>, r: Outcome, steps: u64) -> bool {
    exists|mid: VM<'a>, n: nat|
        (#[trigger] drives(pre, mid, n)) && n <= steps && (match r {
            Outcome::Finished => (post == mid && mid.index >= mid.chunk.code@.len()) || (n < steps
                && mid.index < mid.chunk.code@.len() && step_post(mid, post, StepEvent::Ran)
                && post.index >= post.chunk.code@.len()),
            Outcome::Stopped(f) => n < steps && mid.index < mid.chunk.code@.len() && step_post(
                mid,
                post,
                StepEvent::Stopped(f),
            ),
            Outcome::AwaitNative { name, args } => n < steps && mid.index < mid.chunk.code@.len()
                && step_post(mid, post, (StepEvent::AwaitNative { name, args })),
            Outcome::StepLimit => post == mid && n == steps && post.index < post.chunk.code@.len(),
        })
}

/// Map a helper's verdict to a step event.
fn evt(r: Option<Fault>) -> (e: StepEvent)
    ensures
        r is None ==> e is Ran,
        r is Some ==> (e matches StepEvent::Stopped(f) && f == r.unwrap()),
{
    match r {
        Option::None => StepEvent::Ran,
        Option::Some(f) => StepEvent::Stopped(f),
    }
}

} // verus!
