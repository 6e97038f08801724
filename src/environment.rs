use vstd::prelude::*;

use crate::error::ScriptError;
use crate::eval::{RuntimeVal, Val};
use crate::lexer::copy_chars;

verus! {

#[derive(Debug)]
pub struct Variable {
    pub name: Vec<char>,
    pub value: RuntimeVal,
}

/// One frame of the scope chain: its bindings and the frame that encloses it.
#[derive(Debug)]
pub struct Frame {
    pub parent: Option<usize>,
    pub variables: Vec<Variable>,
}

/// The frames of a run, addressed by index. A frame's parent has a smaller
/// index than the frame itself, so the chain from any frame is finite.
#[derive(Debug)]
pub struct Environment {
    pub frames: Vec<Frame>,
}

/// A frame as a mathematical value.
pub struct FrameModel {
    pub parent: Option<usize>,
    pub vars: Seq<(Seq<char>, Val)>,
}

impl View for Frame {
    type V = FrameModel;

    open spec fn view(&self) -> FrameModel {
        FrameModel {
            parent: self.parent,
            vars: self.variables@.map_values(|v: Variable| (v.name@, v.value@)),
        }
    }
}

impl View for Environment {
    type V = Seq<FrameModel>;

    open spec fn view(&self) -> Seq<FrameModel> {
        self.frames@.map_values(|f: Frame| f@)
    }
}

/// Index of the first binding of `name` at or after `k`, or -1.
pub open spec fn find_var(vars: Seq<(Seq<char>, Val)>, name: Seq<char>, k: int) -> int
    decreases vars.len() - k,
{
    if k < 0 || k >= vars.len() {
        -1
    } else if vars[k].0 == name {
        k
    } else {
        find_var(vars, name, k + 1)
    }
}

pub open spec fn declares(fm: FrameModel, name: Seq<char>) -> bool {
    find_var(fm.vars, name, 0) >= 0
}

/// The nearest frame on the chain from `f` that declares `name`.
pub open spec fn resolve(env: Seq<FrameModel>, f: int, name: Seq<char>) -> Option<int>
    decreases f,
{
    if f < 0 || f >= env.len() {
        None
    } else if declares(env[f], name) {
        Some(f)
    } else {
        match env[f].parent {
            Some(p) => if (p as int) < f {
                resolve(env, p as int, name)
            } else {
                None
            },
            None => None,
        }
    }
}

/// A frame that resolution finds declares the name.
pub proof fn lemma_resolve_declares(env: Seq<FrameModel>, f: int, name: Seq<char>)
    ensures
        resolve(env, f, name) matches Some(g) ==> 0 <= g < env.len() && declares(env[g], name),
    decreases f,
{
    if 0 <= f < env.len() && !declares(env[f], name) {
        if let Some(p) = env[f].parent {
            if (p as int) < f {
                lemma_resolve_declares(env, p as int, name);
            }
        }
    }
}

/// The value that `name` denotes from frame `f`.
pub open spec fn lookup(env: Seq<FrameModel>, f: int, name: Seq<char>) -> Result<Val, ScriptError> {
    match resolve(env, f, name) {
        Some(g) => Ok(env[g].vars[find_var(env[g].vars, name, 0)].1),
        None => Err(ScriptError::Name),
    }
}

/// Adds a binding to frame `f`, which must not bind `name` already.
pub open spec fn declare(env: Seq<FrameModel>, f: int, name: Seq<char>, v: Val) -> Result<
    Seq<FrameModel>,
    ScriptError,
> {
    if declares(env[f], name) {
        Err(ScriptError::Name)
    } else {
        Ok(env.update(f, FrameModel { parent: env[f].parent, vars: env[f].vars.push((name, v)) }))
    }
}

/// Overwrites the binding that `name` denotes from frame `f`.
pub open spec fn assign(env: Seq<FrameModel>, f: int, name: Seq<char>, v: Val) -> Result<
    Seq<FrameModel>,
    ScriptError,
> {
    match resolve(env, f, name) {
        Some(g) => Ok(
            env.update(
                g,
                FrameModel {
                    parent: env[g].parent,
                    vars: env[g].vars.update(find_var(env[g].vars, name, 0), (name, v)),
                },
            ),
        ),
        None => Err(ScriptError::Name),
    }
}

/// Whether `a` and `b` hold the same characters.
pub fn same_name(a: &Vec<char>, b: &Vec<char>) -> (r: bool)
    ensures
        r == (a@ == b@),
{
    if a.len() != b.len() {
        return false;
    }
    let mut i: usize = 0;
    while i < a.len()
        invariant
            a@.len() == b@.len(),
            i <= a@.len(),
            a@.take(i as int) == b@.take(i as int),
        decreases a@.len() - i,
    {
        if a[i] != b[i] {
            return false;
        }
        i = i + 1;
        assert(a@.take(i as int) =~= a@.take(i - 1 as int).push(a@[i - 1]));
        assert(b@.take(i as int) =~= b@.take(i - 1 as int).push(b@[i - 1]));
    }
    assert(a@ =~= a@.take(a@.len() as int));
    assert(b@ =~= b@.take(b@.len() as int));
    true
}

/// Index of the binding of `name` in a frame.
fn find_in_frame(frame: &Frame, name: &Vec<char>) -> (r: Option<usize>)
    ensures
        match r {
            Some(k) => find_var(frame@.vars, name@, 0) == k as int && k < frame.variables@.len(),
            None => find_var(frame@.vars, name@, 0) == -1,
        },
{
    let mut k: usize = 0;
    while k < frame.variables.len()
        invariant
            k <= frame.variables@.len(),
            find_var(frame@.vars, name@, 0) == find_var(frame@.vars, name@, k as int),
        decreases frame.variables@.len() - k,
    {
        if same_name(&frame.variables[k].name, name) {
            return Some(k);
        }
        k = k + 1;
    }
    None
}

/// The nearest frame on the chain from `frame` that declares `name`.
pub fn resolve_env(env: &Environment, frame: usize, name: &Vec<char>) -> (r: Option<usize>)
    ensures
        match r {
            Some(g) => resolve(env@, frame as int, name@) == Some(g as int) && g < env.frames@.len(),
            None => resolve(env@, frame as int, name@) is None,
        },
{
    let mut f: usize = frame;
    loop
        invariant
            resolve(env@, frame as int, name@) == resolve(env@, f as int, name@),
        decreases f,
    {
        if f >= env.frames.len() {
            return None;
        }
        match find_in_frame(&env.frames[f], name) {
            Some(_) => {
                return Some(f);
            },
            None => {},
        }
        match env.frames[f].parent {
            Some(p) => {
                if p < f {
                    f = p;
                } else {
                    return None;
                }
            },
            None => {
                return None;
            },
        }
    }
}

/// Adds a binding of `identifier` to `frame`; a second binding of one name
/// in one frame is a Name error. Returns the value bound.
pub fn declare_variable(env: &mut Environment, frame: usize, identifier: &Vec<char>, value: &RuntimeVal) -> (r:
    Result<RuntimeVal, ScriptError>)
    requires
        frame < old(env).frames@.len(),
    ensures
        final(env).frames@.len() == old(env).frames@.len(),
        match r {
            Ok(v) => declare(old(env)@, frame as int, identifier@, value@) == Ok::<
                Seq<FrameModel>,
                ScriptError,
            >(final(env)@) && v@ == value@,
            Err(e) => declare(old(env)@, frame as int, identifier@, value@) == Err::<
                Seq<FrameModel>,
                ScriptError,
            >(e) && final(env)@ == old(env)@,
        },
{
    match find_in_frame(&env.frames[frame], identifier) {
        Some(_) => {
            return Err(ScriptError::Name);
        },
        None => {},
    }
    let ghost before = env@;
    let ghost fm = env.frames@[frame as int];
    let var = Variable { name: copy_chars(identifier), value: value.duplicate() };
    env.frames[frame].variables.push(var);
    proof {
        let f2 = env.frames@[frame as int];
        assert(f2@.vars =~= fm@.vars.push((identifier@, value@)));
        assert(env@ =~= before.update(
            frame as int,
            FrameModel { parent: before[frame as int].parent, vars: before[frame as int].vars.push((identifier@, value@)) },
        ));
    }
    Ok(value.duplicate())
}

/// Overwrites the binding that `identifier` denotes from `frame`; a name
/// bound on no frame of the chain is a Name error. Returns `Null`.
pub fn assign_variable(env: &mut Environment, frame: usize, identifier: &Vec<char>, value: &RuntimeVal) -> (r:
    Result<RuntimeVal, ScriptError>)
    ensures
        final(env).frames@.len() == old(env).frames@.len(),
        match r {
            Ok(v) => assign(old(env)@, frame as int, identifier@, value@) == Ok::<
                Seq<FrameModel>,
                ScriptError,
            >(final(env)@) && v@ == Val::Null,
            Err(e) => assign(old(env)@, frame as int, identifier@, value@) == Err::<
                Seq<FrameModel>,
                ScriptError,
            >(e) && final(env)@ == old(env)@,
        },
{
    let g = match resolve_env(env, frame, identifier) {
        None => {
            return Err(ScriptError::Name);
        },
        Some(g) => g,
    };
    proof {
        lemma_resolve_declares(env@, frame as int, identifier@);
    }
    let k = match find_in_frame(&env.frames[g], identifier) {
        None => {
            return Err(ScriptError::Name);
        },
        Some(k) => k,
    };
    let ghost before = env@;
    let ghost fm = env.frames@[g as int];
    let var = Variable { name: copy_chars(identifier), value: value.duplicate() };
    env.frames[g].variables[k] = var;
    proof {
        let f2 = env.frames@[g as int];
        assert(f2@.vars =~= fm@.vars.update(k as int, (identifier@, value@)));
        assert(env@ =~= before.update(
            g as int,
            FrameModel { parent: before[g as int].parent, vars: before[g as int].vars.update(k as int, (identifier@, value@)) },
        ));
    }
    Ok(RuntimeVal::null())
}

/// The value that `identifier` denotes from `frame`; a name bound on no
/// frame of the chain is a Name error.
pub fn lookup_variable(env: &Environment, frame: usize, identifier: &Vec<char>) -> (r: Result<
    RuntimeVal,
    ScriptError,
>)
    ensures
        match r {
            Ok(v) => lookup(env@, frame as int, identifier@) == Ok::<Val, ScriptError>(v@),
            Err(e) => lookup(env@, frame as int, identifier@) == Err::<Val, ScriptError>(e),
        },
{
    let g = match resolve_env(env, frame, identifier) {
        None => {
            return Err(ScriptError::Name);
        },
        Some(g) => g,
    };
    proof {
        lemma_resolve_declares(env@, frame as int, identifier@);
    }
    let k = match find_in_frame(&env.frames[g], identifier) {
        None => {
            return Err(ScriptError::Name);
        },
        Some(k) => k,
    };
    Ok(env.frames[g].variables[k].value.duplicate())
}

proof fn lemma_find_facts(vars: Seq<(Seq<char>, Val)>, name: Seq<char>, k: int)
    requires
        0 <= k,
    ensures
        find_var(vars, name, k) == -1 ==> forall|j: int| k <= j < vars.len() ==> vars[j].0 != name,
        find_var(vars, name, k) != -1 ==> {
            let r = find_var(vars, name, k);
            &&& k <= r < vars.len()
            &&& vars[r].0 == name
            &&& forall|j: int| k <= j < r ==> vars[j].0 != name
        },
    decreases vars.len() - k,
{
    if k < vars.len() && vars[k].0 != name {
        lemma_find_facts(vars, name, k + 1);
    }
}

proof fn lemma_find_pushed(vars: Seq<(Seq<char>, Val)>, name: Seq<char>, x: Val, k: int)
    requires
        0 <= k <= vars.len(),
        forall|j: int| k <= j < vars.len() ==> vars[j].0 != name,
    ensures
        find_var(vars.push((name, x)), name, k) == vars.len(),
    decreases vars.len() - k,
{
    let w = vars.push((name, x));
    if k < vars.len() {
        assert(w[k] == vars[k]);
        lemma_find_pushed(vars, name, x, k + 1);
    }
}

proof fn lemma_find_updated(vars: Seq<(Seq<char>, Val)>, name: Seq<char>, x: Val, i: int, k: int)
    requires
        0 <= k <= i < vars.len(),
        vars[i].0 == name,
        forall|j: int| k <= j < i ==> vars[j].0 != name,
    ensures
        find_var(vars.update(i, (name, x)), name, k) == i,
    decreases i - k,
{
    let w = vars.update(i, (name, x));
    if k < i {
        assert(w[k] == vars[k]);
        lemma_find_updated(vars, name, x, i, k + 1);
    }
}

/// Declaring a name that a frame already binds is a Name error. Declaring
/// it again in a frame nested in that one succeeds: a lookup from the
/// nested frame sees the new binding, and once the nested frame is
/// discarded a lookup from the outer frame sees the outer binding.
pub proof fn law_redeclaration_and_shadowing(
    env: Seq<FrameModel>,
    f: usize,
    name: Seq<char>,
    v: Val,
    w: Val,
)
    requires
        f < env.len(),
    ensures
        match declare(env, f as int, name, v) {
            Err(e) => e == ScriptError::Name && declares(env[f as int], name),
            Ok(env1) => {
                &&& declare(env1, f as int, name, w) == Err::<Seq<FrameModel>, ScriptError>(
                    ScriptError::Name,
                )
                &&& match declare(
                    env1.push(FrameModel { parent: Some(f), vars: Seq::empty() }),
                    env1.len() as int,
                    name,
                    w,
                ) {
                    Ok(env2) => lookup(env2, env1.len() as int, name) == Ok::<Val, ScriptError>(w)
                        && lookup(env2.drop_last(), f as int, name) == Ok::<Val, ScriptError>(v),
                    Err(_) => false,
                }
            },
        },
{
    let fi = f as int;
    if !declares(env[fi], name) {
        lemma_find_facts(env[fi].vars, name, 0);
        let env1 = env.update(fi, FrameModel { parent: env[fi].parent, vars: env[fi].vars.push((name, v)) });
        lemma_find_pushed(env[fi].vars, name, v, 0);
        assert(declares(env1[fi], name));
        let g = env1.len() as int;
        let inner = env1.push(FrameModel { parent: Some(f), vars: Seq::empty() });
        assert(!declares(inner[g], name));
        let env2 = inner.update(g, FrameModel { parent: inner[g].parent, vars: inner[g].vars.push((name, w)) });
        assert(env2[g].vars[0].0 == name);
        assert(find_var(env2[g].vars, name, 0) == 0);
        assert(env2.drop_last() =~= env1);
        assert(resolve(env1, fi, name) == Some(fi));
    }
}

/// Assigning to a name that no frame on the chain binds is a Name error.
pub proof fn law_assignment_to_undeclared(env: Seq<FrameModel>, f: int, name: Seq<char>, v: Val)
    requires
        resolve(env, f, name) is None,
    ensures
        assign(env, f, name, v) == Err::<Seq<FrameModel>, ScriptError>(ScriptError::Name),
{
}

/// Assigning from a nested frame to a name that only its enclosing frame
/// binds changes that enclosing binding: a lookup from the enclosing frame
/// sees the new value, also once the nested frame is discarded.
pub proof fn law_assignment_reaches_enclosing(
    env: Seq<FrameModel>,
    p: usize,
    name: Seq<char>,
    v: Val,
)
    requires
        p < env.len() - 1,
        env.last().parent == Some(p),
        declares(env[p as int], name),
        !declares(env.last(), name),
    ensures
        match assign(env, env.len() - 1, name, v) {
            Ok(env2) => lookup(env2, env.len() - 1, name) == Ok::<Val, ScriptError>(v)
                && lookup(env2.drop_last(), p as int, name) == Ok::<Val, ScriptError>(v),
            Err(_) => false,
        },
{
    let f = p as int;
    let g = env.len() - 1;
    lemma_find_facts(env[f].vars, name, 0);
    assert(resolve(env, f, name) == Some(f));
    assert(resolve(env, g, name) == Some(f));
    let i = find_var(env[f].vars, name, 0);
    let env2 = env.update(f, FrameModel { parent: env[f].parent, vars: env[f].vars.update(i, (name, v)) });
    lemma_find_updated(env[f].vars, name, v, i, 0);
    assert(env2[g] == env[g]);
    assert(resolve(env2, f, name) == Some(f));
    assert(resolve(env2, g, name) == Some(f));
    assert(env2.drop_last()[f] == env2[f]);
    assert(resolve(env2.drop_last(), f, name) == Some(f));
}

} // verus!
