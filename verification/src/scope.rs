//! Lexical scopes, symbols, and the symbol declare/lookup protocol.
//!
//! A `ScopeStack` owns a stack of nested scopes; the last frame is the
//! innermost one. Lookup walks outward from the innermost frame, so an inner
//! binding shadows an outer one of the same name. Names are unique within
//! one frame, except that a function prototype may later be upgraded in
//! place by exactly one matching definition.

use vstd::prelude::*;

verus! {

/// The closed set of types known to the front end. Equality is structural.
#[derive(Clone, Copy, Debug, PartialEq, Eq, Structural)]
pub enum Type {
    Int,
    Float,
    Bool,
    String,
    Void,
    Unknown,
}

/// Failures of the declare/lookup protocol.
#[derive(Clone, Copy, Debug, PartialEq, Eq, Structural)]
pub enum ScopeError {
    UndeclaredIdentifier,
    FoundButWrongKind,
    UndefinedFunctionCalled,
    FunctionPrototypeRedefinition,
    FunctionRedefinition,
    FunctionRedefinitionAsPrototype,
    FunctionSignatureConflict,
    VariableRedefinition,
    VariableUsedBeforeInit,
    NoCurrentScope,
    BreakMustInsideLoop,
}

/// What a name is bound to: a variable, a parameter, or a function with its
/// signature and a flag telling a bare prototype from a full definition.
#[derive(Debug, Clone)]
pub enum SymbolKind {
    Variable { mutable: bool },
    Parameter,
    Function { params: Vec<Type>, return_type: Type, defined: bool },
}

/// Mathematical model of a `SymbolKind`.
#[verifier::ext_equal]
pub ghost enum SymbolKindV {
    Variable { mutable: bool },
    Parameter,
    Function { params: Seq<Type>, return_type: Type, defined: bool },
}

impl View for SymbolKind {
    type V = SymbolKindV;

    open spec fn view(&self) -> SymbolKindV {
        match self {
            SymbolKind::Variable { mutable } => SymbolKindV::Variable { mutable: *mutable },
            SymbolKind::Parameter => SymbolKindV::Parameter,
            SymbolKind::Function { params, return_type, defined } => SymbolKindV::Function {
                params: params@,
                return_type: *return_type,
                defined: *defined,
            },
        }
    }
}

/// One binding: name, kind, the level of the owning scope, the declared
/// type, and whether the binding has been initialized.
#[derive(Debug, Clone)]
pub struct Symbol {
    pub name: String,
    pub kind: SymbolKind,
    pub scope_level: usize,
    pub ty: Option<Type>,
    pub initialized: bool,
}

/// Mathematical model of a `Symbol`.
#[verifier::ext_equal]
pub ghost struct SymbolV {
    pub name: Seq<char>,
    pub kind: SymbolKindV,
    pub scope_level: nat,
    pub ty: Option<Type>,
    pub initialized: bool,
}

impl View for Symbol {
    type V = SymbolV;

    open spec fn view(&self) -> SymbolV {
        SymbolV {
            name: self.name@,
            kind: self.kind@,
            scope_level: self.scope_level as nat,
            ty: self.ty,
            initialized: self.initialized,
        }
    }
}

impl Symbol {
    /// Build a variable binding.
    pub fn new_variable(name: String, ty: Type, mutable: bool, scope_level: usize, initialized: bool) -> (s: Symbol)
        ensures
            s@ == (SymbolV {
                name: name@,
                kind: SymbolKindV::Variable { mutable },
                scope_level: scope_level as nat,
                ty: Some(ty),
                initialized,
            }),
    {
        Symbol {
            name,
            kind: SymbolKind::Variable { mutable },
            scope_level,
            ty: Some(ty),
            initialized,
        }
    }

    /// Build a parameter binding; parameters count as initialized.
    pub fn new_parameter(name: String, ty: Type, scope_level: usize) -> (s: Symbol)
        ensures
            s@ == (SymbolV {
                name: name@,
                kind: SymbolKindV::Parameter,
                scope_level: scope_level as nat,
                ty: Some(ty),
                initialized: true,
            }),
    {
        Symbol { name, kind: SymbolKind::Parameter, scope_level, ty: Some(ty), initialized: true }
    }

    /// Build a function binding that is only a prototype.
    pub fn new_function_prototype(name: String, params: Vec<Type>, return_type: Type, scope_level: usize) -> (s: Symbol)
        ensures
            s@ == (SymbolV {
                name: name@,
                kind: SymbolKindV::Function { params: params@, return_type, defined: false },
                scope_level: scope_level as nat,
                ty: Some(return_type),
                initialized: true,
            }),
    {
        Symbol {
            name,
            kind: SymbolKind::Function { params, return_type, defined: false },
            scope_level,
            ty: Some(return_type),
            initialized: true,
        }
    }

    /// Build a function binding that carries a definition.
    pub fn new_function_definition(name: String, params: Vec<Type>, return_type: Type, scope_level: usize) -> (s: Symbol)
        ensures
            s@ == (SymbolV {
                name: name@,
                kind: SymbolKindV::Function { params: params@, return_type, defined: true },
                scope_level: scope_level as nat,
                ty: Some(return_type),
                initialized: true,
            }),
    {
        Symbol {
            name,
            kind: SymbolKind::Function { params, return_type, defined: true },
            scope_level,
            ty: Some(return_type),
            initialized: true,
        }
    }
}

/// One scope frame: its bindings, in declaration order, and its nesting
/// level (0 for the global scope).
#[derive(Debug)]
pub struct Scope {
    symbols: Vec<Symbol>,
    level: usize,
}

/// Mathematical model of a `Scope`.
#[verifier::ext_equal]
pub ghost struct ScopeV {
    pub symbols: Seq<SymbolV>,
    pub level: nat,
}

impl View for Scope {
    type V = ScopeV;

    closed spec fn view(&self) -> ScopeV {
        ScopeV {
            symbols: Seq::new(self.symbols@.len(), |i: int| self.symbols@[i]@),
            level: self.level as nat,
        }
    }
}

impl Scope {
    /// Build an empty scope frame at the given nesting level.
    pub fn new(level: usize) -> (s: Scope)
        ensures
            s@.symbols =~= Seq::<SymbolV>::empty(),
            s@.level == level as nat,
    {
        Scope { symbols: Vec::new(), level }
    }
}

/// Does the frame bind `name`?
pub open spec fn frame_has(f: ScopeV, name: Seq<char>) -> bool {
    exists|i: int| 0 <= i < f.symbols.len() && f.symbols[i].name == name
}

/// Index of the binding of `name` in the frame; meaningful when
/// `frame_has(f, name)` holds and the frame is well formed.
pub open spec fn frame_idx(f: ScopeV, name: Seq<char>) -> int {
    choose|i: int| 0 <= i < f.symbols.len() && f.symbols[i].name == name
}

/// The binding of `name` in the frame.
pub open spec fn frame_get(f: ScopeV, name: Seq<char>) -> SymbolV {
    f.symbols[frame_idx(f, name)]
}

/// Names are unique within one frame.
pub open spec fn frame_wf(f: ScopeV) -> bool {
    forall|i: int, j: int|
        0 <= i < j < f.symbols.len() ==> (#[trigger] f.symbols[i]).name != (#[trigger] f.symbols[j]).name
}

/// Mathematical model of a `ScopeStack`: the frames, outermost first, and
/// the loop-nesting depth that governs `break` legality.
#[verifier::ext_equal]
pub ghost struct StackV {
    pub frames: Seq<ScopeV>,
    pub loop_depth: nat,
}

/// Every frame has unique names, sits at the level equal to its position,
/// and stamps its symbols with that level.
pub open spec fn frames_wf(frames: Seq<ScopeV>) -> bool {
    forall|k: int| 0 <= k < frames.len() ==> {
        &&& frame_wf(#[trigger] frames[k])
        &&& frames[k].level == k
        &&& forall|i: int| 0 <= i < frames[k].symbols.len() ==> (#[trigger] frames[k].symbols[i]).scope_level == k
    }
}

/// Well-formedness of the whole stack.
pub open spec fn stack_wf(s: StackV) -> bool {
    frames_wf(s.frames)
}

/// Walk outward from the innermost frame; the first frame that binds the
/// name decides.
pub open spec fn lookup_frames(frames: Seq<ScopeV>, name: Seq<char>) -> Option<SymbolV>
    decreases frames.len(),
{
    if frames.len() == 0 {
        None
    } else if frame_has(frames.last(), name) {
        Some(frame_get(frames.last(), name))
    } else {
        lookup_frames(frames.drop_last(), name)
    }
}

/// Outcome of `lookup_variable`: only variable and parameter bindings are
/// accepted, and only initialized ones.
pub open spec fn variable_lookup_spec(s: StackV, name: Seq<char>) -> Result<SymbolV, ScopeError> {
    match lookup_frames(s.frames, name) {
        None => Err(ScopeError::UndeclaredIdentifier),
        Some(sym) => match sym.kind {
            SymbolKindV::Function { .. } => Err(ScopeError::FoundButWrongKind),
            _ => if !sym.initialized {
                Err(ScopeError::VariableUsedBeforeInit)
            } else {
                Ok(sym)
            },
        },
    }
}

/// Outcome of `lookup_function`: only a function binding with a definition
/// is accepted; a prototype-only or absent binding both fail the same way.
pub open spec fn function_lookup_spec(s: StackV, name: Seq<char>) -> Result<SymbolV, ScopeError> {
    match lookup_frames(s.frames, name) {
        None => Err(ScopeError::UndefinedFunctionCalled),
        Some(sym) => match sym.kind {
            SymbolKindV::Function { defined, .. } => if defined {
                Ok(sym)
            } else {
                Err(ScopeError::UndefinedFunctionCalled)
            },
            _ => Err(ScopeError::FoundButWrongKind),
        },
    }
}

/// Effect of `enter_scope`: push an empty frame one level deeper.
pub open spec fn enter_scope_spec(s: StackV) -> StackV {
    StackV {
        frames: s.frames.push(ScopeV { symbols: Seq::empty(), level: s.frames.len() }),
        loop_depth: s.loop_depth,
    }
}

/// Effect of `exit_scope`: discard the innermost frame.
pub open spec fn exit_scope_spec(s: StackV) -> StackV {
    StackV { frames: s.frames.drop_last(), loop_depth: s.loop_depth }
}

/// Replace the innermost frame's symbol sequence.
pub open spec fn with_top_symbols(s: StackV, symbols: Seq<SymbolV>) -> StackV {
    StackV {
        frames: s.frames.update(
            s.frames.len() - 1,
            ScopeV { symbols, level: s.frames.last().level },
        ),
        loop_depth: s.loop_depth,
    }
}

/// Effect and outcome of `insert_variable`.
pub open spec fn insert_variable_spec(s: StackV, name: Seq<char>, ty: Type, mutable: bool, initialized: bool) -> (StackV, Result<(), ScopeError>) {
    if s.frames.len() == 0 {
        (s, Err(ScopeError::NoCurrentScope))
    } else if frame_has(s.frames.last(), name) {
        (s, Err(ScopeError::VariableRedefinition))
    } else {
        let sym = SymbolV {
            name,
            kind: SymbolKindV::Variable { mutable },
            scope_level: s.frames.last().level,
            ty: Some(ty),
            initialized,
        };
        (with_top_symbols(s, s.frames.last().symbols.push(sym)), Ok(()))
    }
}

/// Effect and outcome of `insert_function_prototype`: the six-way merge,
/// seen from a prototype insertion.
pub open spec fn insert_prototype_spec(s: StackV, name: Seq<char>, params: Seq<Type>, return_type: Type) -> (StackV, Result<(), ScopeError>) {
    if s.frames.len() == 0 {
        (s, Err(ScopeError::NoCurrentScope))
    } else if frame_has(s.frames.last(), name) {
        let existing = frame_get(s.frames.last(), name);
        match existing.kind {
            SymbolKindV::Function { params: ep, return_type: er, defined } => if defined {
                (s, Err(ScopeError::FunctionRedefinitionAsPrototype))
            } else if ep == params && er == return_type {
                (s, Err(ScopeError::FunctionPrototypeRedefinition))
            } else {
                (s, Err(ScopeError::FunctionSignatureConflict))
            },
            _ => (s, Err(ScopeError::VariableRedefinition)),
        }
    } else {
        let sym = SymbolV {
            name,
            kind: SymbolKindV::Function { params, return_type, defined: false },
            scope_level: s.frames.last().level,
            ty: Some(return_type),
            initialized: true,
        };
        (with_top_symbols(s, s.frames.last().symbols.push(sym)), Ok(()))
    }
}

/// Effect and outcome of `insert_function_definition`: the six-way merge,
/// seen from a definition insertion. Upgrading a matching prototype is the
/// only allowed mutation of an existing binding.
pub open spec fn insert_definition_spec(s: StackV, name: Seq<char>, params: Seq<Type>, return_type: Type) -> (StackV, Result<(), ScopeError>) {
    if s.frames.len() == 0 {
        (s, Err(ScopeError::NoCurrentScope))
    } else if frame_has(s.frames.last(), name) {
        let existing = frame_get(s.frames.last(), name);
        match existing.kind {
            SymbolKindV::Function { params: ep, return_type: er, defined } => if defined {
                (s, Err(ScopeError::FunctionRedefinition))
            } else if ep != params || er != return_type {
                (s, Err(ScopeError::FunctionSignatureConflict))
            } else {
                let sym = SymbolV {
                    name,
                    kind: SymbolKindV::Function { params, return_type, defined: true },
                    scope_level: s.frames.last().level,
                    ty: Some(return_type),
                    initialized: true,
                };
                (
                    with_top_symbols(
                        s,
                        s.frames.last().symbols.update(frame_idx(s.frames.last(), name), sym),
                    ),
                    Ok(()),
                )
            },
            _ => (s, Err(ScopeError::VariableRedefinition)),
        }
    } else {
        let sym = SymbolV {
            name,
            kind: SymbolKindV::Function { params, return_type, defined: true },
            scope_level: s.frames.last().level,
            ty: Some(return_type),
            initialized: true,
        };
        (with_top_symbols(s, s.frames.last().symbols.push(sym)), Ok(()))
    }
}

/// Effect and outcome of `mark_initialized` on a frame sequence: the
/// innermost binding of the name decides, as in lookup.
pub open spec fn mark_in_frames(frames: Seq<ScopeV>, name: Seq<char>) -> (Seq<ScopeV>, Result<(), ScopeError>)
    decreases frames.len(),
{
    if frames.len() == 0 {
        (frames, Err(ScopeError::UndeclaredIdentifier))
    } else if frame_has(frames.last(), name) {
        let sym = frame_get(frames.last(), name);
        match sym.kind {
            SymbolKindV::Function { .. } => (frames, Err(ScopeError::FoundButWrongKind)),
            _ => {
                let upd = SymbolV {
                    name: sym.name,
                    kind: sym.kind,
                    scope_level: sym.scope_level,
                    ty: sym.ty,
                    initialized: true,
                };
                (
                    frames.update(
                        frames.len() - 1,
                        ScopeV {
                            symbols: frames.last().symbols.update(frame_idx(frames.last(), name), upd),
                            level: frames.last().level,
                        },
                    ),
                    Ok(()),
                )
            },
        }
    } else {
        let (rest, r) = mark_in_frames(frames.drop_last(), name);
        (rest.push(frames.last()), r)
    }
}

/// Effect and outcome of `mark_initialized`.
pub open spec fn mark_initialized_spec(s: StackV, name: Seq<char>) -> (StackV, Result<(), ScopeError>) {
    let (frames, r) = mark_in_frames(s.frames, name);
    (StackV { frames, loop_depth: s.loop_depth }, r)
}

/// If a frame is well formed and `name` stands at position `j`, then `j` is
/// the position `frame_idx` denotes.
pub proof fn lemma_frame_idx_unique(f: ScopeV, j: int, name: Seq<char>)
    requires
        frame_wf(f),
        0 <= j < f.symbols.len(),
        f.symbols[j].name == name,
    ensures
        frame_has(f, name),
        frame_idx(f, name) == j,
        frame_get(f, name) == f.symbols[j],
{
    assert(frame_has(f, name));
    let i = frame_idx(f, name);
    if i < j {
        assert(f.symbols[i].name != f.symbols[j].name);
    } else if i > j {
        assert(f.symbols[j].name != f.symbols[i].name);
    }
}

/// Lookup resolves to the innermost frame that binds the name.
pub proof fn lemma_lookup_found(frames: Seq<ScopeV>, k: int, name: Seq<char>)
    requires
        0 <= k < frames.len(),
        frame_has(frames[k], name),
        forall|kk: int| k < kk < frames.len() ==> !frame_has(#[trigger] frames[kk], name),
    ensures
        lookup_frames(frames, name) == Some(frame_get(frames[k], name)),
    decreases frames.len(),
{
    if k == frames.len() - 1 {
    } else {
        assert(frames.last() == frames[frames.len() - 1]);
        lemma_lookup_found(frames.drop_last(), k, name);
        assert(frames.drop_last()[k] == frames[k]);
    }
}

/// A name bound in no frame does not resolve.
pub proof fn lemma_lookup_none(frames: Seq<ScopeV>, name: Seq<char>)
    requires
        forall|kk: int| 0 <= kk < frames.len() ==> !frame_has(#[trigger] frames[kk], name),
    ensures
        lookup_frames(frames, name) is None,
    decreases frames.len(),
{
    if frames.len() > 0 {
        lemma_lookup_none(frames.drop_last(), name);
    }
}

/// Appending a fresh, correctly stamped name to the innermost frame keeps
/// the stack well formed.
proof fn lemma_push_top_preserves_wf(s: StackV, sym: SymbolV)
    requires
        stack_wf(s),
        s.frames.len() > 0,
        !frame_has(s.frames.last(), sym.name),
        sym.scope_level == s.frames.len() - 1,
    ensures
        stack_wf(with_top_symbols(s, s.frames.last().symbols.push(sym))),
{
    let n = s.frames.len() - 1;
    let t = with_top_symbols(s, s.frames.last().symbols.push(sym));
    assert forall|k: int| 0 <= k < t.frames.len() implies {
        &&& frame_wf(#[trigger] t.frames[k])
        &&& t.frames[k].level == k
        &&& forall|i: int| 0 <= i < t.frames[k].symbols.len() ==> (#[trigger] t.frames[k].symbols[i]).scope_level == k
    } by {
        if k == n {
            let syms = t.frames[k].symbols;
            assert forall|i: int, j: int| 0 <= i < j < syms.len() implies (#[trigger] syms[i]).name != (#[trigger] syms[j]).name by {
                if j == syms.len() - 1 {
                    assert(syms[i] == s.frames.last().symbols[i]);
                }
            }
        }
    }
}

/// Replacing a binding by one with the same name and stamp keeps the stack
/// well formed.
proof fn lemma_update_frame_preserves_wf(s: StackV, k: int, j: int, sym: SymbolV)
    requires
        stack_wf(s),
        0 <= k < s.frames.len(),
        0 <= j < s.frames[k].symbols.len(),
        sym.name == s.frames[k].symbols[j].name,
        sym.scope_level == s.frames[k].symbols[j].scope_level,
    ensures
        stack_wf(
            StackV {
                frames: s.frames.update(
                    k,
                    ScopeV { symbols: s.frames[k].symbols.update(j, sym), level: s.frames[k].level },
                ),
                loop_depth: s.loop_depth,
            },
        ),
{
    let t = StackV {
        frames: s.frames.update(
            k,
            ScopeV { symbols: s.frames[k].symbols.update(j, sym), level: s.frames[k].level },
        ),
        loop_depth: s.loop_depth,
    };
    assert forall|kk: int| 0 <= kk < t.frames.len() implies {
        &&& frame_wf(#[trigger] t.frames[kk])
        &&& t.frames[kk].level == kk
        &&& forall|i: int| 0 <= i < t.frames[kk].symbols.len() ==> (#[trigger] t.frames[kk].symbols[i]).scope_level == kk
    } by {
        if kk == k {
            let syms = t.frames[kk].symbols;
            assert forall|a: int, b: int| 0 <= a < b < syms.len() implies (#[trigger] syms[a]).name != (#[trigger] syms[b]).name by {
                assert(s.frames[k].symbols[a].name != s.frames[k].symbols[b].name);
            }
            assert forall|i: int| 0 <= i < syms.len() implies (#[trigger] syms[i]).scope_level == kk by {
                assert(s.frames[k].symbols[i].scope_level == kk);
            }
        }
    }
}

/// `mark_in_frames` acts on the innermost frame that binds the name.
proof fn lemma_mark_found(frames: Seq<ScopeV>, k: int, name: Seq<char>)
    requires
        0 <= k < frames.len(),
        frame_has(frames[k], name),
        forall|kk: int| k < kk < frames.len() ==> !frame_has(#[trigger] frames[kk], name),
    ensures
        ({
            let sym = frame_get(frames[k], name);
            match sym.kind {
                SymbolKindV::Function { .. } => mark_in_frames(frames, name) == (
                    frames,
                    Err::<(), ScopeError>(ScopeError::FoundButWrongKind),
                ),
                _ => {
                    let upd = SymbolV {
                        name: sym.name,
                        kind: sym.kind,
                        scope_level: sym.scope_level,
                        ty: sym.ty,
                        initialized: true,
                    };
                    mark_in_frames(frames, name) == (
                        frames.update(
                            k,
                            ScopeV {
                                symbols: frames[k].symbols.update(frame_idx(frames[k], name), upd),
                                level: frames[k].level,
                            },
                        ),
                        Ok::<(), ScopeError>(()),
                    )
                },
            }
        }),
    decreases frames.len(),
{
    let sym = frame_get(frames[k], name);
    if k == frames.len() - 1 {
        assert(frames.last() == frames[k]);
        match sym.kind {
            SymbolKindV::Function { .. } => {},
            _ => {},
        }
    } else {
        assert(!frame_has(frames.last(), name));
        lemma_mark_found(frames.drop_last(), k, name);
        assert(frames.drop_last()[k] == frames[k]);
        let (rest, r) = mark_in_frames(frames.drop_last(), name);
        match sym.kind {
            SymbolKindV::Function { .. } => {
                assert(rest.push(frames.last()) =~= frames);
            },
            _ => {
                let upd = SymbolV {
                    name: sym.name,
                    kind: sym.kind,
                    scope_level: sym.scope_level,
                    ty: sym.ty,
                    initialized: true,
                };
                let target = frames.update(
                    k,
                    ScopeV {
                        symbols: frames[k].symbols.update(frame_idx(frames[k], name), upd),
                        level: frames[k].level,
                    },
                );
                assert(rest.push(frames.last()) =~= target);
            },
        }
    }
}

/// `mark_in_frames` fails and changes nothing when no frame binds the name.
proof fn lemma_mark_none(frames: Seq<ScopeV>, name: Seq<char>)
    requires
        forall|kk: int| 0 <= kk < frames.len() ==> !frame_has(#[trigger] frames[kk], name),
    ensures
        mark_in_frames(frames, name) == (frames, Err::<(), ScopeError>(ScopeError::UndeclaredIdentifier)),
    decreases frames.len(),
{
    if frames.len() > 0 {
        lemma_mark_none(frames.drop_last(), name);
        let (rest, r) = mark_in_frames(frames.drop_last(), name);
        assert(rest.push(frames.last()) =~= frames);
    }
}

/// `insert_variable_spec` keeps the stack well formed and leaves the frame
/// count and loop depth alone.
pub proof fn lemma_insert_variable_preserves(s: StackV, name: Seq<char>, ty: Type, mutable: bool, initialized: bool)
    requires
        stack_wf(s),
    ensures
        ({
            let (t, r) = insert_variable_spec(s, name, ty, mutable, initialized);
            &&& stack_wf(t)
            &&& t.frames.len() == s.frames.len()
            &&& t.loop_depth == s.loop_depth
        }),
{
    if s.frames.len() > 0 && !frame_has(s.frames.last(), name) {
        let sym = SymbolV {
            name,
            kind: SymbolKindV::Variable { mutable },
            scope_level: s.frames.last().level,
            ty: Some(ty),
            initialized,
        };
        lemma_push_top_preserves_wf(s, sym);
    }
}

/// `insert_prototype_spec` keeps the stack well formed and leaves the
/// frame count and loop depth alone.
pub proof fn lemma_insert_prototype_preserves(s: StackV, name: Seq<char>, params: Seq<Type>, return_type: Type)
    requires
        stack_wf(s),
    ensures
        ({
            let (t, r) = insert_prototype_spec(s, name, params, return_type);
            &&& stack_wf(t)
            &&& t.frames.len() == s.frames.len()
            &&& t.loop_depth == s.loop_depth
        }),
{
    if s.frames.len() > 0 && !frame_has(s.frames.last(), name) {
        let sym = SymbolV {
            name,
            kind: SymbolKindV::Function { params, return_type, defined: false },
            scope_level: s.frames.last().level,
            ty: Some(return_type),
            initialized: true,
        };
        lemma_push_top_preserves_wf(s, sym);
    }
}

/// `insert_definition_spec` keeps the stack well formed and leaves the
/// frame count and loop depth alone.
pub proof fn lemma_insert_definition_preserves(s: StackV, name: Seq<char>, params: Seq<Type>, return_type: Type)
    requires
        stack_wf(s),
    ensures
        ({
            let (t, r) = insert_definition_spec(s, name, params, return_type);
            &&& stack_wf(t)
            &&& t.frames.len() == s.frames.len()
            &&& t.loop_depth == s.loop_depth
        }),
{
    if s.frames.len() > 0 {
        let top = s.frames.last();
        if frame_has(top, name) {
            let existing = frame_get(top, name);
            match existing.kind {
                SymbolKindV::Function { params: ep, return_type: er, defined } => {
                    if !defined && ep == params && er == return_type {
                        let sym = SymbolV {
                            name,
                            kind: SymbolKindV::Function { params, return_type, defined: true },
                            scope_level: top.level,
                            ty: Some(return_type),
                            initialized: true,
                        };
                        let j = frame_idx(top, name);
                        lemma_update_frame_preserves_wf(s, s.frames.len() - 1, j, sym);
                    }
                },
                _ => {},
            }
        } else {
            let sym = SymbolV {
                name,
                kind: SymbolKindV::Function { params, return_type, defined: true },
                scope_level: top.level,
                ty: Some(return_type),
                initialized: true,
            };
            lemma_push_top_preserves_wf(s, sym);
        }
    }
}

/// `mark_in_frames` keeps the frames well formed and their count alone.
proof fn lemma_mark_frames_preserves(frames: Seq<ScopeV>, name: Seq<char>)
    requires
        frames_wf(frames),
    ensures
        ({
            let (t, r) = mark_in_frames(frames, name);
            &&& frames_wf(t)
            &&& t.len() == frames.len()
        }),
    decreases frames.len(),
{
    if frames.len() == 0 {
    } else if frame_has(frames.last(), name) {
        let sym = frame_get(frames.last(), name);
        match sym.kind {
            SymbolKindV::Function { .. } => {},
            _ => {
                let upd = SymbolV {
                    name: sym.name,
                    kind: sym.kind,
                    scope_level: sym.scope_level,
                    ty: sym.ty,
                    initialized: true,
                };
                let j = frame_idx(frames.last(), name);
                lemma_update_frame_preserves_wf(
                    StackV { frames, loop_depth: 0 },
                    frames.len() - 1,
                    j,
                    upd,
                );
            },
        }
    } else {
        assert(frames_wf(frames.drop_last())) by {
            assert(forall|k: int| 0 <= k < frames.len() - 1 ==> frames.drop_last()[k] == frames[k]);
        }
        lemma_mark_frames_preserves(frames.drop_last(), name);
        let (rest, r) = mark_in_frames(frames.drop_last(), name);
        let t = rest.push(frames.last());
        assert forall|k: int| 0 <= k < t.len() implies {
            &&& frame_wf(#[trigger] t[k])
            &&& t[k].level == k
            &&& forall|i: int| 0 <= i < t[k].symbols.len() ==> (#[trigger] t[k].symbols[i]).scope_level == k
        } by {
            if k < t.len() - 1 {
                assert(t[k] == rest[k]);
            } else {
                assert(t[k] == frames.last());
                assert(frames[frames.len() - 1] == frames.last());
            }
        }
    }
}

/// `mark_initialized_spec` keeps the stack well formed and leaves the
/// frame count and loop depth alone.
pub proof fn lemma_mark_initialized_preserves(s: StackV, name: Seq<char>)
    requires
        stack_wf(s),
    ensures
        ({
            let (t, r) = mark_initialized_spec(s, name);
            &&& stack_wf(t)
            &&& t.frames.len() == s.frames.len()
            &&& t.loop_depth == s.loop_depth
        }),
{
    lemma_mark_frames_preserves(s.frames, name);
}

/// Dropping the innermost frame keeps the remaining frames well formed.
pub proof fn lemma_exit_scope_preserves(s: StackV)
    requires
        stack_wf(s),
        s.frames.len() > 0,
    ensures
        stack_wf(exit_scope_spec(s)),
        exit_scope_spec(s).frames.len() == s.frames.len() - 1,
{
    assert(forall|k: int| 0 <= k < s.frames.len() - 1 ==> s.frames.drop_last()[k] == s.frames[k]);
}

/// Opening a scope keeps the stack well formed.
pub proof fn lemma_enter_scope_preserves(s: StackV)
    requires
        stack_wf(s),
    ensures
        stack_wf(enter_scope_spec(s)),
        enter_scope_spec(s).frames.len() == s.frames.len() + 1,
{
}

/// After a balanced `enter_scope`/`exit_scope` pair, a name declared only
/// in the inner scope no longer resolves: whatever bindings `inner`
/// accumulated, popping it restores the outer frames exactly, and a name
/// bound nowhere outside resolves to `UndeclaredIdentifier`.
pub proof fn lemma_scope_exit_forgets_inner(s: StackV, inner: ScopeV, name: Seq<char>)
    requires
        forall|k: int| 0 <= k < s.frames.len() ==> !frame_has(#[trigger] s.frames[k], name),
    ensures
        ({
            let during = StackV { frames: s.frames.push(inner), loop_depth: s.loop_depth };
            let after = exit_scope_spec(during);
            &&& after.frames == s.frames
            &&& variable_lookup_spec(after, name) == Err::<SymbolV, ScopeError>(
                ScopeError::UndeclaredIdentifier,
            )
        }),
{
    lemma_lookup_none(s.frames, name);
    assert(s.frames.push(inner).drop_last() =~= s.frames);
}

/// Shadowing: while an inner frame binding `name` is on top, it hides any
/// outer binding; as soon as it is popped, the outer binding resolves
/// again, unchanged.
pub proof fn lemma_shadowing(s: StackV, inner: ScopeV, name: Seq<char>)
    requires
        frame_has(inner, name),
    ensures
        ({
            let during = StackV { frames: s.frames.push(inner), loop_depth: s.loop_depth };
            &&& lookup_frames(during.frames, name) == Some(frame_get(inner, name))
            &&& lookup_frames(exit_scope_spec(during).frames, name) == lookup_frames(s.frames, name)
        }),
{
    let during = StackV { frames: s.frames.push(inner), loop_depth: s.loop_depth };
    assert(during.frames.last() == inner);
    assert(during.frames.drop_last() =~= s.frames);
}

/// Declaring the same variable name twice in one scope: the first
/// insertion succeeds, the second fails with `VariableRedefinition` and
/// leaves the first binding unchanged.
pub proof fn lemma_variable_redefinition(s: StackV, name: Seq<char>, ty1: Type, m1: bool, i1: bool, ty2: Type, m2: bool, i2: bool)
    requires
        stack_wf(s),
        s.frames.len() > 0,
        !frame_has(s.frames.last(), name),
    ensures
        ({
            let (s1, r1) = insert_variable_spec(s, name, ty1, m1, i1);
            let (s2, r2) = insert_variable_spec(s1, name, ty2, m2, i2);
            &&& r1 == Ok::<(), ScopeError>(())
            &&& r2 == Err::<(), ScopeError>(ScopeError::VariableRedefinition)
            &&& s2 == s1
            &&& frame_get(s1.frames.last(), name) == (SymbolV {
                name,
                kind: SymbolKindV::Variable { mutable: m1 },
                scope_level: s.frames.last().level,
                ty: Some(ty1),
                initialized: i1,
            })
        }),
{
    let sym = SymbolV {
        name,
        kind: SymbolKindV::Variable { mutable: m1 },
        scope_level: s.frames.last().level,
        ty: Some(ty1),
        initialized: i1,
    };
    let (s1, r1) = insert_variable_spec(s, name, ty1, m1, i1);
    lemma_push_top_preserves_wf(s, sym);
    let top1 = s1.frames.last();
    assert(top1.symbols == s.frames.last().symbols.push(sym));
    assert(top1.symbols[top1.symbols.len() - 1] == sym);
    lemma_frame_idx_unique(top1, top1.symbols.len() - 1, name);
}

/// Prototype-to-definition merge: a prototype may be followed by exactly
/// one matching-signature definition, which upgrades the binding in place;
/// `lookup_function` then succeeds, and a further definition fails with
/// `FunctionRedefinition`, changing nothing.
pub proof fn lemma_prototype_definition_merge(s: StackV, name: Seq<char>, params: Seq<Type>, ret: Type)
    requires
        stack_wf(s),
        s.frames.len() > 0,
        !frame_has(s.frames.last(), name),
    ensures
        ({
            let (s1, r1) = insert_prototype_spec(s, name, params, ret);
            let (s2, r2) = insert_definition_spec(s1, name, params, ret);
            let (s3, r3) = insert_definition_spec(s2, name, params, ret);
            &&& r1 == Ok::<(), ScopeError>(())
            &&& r2 == Ok::<(), ScopeError>(())
            &&& function_lookup_spec(s2, name) == Ok::<SymbolV, ScopeError>(
                SymbolV {
                    name,
                    kind: SymbolKindV::Function { params, return_type: ret, defined: true },
                    scope_level: s.frames.last().level,
                    ty: Some(ret),
                    initialized: true,
                },
            )
            &&& r3 == Err::<(), ScopeError>(ScopeError::FunctionRedefinition)
            &&& s3 == s2
        }),
{
    let proto = SymbolV {
        name,
        kind: SymbolKindV::Function { params, return_type: ret, defined: false },
        scope_level: s.frames.last().level,
        ty: Some(ret),
        initialized: true,
    };
    let def = SymbolV {
        name,
        kind: SymbolKindV::Function { params, return_type: ret, defined: true },
        scope_level: s.frames.last().level,
        ty: Some(ret),
        initialized: true,
    };
    let (s1, r1) = insert_prototype_spec(s, name, params, ret);
    lemma_push_top_preserves_wf(s, proto);
    let top1 = s1.frames.last();
    let j = s.frames.last().symbols.len() as int;
    assert(top1.symbols[j] == proto);
    lemma_frame_idx_unique(top1, j, name);
    assert(frame_get(top1, name) == proto);
    let (s2, r2) = insert_definition_spec(s1, name, params, ret);
    assert(s2.frames.last().symbols == top1.symbols.update(j, def));
    lemma_update_frame_preserves_wf(s1, s1.frames.len() - 1, j, def);
    let top2 = s2.frames.last();
    assert(top2.symbols[j] == def);
    lemma_frame_idx_unique(top2, j, name);
    assert(frame_get(top2, name) == def);
    lemma_lookup_found(s2.frames, s2.frames.len() - 1, name);
}

/// The chain of nested scopes, with a loop-depth counter that tracks, by
/// itself, whether a `break` is currently legal.
#[derive(Debug)]
pub struct ScopeStack {
    scopes: Vec<Scope>,
    loop_depth: usize,
}

impl View for ScopeStack {
    type V = StackV;

    closed spec fn view(&self) -> StackV {
        StackV {
            frames: Seq::new(self.scopes@.len(), |i: int| self.scopes@[i]@),
            loop_depth: self.loop_depth as nat,
        }
    }
}

impl ScopeStack {
    /// A stack with no open scope and no enclosing loop.
    pub fn new() -> (s: ScopeStack)
        ensures
            s@.frames =~= Seq::<ScopeV>::empty(),
            s@.loop_depth == 0,
            stack_wf(s@),
    {
        ScopeStack { scopes: Vec::new(), loop_depth: 0 }
    }

    /// Record entry into a loop body.
    pub fn enter_loop(&mut self)
        requires
            old(self)@.loop_depth < usize::MAX,
        ensures
            final(self)@ == (StackV { frames: old(self)@.frames, loop_depth: old(self)@.loop_depth + 1 }),
    {
        self.loop_depth = self.loop_depth + 1;
    }

    /// Record exit from a loop body; exiting with no enclosing loop is
    /// caller misuse.
    pub fn exit_loop(&mut self)
        requires
            old(self)@.loop_depth > 0,
        ensures
            final(self)@ == (StackV { frames: old(self)@.frames, loop_depth: (old(self)@.loop_depth - 1) as nat }),
    {
        self.loop_depth = self.loop_depth - 1;
    }

    /// Is a `break` legal here?
    pub fn in_loop(&self) -> (r: bool)
        ensures
            r == (self@.loop_depth > 0),
    {
        self.loop_depth > 0
    }

    /// Open a new innermost scope.
    pub fn enter_scope(&mut self)
        ensures
            final(self)@ == enter_scope_spec(old(self)@),
            stack_wf(old(self)@) ==> stack_wf(final(self)@),
    {
        let level = self.scopes.len();
        self.scopes.push(Scope::new(level));
        proof {
            assert(self@.frames =~= enter_scope_spec(old(self)@).frames);
        }
    }

    /// Discard the innermost scope; exiting with no open scope is caller
    /// misuse.
    pub fn exit_scope(&mut self)
        requires
            old(self)@.frames.len() > 0,
        ensures
            final(self)@ == exit_scope_spec(old(self)@),
            stack_wf(old(self)@) ==> stack_wf(final(self)@),
    {
        let _ = self.scopes.pop();
        proof {
            assert(self@.frames =~= exit_scope_spec(old(self)@).frames);
        }
    }

    /// Nesting level of the innermost scope, 0 when none is open.
    pub fn current_level(&self) -> (r: usize)
        ensures
            r as nat == if self@.frames.len() > 0 {
                self@.frames.last().level
            } else {
                0
            },
    {
        if self.scopes.len() > 0 {
            self.scopes[self.scopes.len() - 1].level
        } else {
            0
        }
    }

    /// Position of `name` in one frame, if bound there.
    fn frame_position(scope: &Scope, name: &String) -> (r: Option<usize>)
        requires
            frame_wf(scope@),
        ensures
            match r {
                Some(j) => {
                    &&& (j as int) < scope@.symbols.len()
                    &&& scope@.symbols[j as int].name == name@
                    &&& frame_has(scope@, name@)
                    &&& frame_idx(scope@, name@) == j as int
                    &&& frame_get(scope@, name@) == scope@.symbols[j as int]
                },
                None => !frame_has(scope@, name@),
            },
    {
        let mut j: usize = 0;
        while j < scope.symbols.len()
            invariant
                j <= scope.symbols.len(),
                frame_wf(scope@),
                scope@.symbols.len() == scope.symbols@.len(),
                forall|jj: int| 0 <= jj < j ==> (#[trigger] scope@.symbols[jj]).name != name@,
            decreases scope.symbols.len() - j,
        {
            if scope.symbols[j].name == *name {
                proof {
                    lemma_frame_idx_unique(scope@, j as int, name@);
                }
                return Some(j);
            }
            j += 1;
        }
        None
    }

    /// Innermost binding of `name`, of whatever kind.
    fn find_symbol(&self, name: &String) -> (r: Option<&Symbol>)
        requires
            stack_wf(self@),
        ensures
            match r {
                Some(sym) => lookup_frames(self@.frames, name@) == Some(sym@),
                None => lookup_frames(self@.frames, name@) is None,
            },
    {
        let mut k: usize = self.scopes.len();
        while k > 0
            invariant
                stack_wf(self@),
                k <= self.scopes.len(),
                self@.frames.len() == self.scopes@.len(),
                forall|kk: int| k <= kk < self@.frames.len() ==> !frame_has(#[trigger] self@.frames[kk], name@),
            decreases k,
        {
            k = k - 1;
            match Self::frame_position(&self.scopes[k], name) {
                Some(j) => {
                    proof {
                        lemma_lookup_found(self@.frames, k as int, name@);
                    }
                    return Some(&self.scopes[k].symbols[j]);
                },
                None => {},
            }
        }
        proof {
            lemma_lookup_none(self@.frames, name@);
        }
        None
    }

    /// Innermost binding of `name`, of whatever kind.
    pub fn lookup_symbol_any(&self, name: &String) -> (r: Option<&Symbol>)
        requires
            stack_wf(self@),
        ensures
            match r {
                Some(sym) => lookup_frames(self@.frames, name@) == Some(sym@),
                None => lookup_frames(self@.frames, name@) is None,
            },
    {
        self.find_symbol(name)
    }

    /// Resolve `name` as a variable or parameter: the innermost binding
    /// decides, it must not be a function, and it must be initialized.
    pub fn lookup_variable(&self, name: &String) -> (r: Result<&Symbol, ScopeError>)
        requires
            stack_wf(self@),
        ensures
            match r {
                Ok(sym) => variable_lookup_spec(self@, name@) == Ok::<SymbolV, ScopeError>(sym@),
                Err(e) => variable_lookup_spec(self@, name@) == Err::<SymbolV, ScopeError>(e),
            },
    {
        match self.find_symbol(name) {
            Some(sym) => match &sym.kind {
                SymbolKind::Function { .. } => Err(ScopeError::FoundButWrongKind),
                _ => {
                    if !sym.initialized {
                        Err(ScopeError::VariableUsedBeforeInit)
                    } else {
                        Ok(sym)
                    }
                },
            },
            None => Err(ScopeError::UndeclaredIdentifier),
        }
    }

    /// Resolve `name` as a defined function: a prototype-only binding and
    /// an absent one fail the same way.
    pub fn lookup_function(&self, name: &String) -> (r: Result<&Symbol, ScopeError>)
        requires
            stack_wf(self@),
        ensures
            match r {
                Ok(sym) => function_lookup_spec(self@, name@) == Ok::<SymbolV, ScopeError>(sym@),
                Err(e) => function_lookup_spec(self@, name@) == Err::<SymbolV, ScopeError>(e),
            },
    {
        match self.find_symbol(name) {
            Some(sym) => match &sym.kind {
                SymbolKind::Function { defined, .. } => {
                    if *defined {
                        Ok(sym)
                    } else {
                        Err(ScopeError::UndefinedFunctionCalled)
                    }
                },
                _ => Err(ScopeError::FoundButWrongKind),
            },
            None => Err(ScopeError::UndefinedFunctionCalled),
        }
    }

    /// Declare a variable in the innermost scope; the name must be free
    /// there.
    pub fn insert_variable(&mut self, name: String, ty: Type, mutable: bool, initialized: bool) -> (r: Result<(), ScopeError>)
        requires
            stack_wf(old(self)@),
        ensures
            (final(self)@, r) == insert_variable_spec(old(self)@, name@, ty, mutable, initialized),
            stack_wf(final(self)@),
    {
        if self.scopes.len() == 0 {
            return Err(ScopeError::NoCurrentScope);
        }
        let n = self.scopes.len() - 1;
        proof {
            assert(self@.frames[n as int] == self.scopes@[n as int]@);
        }
        match Self::frame_position(&self.scopes[n], &name) {
            Some(_) => Err(ScopeError::VariableRedefinition),
            None => {
                let level = self.scopes[n].level;
                let sym = Symbol::new_variable(name, ty, mutable, level, initialized);
                let ghost symv = sym@;
                let top = &mut self.scopes[n];
                top.symbols.push(sym);
                proof {
                    let nn = n as int;
                    assert(self@.frames[nn].symbols =~= old(self)@.frames[nn].symbols.push(symv));
                    assert(self@.frames =~= with_top_symbols(
                        old(self)@,
                        old(self)@.frames.last().symbols.push(symv),
                    ).frames);
                    assert(self@ =~= insert_variable_spec(old(self)@, symv.name, ty, mutable, initialized).0);
                    lemma_push_top_preserves_wf(old(self)@, symv);
                }
                Ok(())
            },
        }
    }

    /// Do the two signatures agree exactly?
    fn types_eq(a: &Vec<Type>, b: &Vec<Type>) -> (r: bool)
        ensures
            r == (a@ =~= b@),
    {
        if a.len() != b.len() {
            return false;
        }
        let mut i: usize = 0;
        while i < a.len()
            invariant
                i <= a.len(),
                a@.len() == b@.len(),
                forall|j: int| 0 <= j < i ==> a@[j] == b@[j],
            decreases a.len() - i,
        {
            if a[i] != b[i] {
                return false;
            }
            i += 1;
        }
        proof {
            assert(a@ =~= b@);
        }
        true
    }

    /// Declare a function prototype in the innermost scope, or report how
    /// it clashes with an existing binding of the same name.
    pub fn insert_function_prototype(&mut self, name: String, params: Vec<Type>, return_type: Type) -> (r: Result<(), ScopeError>)
        requires
            stack_wf(old(self)@),
        ensures
            (final(self)@, r) == insert_prototype_spec(old(self)@, name@, params@, return_type),
            stack_wf(final(self)@),
    {
        if self.scopes.len() == 0 {
            return Err(ScopeError::NoCurrentScope);
        }
        let n = self.scopes.len() - 1;
        proof {
            assert(self@.frames[n as int] == self.scopes@[n as int]@);
        }
        match Self::frame_position(&self.scopes[n], &name) {
            Some(j) => match &self.scopes[n].symbols[j].kind {
                SymbolKind::Function { params: ep, return_type: er, defined } => {
                    if *defined {
                        Err(ScopeError::FunctionRedefinitionAsPrototype)
                    } else if Self::types_eq(ep, &params) && *er == return_type {
                        Err(ScopeError::FunctionPrototypeRedefinition)
                    } else {
                        Err(ScopeError::FunctionSignatureConflict)
                    }
                },
                _ => Err(ScopeError::VariableRedefinition),
            },
            None => {
                let level = self.scopes[n].level;
                let ghost paramsv = params@;
                let sym = Symbol::new_function_prototype(name, params, return_type, level);
                let ghost symv = sym@;
                let top = &mut self.scopes[n];
                top.symbols.push(sym);
                proof {
                    let nn = n as int;
                    assert(self@.frames[nn].symbols =~= old(self)@.frames[nn].symbols.push(symv));
                    assert(self@ =~= insert_prototype_spec(old(self)@, symv.name, paramsv, return_type).0);
                    lemma_push_top_preserves_wf(old(self)@, symv);
                }
                Ok(())
            },
        }
    }

    /// Declare a function definition in the innermost scope; a matching
    /// prototype is upgraded in place, any other clash is an error.
    pub fn insert_function_definition(&mut self, name: String, params: Vec<Type>, return_type: Type) -> (r: Result<(), ScopeError>)
        requires
            stack_wf(old(self)@),
        ensures
            (final(self)@, r) == insert_definition_spec(old(self)@, name@, params@, return_type),
            stack_wf(final(self)@),
    {
        if self.scopes.len() == 0 {
            return Err(ScopeError::NoCurrentScope);
        }
        let n = self.scopes.len() - 1;
        proof {
            assert(self@.frames[n as int] == self.scopes@[n as int]@);
        }
        match Self::frame_position(&self.scopes[n], &name) {
            Some(j) => {
                let upgrade = match &self.scopes[n].symbols[j].kind {
                    SymbolKind::Function { params: ep, return_type: er, defined } => {
                        if *defined {
                            return Err(ScopeError::FunctionRedefinition);
                        }
                        if !(Self::types_eq(ep, &params) && *er == return_type) {
                            return Err(ScopeError::FunctionSignatureConflict);
                        }
                        true
                    },
                    _ => return Err(ScopeError::VariableRedefinition),
                };
                if upgrade {
                    let level = self.scopes[n].level;
                    let ghost paramsv = params@;
                    let sym = Symbol::new_function_definition(name, params, return_type, level);
                    let ghost symv = sym@;
                    let slot = &mut self.scopes[n].symbols[j];
                    *slot = sym;
                    proof {
                        let nn = n as int;
                        assert(self@.frames[nn].symbols =~= old(self)@.frames[nn].symbols.update(j as int, symv));
                        assert(self@ =~= insert_definition_spec(old(self)@, symv.name, paramsv, return_type).0);
                        lemma_update_frame_preserves_wf(old(self)@, nn, j as int, symv);
                    }
                }
                Ok(())
            },
            None => {
                let level = self.scopes[n].level;
                let ghost paramsv = params@;
                let sym = Symbol::new_function_definition(name, params, return_type, level);
                let ghost symv = sym@;
                let top = &mut self.scopes[n];
                top.symbols.push(sym);
                proof {
                    let nn = n as int;
                    assert(self@.frames[nn].symbols =~= old(self)@.frames[nn].symbols.push(symv));
                    assert(self@ =~= insert_definition_spec(old(self)@, symv.name, paramsv, return_type).0);
                    lemma_push_top_preserves_wf(old(self)@, symv);
                }
                Ok(())
            },
        }
    }

    /// Mark the innermost variable or parameter binding of `name` as
    /// initialized; a function binding of that name is the wrong kind.
    pub fn mark_initialized(&mut self, name: &String) -> (r: Result<(), ScopeError>)
        requires
            stack_wf(old(self)@),
        ensures
            (final(self)@, r) == mark_initialized_spec(old(self)@, name@),
            stack_wf(final(self)@),
    {
        let mut k: usize = self.scopes.len();
        while k > 0
            invariant
                *self == *old(self),
                stack_wf(self@),
                k <= self.scopes.len(),
                forall|kk: int| k <= kk < self@.frames.len() ==> !frame_has(#[trigger] self@.frames[kk], name@),
            decreases k,
        {
            k = k - 1;
            proof {
                assert(self@.frames[k as int] == self.scopes@[k as int]@);
            }
            match Self::frame_position(&self.scopes[k], name) {
                Some(j) => {
                    proof {
                        lemma_mark_found(self@.frames, k as int, name@);
                    }
                    match &self.scopes[k].symbols[j].kind {
                        SymbolKind::Function { .. } => {
                            return Err(ScopeError::FoundButWrongKind);
                        },
                        _ => {},
                    }
                    let sym = &mut self.scopes[k].symbols[j];
                    sym.initialized = true;
                    proof {
                        let kk = k as int;
                        let osym = old(self)@.frames[kk].symbols[j as int];
                        let upd = SymbolV {
                            name: osym.name,
                            kind: osym.kind,
                            scope_level: osym.scope_level,
                            ty: osym.ty,
                            initialized: true,
                        };
                        assert(self@.frames[kk].symbols[j as int] =~= upd);
                        assert(self@.frames[kk].symbols =~= old(self)@.frames[kk].symbols.update(j as int, upd));
                        assert(self@.frames =~= mark_in_frames(old(self)@.frames, name@).0);
                        lemma_update_frame_preserves_wf(old(self)@, kk, j as int, upd);
                        assert(self@ =~= mark_initialized_spec(old(self)@, name@).0);
                    }
                    return Ok(());
                },
                None => {},
            }
        }
        proof {
            lemma_mark_none(self@.frames, name@);
        }
        Err(ScopeError::UndeclaredIdentifier)
    }

    /// Is `name` bound, anywhere in the chain, as a variable or parameter?
    pub fn variable_exists(&self, name: &String) -> (r: bool)
        requires
            stack_wf(self@),
        ensures
            r == match lookup_frames(self@.frames, name@) {
                Some(sym) => !(sym.kind is Function),
                None => false,
            },
    {
        match self.find_symbol(name) {
            Some(sym) => match &sym.kind {
                SymbolKind::Function { .. } => false,
                _ => true,
            },
            None => false,
        }
    }
}

} // verus!
