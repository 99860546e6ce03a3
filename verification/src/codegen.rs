//! Lowering: walks the syntax tree and emits instructions into a minimal
//! intermediate representation (IR) held by this crate.
//!
//! A module is an ordered list of functions. A function is a name, ordered
//! parameter names, a body of instructions in static single-assignment
//! style — an instruction is addressed by its index, and its operands are
//! indices of earlier instructions — and an optional return value. The
//! lowering engine keeps one flat name-to-value environment per function
//! body, rebuilt for each function and discarded afterwards.
//!
//! Name resolution policy: declaring a name again makes a new function, and
//! lookups resolve to the latest declaration (last one wins).

use vstd::prelude::*;
use vstd::string::StringExecFns;

use crate::parser::{
    empty_proto, expr_view, exprs_ops_wf, exprs_view, expr_ops_wf, proto_view, strs_view,
    BinaryExprAstNode, CallExprAstNode, ExprAstNode, ExprView, FunctionAstNode, PrototypeAstNode,
    PrototypeView,
};
use crate::lexer::{Token, TokenView};

verus! {

// ---------------------------------------------------------------------------
// The intermediate representation
// ---------------------------------------------------------------------------

/// The four value operations of the language.
#[derive(Debug, Clone, Copy, PartialEq, Eq, Structural)]
pub enum IrOpKind {
    Add,
    Sub,
    Mul,
    CmpLt,
}

/// One instruction; its index in the containing body is its value id.
#[derive(Debug, PartialEq)]
pub enum IrInstr {
    /// A numeric constant, kept as its literal text.
    Constant(String),
    /// The k-th parameter of the containing function.
    Param(usize),
    /// An arithmetic or comparison operation on two earlier values.
    Binary(IrOpKind, usize, usize),
    /// A call of a module function on earlier values.
    Call(usize, Vec<usize>),
}

/// The mathematical value of an instruction.
pub enum InstrView {
    Constant(Seq<char>),
    Param(int),
    Binary(IrOpKind, int, int),
    Call(int, Seq<int>),
}

pub open spec fn instr_view(i: IrInstr) -> InstrView {
    match i {
        IrInstr::Constant(s) => InstrView::Constant(s@),
        IrInstr::Param(k) => InstrView::Param(k as int),
        IrInstr::Binary(op, l, r) => InstrView::Binary(op, l as int, r as int),
        IrInstr::Call(f, args) => InstrView::Call(
            f as int,
            args@.map_values(|v: usize| v as int),
        ),
    }
}

pub open spec fn instrs_view(s: Seq<IrInstr>) -> Seq<InstrView> {
    s.map_values(|i: IrInstr| instr_view(i))
}

/// A function: declared by a prototype, then optionally given a body and a
/// return value.
#[derive(Debug, PartialEq)]
pub struct IrFunction {
    pub name: String,
    pub params: Vec<String>,
    pub body: Vec<IrInstr>,
    pub ret: Option<usize>,
}

/// The mathematical value of a function.
pub struct FuncView {
    pub name: Seq<char>,
    pub params: Seq<Seq<char>>,
    pub body: Seq<InstrView>,
    pub ret: Option<int>,
}

pub open spec fn func_view(f: IrFunction) -> FuncView {
    FuncView {
        name: f.name@,
        params: strs_view(f.params@),
        body: instrs_view(f.body@),
        ret: match f.ret {
            Some(v) => Some(v as int),
            None => None,
        },
    }
}

/// A module: the ordered list of functions declared so far.
#[derive(Debug, PartialEq)]
pub struct Module {
    pub functions: Vec<IrFunction>,
}

impl View for Module {
    type V = Seq<FuncView>;

    open spec fn view(&self) -> Seq<FuncView> {
        self.functions@.map_values(|f: IrFunction| func_view(f))
    }
}

// ---------------------------------------------------------------------------
// Well-formedness
// ---------------------------------------------------------------------------

/// An instruction at index `idx` refers only to earlier values, to declared
/// functions, and — for a parameter — stands at its own index.
pub open spec fn instr_wf(ins: InstrView, idx: int, nfuncs: int, nparams: int) -> bool {
    match ins {
        InstrView::Constant(_) => true,
        InstrView::Param(k) => k == idx && 0 <= k < nparams,
        InstrView::Binary(_, l, r) => 0 <= l < idx && 0 <= r < idx,
        InstrView::Call(f, args) => 0 <= f < nfuncs && forall|j: int|
            0 <= j < args.len() ==> 0 <= #[trigger] args[j] < idx,
    }
}

pub open spec fn body_wf(body: Seq<InstrView>, nfuncs: int, nparams: int) -> bool {
    forall|i: int| 0 <= i < body.len() ==> instr_wf(#[trigger] body[i], i, nfuncs, nparams)
}

pub open spec fn spec_func_wf(f: FuncView, nfuncs: int) -> bool {
    &&& body_wf(f.body, nfuncs, f.params.len() as int)
    &&& (f.body.len() > 0 ==> f.body.len() >= f.params.len())
    &&& match f.ret {
        Some(v) => 0 <= v < f.body.len(),
        None => true,
    }
}

pub open spec fn module_wf(m: Seq<FuncView>) -> bool {
    forall|i: int| 0 <= i < m.len() ==> spec_func_wf(#[trigger] m[i], m.len() as int)
}

/// Every value the environment hands out lies inside the body built so far.
pub open spec fn env_ok(env: Map<Seq<char>, int>, n: int) -> bool {
    forall|k: Seq<char>| env.contains_key(k) ==> 0 <= #[trigger] env[k] < n
}

// ---------------------------------------------------------------------------
// Errors
// ---------------------------------------------------------------------------

/// A lowering error; fatal to the current top-level form only.
#[derive(Debug, Clone, Copy, PartialEq, Eq, Structural)]
pub enum LowerError {
    /// A variable reference whose name the current environment does not bind.
    UnboundVariable,
    /// A call to a name with no prior declaration or definition in the module.
    UndeclaredFunction,
    /// The empty expression `()` names no value to lower.
    EmptyExpression,
}

// ---------------------------------------------------------------------------
// Lowering, as specification
// ---------------------------------------------------------------------------

/// The operation an operator token lowers to. Only the four operator tokens
/// reach lowering; the value on any other token is immaterial.
pub open spec fn spec_op_kind(t: TokenView) -> IrOpKind {
    if t is Plus {
        IrOpKind::Add
    } else if t is Minus {
        IrOpKind::Sub
    } else if t is Star {
        IrOpKind::Mul
    } else {
        IrOpKind::CmpLt
    }
}

/// The function a name resolves to: the latest declaration wins.
pub open spec fn spec_lookup_function(funcs: Seq<FuncView>, name: Seq<char>) -> Option<int>
    decreases funcs.len(),
{
    if funcs.len() == 0 {
        None
    } else if funcs.last().name == name {
        Some(funcs.len() - 1)
    } else {
        spec_lookup_function(funcs.drop_last(), name)
    }
}

pub proof fn lemma_lookup_range(funcs: Seq<FuncView>, name: Seq<char>)
    ensures
        match spec_lookup_function(funcs, name) {
            Some(i) => 0 <= i < funcs.len() && funcs[i].name == name,
            None => true,
        },
    decreases funcs.len(),
{
    if funcs.len() > 0 && !(funcs.last().name == name) {
        lemma_lookup_range(funcs.drop_last(), name);
    }
}

/// The environment an association list denotes: a later binding of the same
/// name shadows an earlier one.
pub open spec fn env_map(s: Seq<(String, usize)>) -> Map<Seq<char>, int>
    decreases s.len(),
{
    if s.len() == 0 {
        Map::empty()
    } else {
        env_map(s.drop_last()).insert(s.last().0@, s.last().1 as int)
    }
}

/// The environment binding each parameter name to its position; a repeated
/// name resolves to its last position.
pub open spec fn params_env(params: Seq<Seq<char>>) -> Map<Seq<char>, int>
    decreases params.len(),
{
    if params.len() == 0 {
        Map::empty()
    } else {
        params_env(params.drop_last()).insert(params.last(), params.len() - 1)
    }
}

/// The instructions a fresh function body starts with: one value for each
/// parameter, standing at its own index.
pub open spec fn param_instrs(n: int) -> Seq<InstrView> {
    Seq::new(n as nat, |k: int| InstrView::Param(k))
}

/// Lowering an expression against a module, an environment and the body
/// built so far: the extended body and the index of the resulting value, or
/// the first error met in source order. Operands are lowered strictly left
/// before right; that ordering is a contract of this layer.
pub open spec fn spec_lower_expr(
    funcs: Seq<FuncView>,
    env: Map<Seq<char>, int>,
    body: Seq<InstrView>,
    e: ExprView,
) -> Result<(Seq<InstrView>, int), LowerError>
    decreases e,
{
    match e {
        ExprView::Null => Err(LowerError::EmptyExpression),
        ExprView::Number(text) => Ok((body.push(InstrView::Constant(text)), body.len() as int)),
        ExprView::Variable(n) => if env.contains_key(n) {
            Ok((body, env[n]))
        } else {
            Err(LowerError::UnboundVariable)
        },
        ExprView::Binary(op, l, r) => match spec_lower_expr(funcs, env, body, *l) {
            Err(e1) => Err(e1),
            Ok((b1, v1)) => match spec_lower_expr(funcs, env, b1, *r) {
                Err(e2) => Err(e2),
                Ok((b2, v2)) => Ok(
                    (b2.push(InstrView::Binary(spec_op_kind(op), v1, v2)), b2.len() as int),
                ),
            },
        },
        ExprView::Call(name, args) => match spec_lookup_function(funcs, name) {
            None => Err(LowerError::UndeclaredFunction),
            Some(fid) => match spec_lower_args(funcs, env, body, args) {
                Err(e1) => Err(e1),
                Ok((b1, ids)) => Ok((b1.push(InstrView::Call(fid, ids)), b1.len() as int)),
            },
        },
    }
}

/// Lowers call arguments left to right, collecting their value indices.
pub open spec fn spec_lower_args(
    funcs: Seq<FuncView>,
    env: Map<Seq<char>, int>,
    body: Seq<InstrView>,
    args: Seq<ExprView>,
) -> Result<(Seq<InstrView>, Seq<int>), LowerError>
    decreases args,
{
    if args.len() == 0 {
        Ok((body, Seq::empty()))
    } else {
        match spec_lower_expr(funcs, env, body, args[0]) {
            Err(e) => Err(e),
            Ok((b1, v)) => match spec_lower_args(funcs, env, b1, args.drop_first()) {
                Err(e) => Err(e),
                Ok((b2, ids)) => Ok((b2, seq![v] + ids)),
            },
        }
    }
}

/// Lowering a whole function: declare it, start its body with the parameter
/// values, bind each parameter name to its position, lower the body
/// expression, and make its value the return value. On an error the
/// declaration stays, bodiless.
pub open spec fn spec_lower_function(
    funcs: Seq<FuncView>,
    proto: PrototypeView,
    body: ExprView,
) -> (Seq<FuncView>, Result<int, LowerError>) {
    let decl = FuncView { name: proto.name, params: proto.args, body: Seq::empty(), ret: None };
    let m1 = funcs.push(decl);
    match spec_lower_expr(m1, params_env(proto.args), param_instrs(proto.args.len() as int), body) {
        Err(e) => (m1, Err(e)),
        Ok((b, v)) => (
            m1.update(
                funcs.len() as int,
                FuncView { name: proto.name, params: proto.args, body: b, ret: Some(v) },
            ),
            Ok(funcs.len() as int),
        ),
    }
}

/// An anonymous top-level expression lowers through the same path as a named
/// definition: the module gains one function, its name empty, its parameter
/// list empty, its body the lowered expression.
pub proof fn lemma_anonymous_function_in_module(funcs: Seq<FuncView>, body: ExprView)
    ensures
        ({
            let out = spec_lower_function(funcs, empty_proto(), body);
            let f = out.0[funcs.len() as int];
            &&& out.0.len() == funcs.len() + 1
            &&& f.name == Seq::<char>::empty()
            &&& f.params == Seq::<Seq<char>>::empty()
            &&& (out.1 matches Ok(fid) ==> fid == funcs.len() && f.ret is Some)
        }),
{
    let decl = FuncView {
        name: empty_proto().name,
        params: empty_proto().args,
        body: Seq::empty(),
        ret: None,
    };
    let m1 = funcs.push(decl);
    assert(m1[funcs.len() as int] == decl);
    match spec_lower_expr(
        m1,
        params_env(empty_proto().args),
        param_instrs(empty_proto().args.len() as int),
        body,
    ) {
        Err(_) => {},
        Ok((b, v)) => {
            let out = spec_lower_function(funcs, empty_proto(), body);
            assert(out.0[funcs.len() as int] == FuncView {
                name: empty_proto().name,
                params: empty_proto().args,
                body: b,
                ret: Some(v),
            });
        },
    }
}

// ---------------------------------------------------------------------------
// Lowering preserves well-formedness
// ---------------------------------------------------------------------------

/// Lowering only appends: the body so far is kept, the result lies in the
/// extension, and the extension is well-formed.
pub proof fn lemma_lower_expr_wf(
    funcs: Seq<FuncView>,
    env: Map<Seq<char>, int>,
    body: Seq<InstrView>,
    e: ExprView,
    nparams: int,
)
    requires
        body_wf(body, funcs.len() as int, nparams),
        env_ok(env, body.len() as int),
    ensures
        match spec_lower_expr(funcs, env, body, e) {
            Ok((b, v)) => body.len() <= b.len() && (forall|k: int|
                0 <= k < body.len() ==> b[k] == body[k]) && 0 <= v < b.len() && body_wf(
                b,
                funcs.len() as int,
                nparams,
            ),
            Err(_) => true,
        },
    decreases e,
{
    match e {
        ExprView::Null => {},
        ExprView::Number(_) => {},
        ExprView::Variable(_) => {},
        ExprView::Binary(op, l, r) => {
            lemma_lower_expr_wf(funcs, env, body, *l, nparams);
            match spec_lower_expr(funcs, env, body, *l) {
                Err(_) => {},
                Ok((b1, v1)) => {
                    lemma_lower_expr_wf(funcs, env, b1, *r, nparams);
                },
            }
        },
        ExprView::Call(name, args) => {
            lemma_lookup_range(funcs, name);
            lemma_lower_args_wf(funcs, env, body, args, nparams);
        },
    }
}

/// The same, for an argument list: every collected value index lies in the
/// extended body.
pub proof fn lemma_lower_args_wf(
    funcs: Seq<FuncView>,
    env: Map<Seq<char>, int>,
    body: Seq<InstrView>,
    args: Seq<ExprView>,
    nparams: int,
)
    requires
        body_wf(body, funcs.len() as int, nparams),
        env_ok(env, body.len() as int),
    ensures
        match spec_lower_args(funcs, env, body, args) {
            Ok((b, ids)) => body.len() <= b.len() && (forall|k: int|
                0 <= k < body.len() ==> b[k] == body[k]) && (forall|j: int|
                0 <= j < ids.len() ==> 0 <= #[trigger] ids[j] < b.len()) && body_wf(
                b,
                funcs.len() as int,
                nparams,
            ),
            Err(_) => true,
        },
    decreases args,
{
    if args.len() > 0 {
        lemma_lower_expr_wf(funcs, env, body, args[0], nparams);
        match spec_lower_expr(funcs, env, body, args[0]) {
            Err(_) => {},
            Ok((b1, v)) => {
                lemma_lower_args_wf(funcs, env, b1, args.drop_first(), nparams);
            },
        }
    }
}

// ---------------------------------------------------------------------------
// What lowering needs of names
// ---------------------------------------------------------------------------

/// The names of the variables an expression reads.
pub open spec fn expr_free_vars(e: ExprView) -> Set<Seq<char>>
    decreases e,
{
    match e {
        ExprView::Null => Set::empty(),
        ExprView::Number(_) => Set::empty(),
        ExprView::Variable(n) => Set::empty().insert(n),
        ExprView::Binary(_, l, r) => expr_free_vars(*l).union(expr_free_vars(*r)),
        ExprView::Call(_, args) => exprs_free_vars(args),
    }
}

pub open spec fn exprs_free_vars(s: Seq<ExprView>) -> Set<Seq<char>>
    decreases s,
{
    if s.len() == 0 {
        Set::empty()
    } else {
        expr_free_vars(s[0]).union(exprs_free_vars(s.drop_first()))
    }
}

/// The names of the functions an expression calls.
pub open spec fn expr_callees(e: ExprView) -> Set<Seq<char>>
    decreases e,
{
    match e {
        ExprView::Null => Set::empty(),
        ExprView::Number(_) => Set::empty(),
        ExprView::Variable(_) => Set::empty(),
        ExprView::Binary(_, l, r) => expr_callees(*l).union(expr_callees(*r)),
        ExprView::Call(name, args) => Set::empty().insert(name).union(exprs_callees(args)),
    }
}

pub open spec fn exprs_callees(s: Seq<ExprView>) -> Set<Seq<char>>
    decreases s,
{
    if s.len() == 0 {
        Set::empty()
    } else {
        expr_callees(s[0]).union(exprs_callees(s.drop_first()))
    }
}

/// Whether an expression holds no empty sub-expression.
pub open spec fn expr_no_null(e: ExprView) -> bool
    decreases e,
{
    match e {
        ExprView::Null => false,
        ExprView::Number(_) => true,
        ExprView::Variable(_) => true,
        ExprView::Binary(_, l, r) => expr_no_null(*l) && expr_no_null(*r),
        ExprView::Call(_, args) => exprs_no_null(args),
    }
}

pub open spec fn exprs_no_null(s: Seq<ExprView>) -> bool
    decreases s,
{
    s.len() == 0 || (expr_no_null(s[0]) && exprs_no_null(s.drop_first()))
}

/// The set of names that resolve to a function in the module.
pub open spec fn spec_declared(funcs: Seq<FuncView>) -> Set<Seq<char>> {
    Set::new(|n: Seq<char>| spec_lookup_function(funcs, n) is Some)
}

proof fn lemma_union_subset(a: Set<Seq<char>>, b: Set<Seq<char>>, d: Set<Seq<char>>)
    ensures
        a.union(b).subset_of(d) <==> (a.subset_of(d) && b.subset_of(d)),
{
    if a.subset_of(d) && b.subset_of(d) {
        assert forall|n: Seq<char>| a.union(b).contains(n) implies d.contains(n) by {
            if a.contains(n) {
            } else {
                assert(b.contains(n));
            }
        }
    }
    if a.union(b).subset_of(d) {
        assert forall|n: Seq<char>| a.contains(n) implies d.contains(n) by {
            assert(a.union(b).contains(n));
        }
        assert forall|n: Seq<char>| b.contains(n) implies d.contains(n) by {
            assert(a.union(b).contains(n));
        }
    }
}

/// Lowering an expression succeeds exactly when it has no empty
/// sub-expression, every variable it reads is bound in the environment, and
/// every name it calls resolves in the module — whatever the body built so
/// far. An unbound-variable error names a variable the environment does not
/// bind, and an undeclared-function error a callee the module does not hold:
/// lowering such an expression never produces a value.
pub proof fn lemma_lower_expr_names(
    funcs: Seq<FuncView>,
    env: Map<Seq<char>, int>,
    body: Seq<InstrView>,
    e: ExprView,
)
    ensures
        spec_lower_expr(funcs, env, body, e) is Ok <==> (expr_no_null(e) && expr_free_vars(
            e,
        ).subset_of(env.dom()) && expr_callees(e).subset_of(spec_declared(funcs))),
        spec_lower_expr(funcs, env, body, e) == Err::<(Seq<InstrView>, int), LowerError>(
            LowerError::UnboundVariable,
        ) ==> exists|n: Seq<char>| expr_free_vars(e).contains(n) && !env.contains_key(n),
        spec_lower_expr(funcs, env, body, e) == Err::<(Seq<InstrView>, int), LowerError>(
            LowerError::UndeclaredFunction,
        ) ==> exists|n: Seq<char>|
            expr_callees(e).contains(n) && spec_lookup_function(funcs, n) is None,
        spec_lower_expr(funcs, env, body, e) == Err::<(Seq<InstrView>, int), LowerError>(
            LowerError::EmptyExpression,
        ) ==> !expr_no_null(e),
    decreases e,
{
    match e {
        ExprView::Null => {},
        ExprView::Number(_) => {},
        ExprView::Variable(n) => {
            if env.contains_key(n) {
                assert forall|m: Seq<char>|
                    expr_free_vars(e).contains(m) implies env.dom().contains(m) by {
                    assert(m == n);
                }
            } else {
                assert(expr_free_vars(e).contains(n));
            }
        },
        ExprView::Binary(op, l, r) => {
            lemma_union_subset(expr_free_vars(*l), expr_free_vars(*r), env.dom());
            lemma_union_subset(expr_callees(*l), expr_callees(*r), spec_declared(funcs));
            lemma_lower_expr_names(funcs, env, body, *l);
            match spec_lower_expr(funcs, env, body, *l) {
                Err(_) => {
                    lift_var_witness(expr_free_vars(*l), expr_free_vars(e), env);
                    lift_callee_witness(expr_callees(*l), expr_callees(e), funcs);
                },
                Ok((b1, _)) => {
                    lemma_lower_expr_names(funcs, env, b1, *r);
                    lift_var_witness(expr_free_vars(*r), expr_free_vars(e), env);
                    lift_callee_witness(expr_callees(*r), expr_callees(e), funcs);
                },
            }
        },
        ExprView::Call(name, args) => {
            let base = Set::<Seq<char>>::empty().insert(name);
            lemma_union_subset(base, exprs_callees(args), spec_declared(funcs));
            match spec_lookup_function(funcs, name) {
                None => {
                    assert(expr_callees(e).contains(name));
                    assert(!base.subset_of(spec_declared(funcs)));
                },
                Some(_) => {
                    assert forall|m: Seq<char>|
                        base.contains(m) implies spec_declared(funcs).contains(m) by {
                        assert(m == name);
                    }
                    lemma_lower_args_names(funcs, env, body, args);
                    lift_var_witness(exprs_free_vars(args), expr_free_vars(e), env);
                    lift_callee_witness(exprs_callees(args), expr_callees(e), funcs);
                },
            }
        },
    }
}

/// Carries a witness of an unbound variable from a part into the whole.
proof fn lift_var_witness(part: Set<Seq<char>>, whole: Set<Seq<char>>, env: Map<Seq<char>, int>)
    requires
        forall|n: Seq<char>| part.contains(n) ==> whole.contains(n),
    ensures
        (exists|n: Seq<char>| part.contains(n) && !env.contains_key(n)) ==> (exists|n: Seq<char>|
            whole.contains(n) && !env.contains_key(n)),
{
    if exists|n: Seq<char>| part.contains(n) && !env.contains_key(n) {
        let n = choose|n: Seq<char>| part.contains(n) && !env.contains_key(n);
        assert(whole.contains(n) && !env.contains_key(n));
    }
}

/// Carries a witness of an undeclared callee from a part into the whole.
proof fn lift_callee_witness(part: Set<Seq<char>>, whole: Set<Seq<char>>, funcs: Seq<FuncView>)
    requires
        forall|n: Seq<char>| part.contains(n) ==> whole.contains(n),
    ensures
        (exists|n: Seq<char>|
            part.contains(n) && spec_lookup_function(funcs, n) is None) ==> (exists|n: Seq<char>|
            whole.contains(n) && spec_lookup_function(funcs, n) is None),
{
    if exists|n: Seq<char>| part.contains(n) && spec_lookup_function(funcs, n) is None {
        let n = choose|n: Seq<char>| part.contains(n) && spec_lookup_function(funcs, n) is None;
        assert(whole.contains(n) && spec_lookup_function(funcs, n) is None);
    }
}

/// The argument-list form of the law above.
pub proof fn lemma_lower_args_names(
    funcs: Seq<FuncView>,
    env: Map<Seq<char>, int>,
    body: Seq<InstrView>,
    args: Seq<ExprView>,
)
    ensures
        spec_lower_args(funcs, env, body, args) is Ok <==> (exprs_no_null(args)
            && exprs_free_vars(args).subset_of(env.dom()) && exprs_callees(args).subset_of(
            spec_declared(funcs),
        )),
        spec_lower_args(funcs, env, body, args) == Err::<(Seq<InstrView>, Seq<int>), LowerError>(
            LowerError::UnboundVariable,
        ) ==> exists|n: Seq<char>| exprs_free_vars(args).contains(n) && !env.contains_key(n),
        spec_lower_args(funcs, env, body, args) == Err::<(Seq<InstrView>, Seq<int>), LowerError>(
            LowerError::UndeclaredFunction,
        ) ==> exists|n: Seq<char>|
            exprs_callees(args).contains(n) && spec_lookup_function(funcs, n) is None,
        spec_lower_args(funcs, env, body, args) == Err::<(Seq<InstrView>, Seq<int>), LowerError>(
            LowerError::EmptyExpression,
        ) ==> !exprs_no_null(args),
    decreases args,
{
    if args.len() > 0 {
        let e0 = args[0];
        let rest = args.drop_first();
        lemma_union_subset(expr_free_vars(e0), exprs_free_vars(rest), env.dom());
        lemma_union_subset(expr_callees(e0), exprs_callees(rest), spec_declared(funcs));
        lemma_lower_expr_names(funcs, env, body, e0);
        match spec_lower_expr(funcs, env, body, e0) {
            Err(_) => {
                lift_var_witness(expr_free_vars(e0), exprs_free_vars(args), env);
                lift_callee_witness(expr_callees(e0), exprs_callees(args), funcs);
            },
            Ok((b1, _)) => {
                lemma_lower_args_names(funcs, env, b1, rest);
                lift_var_witness(exprs_free_vars(rest), exprs_free_vars(args), env);
                lift_callee_witness(exprs_callees(rest), exprs_callees(args), funcs);
            },
        }
    }
}

proof fn lemma_body_push_wf(body: Seq<InstrView>, ins: InstrView, nfuncs: int, nparams: int)
    requires
        body_wf(body, nfuncs, nparams),
        instr_wf(ins, body.len() as int, nfuncs, nparams),
    ensures
        body_wf(body.push(ins), nfuncs, nparams),
{
    assert forall|i: int| 0 <= i < body.push(ins).len() implies instr_wf(
        #[trigger] body.push(ins)[i],
        i,
        nfuncs,
        nparams,
    ) by {
        if i < body.len() {
            assert(body.push(ins)[i] == body[i]);
        }
    }
}

proof fn lemma_func_wf_mono(f: FuncView, n1: int, n2: int)
    requires
        spec_func_wf(f, n1),
        n1 <= n2,
    ensures
        spec_func_wf(f, n2),
{
    assert forall|i: int| 0 <= i < f.body.len() implies instr_wf(
        #[trigger] f.body[i],
        i,
        n2,
        f.params.len() as int,
    ) by {
        assert(instr_wf(f.body[i], i, n1, f.params.len() as int));
    }
}

// ---------------------------------------------------------------------------
// The module, executable
// ---------------------------------------------------------------------------

impl Module {
    /// Finds the function a name resolves to: the latest declaration wins.
    pub fn get_function(&self, name: &String) -> (r: Option<usize>)
        ensures
            match r {
                Some(i) => spec_lookup_function(self@, name@) == Some(i as int) && i
                    < self.functions.len(),
                None => spec_lookup_function(self@, name@) is None,
            },
    {
        let mut i: usize = self.functions.len();
        proof {
            assert(self@.take(i as int) =~= self@);
        }
        while i > 0
            invariant
                i <= self.functions.len(),
                spec_lookup_function(self@, name@) == spec_lookup_function(
                    self@.take(i as int),
                    name@,
                ),
            decreases i,
        {
            i = i - 1;
            if self.functions[i].name == *name {
                proof {
                    assert(self@.take(i + 1).last() == self@[i as int]);
                }
                return Some(i);
            }
            proof {
                assert(self@.take(i + 1).last() == self@[i as int]);
                assert(self@.take(i + 1).drop_last() =~= self@.take(i as int));
            }
        }
        proof {
            assert(self@.take(0) =~= Seq::<FuncView>::empty());
        }
        None
    }

    /// Declares a new function with the given name and parameter names and
    /// returns its index. A name already declared gets a second entry; later
    /// lookups resolve to it.
    pub fn create_function(&mut self, name: String, args: Vec<String>) -> (r: usize)
        ensures
            final(self)@ == old(self)@.push(
                FuncView { name: name@, params: strs_view(args@), body: Seq::empty(), ret: None },
            ),
            r == old(self)@.len(),
    {
        let f = IrFunction { name, params: args, body: Vec::new(), ret: None };
        let id = self.functions.len();
        self.functions.push(f);
        proof {
            assert(instrs_view(Seq::<IrInstr>::empty()) =~= Seq::<InstrView>::empty());
            assert(self@ =~~= old(self)@.push(
                FuncView { name: name@, params: strs_view(args@), body: Seq::empty(), ret: None },
            ));
        }
        id
    }
}

// ---------------------------------------------------------------------------
// The instruction builder, executable
// ---------------------------------------------------------------------------

/// Accumulates the body of the function currently being lowered, one
/// instruction at a time; each method returns the new value's index.
#[derive(Debug, PartialEq)]
pub struct IrBuilder {
    pub body: Vec<IrInstr>,
    pub ret: Option<usize>,
}

impl IrBuilder {
    pub fn new() -> (r: IrBuilder)
        ensures
            r.body@.len() == 0,
            r.ret is None,
    {
        IrBuilder { body: Vec::new(), ret: None }
    }

    /// Emits a constant value holding the given literal text.
    pub fn create_constant(&mut self, text: String) -> (r: usize)
        ensures
            final(self).body@ == old(self).body@.push(IrInstr::Constant(text)),
            r == old(self).body@.len(),
            final(self).ret == old(self).ret,
    {
        let id = self.body.len();
        self.body.push(IrInstr::Constant(text));
        id
    }

    /// Emits an addition of two earlier values.
    pub fn create_f_add(&mut self, lhs: usize, rhs: usize) -> (r: usize)
        ensures
            final(self).body@ == old(self).body@.push(IrInstr::Binary(IrOpKind::Add, lhs, rhs)),
            r == old(self).body@.len(),
            final(self).ret == old(self).ret,
    {
        let id = self.body.len();
        self.body.push(IrInstr::Binary(IrOpKind::Add, lhs, rhs));
        id
    }

    /// Emits a subtraction of two earlier values.
    pub fn create_f_sub(&mut self, lhs: usize, rhs: usize) -> (r: usize)
        ensures
            final(self).body@ == old(self).body@.push(IrInstr::Binary(IrOpKind::Sub, lhs, rhs)),
            r == old(self).body@.len(),
            final(self).ret == old(self).ret,
    {
        let id = self.body.len();
        self.body.push(IrInstr::Binary(IrOpKind::Sub, lhs, rhs));
        id
    }

    /// Emits a multiplication of two earlier values.
    pub fn create_f_mul(&mut self, lhs: usize, rhs: usize) -> (r: usize)
        ensures
            final(self).body@ == old(self).body@.push(IrInstr::Binary(IrOpKind::Mul, lhs, rhs)),
            r == old(self).body@.len(),
            final(self).ret == old(self).ret,
    {
        let id = self.body.len();
        self.body.push(IrInstr::Binary(IrOpKind::Mul, lhs, rhs));
        id
    }

    /// Emits an ordered less-than comparison of two earlier values.
    pub fn create_f_cmp_lt(&mut self, lhs: usize, rhs: usize) -> (r: usize)
        ensures
            final(self).body@ == old(self).body@.push(IrInstr::Binary(IrOpKind::CmpLt, lhs, rhs)),
            r == old(self).body@.len(),
            final(self).ret == old(self).ret,
    {
        let id = self.body.len();
        self.body.push(IrInstr::Binary(IrOpKind::CmpLt, lhs, rhs));
        id
    }

    /// Emits a call of a module function on earlier values.
    pub fn create_call(&mut self, function: usize, args: Vec<usize>) -> (r: usize)
        ensures
            final(self).body@ == old(self).body@.push(IrInstr::Call(function, args)),
            r == old(self).body@.len(),
            final(self).ret == old(self).ret,
    {
        let id = self.body.len();
        self.body.push(IrInstr::Call(function, args));
        id
    }

    /// Makes the given value the function's return value.
    pub fn create_ret(&mut self, value: usize)
        ensures
            final(self).body == old(self).body,
            final(self).ret == Some(value),
    {
        self.ret = Some(value);
    }
}

// ---------------------------------------------------------------------------
// The lowering engine, executable
// ---------------------------------------------------------------------------

fn clone_strings(v: &Vec<String>) -> (r: Vec<String>)
    ensures
        r@ == v@,
{
    let mut r: Vec<String> = Vec::new();
    let mut i: usize = 0;
    while i < v.len()
        invariant
            i <= v.len(),
            r@ == v@.subrange(0, i as int),
        decreases v.len() - i,
    {
        r.push(v[i].clone());
        i = i + 1;
        proof {
            assert(r@ =~= v@.subrange(0, i as int));
        }
    }
    proof {
        assert(r@ =~= v@);
    }
    r
}

/// The lowering session: the module built so far, the body under
/// construction, and the per-function variable environment.
#[derive(Debug)]
pub struct CodegenContext {
    pub module: Module,
    pub builder: IrBuilder,
    pub named_values: Vec<(String, usize)>,
    pub current: Option<usize>,
}

impl CodegenContext {
    /// The environment as a mathematical map.
    pub open spec fn env(&self) -> Map<Seq<char>, int> {
        env_map(self.named_values@)
    }

    pub open spec fn building_wf(&self) -> bool {
        match self.current {
            Some(fid) => {
                &&& fid < self.module@.len()
                &&& body_wf(
                    instrs_view(self.builder.body@),
                    self.module@.len() as int,
                    self.module@[fid as int].params.len() as int,
                )
                &&& env_ok(self.env(), self.builder.body@.len() as int)
            },
            None => true,
        }
    }

    pub open spec fn wf(&self) -> bool {
        module_wf(self.module@) && self.building_wf()
    }

    /// Ready to lower expressions: a function body stands under construction.
    pub open spec fn ready(&self) -> bool {
        self.wf() && self.current is Some
    }

    pub fn new() -> (r: CodegenContext)
        ensures
            r.wf(),
            r.module@.len() == 0,
            r.named_values@.len() == 0,
            r.current is None,
    {
        let r = CodegenContext {
            module: Module { functions: Vec::new() },
            builder: IrBuilder::new(),
            named_values: Vec::new(),
            current: None,
        };
        proof {
            assert(r.module@ =~= Seq::<FuncView>::empty());
        }
        r
    }

    /// Looks a name up in the environment; the latest binding wins.
    fn lookup_name(&self, name: &String) -> (r: Option<usize>)
        ensures
            match r {
                Some(v) => self.env().contains_key(name@) && self.env()[name@] == v as int,
                None => !self.env().contains_key(name@),
            },
    {
        let ghost full = self.named_values@;
        let mut i: usize = self.named_values.len();
        proof {
            assert(full.take(i as int) =~= full);
        }
        while i > 0
            invariant
                i <= self.named_values.len(),
                full == self.named_values@,
                env_map(full).contains_key(name@) == env_map(full.take(i as int)).contains_key(
                    name@,
                ),
                env_map(full).contains_key(name@) ==> env_map(full)[name@] == env_map(
                    full.take(i as int),
                )[name@],
            decreases i,
        {
            i = i - 1;
            proof {
                assert(full.take(i + 1).last() == full[i as int]);
                assert(full.take(i + 1).drop_last() =~= full.take(i as int));
            }
            let entry = &self.named_values[i];
            if entry.0 == *name {
                return Some(entry.1);
            }
        }
        proof {
            assert(full.take(0) =~= Seq::<(String, usize)>::empty());
        }
        None
    }

    /// Lowers one expression into the body under construction and returns
    /// the index of its value. Operands are lowered strictly left before
    /// right. A failure leaves what was already emitted in place and is
    /// fatal to the current top-level form only.
    pub fn codegen_expr(&mut self, node: ExprAstNode) -> (r: Result<usize, LowerError>)
        requires
            old(self).ready(),
            expr_ops_wf(expr_view(node)),
        ensures
            final(self).ready(),
            final(self).module == old(self).module,
            final(self).named_values == old(self).named_values,
            final(self).current == old(self).current,
            final(self).builder.ret == old(self).builder.ret,
            old(self).builder.body@.len() <= final(self).builder.body@.len(),
            match r {
                Ok(v) => spec_lower_expr(
                    old(self).module@,
                    old(self).env(),
                    instrs_view(old(self).builder.body@),
                    expr_view(node),
                ) == Ok::<(Seq<InstrView>, int), LowerError>(
                    (instrs_view(final(self).builder.body@), v as int),
                ) && v < final(self).builder.body@.len(),
                Err(e) => spec_lower_expr(
                    old(self).module@,
                    old(self).env(),
                    instrs_view(old(self).builder.body@),
                    expr_view(node),
                ) == Err::<(Seq<InstrView>, int), LowerError>(e),
            },
        decreases node,
    {
        let ghost fid0 = self.current->0;
        let ghost nparams = self.module@[fid0 as int].params.len() as int;
        match node {
            ExprAstNode::Null => Err(LowerError::EmptyExpression),
            ExprAstNode::Number(n) => {
                let ghost b0 = instrs_view(self.builder.body@);
                let ghost text = n.value@;
                let id = self.builder.create_constant(n.value);
                proof {
                    assert(instrs_view(self.builder.body@) =~= b0.push(InstrView::Constant(text)));
                    lemma_body_push_wf(
                        b0,
                        InstrView::Constant(text),
                        self.module@.len() as int,
                        nparams,
                    );
                }
                Ok(id)
            },
            ExprAstNode::Variable(v) => match self.lookup_name(&v.name) {
                Some(id) => Ok(id),
                None => Err(LowerError::UnboundVariable),
            },
            ExprAstNode::Binary(BinaryExprAstNode { op, lhs, rhs }) => {
                let ghost b0 = instrs_view(self.builder.body@);
                let v1 = match self.codegen_expr(*lhs) {
                    Ok(v) => v,
                    Err(e) => {
                        return Err(e);
                    },
                };
                let v2 = match self.codegen_expr(*rhs) {
                    Ok(v) => v,
                    Err(e) => {
                        return Err(e);
                    },
                };
                let ghost b2 = instrs_view(self.builder.body@);
                let id = match &op {
                    Token::Plus => self.builder.create_f_add(v1, v2),
                    Token::Minus => self.builder.create_f_sub(v1, v2),
                    Token::Star => self.builder.create_f_mul(v1, v2),
                    Token::LessThan => self.builder.create_f_cmp_lt(v1, v2),
                    _ => {
                        proof {
                            assert(false);
                        }
                        0
                    },
                };
                proof {
                    assert(instrs_view(self.builder.body@) =~= b2.push(
                        InstrView::Binary(spec_op_kind(op@), v1 as int, v2 as int),
                    ));
                    lemma_body_push_wf(
                        b2,
                        InstrView::Binary(spec_op_kind(op@), v1 as int, v2 as int),
                        self.module@.len() as int,
                        nparams,
                    );
                }
                Ok(id)
            },
            ExprAstNode::Call(CallExprAstNode { callee, args }) => {
                let ghost b0 = instrs_view(self.builder.body@);
                let ghost argsv = exprs_view(args@);
                let fid = match self.module.get_function(&callee) {
                    Some(f) => f,
                    None => {
                        return Err(LowerError::UndeclaredFunction);
                    },
                };
                let ids = match self.codegen_args(args) {
                    Ok(v) => v,
                    Err(e) => {
                        return Err(e);
                    },
                };
                let ghost b1 = instrs_view(self.builder.body@);
                let ghost idsv = ids@.map_values(|v: usize| v as int);
                let id = self.builder.create_call(fid, ids);
                proof {
                    assert(instrs_view(self.builder.body@) =~= b1.push(
                        InstrView::Call(fid as int, idsv),
                    ));
                    lemma_lookup_range(self.module@, callee@);
                    lemma_lower_args_wf(self.module@, self.env(), b0, argsv, nparams);
                    lemma_body_push_wf(
                        b1,
                        InstrView::Call(fid as int, idsv),
                        self.module@.len() as int,
                        nparams,
                    );
                }
                Ok(id)
            },
        }
    }

    /// Lowers call arguments left to right, collecting their value indices.
    fn codegen_args(&mut self, args: Vec<ExprAstNode>) -> (r: Result<Vec<usize>, LowerError>)
        requires
            old(self).ready(),
            exprs_ops_wf(exprs_view(args@)),
        ensures
            final(self).ready(),
            final(self).module == old(self).module,
            final(self).named_values == old(self).named_values,
            final(self).current == old(self).current,
            final(self).builder.ret == old(self).builder.ret,
            old(self).builder.body@.len() <= final(self).builder.body@.len(),
            match r {
                Ok(ids) => spec_lower_args(
                    old(self).module@,
                    old(self).env(),
                    instrs_view(old(self).builder.body@),
                    exprs_view(args@),
                ) == Ok::<(Seq<InstrView>, Seq<int>), LowerError>(
                    (
                        instrs_view(final(self).builder.body@),
                        ids@.map_values(|v: usize| v as int),
                    ),
                ),
                Err(e) => spec_lower_args(
                    old(self).module@,
                    old(self).env(),
                    instrs_view(old(self).builder.body@),
                    exprs_view(args@),
                ) == Err::<(Seq<InstrView>, Seq<int>), LowerError>(e),
            },
        decreases args@,
    {
        let ghost args0 = args@;
        if args.len() == 0 {
            let ids: Vec<usize> = Vec::new();
            proof {
                assert(exprs_view(args0) =~= Seq::<ExprView>::empty());
                assert(ids@.map_values(|v: usize| v as int) =~= Seq::<int>::empty());
            }
            return Ok(ids);
        }
        let mut rest = args;
        let first = rest.remove(0);
        proof {
            assert(exprs_view(args0)[0] == expr_view(args0[0]));
            assert(exprs_view(args0).drop_first() =~= exprs_view(rest@));
        }
        let v = match self.codegen_expr(first) {
            Ok(v) => v,
            Err(e) => {
                return Err(e);
            },
        };
        let mut ids = match self.codegen_args(rest) {
            Ok(v) => v,
            Err(e) => {
                return Err(e);
            },
        };
        let ghost tail_ids = ids@.map_values(|v: usize| v as int);
        ids.insert(0, v);
        proof {
            assert(ids@.map_values(|x: usize| x as int) =~= seq![v as int] + tail_ids);
        }
        Ok(ids)
    }

    /// Declares the prototype's function in the module and returns its index.
    pub fn codegen_prototype(&mut self, node: PrototypeAstNode) -> (r: usize)
        requires
            old(self).wf(),
        ensures
            final(self).wf(),
            final(self).module@ == old(self).module@.push(
                FuncView {
                    name: proto_view(node).name,
                    params: proto_view(node).args,
                    body: Seq::empty(),
                    ret: None,
                },
            ),
            r == old(self).module@.len(),
            final(self).builder == old(self).builder,
            final(self).named_values == old(self).named_values,
            final(self).current == old(self).current,
            old(self).ready() ==> final(self).ready(),
    {
        let r = self.module.create_function(node.name, node.args);
        proof {
            let m0 = old(self).module@;
            let m1 = self.module@;
            assert forall|i: int| 0 <= i < m1.len() implies spec_func_wf(
                #[trigger] m1[i],
                m1.len() as int,
            ) by {
                if i < m0.len() {
                    assert(m1[i] == m0[i]);
                    lemma_func_wf_mono(m0[i], m0.len() as int, m1.len() as int);
                } else {
                    assert(m1[i].body =~= Seq::<InstrView>::empty());
                }
            }
            match self.current {
                Some(fid) => {
                    assert(m1[fid as int] == m0[fid as int]);
                    assert forall|i: int|
                        0 <= i < instrs_view(self.builder.body@).len() implies instr_wf(
                        #[trigger] instrs_view(self.builder.body@)[i],
                        i,
                        m1.len() as int,
                        m1[fid as int].params.len() as int,
                    ) by {
                        assert(instr_wf(
                            instrs_view(self.builder.body@)[i],
                            i,
                            m0.len() as int,
                            m0[fid as int].params.len() as int,
                        ));
                    }
                },
                None => {},
            }
        }
        r
    }

    /// Prepares the declared function for instruction emission: a fresh body
    /// holding one value for each parameter. The environment must have been
    /// cleared beforehand.
    fn create_function_body(&mut self, function: usize)
        requires
            old(self).wf(),
            function < old(self).module@.len(),
            old(self).named_values@.len() == 0,
        ensures
            final(self).ready(),
            final(self).module == old(self).module,
            final(self).named_values == old(self).named_values,
            final(self).current == Some(function),
            instrs_view(final(self).builder.body@) == param_instrs(
                old(self).module@[function as int].params.len() as int,
            ),
            final(self).builder.body@.len() == old(self).module@[function as int].params.len(),
            final(self).builder.ret is None,
    {
        let n = self.module.functions[function].params.len();
        let mut body: Vec<IrInstr> = Vec::new();
        let mut k: usize = 0;
        proof {
            assert(instrs_view(body@) =~= param_instrs(0));
        }
        while k < n
            invariant
                k <= n,
                body@.len() == k,
                instrs_view(body@) == param_instrs(k as int),
            decreases n - k,
        {
            let ghost prev = body@;
            body.push(IrInstr::Param(k));
            k = k + 1;
            proof {
                assert forall|i: int| 0 <= i < body@.len() implies instrs_view(body@)[i]
                    == param_instrs(k as int)[i] by {
                    if i < prev.len() {
                        assert(body@[i] == prev[i]);
                        assert(instrs_view(prev)[i] == instr_view(prev[i]));
                        assert(instrs_view(prev)[i] == param_instrs((k - 1) as int)[i]);
                    } else {
                        assert(body@[i] == IrInstr::Param((k - 1) as usize));
                    }
                }
                assert(instrs_view(body@) =~= param_instrs(k as int));
            }
        }
        self.builder.body = body;
        self.builder.ret = None;
        self.current = Some(function);
        proof {
            let m = self.module@;
            let nparams = m[function as int].params.len() as int;
            assert(strs_view(self.module.functions@[function as int].params@).len() == nparams);
            assert forall|i: int| 0 <= i < param_instrs(nparams).len() implies instr_wf(
                #[trigger] param_instrs(nparams)[i],
                i,
                m.len() as int,
                nparams,
            ) by {
                assert(param_instrs(nparams)[i] == InstrView::Param(i));
            }
            assert(env_map(self.named_values@) =~= Map::<Seq<char>, int>::empty());
        }
    }

    /// Lowers a whole function: declares its prototype, builds its body from
    /// a fresh environment binding each parameter name to its positional
    /// value, lowers the body expression, and makes the result the return
    /// value. On an error the declaration stays in the module, bodiless.
    pub fn codegen_function(&mut self, node: FunctionAstNode) -> (r: Result<usize, LowerError>)
        requires
            old(self).wf(),
            expr_ops_wf(expr_view(*node.body)),
        ensures
            final(self).wf(),
            final(self).current is None,
            ({
                let out = spec_lower_function(
                    old(self).module@,
                    proto_view(node.prototype),
                    expr_view(*node.body),
                );
                final(self).module@ == out.0 && (match r {
                    Ok(fid) => out.1 == Ok::<int, LowerError>(fid as int) && fid == old(
                        self,
                    ).module@.len(),
                    Err(e) => out.1 == Err::<int, LowerError>(e),
                })
            }),
    {
        let ghost protov = proto_view(node.prototype);
        let ghost bodyv = expr_view(*node.body);
        let args = clone_strings(&node.prototype.args);
        let FunctionAstNode { prototype, body } = node;
        let fid = self.codegen_prototype(prototype);
        let ghost m1 = self.module@;
        self.named_values.clear();
        self.create_function_body(fid);
        let n = args.len();
        let mut k: usize = 0;
        proof {
            assert(env_map(self.named_values@) =~= Map::<Seq<char>, int>::empty());
            assert(params_env(strs_view(args@).take(0)) =~= Map::<Seq<char>, int>::empty());
        }
        while k < n
            invariant
                k <= n,
                n == args.len(),
                self.module@ == m1,
                self.current == Some(fid),
                fid < m1.len(),
                m1[fid as int].params.len() == n,
                instrs_view(self.builder.body@) == param_instrs(n as int),
                self.builder.body@.len() == n,
                self.builder.ret is None,
                module_wf(m1),
                env_map(self.named_values@) == params_env(strs_view(args@).take(k as int)),
                env_ok(env_map(self.named_values@), k as int),
            decreases n - k,
        {
            let ghost nv0 = self.named_values@;
            let s = args[k].clone();
            self.named_values.push((s, k));
            k = k + 1;
            proof {
                assert(self.named_values@.drop_last() =~= nv0);
                assert(strs_view(args@).take(k as int).drop_last() =~= strs_view(args@).take(
                    k - 1,
                ));
                assert(strs_view(args@).take(k as int).last() == args@[k - 1]@);
                assert(env_map(self.named_values@) =~= params_env(
                    strs_view(args@).take(k as int),
                ));
                assert forall|key: Seq<char>|
                    env_map(self.named_values@).contains_key(key) implies 0 <= #[trigger] env_map(
                    self.named_values@,
                )[key] < k as int by {
                    if key != args@[k - 1]@ {
                        assert(env_map(nv0).contains_key(key));
                    }
                }
            }
        }
        proof {
            assert(strs_view(args@).take(n as int) =~= strs_view(args@));
            assert(strs_view(args@) == protov.args);
            assert(env_map(self.named_values@) == params_env(protov.args));
            assert(env_ok(env_map(self.named_values@), n as int));
        }
        let retv = match self.codegen_expr(*body) {
            Ok(v) => v,
            Err(e) => {
                self.current = None;
                return Err(e);
            },
        };
        self.builder.create_ret(retv);
        let ghost lowered = instrs_view(self.builder.body@);
        let mut finished: Vec<IrInstr> = Vec::new();
        core::mem::swap(&mut finished, &mut self.builder.body);
        let ghost fns0 = self.module.functions@;
        let mut f = self.module.functions.remove(fid);
        f.body = finished;
        f.ret = Some(retv);
        let ghost fv = func_view(f);
        self.module.functions.insert(fid, f);
        self.current = None;
        proof {
            assert(self.module.functions@ =~= fns0.update(fid as int, f));
            assert(self.module@ =~= m1.update(fid as int, fv));
            assert(fv.body == lowered);
            assert(fv.name == protov.name);
            assert(fv.params == protov.args);
            assert(fv.ret == Some(retv as int));
            let out = spec_lower_function(old(self).module@, protov, bodyv);
            assert(self.module@ =~= out.0);
            // the updated module stays well-formed
            lemma_lower_expr_wf(m1, params_env(protov.args), param_instrs(n as int), bodyv, n as int);
            assert forall|i: int| 0 <= i < self.module@.len() implies spec_func_wf(
                #[trigger] self.module@[i],
                self.module@.len() as int,
            ) by {
                if i != fid as int {
                    assert(self.module@[i] == m1[i]);
                }
            }
        }
        Ok(fid)
    }
}


// ---------------------------------------------------------------------------
// Textual rendering
// ---------------------------------------------------------------------------

/// The decimal digit character for a value below ten.
pub open spec fn digit_char(d: int) -> char {
    if d == 0 {
        '0'
    } else if d == 1 {
        '1'
    } else if d == 2 {
        '2'
    } else if d == 3 {
        '3'
    } else if d == 4 {
        '4'
    } else if d == 5 {
        '5'
    } else if d == 6 {
        '6'
    } else if d == 7 {
        '7'
    } else if d == 8 {
        '8'
    } else {
        '9'
    }
}

/// The decimal digits of a non-negative number.
pub open spec fn spec_dec_digits(n: int) -> Seq<char>
    decreases n,
        when n >= 0
{
    if n < 10 {
        seq![digit_char(n)]
    } else {
        spec_dec_digits(n / 10).push(digit_char(n % 10))
    }
}

fn digit(d: usize) -> (c: char)
    requires
        d < 10,
    ensures
        c == digit_char(d as int),
{
    if d == 0 {
        '0'
    } else if d == 1 {
        '1'
    } else if d == 2 {
        '2'
    } else if d == 3 {
        '3'
    } else if d == 4 {
        '4'
    } else if d == 5 {
        '5'
    } else if d == 6 {
        '6'
    } else if d == 7 {
        '7'
    } else if d == 8 {
        '8'
    } else {
        '9'
    }
}

fn dec_string(n: usize) -> (r: String)
    ensures
        r@ == spec_dec_digits(n as int),
    decreases n,
{
    if n < 10 {
        let mut s = String::new();
        crate::lexer::push_char(&mut s, digit(n));
        proof {
            assert(s@ =~= seq![digit_char(n as int)]);
        }
        s
    } else {
        let mut s = dec_string(n / 10);
        crate::lexer::push_char(&mut s, digit(n % 10));
        s
    }
}

/// The mnemonic an operation renders as.
pub open spec fn spec_op_text(op: IrOpKind) -> Seq<char> {
    match op {
        IrOpKind::Add => "fadd"@,
        IrOpKind::Sub => "fsub"@,
        IrOpKind::Mul => "fmul"@,
        IrOpKind::CmpLt => "fcmplt"@,
    }
}

fn op_str(op: IrOpKind) -> (r: &'static str)
    ensures
        r@ == spec_op_text(op),
{
    match op {
        IrOpKind::Add => "fadd",
        IrOpKind::Sub => "fsub",
        IrOpKind::Mul => "fmul",
        IrOpKind::CmpLt => "fcmplt",
    }
}

/// How a value is written in an instruction: a parameter by its name, any
/// other value by its index.
pub open spec fn spec_operand(f: FuncView, v: int) -> Seq<char> {
    if 0 <= v < f.body.len() && (f.body[v] matches InstrView::Param(k) && 0 <= k < f.params.len()) {
        seq!['%'] + f.params[f.body[v]->Param_0]
    } else {
        seq!['%'] + spec_dec_digits(if v >= 0 {
            v
        } else {
            0
        })
    }
}

fn operand_string(f: &IrFunction, v: usize) -> (r: String)
    ensures
        r@ == spec_operand(func_view(*f), v as int),
{
    let mut s = String::new();
    crate::lexer::push_char(&mut s, '%');
    if v < f.body.len() {
        let named: Option<usize> = match &f.body[v] {
            IrInstr::Param(k) => if *k < f.params.len() {
                Some(*k)
            } else {
                None
            },
            _ => None,
        };
        match named {
            Some(k) => {
                s.append(f.params[k].as_str());
                proof {
                    assert(s@ =~= seq!['%'] + func_view(*f).params[k as int]);
                }
                return s;
            },
            None => {},
        }
    }
    let d = dec_string(v);
    s.append(d.as_str());
    proof {
        assert(s@ =~= seq!['%'] + spec_dec_digits(v as int));
    }
    s
}

/// A comma-separated operand list, after its first element.
pub open spec fn spec_operands_rest(f: FuncView, ids: Seq<int>, k: int) -> Seq<char>
    decreases ids.len() - k,
        when 0 <= k <= ids.len()
{
    if k >= ids.len() {
        Seq::empty()
    } else {
        ", "@ + spec_operand(f, ids[k]) + spec_operands_rest(f, ids, k + 1)
    }
}

/// A comma-separated operand list.
pub open spec fn spec_operands_text(f: FuncView, ids: Seq<int>) -> Seq<char> {
    if ids.len() == 0 {
        Seq::empty()
    } else {
        spec_operand(f, ids[0]) + spec_operands_rest(f, ids, 1)
    }
}

fn operands_string(f: &IrFunction, ids: &Vec<usize>) -> (r: String)
    ensures
        r@ == spec_operands_text(func_view(*f), ids@.map_values(|v: usize| v as int)),
{
    let ghost fv = func_view(*f);
    let ghost idsv = ids@.map_values(|v: usize| v as int);
    if ids.len() == 0 {
        let s = String::new();
        proof {
            assert(s@ =~= spec_operands_text(fv, idsv));
        }
        return s;
    }
    let mut s = operand_string(f, ids[0]);
    let mut k: usize = 1;
    while k < ids.len()
        invariant
            1 <= k <= ids.len(),
            idsv == ids@.map_values(|v: usize| v as int),
            fv == func_view(*f),
            s@ + spec_operands_rest(fv, idsv, k as int) == spec_operands_text(fv, idsv),
        decreases ids.len() - k,
    {
        let ghost s0 = s@;
        s.append(", ");
        let o = operand_string(f, ids[k]);
        s.append(o.as_str());
        k = k + 1;
        proof {
            assert(s@ + spec_operands_rest(fv, idsv, k as int) =~= s0 + spec_operands_rest(
                fv,
                idsv,
                k - 1,
            ));
        }
    }
    proof {
        assert(s@ + spec_operands_rest(fv, idsv, ids@.len() as int) =~= s@);
    }
    s
}

/// A comma-separated parameter-name list, after its first element.
pub open spec fn spec_params_rest(ps: Seq<Seq<char>>, k: int) -> Seq<char>
    decreases ps.len() - k,
        when 0 <= k <= ps.len()
{
    if k >= ps.len() {
        Seq::empty()
    } else {
        ", "@ + ps[k] + spec_params_rest(ps, k + 1)
    }
}

/// A comma-separated parameter-name list.
pub open spec fn spec_params_text(ps: Seq<Seq<char>>) -> Seq<char> {
    if ps.len() == 0 {
        Seq::empty()
    } else {
        ps[0] + spec_params_rest(ps, 1)
    }
}

fn params_string(params: &Vec<String>) -> (r: String)
    ensures
        r@ == spec_params_text(strs_view(params@)),
{
    let ghost psv = strs_view(params@);
    if params.len() == 0 {
        let s = String::new();
        proof {
            assert(s@ =~= spec_params_text(psv));
        }
        return s;
    }
    let mut s = params[0].clone();
    let mut k: usize = 1;
    while k < params.len()
        invariant
            1 <= k <= params.len(),
            psv == strs_view(params@),
            s@ + spec_params_rest(psv, k as int) == spec_params_text(psv),
        decreases params.len() - k,
    {
        let ghost s0 = s@;
        s.append(", ");
        s.append(params[k].as_str());
        k = k + 1;
        proof {
            assert(s@ + spec_params_rest(psv, k as int) =~= s0 + spec_params_rest(psv, k - 1));
        }
    }
    proof {
        assert(s@ + spec_params_rest(psv, params@.len() as int) =~= s@);
    }
    s
}

/// One instruction as text.
pub open spec fn spec_render_instr(m: Seq<FuncView>, f: FuncView, i: int) -> Seq<char> {
    if !(0 <= i < f.body.len()) {
        Seq::empty()
    } else {
        match f.body[i] {
            InstrView::Constant(t) => seq!['%'] + spec_dec_digits(i) + " = const "@ + t,
            InstrView::Param(k) => seq!['%'] + spec_dec_digits(i) + " = param "@ + (if 0 <= k
                < f.params.len() {
                f.params[k]
            } else {
                Seq::empty()
            }),
            InstrView::Binary(op, l, r) => seq!['%'] + spec_dec_digits(i) + " = "@ + spec_op_text(
                op,
            ) + " "@ + spec_operand(f, l) + ", "@ + spec_operand(f, r),
            InstrView::Call(fid, ids) => seq!['%'] + spec_dec_digits(i) + " = call "@ + (if 0 <= fid
                < m.len() {
                m[fid].name
            } else {
                Seq::empty()
            }) + "("@ + spec_operands_text(f, ids) + ")"@,
        }
    }
}

fn render_instr_string(m: &Module, f: &IrFunction, i: usize) -> (r: String)
    ensures
        r@ == spec_render_instr(m@, func_view(*f), i as int),
{
    let ghost fv = func_view(*f);
    if i >= f.body.len() {
        let s = String::new();
        proof {
            assert(s@ =~= Seq::<char>::empty());
        }
        return s;
    }
    let mut s = String::new();
    crate::lexer::push_char(&mut s, '%');
    let d = dec_string(i);
    s.append(d.as_str());
    match &f.body[i] {
        IrInstr::Constant(t) => {
            s.append(" = const ");
            s.append(t.as_str());
            proof {
                assert(s@ =~= spec_render_instr(m@, fv, i as int));
            }
        },
        IrInstr::Param(k) => {
            s.append(" = param ");
            if *k < f.params.len() {
                s.append(f.params[*k].as_str());
            }
            proof {
                assert(s@ =~= spec_render_instr(m@, fv, i as int));
            }
        },
        IrInstr::Binary(op, l, rhs) => {
            s.append(" = ");
            s.append(op_str(*op));
            s.append(" ");
            let ol = operand_string(f, *l);
            s.append(ol.as_str());
            s.append(", ");
            let or = operand_string(f, *rhs);
            s.append(or.as_str());
            proof {
                assert(s@ =~= spec_render_instr(m@, fv, i as int));
            }
        },
        IrInstr::Call(fid, ids) => {
            s.append(" = call ");
            if *fid < m.functions.len() {
                s.append(m.functions[*fid].name.as_str());
            }
            s.append("(");
            let os = operands_string(f, ids);
            s.append(os.as_str());
            s.append(")");
            proof {
                assert(s@ =~= spec_render_instr(m@, fv, i as int));
            }
        },
    }
    s
}

/// The body lines of a function from instruction `i` on, two spaces before
/// each, one line per instruction; parameter values render no line of their
/// own.
pub open spec fn spec_render_lines(m: Seq<FuncView>, f: FuncView, i: int) -> Seq<char>
    decreases f.body.len() - i,
        when 0 <= i <= f.body.len()
{
    if i >= f.body.len() {
        Seq::empty()
    } else if f.body[i] is Param {
        spec_render_lines(m, f, i + 1)
    } else {
        "  "@ + spec_render_instr(m, f, i) + "\n"@ + spec_render_lines(m, f, i + 1)
    }
}

fn lines_string(m: &Module, f: &IrFunction) -> (r: String)
    ensures
        r@ == spec_render_lines(m@, func_view(*f), 0),
{
    let ghost fv = func_view(*f);
    let mut s = String::new();
    let mut i: usize = 0;
    proof {
        assert(s@ + spec_render_lines(m@, fv, 0) =~= spec_render_lines(m@, fv, 0));
    }
    while i < f.body.len()
        invariant
            i <= f.body.len(),
            fv == func_view(*f),
            s@ + spec_render_lines(m@, fv, i as int) == spec_render_lines(m@, fv, 0),
        decreases f.body.len() - i,
    {
        let ghost s0 = s@;
        if !matches!(&f.body[i], IrInstr::Param(_)) {
            s.append("  ");
            let line = render_instr_string(m, f, i);
            s.append(line.as_str());
            s.append("\n");
        }
        i = i + 1;
        proof {
            assert(s@ + spec_render_lines(m@, fv, i as int) =~= s0 + spec_render_lines(
                m@,
                fv,
                i - 1,
            ));
        }
    }
    proof {
        assert(s@ + spec_render_lines(m@, fv, f.body@.len() as int) =~= s@);
    }
    s
}

/// A whole function as text: a bodiless declaration as a `declare` line, a
/// defined function as a `define` block with its instructions and its return
/// line.
pub open spec fn spec_render_function(m: Seq<FuncView>, fid: int) -> Seq<char> {
    if !(0 <= fid < m.len()) {
        Seq::empty()
    } else {
        let f = m[fid];
        if f.body.len() == 0 {
            "declare "@ + f.name + "("@ + spec_params_text(f.params) + ")\n"@
        } else {
            "define "@ + f.name + "("@ + spec_params_text(f.params) + ") {\n"@
                + spec_render_lines(m, f, 0) + (match f.ret {
                Some(v) => "  ret "@ + spec_operand(f, v) + "\n"@,
                None => Seq::<char>::empty(),
            }) + "}\n"@
        }
    }
}

/// Renders one instruction of a module function; the empty string when either
/// index is out of range.
pub fn print_value(m: &Module, function: usize, value: usize) -> (r: String)
    ensures
        r@ == (if function < m.functions.len() {
            spec_render_instr(m@, m@[function as int], value as int)
        } else {
            Seq::<char>::empty()
        }),
{
    if function >= m.functions.len() {
        let s = String::new();
        proof {
            assert(s@ =~= Seq::<char>::empty());
        }
        return s;
    }
    render_instr_string(m, &m.functions[function], value)
}

/// Renders one module function; the empty string when the index is out of
/// range.
pub fn print_function(m: &Module, function: usize) -> (r: String)
    ensures
        r@ == spec_render_function(m@, function as int),
{
    let ghost mv = m@;
    if function >= m.functions.len() {
        let s = String::new();
        proof {
            assert(s@ =~= Seq::<char>::empty());
        }
        return s;
    }
    let f = &m.functions[function];
    let ghost fv = mv[function as int];
    let ps = params_string(&f.params);
    if f.body.len() == 0 {
        let mut s = String::new();
        s.append("declare ");
        s.append(f.name.as_str());
        s.append("(");
        s.append(ps.as_str());
        s.append(")\n");
        proof {
            assert(s@ =~= spec_render_function(mv, function as int));
        }
        s
    } else {
        let mut s = String::new();
        s.append("define ");
        s.append(f.name.as_str());
        s.append("(");
        s.append(ps.as_str());
        s.append(") {\n");
        let lines = lines_string(m, f);
        s.append(lines.as_str());
        match &f.ret {
            Some(v) => {
                s.append("  ret ");
                let o = operand_string(f, *v);
                s.append(o.as_str());
                s.append("\n");
            },
            None => {},
        }
        s.append("}\n");
        proof {
            assert(s@ =~= spec_render_function(mv, function as int));
        }
        s
    }
}

} // verus!
