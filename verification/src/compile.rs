//! The code generator: lowers syntax trees into a function-level
//! intermediate representation held in memory, keeping a per-function
//! symbol table, enforcing arity and redefinition rules, and erasing a
//! partially built function when its body fails. The mathematical model
//! is a family of spec functions over a `SpecCompiler` state; every
//! executable operation is proved to effect exactly what its spec
//! function says.

use vstd::prelude::*;
use vstd::string::StringSliceAdditionalSpecFns;

use crate::ast::spec_exprs_of;
use crate::ast::BinaryExprAst;
use crate::ast::CallExprAst;
use crate::ast::ExprAst;
use crate::ast::FunctionAst;
use crate::ast::OpSymbol;
use crate::ast::SpecExpr;
use crate::ast::SpecFunc;
use crate::error::CompileError;
use crate::error::Error;
use crate::error::SpecCompileError;
use crate::error::SpecError;

verus! {

/// One instruction of a function body. A value handle is the index of the
/// instruction that produced it; parameters are materialized first, so
/// parameter `k` is value `k`.
#[derive(Debug, PartialEq)]
pub enum Instr {
    /// The `k`-th parameter of the enclosing function, as a value.
    Param(usize),
    /// A double-precision float constant, kept as its literal text.
    Const(Vec<u8>),
    /// A float arithmetic instruction on two earlier values.
    Binary(OpSymbol, usize, usize),
    /// An unordered-or-less-than float comparison of two earlier values.
    CmpLess(usize, usize),
    /// Widens a comparison result back to a float value: 0.0 or 1.0.
    BoolToFloat(usize),
    /// A call of a named function with earlier values as arguments.
    Call(Vec<u8>, Vec<usize>),
    /// Returns an earlier value from the enclosing function.
    Ret(usize),
}

/// A function of the module: a name, ordered parameter names, and — once
/// defined — a body of instructions.
#[derive(Debug, PartialEq)]
pub struct IRFunction {
    pub name: Vec<u8>,
    pub params: Vec<Vec<u8>>,
    pub body: Option<Vec<Instr>>,
}

/// Mathematical model of an instruction.
#[verifier::ext_equal]
pub enum SpecInstr {
    Param(int),
    Const(Seq<u8>),
    Binary(OpSymbol, int, int),
    CmpLess(int, int),
    BoolToFloat(int),
    Call(Seq<u8>, Seq<int>),
    Ret(int),
}

/// Mathematical model of a function of the module.
#[verifier::ext_equal]
pub struct SpecFn {
    pub name: Seq<u8>,
    pub params: Seq<Seq<u8>>,
    pub body: Option<Seq<SpecInstr>>,
}

/// Mathematical model of the code generator's state: the module's
/// functions, the symbol table, the function currently being built, and
/// the instructions emitted into its body so far.
#[verifier::ext_equal]
pub struct SpecCompiler {
    pub module: Seq<SpecFn>,
    pub names: Seq<(Seq<u8>, int)>,
    pub cur: Option<int>,
    pub body: Seq<SpecInstr>,
}


/// The views of a list of parameter names.
pub open spec fn spec_params_of(s: Seq<Vec<u8>>) -> Seq<Seq<u8>> {
    s.map_values(|a: Vec<u8>| a@)
}

/// The views of a list of instructions.
pub open spec fn spec_instrs_of(s: Seq<Instr>) -> Seq<SpecInstr> {
    s.map_values(|i: Instr| i@)
}

/// The views of a list of module functions.
pub open spec fn spec_irfns_of(s: Seq<IRFunction>) -> Seq<SpecFn> {
    s.map_values(|f: IRFunction| f@)
}

/// The views of a list of value handles.
pub open spec fn spec_ids_of(s: Seq<usize>) -> Seq<int> {
    s.map_values(|a: usize| a as int)
}

/// The views of the symbol table's bindings.
pub open spec fn spec_names_of(s: Seq<(Vec<u8>, usize)>) -> Seq<(Seq<u8>, int)> {
    s.map_values(|p: (Vec<u8>, usize)| (p.0@, p.1 as int))
}

impl View for Instr {
    type V = SpecInstr;

    open spec fn view(&self) -> SpecInstr {
        match self {
            Instr::Param(k) => SpecInstr::Param(*k as int),
            Instr::Const(t) => SpecInstr::Const(t@),
            Instr::Binary(op, l, r) => SpecInstr::Binary(*op, *l as int, *r as int),
            Instr::CmpLess(l, r) => SpecInstr::CmpLess(*l as int, *r as int),
            Instr::BoolToFloat(v) => SpecInstr::BoolToFloat(*v as int),
            Instr::Call(name, args) => SpecInstr::Call(name@, spec_ids_of(args@)),
            Instr::Ret(v) => SpecInstr::Ret(*v as int),
        }
    }
}

impl View for IRFunction {
    type V = SpecFn;

    open spec fn view(&self) -> SpecFn {
        SpecFn {
            name: self.name@,
            params: spec_params_of(self.params@),
            body: match &self.body {
                Some(b) => Some(spec_instrs_of(b@)),
                None => None,
            },
        }
    }
}

/// The code generator: owns the module, the symbol table of the function
/// being generated, and the body under construction.
pub struct Compiler {
    module: Vec<IRFunction>,
    names: Vec<(Vec<u8>, usize)>,
    cur: Option<usize>,
    body: Vec<Instr>,
}

impl View for Compiler {
    type V = SpecCompiler;

    closed spec fn view(&self) -> SpecCompiler {
        SpecCompiler {
            module: spec_irfns_of(self.module@),
            names: spec_names_of(self.names@),
            cur: match self.cur {
                Some(f) => Some(f as int),
                None => None,
            },
            body: spec_instrs_of(self.body@),
        }
    }
}

/// The index of the first function of the module with the given name.
pub open spec fn sp_find_fn_from(m: Seq<SpecFn>, name: Seq<u8>, i: int) -> Option<int>
    decreases m.len() - i when 0 <= i <= m.len()
{
    if i >= m.len() {
        None
    } else if m[i].name == name {
        Some(i)
    } else {
        sp_find_fn_from(m, name, i + 1)
    }
}

/// Looks a function up by name in the module.
pub open spec fn sp_find_fn(m: Seq<SpecFn>, name: Seq<u8>) -> Option<int> {
    sp_find_fn_from(m, name, 0)
}

/// Looks a name up in the symbol table; the binding made last wins, as a
/// repeated insertion overwrites the earlier one.
pub open spec fn sp_lookup(names: Seq<(Seq<u8>, int)>, name: Seq<u8>) -> Option<int>
    decreases names.len(),
{
    if names.len() == 0 {
        None
    } else if names.last().0 == name {
        Some(names.last().1)
    } else {
        sp_lookup(names.drop_last(), name)
    }
}

/// How many values the function under construction holds so far.
pub open spec fn sp_value_count(c: SpecCompiler) -> int {
    c.body.len() as int
}

/// What emitting a float constant does: with a function open, the
/// constant becomes the next value of its body; otherwise the defensive
/// `InvalidHandle` error.
pub open spec fn sp_const_double(c: SpecCompiler, text: Seq<u8>) -> (SpecCompiler, Result<
    int,
    SpecCompileError,
>) {
    if c.cur is None {
        (c, Err(SpecCompileError::InvalidHandle))
    } else {
        (
            SpecCompiler { body: c.body.push(SpecInstr::Const(text)), ..c },
            Ok(c.body.len() as int),
        )
    }
}

/// What emitting a binary operation does: the four arithmetic operators
/// emit one instruction; `Less` emits the unordered less-than comparison
/// and widens it back to a float; `Greater` is reduced to `Less` with the
/// operands swapped. Operands must be earlier values of an open body.
pub open spec fn sp_create_binary(c: SpecCompiler, left: int, right: int, op: OpSymbol) -> (
    SpecCompiler,
    Result<int, SpecCompileError>,
) {
    if c.cur is None || !(0 <= left < sp_value_count(c)) || !(0 <= right < sp_value_count(c)) {
        (c, Err(SpecCompileError::InvalidHandle))
    } else {
        let n = sp_value_count(c);
        match op {
            OpSymbol::Add | OpSymbol::Sub | OpSymbol::Mul | OpSymbol::Div => (
                SpecCompiler { body: c.body.push(SpecInstr::Binary(op, left, right)), ..c },
                Ok(n),
            ),
            OpSymbol::Less => (
                SpecCompiler {
                    body: c.body.push(SpecInstr::CmpLess(left, right)).push(
                        SpecInstr::BoolToFloat(n),
                    ),
                    ..c
                },
                Ok(n + 1),
            ),
            OpSymbol::Greater => (
                SpecCompiler {
                    body: c.body.push(SpecInstr::CmpLess(right, left)).push(
                        SpecInstr::BoolToFloat(n),
                    ),
                    ..c
                },
                Ok(n + 1),
            ),
        }
    }
}

/// What declaring a prototype does: an existing function of that name is
/// fetched; otherwise a new bodyless function is appended.
pub open spec fn sp_create_proto(c: SpecCompiler, name: Seq<u8>, args: Seq<Seq<u8>>) -> (
    SpecCompiler,
    int,
) {
    match sp_find_fn(c.module, name) {
        Some(i) => (c, i),
        None => (
            SpecCompiler {
                module: c.module.push(SpecFn { name, params: args, body: None }),
                ..c
            },
            c.module.len() as int,
        ),
    }
}

/// What lowering an expression does to the compiler state, and the value
/// handle it yields: a number becomes a float constant; a variable is a
/// symbol-table lookup with no fallback, failing `UnknownVariableName`
/// when absent; a binary operation lowers both operands left first and
/// emits the matching instructions; a call is `sp_create_call`. The state
/// comes back even on failure, since partially emitted operands remain.
pub open spec fn sp_codegen_expr(c: SpecCompiler, e: SpecExpr) -> (SpecCompiler, Result<
    int,
    SpecError,
>)
    decreases e, 0int, 0int,
{
    match e {
        SpecExpr::Number(t) => {
            let (c2, r) = sp_const_double(c, t);
            (
                c2,
                match r {
                    Ok(v) => Ok(v),
                    Err(ce) => Err(SpecError::CompileError(ce)),
                },
            )
        },
        SpecExpr::Variable(n) => match sp_lookup(c.names, n) {
            Some(v) => (c, Ok(v)),
            None => (c, Err(SpecError::CompileError(SpecCompileError::UnknownVariableName(n)))),
        },
        SpecExpr::Binary(op, l, r) => {
            let (c1, lr) = sp_codegen_expr(c, *l);
            match lr {
                Err(e) => (c1, Err(e)),
                Ok(lv) => {
                    let (c2, rr) = sp_codegen_expr(c1, *r);
                    match rr {
                        Err(e) => (c2, Err(e)),
                        Ok(rv) => {
                            let (c3, br) = sp_create_binary(c2, lv, rv, op);
                            (
                                c3,
                                match br {
                                    Ok(v) => Ok(v),
                                    Err(ce) => Err(SpecError::CompileError(ce)),
                                },
                            )
                        },
                    }
                },
            }
        },
        SpecExpr::Call(name, args) => sp_create_call(c, name, args),
    }
}

/// What lowering a call does: the callee must already be declared or
/// defined, failing `UnknownFunction`; its arity must match the argument
/// count, failing `IncorrectArguments`; the arguments are lowered left to
/// right; and the call is emitted with their values in order.
pub open spec fn sp_create_call(c: SpecCompiler, name: Seq<u8>, args: Seq<SpecExpr>) -> (
    SpecCompiler,
    Result<int, SpecError>,
)
    decreases args, 1int, 0int,
{
    match sp_find_fn(c.module, name) {
        None => (c, Err(SpecError::CompileError(SpecCompileError::UnknownFunction(name)))),
        Some(fi) => {
            let expected = c.module[fi].params.len() as int;
            if expected != args.len() as int {
                (
                    c,
                    Err(SpecError::CompileError(SpecCompileError::IncorrectArguments {
                        expected,
                        got: args.len() as int,
                    })),
                )
            } else {
                let (c1, rvals) = sp_codegen_args(c, args, 0);
                match rvals {
                    Err(e) => (c1, Err(e)),
                    Ok(vals) => if c1.cur is None {
                        (c1, Err(SpecError::CompileError(SpecCompileError::InvalidHandle)))
                    } else {
                        (
                            SpecCompiler {
                                body: c1.body.push(SpecInstr::Call(name, vals)),
                                ..c1
                            },
                            Ok(sp_value_count(c1)),
                        )
                    },
                }
            }
        },
    }
}

/// What lowering the argument list from position `k` on does: each
/// argument is lowered in turn, its handle checked against the values of
/// the open body — an invalid handle fails `FunctionArgumentIsNull` —
/// and the handles are collected in order.
pub open spec fn sp_codegen_args(c: SpecCompiler, args: Seq<SpecExpr>, k: int) -> (SpecCompiler,
    Result<Seq<int>, SpecError>,
)
    decreases args, 0int, args.len() - k,
{
    if k < 0 || k >= args.len() {
        (c, Ok(Seq::empty()))
    } else {
        let (c1, r1) = sp_codegen_expr(c, args[k]);
        match r1 {
            Err(e) => (c1, Err(e)),
            Ok(v) => if !(0 <= v < sp_value_count(c1)) {
                (c1, Err(SpecError::CompileError(SpecCompileError::FunctionArgumentIsNull)))
            } else {
                let (c2, rrest) = sp_codegen_args(c1, args, k + 1);
                (
                    c2,
                    match rrest {
                        Err(e) => Err(e),
                        Ok(rest) => Ok(seq![v] + rest),
                    },
                )
            },
        }
    }
}

/// The symbol table a function body starts from: each parameter name
/// bound to its value, in order, so that a repeated name keeps its last
/// binding.
pub open spec fn sp_param_bindings(args: Seq<Seq<u8>>) -> Seq<(Seq<u8>, int)> {
    Seq::new(args.len(), |k: int| (args[k], k))
}

/// The instructions that open a function body: one `Param` per parameter,
/// so that parameter `k` is value `k`.
pub open spec fn sp_param_instrs(n: nat) -> Seq<SpecInstr> {
    Seq::new(n, |k: int| SpecInstr::Param(k))
}

/// What defining a function does: the function is fetched or declared
/// from its prototype; one that already has a body fails
/// `FunctionRedefined` with nothing changed; a declaration whose arity
/// differs from the new prototype fails `IncorrectArguments`; otherwise
/// the body is opened — parameters materialized, the symbol table rebuilt
/// — the body expression is lowered and a return is emitted; and on any
/// body failure the partially built function is erased from the module
/// and the error propagates unchanged.
pub open spec fn sp_create_function(c: SpecCompiler, f: SpecFunc) -> (SpecCompiler, Result<
    int,
    SpecError,
>) {
    let (c1, fi) = sp_create_proto(c, f.proto.name, f.proto.args);
    if c1.module[fi].body is Some {
        (c1, Err(SpecError::CompileError(SpecCompileError::FunctionRedefined)))
    } else {
        let expected = c1.module[fi].params.len() as int;
        if expected != f.proto.args.len() as int {
            (
                c1,
                Err(SpecError::CompileError(SpecCompileError::IncorrectArguments {
                    expected,
                    got: f.proto.args.len() as int,
                })),
            )
        } else {
            let c2 = SpecCompiler {
                module: c1.module,
                names: sp_param_bindings(f.proto.args),
                cur: Some(fi),
                body: sp_param_instrs(f.proto.args.len()),
            };
            let (c3, rb) = sp_codegen_expr(c2, f.body);
            match rb {
                Ok(v) => (
                    SpecCompiler {
                        module: c3.module.update(
                            fi,
                            SpecFn {
                                name: c3.module[fi].name,
                                params: c3.module[fi].params,
                                body: Some(c3.body.push(SpecInstr::Ret(v))),
                            },
                        ),
                        names: c3.names,
                        cur: None,
                        body: Seq::empty(),
                    },
                    Ok(fi),
                ),
                Err(e) => (
                    SpecCompiler {
                        module: c3.module.remove(fi),
                        names: c3.names,
                        cur: None,
                        body: Seq::empty(),
                    },
                    Err(e),
                ),
            }
        }
    }
}

/// Lowering an expression only ever appends to the open body: the
/// module, the symbol table and the open-function marker are untouched,
/// and the instructions emitted so far stay in place.
pub proof fn lemma_codegen_expr_frame(c: SpecCompiler, e: SpecExpr)
    ensures
        ({
            let (c1, _) = sp_codegen_expr(c, e);
            &&& c1.module == c.module
            &&& c1.names == c.names
            &&& c1.cur == c.cur
            &&& c1.body.len() >= c.body.len()
            &&& c1.body.subrange(0, c.body.len() as int) == c.body
        }),
    decreases e, 0int, 0int,
{
    proof_codegen_frame_unfold(c, e);
}

/// Induction step shared by the framing lemmas.
proof fn proof_codegen_frame_unfold(c: SpecCompiler, e: SpecExpr)
    ensures
        ({
            let (c1, _) = sp_codegen_expr(c, e);
            &&& c1.module == c.module
            &&& c1.names == c.names
            &&& c1.cur == c.cur
            &&& c1.body.len() >= c.body.len()
            &&& c1.body.subrange(0, c.body.len() as int) == c.body
        }),
    decreases e, 0int, 0int,
{
    assert(c.body.subrange(0, c.body.len() as int) =~= c.body);
    match e {
        SpecExpr::Number(t) => {
            if !(c.cur is None) {
                assert(c.body.push(SpecInstr::Const(t)).subrange(0, c.body.len() as int)
                    =~= c.body);
            }
        },
        SpecExpr::Variable(_) => {},
        SpecExpr::Binary(op, l, r) => {
            proof_codegen_frame_unfold(c, *l);
            let (c1, lr) = sp_codegen_expr(c, *l);
            if lr is Ok {
                proof_codegen_frame_unfold(c1, *r);
                let (c2, rr) = sp_codegen_expr(c1, *r);
                assert(c2.body.subrange(0, c.body.len() as int) =~= c.body);
                if rr is Ok {
                    let (c3, _) = sp_create_binary(c2, lr->Ok_0, rr->Ok_0, op);
                    assert(c3.body.subrange(0, c.body.len() as int) =~= c.body);
                }
            } else {
                assert(c1.body.subrange(0, c.body.len() as int) =~= c.body);
            }
        },
        SpecExpr::Call(name, args) => {
            proof_call_frame_unfold(c, name, args);
        },
    }
}

/// Framing for lowering a call.
proof fn proof_call_frame_unfold(c: SpecCompiler, name: Seq<u8>, args: Seq<SpecExpr>)
    ensures
        ({
            let (c1, _) = sp_create_call(c, name, args);
            &&& c1.module == c.module
            &&& c1.names == c.names
            &&& c1.cur == c.cur
            &&& c1.body.len() >= c.body.len()
            &&& c1.body.subrange(0, c.body.len() as int) == c.body
        }),
    decreases args, 1int, 0int,
{
    assert(c.body.subrange(0, c.body.len() as int) =~= c.body);
    match sp_find_fn(c.module, name) {
        None => {},
        Some(fi) => {
            let expected = c.module[fi].params.len() as int;
            if expected == args.len() as int {
                proof_args_frame_unfold(c, args, 0);
                let (c1, rvals) = sp_codegen_args(c, args, 0);
                if rvals is Ok && !(c1.cur is None) {
                    assert(c1.body.push(SpecInstr::Call(name, rvals->Ok_0)).subrange(
                        0,
                        c.body.len() as int,
                    ) =~= c.body);
                }
            }
        },
    }
}

/// Framing for lowering an argument list.
proof fn proof_args_frame_unfold(c: SpecCompiler, args: Seq<SpecExpr>, k: int)
    ensures
        ({
            let (c1, _) = sp_codegen_args(c, args, k);
            &&& c1.module == c.module
            &&& c1.names == c.names
            &&& c1.cur == c.cur
            &&& c1.body.len() >= c.body.len()
            &&& c1.body.subrange(0, c.body.len() as int) == c.body
        }),
    decreases args, 0int, args.len() - k,
{
    assert(c.body.subrange(0, c.body.len() as int) =~= c.body);
    if 0 <= k < args.len() {
        proof_codegen_frame_unfold(c, args[k]);
        let (c1, r1) = sp_codegen_expr(c, args[k]);
        if r1 is Ok && 0 <= r1->Ok_0 < sp_value_count(c1) {
            proof_args_frame_unfold(c1, args, k + 1);
            let (c2, _) = sp_codegen_args(c1, args, k + 1);
            assert(c2.body.subrange(0, c.body.len() as int) =~= c.body);
        } else {
            assert(c1.body.subrange(0, c.body.len() as int) =~= c.body);
        }
    }
}

impl Compiler {
    /// Well-formedness: the open function, if any, exists in the module
    /// and has no finished body yet; with none open, no instructions are
    /// pending.
    pub closed spec fn wf(&self) -> bool {
        match self@.cur {
            Some(f) => 0 <= f < self@.module.len() && self@.module[f].body is None,
            None => self@.body.len() == 0,
        }
    }

    /// Makes a code generator over an empty module.
    pub fn new() -> (r: Self)
        ensures
            r.wf(),
            r@.module =~= Seq::<SpecFn>::empty(),
            r@.names =~= Seq::<(Seq<u8>, int)>::empty(),
            r@.cur is None,
            r@.body =~= Seq::<SpecInstr>::empty(),
    {
        Self { module: Vec::new(), names: Vec::new(), cur: None, body: Vec::new() }
    }

    /// The functions of the module, in declaration order.
    pub fn module(&self) -> (r: &Vec<IRFunction>)
        ensures
            spec_irfns_of(r@) == self@.module,
    {
        &self.module
    }

    /// Emits a float constant into the open function body.
    pub fn const_double(&mut self, val: Vec<u8>) -> (r: Result<usize, CompileError>)
        requires
            old(self).wf(),
        ensures
            final(self).wf(),
            ({
                let (c2, res) = sp_const_double(old(self)@, val@);
                &&& final(self)@ == c2
                &&& match r {
                    Ok(v) => res == Ok::<int, SpecCompileError>(v as int),
                    Err(e) => res == Err::<int, SpecCompileError>(e@),
                }
            }),
    {
        if self.cur.is_none() {
            return Err(CompileError::InvalidHandle);
        }
        let v = self.body.len();
        self.body.push(Instr::Const(val));
        proof {
            assert(self@.body =~= old(self)@.body.push(SpecInstr::Const(val@)));
        }
        Ok(v)
    }

    /// Looks a variable up in the symbol table of the function being
    /// generated; there is no fallback to anything global.
    pub fn variable(&self, name: &Vec<u8>) -> (r: Option<usize>)
        ensures
            match r {
                Some(v) => sp_lookup(self@.names, name@) == Some(v as int),
                None => sp_lookup(self@.names, name@) is None,
            },
    {
        let mut i: usize = self.names.len();
        proof {
            assert(self@.names.subrange(0, i as int) =~= self@.names);
        }
        while i > 0
            invariant
                i <= self.names.len(),
                sp_lookup(self@.names, name@) == sp_lookup(
                    self@.names.subrange(0, i as int),
                    name@,
                ),
            decreases i,
        {
            let ghost pre = self@.names.subrange(0, i as int);
            i = i - 1;
            if bytes_eq(&self.names[i].0, name) {
                proof {
                    assert(pre.last() == (self@.names[i as int].0, self@.names[i as int].1));
                }
                return Some(self.names[i].1);
            }
            proof {
                assert(pre.drop_last() =~= self@.names.subrange(0, i as int));
            }
        }
        proof {
            assert(self@.names.subrange(0, 0) =~= Seq::<(Seq<u8>, int)>::empty());
        }
        None
    }

    /// Emits the instructions of one binary operation into the open
    /// function body and yields the handle of its result.
    pub fn create_binary(&mut self, left: usize, right: usize, op: OpSymbol) -> (r: Result<
        usize,
        CompileError,
    >)
        requires
            old(self).wf(),
        ensures
            final(self).wf(),
            ({
                let (c2, res) = sp_create_binary(old(self)@, left as int, right as int, op);
                &&& final(self)@ == c2
                &&& match r {
                    Ok(v) => res == Ok::<int, SpecCompileError>(v as int),
                    Err(e) => res == Err::<int, SpecCompileError>(e@),
                }
            }),
    {
        if self.cur.is_none() || left >= self.body.len() || right >= self.body.len() {
            return Err(CompileError::InvalidHandle);
        }
        let n = self.body.len();
        match op {
            OpSymbol::Add | OpSymbol::Sub | OpSymbol::Mul | OpSymbol::Div => {
                self.body.push(Instr::Binary(op, left, right));
                proof {
                    assert(self@.body =~= old(self)@.body.push(
                        SpecInstr::Binary(op, left as int, right as int),
                    ));
                }
                Ok(n)
            },
            OpSymbol::Less => {
                self.body.push(Instr::CmpLess(left, right));
                self.body.push(Instr::BoolToFloat(n));
                proof {
                    assert(self@.body =~= old(self)@.body.push(
                        SpecInstr::CmpLess(left as int, right as int),
                    ).push(SpecInstr::BoolToFloat(n as int)));
                }
                let m = self.body.len();
                Ok(m - 1)
            },
            OpSymbol::Greater => {
                self.body.push(Instr::CmpLess(right, left));
                self.body.push(Instr::BoolToFloat(n));
                proof {
                    assert(self@.body =~= old(self)@.body.push(
                        SpecInstr::CmpLess(right as int, left as int),
                    ).push(SpecInstr::BoolToFloat(n as int)));
                }
                let m = self.body.len();
                Ok(m - 1)
            },
        }
    }

    /// Declares a function: fetches the one already named so, or appends
    /// a new declaration with one float parameter per name and a float
    /// return type.
    pub fn create_proto(&mut self, name: &Vec<u8>, args: &Vec<Vec<u8>>) -> (r: usize)
        requires
            old(self).wf(),
        ensures
            final(self).wf(),
            ({
                let (c2, fi) = sp_create_proto(old(self)@, name@, spec_params_of(args@));
                final(self)@ == c2 && r as int == fi && (r as int) < final(self)@.module.len()
            }),
    {
        match self.find_fn(name) {
            Some(i) => i,
            None => {
                let fi = self.module.len();
                let f = IRFunction { name: clone_byte_vec(name), params: clone_params(args), body: None };
                self.module.push(f);
                proof {
                    assert(self@.module =~= old(self)@.module.push(
                        SpecFn { name: name@, params: spec_params_of(args@), body: None },
                    ));
                }
                fi
            },
        }
    }

    /// Looks a function up by name in the module.
    fn find_fn(&self, name: &Vec<u8>) -> (r: Option<usize>)
        ensures
            match r {
                Some(i) => sp_find_fn(self@.module, name@) == Some(i as int) && i
                    < self.module.len(),
                None => sp_find_fn(self@.module, name@) is None,
            },
    {
        let mut i: usize = 0;
        while i < self.module.len()
            invariant
                i <= self.module.len(),
                sp_find_fn(self@.module, name@) == sp_find_fn_from(self@.module, name@, i as int),
            decreases self.module.len() - i,
        {
            if bytes_eq(&self.module[i].name, name) {
                return Some(i);
            }
            i = i + 1;
        }
        None
    }

    /// Lowers a call expression: resolves the callee in the module,
    /// checks its arity, lowers each argument left to right, and emits
    /// the call with the argument values in order.
    pub fn create_call(&mut self, call: &Vec<u8>, args: &Vec<ExprAst>) -> (r: Result<usize, Error>)
        requires
            old(self).wf(),
        ensures
            final(self).wf(),
            ({
                let (c2, res) = sp_create_call(old(self)@, call@, spec_exprs_of(args@));
                &&& final(self)@ == c2
                &&& match r {
                    Ok(v) => res == Ok::<int, SpecError>(v as int),
                    Err(e) => res == Err::<int, SpecError>(e@),
                }
            }),
        decreases *args, 1int,
    {
        proof {
            crate::ast::lemma_spec_exprs_of_len(args@);
        }
        let fi = match self.find_fn(call) {
            None => {
                return Err(Error::CompileError(CompileError::UnknownFunction(clone_byte_vec(
                    call,
                ))));
            },
            Some(i) => i,
        };
        let expected = self.module[fi].params.len();
        if expected != args.len() {
            return Err(Error::CompileError(CompileError::IncorrectArguments {
                expected,
                got: args.len(),
            }));
        }
        let ghost c0 = self@;
        let ghost av = spec_exprs_of(args@);
        let mut args_val: Vec<usize> = Vec::new();
        let mut i: usize = 0;
        proof {
            assert(spec_ids_of(args_val@) =~= Seq::<int>::empty());
            let (cf, rr) = sp_codegen_args(c0, av, 0);
            match rr {
                Ok(rest) => {
                    assert(Seq::<int>::empty() + rest =~= rest);
                },
                Err(_) => {},
            }
        }
        while i < args.len()
            invariant
                self.wf(),
                i <= args.len(),
                av == spec_exprs_of(args@),
                av.len() == args@.len(),
                c0 == old(self)@,
                sp_find_fn(c0.module, call@) == Some(fi as int),
                0 <= fi < c0.module.len(),
                c0.module[fi as int].params.len() == av.len(),
                sp_codegen_args(c0, av, 0).0 == sp_codegen_args(self@, av, i as int).0,
                sp_codegen_args(c0, av, 0).1 == (match sp_codegen_args(self@, av, i as int).1 {
                    Ok(rest) => Ok::<Seq<int>, SpecError>(spec_ids_of(args_val@) + rest),
                    Err(e) => Err::<Seq<int>, SpecError>(e),
                }),
            decreases args.len() - i,
        {
            let ghost idspre = spec_ids_of(args_val@);
            proof {
                crate::ast::lemma_spec_exprs_of_len(args@);
                assert(av[i as int] == args[i as int]@);
            }
            let v = match args[i].codegen(self) {
                Err(e) => {
                    return Err(e);
                },
                Ok(v) => v,
            };
            if v >= self.body.len() {
                return Err(Error::CompileError(CompileError::FunctionArgumentIsNull));
            }
            args_val.push(v);
            proof {
                assert(spec_ids_of(args_val@) =~= idspre.push(v as int));
                let (c2, rrest) = sp_codegen_args(self@, av, i as int + 1);
                match rrest {
                    Ok(rest) => {
                        assert(idspre.push(v as int) + rest =~= idspre + (seq![v as int] + rest));
                    },
                    Err(_) => {},
                }
            }
            i = i + 1;
        }
        proof {
            let (cend, rend) = sp_codegen_args(self@, av, i as int);
            assert(rend == Ok::<Seq<int>, SpecError>(Seq::<int>::empty()));
            assert(spec_ids_of(args_val@) + Seq::<int>::empty() =~= spec_ids_of(args_val@));
        }
        if self.cur.is_none() {
            return Err(Error::CompileError(CompileError::InvalidHandle));
        }
        let n = self.body.len();
        self.body.push(Instr::Call(clone_byte_vec(call), args_val));
        proof {
            assert(self@.body =~= sp_codegen_args(c0, av, 0).0.body.push(
                SpecInstr::Call(call@, spec_ids_of(args_val@)),
            ));
        }
        Ok(n)
    }

    /// Lowers a function definition: resolves or declares the function
    /// from its prototype, rejects a second body with `FunctionRedefined`
    /// and an arity clash with `IncorrectArguments`, opens the body — one
    /// value per parameter, the symbol table rebuilt from the parameter
    /// names — lowers the body expression and emits the return; a body
    /// failure erases the partially built function and propagates the
    /// error unchanged.
    pub fn create_function(&mut self, func_ast: &FunctionAst) -> (r: Result<usize, Error>)
        requires
            old(self).wf(),
        ensures
            final(self).wf(),
            ({
                let (c2, res) = sp_create_function(old(self)@, func_ast@);
                &&& final(self)@ == c2
                &&& match r {
                    Ok(v) => res == Ok::<int, SpecError>(v as int),
                    Err(e) => res == Err::<int, SpecError>(e@),
                }
            }),
    {
        let ghost pargs = func_ast@.proto.args;
        proof {
            assert(pargs =~= spec_params_of(func_ast.proto.args@));
        }
        let fi = self.create_proto(&func_ast.proto.name, &func_ast.proto.args);
        let ghost c1g = self@;
        if self.module[fi].body.is_some() {
            return Err(Error::CompileError(CompileError::FunctionRedefined));
        }
        let expected = self.module[fi].params.len();
        if expected != func_ast.proto.args.len() {
            return Err(Error::CompileError(CompileError::IncorrectArguments {
                expected,
                got: func_ast.proto.args.len(),
            }));
        }
        // open the body: materialize the parameters and rebuild the
        // symbol table from the prototype's names
        self.cur = Some(fi);
        self.body = Vec::new();
        self.names = Vec::new();
        let mut k: usize = 0;
        proof {
            assert(self@.body =~= sp_param_instrs(0nat));
            assert(self@.names =~= sp_param_bindings(pargs.subrange(0, 0)));
        }
        while k < expected
            invariant
                k <= expected,
                expected == pargs.len(),
                pargs == func_ast@.proto.args,
                pargs == spec_params_of(func_ast.proto.args@),
                expected == func_ast.proto.args@.len(),
                fi < self.module@.len(),
                self@.module == c1g.module,
                self@.module[fi as int].body is None,
                self@.cur == Some(fi as int),
                self@.body =~= sp_param_instrs(k as nat),
                self@.names =~= sp_param_bindings(pargs.subrange(0, k as int)),
            decreases expected - k,
        {
            let ghost bpre = self@.body;
            let ghost npre = self@.names;
            self.body.push(Instr::Param(k));
            self.names.push((clone_byte_vec(&func_ast.proto.args[k]), k));
            proof {
                assert(self@.body =~= bpre.push(SpecInstr::Param(k as int)));
                assert(self@.body =~= sp_param_instrs(k as nat + 1));
                assert(self@.names =~= npre.push((pargs[k as int], k as int)));
                assert(self@.names =~= sp_param_bindings(pargs.subrange(0, k as int + 1)));
            }
            k = k + 1;
        }
        let ghost copen = self@;
        proof {
            assert(pargs.subrange(0, pargs.len() as int) =~= pargs);
            assert(sp_param_bindings(pargs.subrange(0, pargs.len() as int)) =~= sp_param_bindings(
                pargs,
            ));
            assert(copen =~= (SpecCompiler {
                module: c1g.module,
                names: sp_param_bindings(pargs),
                cur: Some(fi as int),
                body: sp_param_instrs(pargs.len()),
            }));
            lemma_codegen_expr_frame(copen, func_ast@.body);
        }
        match func_ast.body.codegen(self) {
            Ok(v) => {
                let ghost c3 = self@;
                self.body.push(Instr::Ret(v));
                let mut b: Vec<Instr> = Vec::new();
                core::mem::swap(&mut self.body, &mut b);
                proof {
                    assert(b@.map_values(|ins: Instr| ins@) =~= c3.body.push(
                        SpecInstr::Ret(v as int),
                    ));
                    assert(self@.body =~= Seq::<SpecInstr>::empty());
                }
                let mut f = self.module.remove(fi);
                f.body = Some(b);
                self.module.insert(fi, f);
                self.cur = None;
                proof {
                    assert(self@.module =~= c3.module.update(
                        fi as int,
                        SpecFn {
                            name: c3.module[fi as int].name,
                            params: c3.module[fi as int].params,
                            body: Some(c3.body.push(SpecInstr::Ret(v as int))),
                        },
                    ));
                }
                Ok(fi)
            },
            Err(e) => {
                let ghost c3 = self@;
                self.cur = None;
                self.body = Vec::new();
                let _ = self.module.remove(fi);
                proof {
                    assert(self@.module =~= c3.module.remove(fi as int));
                    assert(self@.body =~= Seq::<SpecInstr>::empty());
                }
                Err(e)
            },
        }
    }
}

impl Default for Compiler {
    /// A fresh code generator over an empty module.
    fn default() -> (r: Self)
        ensures
            r.wf(),
            r@.module =~= Seq::<SpecFn>::empty(),
            r@.names =~= Seq::<(Seq<u8>, int)>::empty(),
            r@.cur is None,
            r@.body =~= Seq::<SpecInstr>::empty(),
    {
        Self::new()
    }
}

/// Law: a function name receives a non-empty body at most once — against
/// a module that already holds a body for the name, defining it again
/// fails with `FunctionRedefined` and changes nothing, so the first body
/// is retained unmodified.
pub proof fn lemma_second_body_rejected(c: SpecCompiler, f: SpecFunc)
    requires
        ({
            let found = sp_find_fn(c.module, f.proto.name);
            found matches Some(i) && c.module[i].body is Some
        }),
    ensures
        sp_create_function(c, f) == (
            c,
            Err::<int, SpecError>(SpecError::CompileError(SpecCompileError::FunctionRedefined)),
        ),
{
}

/// Law: a call resolves or fails — lowering a call yields a value only
/// when the module already declares or defines the callee and its arity
/// equals the argument count; an unknown callee fails `UnknownFunction`
/// and an arity clash fails `IncorrectArguments`, each leaving the state
/// unchanged.
pub proof fn lemma_call_resolves(c: SpecCompiler, name: Seq<u8>, args: Seq<SpecExpr>)
    ensures
        ({
            let (c2, res) = sp_create_call(c, name, args);
            match sp_find_fn(c.module, name) {
                None => c2 == c && res == Err::<int, SpecError>(
                    SpecError::CompileError(SpecCompileError::UnknownFunction(name)),
                ),
                Some(fi) => {
                    &&& (res is Ok ==> c.module[fi].params.len() == args.len())
                    &&& (c.module[fi].params.len() != args.len() ==> c2 == c && res == Err::<
                        int,
                        SpecError,
                    >(
                        SpecError::CompileError(SpecCompileError::IncorrectArguments {
                            expected: c.module[fi].params.len() as int,
                            got: args.len() as int,
                        }),
                    ))
                },
            }
        }),
{
}

/// An error that reports a fact about the program: an unknown symbol, an
/// arity clash, or a second body. The remaining compile errors are
/// defensive handle checks.
pub open spec fn is_program_error(e: SpecError) -> bool {
    match e {
        SpecError::CompileError(ce) => match ce {
            SpecCompileError::UnknownVariableName(_) => true,
            SpecCompileError::UnknownFunction(_) => true,
            SpecCompileError::IncorrectArguments { .. } => true,
            SpecCompileError::FunctionRedefined => true,
            _ => false,
        },
        _ => false,
    }
}

/// A symbol table whose every binding names a value of the open body.
pub open spec fn names_in_range(c: SpecCompiler) -> bool {
    forall|j: int| 0 <= j < c.names.len() ==> 0 <= (#[trigger] c.names[j]).1 < c.body.len()
}

/// A lookup can only hand out a value the table holds.
proof fn lemma_lookup_in_range(names: Seq<(Seq<u8>, int)>, name: Seq<u8>)
    ensures
        sp_lookup(names, name) matches Some(v) ==> exists|j: int|
            0 <= j < names.len() && #[trigger] names[j].1 == v,
    decreases names.len(),
{
    if names.len() > 0 && !(names.last().0 == name) {
        lemma_lookup_in_range(names.drop_last(), name);
    }
}

/// Lowering an expression with every symbol bound to a real value either
/// yields a handle into the body or reports a program error: the
/// defensive handle checks never fire.
proof fn lemma_codegen_expr_defensive(c: SpecCompiler, e: SpecExpr)
    requires
        c.cur is Some,
        names_in_range(c),
    ensures
        ({
            let (c1, r) = sp_codegen_expr(c, e);
            match r {
                Ok(v) => 0 <= v < c1.body.len(),
                Err(er) => is_program_error(er),
            }
        }),
    decreases e, 0int, 0int,
{
    lemma_codegen_expr_frame(c, e);
    match e {
        SpecExpr::Number(_) => {},
        SpecExpr::Variable(n) => {
            lemma_lookup_in_range(c.names, n);
        },
        SpecExpr::Binary(op, l, r) => {
            lemma_codegen_expr_defensive(c, *l);
            let (c1, lr) = sp_codegen_expr(c, *l);
            if lr is Ok {
                lemma_codegen_expr_frame(c, *l);
                assert(names_in_range(c1));
                lemma_codegen_expr_defensive(c1, *r);
                lemma_codegen_expr_frame(c1, *r);
            }
        },
        SpecExpr::Call(name, args) => {
            lemma_create_call_defensive(c, name, args);
        },
    }
}

/// As `lemma_codegen_expr_defensive`, for a call.
proof fn lemma_create_call_defensive(c: SpecCompiler, name: Seq<u8>, args: Seq<SpecExpr>)
    requires
        c.cur is Some,
        names_in_range(c),
    ensures
        ({
            let (c1, r) = sp_create_call(c, name, args);
            match r {
                Ok(v) => 0 <= v < c1.body.len(),
                Err(er) => is_program_error(er),
            }
        }),
    decreases args, 1int, 0int,
{
    match sp_find_fn(c.module, name) {
        None => {},
        Some(fi) => {
            if c.module[fi].params.len() == args.len() {
                lemma_codegen_args_defensive(c, args, 0);
                proof_args_frame_unfold(c, args, 0);
            }
        },
    }
}

/// As `lemma_codegen_expr_defensive`, for an argument list.
proof fn lemma_codegen_args_defensive(c: SpecCompiler, args: Seq<SpecExpr>, k: int)
    requires
        c.cur is Some,
        names_in_range(c),
    ensures
        ({
            let (c1, r) = sp_codegen_args(c, args, k);
            r matches Err(er) ==> is_program_error(er)
        }),
    decreases args, 0int, args.len() - k,
{
    if 0 <= k < args.len() {
        lemma_codegen_expr_defensive(c, args[k]);
        let (c1, r1) = sp_codegen_expr(c, args[k]);
        if r1 is Ok {
            lemma_codegen_expr_frame(c, args[k]);
            assert(names_in_range(c1));
            lemma_codegen_args_defensive(c1, args, k + 1);
        }
    }
}

/// Law: the handle checks are defensive only — a definition lowered
/// through `create_function` can fail solely with a program error: an
/// unknown variable or function, an arity clash, or a redefinition.
/// `InvalidHandle` and `FunctionArgumentIsNull` have no reachable
/// triggering path from here.
pub proof fn lemma_only_program_errors(c: SpecCompiler, f: SpecFunc)
    ensures
        sp_create_function(c, f).1 matches Err(e) ==> is_program_error(e),
{
    let (c1, fi) = sp_create_proto(c, f.proto.name, f.proto.args);
    if !(c1.module[fi].body is Some) && c1.module[fi].params.len() == f.proto.args.len() {
        let c2 = SpecCompiler {
            module: c1.module,
            names: sp_param_bindings(f.proto.args),
            cur: Some(fi),
            body: sp_param_instrs(f.proto.args.len()),
        };
        assert(names_in_range(c2));
        lemma_codegen_expr_defensive(c2, f.body);
    }
}

/// Law: a failed definition leaves no debris — when a name was not yet
/// declared and its definition fails, the erase-on-failure rule restores
/// the module exactly, so a later, correctly spelled definition of the
/// same name is not blocked.
pub proof fn lemma_failed_definition_leaves_no_debris(c: SpecCompiler, f: SpecFunc)
    requires
        sp_find_fn(c.module, f.proto.name) is None,
    ensures
        ({
            let (c2, res) = sp_create_function(c, f);
            res is Err ==> c2.module == c.module
        }),
{
    let (c1, fi) = sp_create_proto(c, f.proto.name, f.proto.args);
    let c2 = SpecCompiler {
        module: c1.module,
        names: sp_param_bindings(f.proto.args),
        cur: Some(fi),
        body: sp_param_instrs(f.proto.args.len()),
    };
    lemma_codegen_expr_frame(c2, f.body);
    let (c3, rb) = sp_codegen_expr(c2, f.body);
    if rb is Err {
        assert(c3.module.remove(fi) =~= c.module);
    }
}

impl ExprAst {
    /// Lowers this expression into the open function body and yields the
    /// handle of the value it produces.
    pub fn codegen(&self, compiler: &mut Compiler) -> (r: Result<usize, Error>)
        requires
            old(compiler).wf(),
        ensures
            final(compiler).wf(),
            ({
                let (c2, res) = sp_codegen_expr(old(compiler)@, self@);
                &&& final(compiler)@ == c2
                &&& match r {
                    Ok(v) => res == Ok::<int, SpecError>(v as int),
                    Err(e) => res == Err::<int, SpecError>(e@),
                }
            }),
        decreases *self, 0int,
    {
        match self {
            ExprAst::Number(t) => match compiler.const_double(clone_byte_vec(t)) {
                Ok(v) => Ok(v),
                Err(ce) => Err(Error::CompileError(ce)),
            },
            ExprAst::Variable(name) => match compiler.variable(name) {
                Some(val) => Ok(val),
                None => Err(Error::CompileError(CompileError::UnknownVariableName(
                    clone_byte_vec(name),
                ))),
            },
            ExprAst::Binary(binary_expr_ast) => binary_expr_ast.codegen(compiler),
            ExprAst::Call(call_expr_ast) => call_expr_ast.codegen(compiler),
        }
    }
}

impl BinaryExprAst {
    /// Lowers a binary operation: both operands, left first, then the
    /// instructions of the operator.
    pub fn codegen(&self, compiler: &mut Compiler) -> (r: Result<usize, Error>)
        requires
            old(compiler).wf(),
        ensures
            final(compiler).wf(),
            ({
                let e = SpecExpr::Binary(self.op, Box::new(self.lhs@), Box::new(self.rhs@));
                let (c2, res) = sp_codegen_expr(old(compiler)@, e);
                &&& final(compiler)@ == c2
                &&& match r {
                    Ok(v) => res == Ok::<int, SpecError>(v as int),
                    Err(e) => res == Err::<int, SpecError>(e@),
                }
            }),
        decreases *self, 1int,
    {
        let left = match self.lhs.codegen(compiler) {
            Err(e) => {
                return Err(e);
            },
            Ok(v) => v,
        };
        let right = match self.rhs.codegen(compiler) {
            Err(e) => {
                return Err(e);
            },
            Ok(v) => v,
        };
        match compiler.create_binary(left, right, self.op) {
            Ok(v) => Ok(v),
            Err(ce) => Err(Error::CompileError(ce)),
        }
    }
}

impl CallExprAst {
    /// Lowers a call expression through the compiler.
    pub fn codegen(&self, compiler: &mut Compiler) -> (r: Result<usize, Error>)
        requires
            old(compiler).wf(),
        ensures
            final(compiler).wf(),
            ({
                let (c2, res) = sp_create_call(
                    old(compiler)@,
                    self.call@,
                    spec_exprs_of(self.args@),
                );
                &&& final(compiler)@ == c2
                &&& match r {
                    Ok(v) => res == Ok::<int, SpecError>(v as int),
                    Err(e) => res == Err::<int, SpecError>(e@),
                }
            }),
        decreases *self, 1int,
    {
        compiler.create_call(&self.call, &self.args)
    }
}

/// The decimal spelling of a nonnegative number.
pub open spec fn dec_rep(n: int) -> Seq<u8>
    decreases n when n >= 0
{
    if 0 <= n < 10 {
        seq![(48 + n) as u8]
    } else if n >= 10 {
        dec_rep(n / 10) + seq![(48 + n % 10) as u8]
    } else {
        Seq::empty()
    }
}

/// The text of one rendered value handle: `%` and its number.
pub open spec fn render_handle(v: int) -> Seq<u8> {
    ("%").spec_bytes() + dec_rep(v)
}

/// The rendered operand list of a call: handles joined by `, `.
pub open spec fn render_operands(vals: Seq<int>, k: int) -> Seq<u8>
    decreases vals.len() - k when 0 <= k <= vals.len()
{
    if k >= vals.len() {
        Seq::empty()
    } else if k == 0 {
        render_handle(vals[0]) + render_operands(vals, 1)
    } else {
        (", ").spec_bytes() + render_handle(vals[k]) + render_operands(vals, k + 1)
    }
}

/// The text a binary operator renders as.
pub open spec fn render_op(op: OpSymbol) -> Seq<u8> {
    match op {
        OpSymbol::Add => ("add").spec_bytes(),
        OpSymbol::Sub => ("sub").spec_bytes(),
        OpSymbol::Mul => ("mul").spec_bytes(),
        OpSymbol::Div => ("div").spec_bytes(),
        OpSymbol::Less => ("less").spec_bytes(),
        OpSymbol::Greater => ("greater").spec_bytes(),
    }
}

/// The rendered text of instruction `k` of a body, one line each.
pub open spec fn render_instr(k: int, ins: SpecInstr) -> Seq<u8> {
    match ins {
        SpecInstr::Param(j) => ("  ").spec_bytes() + render_handle(k) + (" = param ").spec_bytes()
            + dec_rep(j) + ("\n").spec_bytes(),
        SpecInstr::Const(t) => ("  ").spec_bytes() + render_handle(k) + (" = const ").spec_bytes()
            + t + ("\n").spec_bytes(),
        SpecInstr::Binary(op, l, r) => ("  ").spec_bytes() + render_handle(k) + (
        " = ").spec_bytes() + render_op(op) + (" ").spec_bytes() + render_handle(l) + (
        ", ").spec_bytes() + render_handle(r) + ("\n").spec_bytes(),
        SpecInstr::CmpLess(l, r) => ("  ").spec_bytes() + render_handle(k) + (" = ult ").spec_bytes()
            + render_handle(l) + (", ").spec_bytes() + render_handle(r) + ("\n").spec_bytes(),
        SpecInstr::BoolToFloat(v) => ("  ").spec_bytes() + render_handle(k) + (
        " = uitofp ").spec_bytes() + render_handle(v) + ("\n").spec_bytes(),
        SpecInstr::Call(name, vals) => ("  ").spec_bytes() + render_handle(k) + (
        " = call ").spec_bytes() + name + ("(").spec_bytes() + render_operands(vals, 0) + (
        ")\n").spec_bytes(),
        SpecInstr::Ret(v) => ("  ").spec_bytes() + ("ret ").spec_bytes() + render_handle(v) + (
        "\n").spec_bytes(),
    }
}

/// The rendered instructions of a body from position `k` on.
pub open spec fn render_instrs(b: Seq<SpecInstr>, k: int) -> Seq<u8>
    decreases b.len() - k when 0 <= k <= b.len()
{
    if k >= b.len() {
        Seq::empty()
    } else {
        render_instr(k, b[k]) + render_instrs(b, k + 1)
    }
}

/// The rendered parameter list of a function, names joined by `, `.
pub open spec fn render_params(ps: Seq<Seq<u8>>, k: int) -> Seq<u8>
    decreases ps.len() - k when 0 <= k <= ps.len()
{
    if k >= ps.len() {
        Seq::empty()
    } else if k == 0 {
        ps[0] + render_params(ps, 1)
    } else {
        (", ").spec_bytes() + ps[k] + render_params(ps, k + 1)
    }
}

/// The rendered text of one function: a declaration line for a bodyless
/// one, else the definition with its body, one instruction per line.
pub open spec fn render_fn(f: SpecFn) -> Seq<u8> {
    match f.body {
        None => ("declare ").spec_bytes() + f.name + ("(").spec_bytes() + render_params(f.params, 0)
            + (")\n").spec_bytes(),
        Some(b) => ("define ").spec_bytes() + f.name + ("(").spec_bytes() + render_params(
            f.params,
            0,
        ) + (") {\n").spec_bytes() + render_instrs(b, 0) + ("}\n").spec_bytes(),
    }
}

/// The rendered text of the whole module, function by function.
pub open spec fn render_module(m: Seq<SpecFn>, k: int) -> Seq<u8>
    decreases m.len() - k when 0 <= k <= m.len()
{
    if k >= m.len() {
        Seq::empty()
    } else {
        render_fn(m[k]) + render_module(m, k + 1)
    }
}

/// Appends the decimal spelling of a number.
fn push_dec(out: &mut Vec<u8>, n: usize)
    ensures
        final(out)@ == old(out)@ + dec_rep(n as int),
    decreases n,
{
    let ghost pre = out@;
    if n >= 10 {
        push_dec(out, n / 10);
        out.push((n % 10) as u8 + 48);
        proof {
            assert(out@ =~= pre + dec_rep(n as int));
        }
    } else {
        out.push(n as u8 + 48);
        proof {
            assert(out@ =~= pre + dec_rep(n as int));
        }
    }
}

/// Appends a rendered value handle.
fn push_handle(out: &mut Vec<u8>, v: usize)
    ensures
        final(out)@ == old(out)@ + render_handle(v as int),
{
    let ghost pre = out@;
    out.extend_from_slice("%".as_bytes());
    push_dec(out, v);
    proof {
        assert(out@ =~= pre + render_handle(v as int));
    }
}

/// Appends a rendered parameter list, names joined by `, `.
fn push_params(out: &mut Vec<u8>, ps: &Vec<Vec<u8>>)
    ensures
        final(out)@ == old(out)@ + render_params(spec_params_of(ps@), 0),
{
    let ghost pv = spec_params_of(ps@);
    let ghost pre = out@;
    let mut k: usize = 0;
    while k < ps.len()
        invariant
            pv == spec_params_of(ps@),
            pv.len() == ps@.len(),
            pre == old(out)@,
            k <= ps.len(),
            pre + render_params(pv, 0) == out@ + render_params(pv, k as int),
        decreases ps.len() - k,
    {
        let ghost mid = out@;
        if k > 0 {
            out.extend_from_slice(", ".as_bytes());
        }
        out.extend_from_slice(ps[k].as_slice());
        proof {
            assert(pv[k as int] == ps@[k as int]@);
            if k > 0 {
                assert(mid + ((", ").spec_bytes() + pv[k as int] + render_params(pv, k as int + 1))
                    =~= out@ + render_params(pv, k as int + 1));
            } else {
                assert(mid + (pv[0] + render_params(pv, 1)) =~= out@ + render_params(pv, 1));
            }
        }
        k = k + 1;
    }
    proof {
        assert(pre + render_params(pv, 0) =~= out@);
    }
}

/// Appends a rendered operand list, handles joined by `, `.
fn push_operands(out: &mut Vec<u8>, vals: &Vec<usize>)
    ensures
        final(out)@ == old(out)@ + render_operands(spec_ids_of(vals@), 0),
{
    let ghost vv = spec_ids_of(vals@);
    let ghost pre = out@;
    let mut k: usize = 0;
    while k < vals.len()
        invariant
            vv == spec_ids_of(vals@),
            vv.len() == vals@.len(),
            pre == old(out)@,
            k <= vals.len(),
            pre + render_operands(vv, 0) == out@ + render_operands(vv, k as int),
        decreases vals.len() - k,
    {
        let ghost mid = out@;
        if k > 0 {
            out.extend_from_slice(", ".as_bytes());
        }
        push_handle(out, vals[k]);
        proof {
            assert(vv[k as int] == vals@[k as int] as int);
            if k > 0 {
                assert(mid + ((", ").spec_bytes() + render_handle(vv[k as int]) + render_operands(
                    vv,
                    k as int + 1,
                )) =~= out@ + render_operands(vv, k as int + 1));
            } else {
                assert(mid + (render_handle(vv[0]) + render_operands(vv, 1)) =~= out@
                    + render_operands(vv, 1));
            }
        }
        k = k + 1;
    }
    proof {
        assert(pre + render_operands(vv, 0) =~= out@);
    }
}

/// Appends one rendered instruction line.
#[verifier::rlimit(60)]
fn push_instr(out: &mut Vec<u8>, k: usize, ins: &Instr)
    ensures
        final(out)@ == old(out)@ + render_instr(k as int, ins@),
{
    let ghost pre = out@;
    out.extend_from_slice("  ".as_bytes());
    match ins {
        Instr::Param(j) => {
            push_handle(out, k);
            out.extend_from_slice(" = param ".as_bytes());
            push_dec(out, *j);
            out.extend_from_slice("\n".as_bytes());
            proof {
                assert(out@ =~= pre + render_instr(k as int, ins@));
            }
        },
        Instr::Const(t) => {
            push_handle(out, k);
            out.extend_from_slice(" = const ".as_bytes());
            out.extend_from_slice(t.as_slice());
            out.extend_from_slice("\n".as_bytes());
            proof {
                assert(out@ =~= pre + render_instr(k as int, ins@));
            }
        },
        Instr::Binary(op, l, r) => {
            push_handle(out, k);
            out.extend_from_slice(" = ".as_bytes());
            match op {
                OpSymbol::Add => out.extend_from_slice("add".as_bytes()),
                OpSymbol::Sub => out.extend_from_slice("sub".as_bytes()),
                OpSymbol::Mul => out.extend_from_slice("mul".as_bytes()),
                OpSymbol::Div => out.extend_from_slice("div".as_bytes()),
                OpSymbol::Less => out.extend_from_slice("less".as_bytes()),
                OpSymbol::Greater => out.extend_from_slice("greater".as_bytes()),
            }
            out.extend_from_slice(" ".as_bytes());
            push_handle(out, *l);
            out.extend_from_slice(", ".as_bytes());
            push_handle(out, *r);
            out.extend_from_slice("\n".as_bytes());
            proof {
                assert(out@ =~= pre + render_instr(k as int, ins@));
            }
        },
        Instr::CmpLess(l, r) => {
            push_handle(out, k);
            out.extend_from_slice(" = ult ".as_bytes());
            push_handle(out, *l);
            out.extend_from_slice(", ".as_bytes());
            push_handle(out, *r);
            out.extend_from_slice("\n".as_bytes());
            proof {
                assert(out@ =~= pre + render_instr(k as int, ins@));
            }
        },
        Instr::BoolToFloat(v) => {
            push_handle(out, k);
            out.extend_from_slice(" = uitofp ".as_bytes());
            push_handle(out, *v);
            out.extend_from_slice("\n".as_bytes());
            proof {
                assert(out@ =~= pre + render_instr(k as int, ins@));
            }
        },
        Instr::Call(name, vals) => {
            push_handle(out, k);
            out.extend_from_slice(" = call ".as_bytes());
            out.extend_from_slice(name.as_slice());
            out.extend_from_slice("(".as_bytes());
            push_operands(out, vals);
            out.extend_from_slice(")\n".as_bytes());
            proof {
                assert(out@ =~= pre + render_instr(k as int, ins@));
            }
        },
        Instr::Ret(v) => {
            out.extend_from_slice("ret ".as_bytes());
            push_handle(out, *v);
            out.extend_from_slice("\n".as_bytes());
            proof {
                assert(out@ =~= pre + render_instr(k as int, ins@));
            }
        },
    }
}

/// Renders one function as text.
fn render_function(f: &IRFunction) -> (r: Vec<u8>)
    ensures
        r@ == render_fn(f@),
{
    let mut out: Vec<u8> = Vec::new();
    match &f.body {
        None => {
            out.extend_from_slice("declare ".as_bytes());
            out.extend_from_slice(f.name.as_slice());
            out.extend_from_slice("(".as_bytes());
            push_params(&mut out, &f.params);
            out.extend_from_slice(")\n".as_bytes());
            proof {
                assert(out@ =~= render_fn(f@));
            }
        },
        Some(b) => {
            out.extend_from_slice("define ".as_bytes());
            out.extend_from_slice(f.name.as_slice());
            out.extend_from_slice("(".as_bytes());
            push_params(&mut out, &f.params);
            out.extend_from_slice(") {\n".as_bytes());
            let ghost bv = spec_instrs_of(b@);
            let ghost head = out@;
            let mut k: usize = 0;
            while k < b.len()
                invariant
                    bv == spec_instrs_of(b@),
                    bv.len() == b@.len(),
                    k <= b.len(),
                    head + render_instrs(bv, 0) == out@ + render_instrs(bv, k as int),
                decreases b.len() - k,
            {
                let ghost mid = out@;
                push_instr(&mut out, k, &b[k]);
                proof {
                    assert(bv[k as int] == b@[k as int]@);
                    assert(mid + (render_instr(k as int, bv[k as int]) + render_instrs(
                        bv,
                        k as int + 1,
                    )) =~= out@ + render_instrs(bv, k as int + 1));
                }
                k = k + 1;
            }
            out.extend_from_slice("}\n".as_bytes());
            proof {
                assert(head + render_instrs(bv, 0) =~= out@.subrange(
                    0,
                    out@.len() - ("}\n").spec_bytes().len(),
                ));
                assert(out@ =~= render_fn(f@));
            }
        },
    }
    out
}

impl Compiler {
    /// Renders the function a handle names; an unknown handle renders as
    /// nothing.
    pub fn print(&self, val: usize) -> (r: Vec<u8>)
        ensures
            r@ == if (val as int) < self@.module.len() {
                render_fn(self@.module[val as int])
            } else {
                Seq::<u8>::empty()
            },
    {
        if val < self.module.len() {
            let r = render_function(&self.module[val]);
            proof {
                assert(self@.module[val as int] == self.module@[val as int]@);
            }
            r
        } else {
            Vec::new()
        }
    }

    /// Renders the whole module, function by function.
    pub fn print_module(&self) -> (r: Vec<u8>)
        ensures
            r@ == render_module(self@.module, 0),
    {
        let mut out: Vec<u8> = Vec::new();
        let ghost mv = self@.module;
        let mut k: usize = 0;
        while k < self.module.len()
            invariant
                mv == self@.module,
                mv.len() == self.module@.len(),
                k <= self.module@.len(),
                render_module(mv, 0) == out@ + render_module(mv, k as int),
            decreases self.module.len() - k,
        {
            let ghost mid = out@;
            let mut piece = render_function(&self.module[k]);
            out.append(&mut piece);
            proof {
                assert(mv[k as int] == self.module@[k as int]@);
                assert(mid + (render_fn(mv[k as int]) + render_module(mv, k as int + 1)) =~= out@
                    + render_module(mv, k as int + 1));
            }
            k = k + 1;
        }
        proof {
            assert(render_module(mv, 0) =~= out@);
        }
        out
    }
}

/// Whether two byte vectors hold the same bytes.
fn bytes_eq(a: &Vec<u8>, b: &Vec<u8>) -> (r: bool)
    ensures
        r == (a@ == b@),
{
    if a.len() != b.len() {
        return false;
    }
    let mut i: usize = 0;
    while i < a.len()
        invariant
            i <= a.len(),
            a@.len() == b@.len(),
            forall|k: int| 0 <= k < i ==> a@[k] == b@[k],
        decreases a.len() - i,
    {
        if a[i] != b[i] {
            return false;
        }
        i = i + 1;
    }
    proof {
        assert(a@ =~= b@);
    }
    true
}

/// Copies a byte vector.
fn clone_byte_vec(v: &Vec<u8>) -> (r: Vec<u8>)
    ensures
        r@ == v@,
{
    let mut r: Vec<u8> = Vec::new();
    let mut i: usize = 0;
    while i < v.len()
        invariant
            i <= v.len(),
            r@ =~= v@.subrange(0, i as int),
        decreases v.len() - i,
    {
        r.push(v[i]);
        proof {
            assert(v@.subrange(0, i as int + 1) =~= v@.subrange(0, i as int).push(v@[i as int]));
        }
        i = i + 1;
    }
    proof {
        assert(v@.subrange(0, v@.len() as int) =~= v@);
    }
    r
}

/// Copies a list of parameter names.
fn clone_params(v: &Vec<Vec<u8>>) -> (r: Vec<Vec<u8>>)
    ensures
        spec_params_of(r@) == spec_params_of(v@),
{
    let mut r: Vec<Vec<u8>> = Vec::new();
    let mut i: usize = 0;
    while i < v.len()
        invariant
            i <= v.len(),
            r@.len() == i,
            spec_params_of(r@) =~= spec_params_of(v@.subrange(0, i as int)),
        decreases v.len() - i,
    {
        let c = clone_byte_vec(&v[i]);
        let ghost rpre = r@;
        let ghost cv = c@;
        r.push(c);
        proof {
            assert forall|k: int| 0 <= k < i as int + 1 implies (#[trigger] spec_params_of(r@)[k])
                == spec_params_of(v@.subrange(0, i as int + 1))[k] by {
                if k < i as int {
                    assert(r@[k] == rpre[k]);
                    assert(spec_params_of(rpre)[k] == spec_params_of(v@.subrange(0, i as int))[k]);
                    assert(v@.subrange(0, i as int + 1)[k] == v@.subrange(0, i as int)[k]);
                } else {
                    assert(r@[k] == c);
                    assert(cv == v@[i as int]@);
                }
            }
            assert(spec_params_of(r@) =~= spec_params_of(v@.subrange(0, i as int + 1)));
        }
        i = i + 1;
    }
    proof {
        assert(v@.subrange(0, v@.len() as int) =~= v@);
    }
    r
}

} // verus!
