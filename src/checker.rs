use vstd::prelude::*;

use crate::report::{
    lines_view, render_report, render_reveal, report_of, reveal_line, Segment, SourceLines,
};
use crate::ast::{
    field_child, lemma_field_child_decreases, lemma_first_named_decreases, named_children, named_of,
    NodeKind, Point, SyntaxNode,
};
use crate::environment::{
    binding_in, cut_to, empty_scope, entered, var_in, var_type, with_binding, with_var, EnvView, Environment,
};
use crate::type_var::{
    annotation_type, compatible, decimal, decimal_text, lemma_tys_of, lemma_tys_of_push, ty_text, tys_of, Place, PlaceView, Ty, TypeVar,
};

verus! {

/// The classes of diagnostics.
#[derive(Debug, Clone, Copy, PartialEq, Eq, Structural)]
pub enum ErrorKind {
    /// a node lacks a child that its kind must have, or its text cannot be read
    StructuralError,
    /// an identifier that no live scope binds
    UndefinedIdentifier,
    /// two types that are not compatible
    TypeMismatch,
    /// a call with the wrong number of arguments
    ArityMismatch,
    /// a type annotation that is not known
    UnknownTypeAnnotation,
}

/// What a diagnostic says: its class, message, and the span it underlines.
pub struct ErrView {
    pub kind: ErrorKind,
    pub msg: Seq<char>,
    pub start: PlaceView,
    pub end: Option<PlaceView>,
}

/// A diagnostic: a message, where it starts and, if known, where it ends.
#[derive(Debug, Clone)]
pub struct CheckErr {
    pub kind: ErrorKind,
    pub msg: String,
    pub start_place: Place,
    pub end_place: Option<Place>,
}

pub open spec fn opt_place(p: Option<Place>) -> Option<PlaceView> {
    match p {
        Some(q) => Some(q@),
        None => None,
    }
}

impl View for CheckErr {
    type V = ErrView;

    open spec fn view(&self) -> ErrView {
        ErrView {
            kind: self.kind,
            msg: self.msg@,
            start: self.start_place@,
            end: opt_place(self.end_place),
        }
    }
}

impl CheckErr {
    pub fn new(kind: ErrorKind, msg: &str, start_place: Place, end_place: Option<Place>) -> (r: CheckErr)
        ensures
            r@ == (ErrView {
                kind,
                msg: msg@,
                start: start_place@,
                end: opt_place(end_place),
            }),
    {
        CheckErr { kind, msg: String::from_str(msg), start_place, end_place }
    }

    /// A diagnostic that spans a whole node.
    pub fn new_from_node(kind: ErrorKind, msg: &str, n: &SyntaxNode) -> (r: CheckErr)
        ensures
            r@ == node_err(kind, msg@, *n),
    {
        node_err_exec(kind, String::from_str(msg), n)
    }
}

/// The place of a label at a source position.
pub open spec fn at(label: Seq<char>, p: Point) -> PlaceView {
    (label, p.row, p.column)
}

/// A diagnostic that spans a whole node.
pub open spec fn node_err(kind: ErrorKind, msg: Seq<char>, n: SyntaxNode) -> ErrView {
    ErrView { kind, msg, start: at("start"@, n.start), end: Some(at("end"@, n.end)) }
}

pub open spec fn missing(n: SyntaxNode, role: Seq<char>) -> ErrView {
    node_err(ErrorKind::StructuralError, "missing '"@ + role + "' in "@ + n.kind@, n)
}

pub open spec fn undefined(n: SyntaxNode) -> ErrView {
    node_err(ErrorKind::UndefinedIdentifier, "undefined identifier '"@ + n.text@ + "'"@, n)
}

pub open spec fn bad_literal(n: SyntaxNode) -> ErrView {
    node_err(ErrorKind::StructuralError, "invalid integer literal '"@ + n.text@ + "'"@, n)
}

pub open spec fn unknown_annotation(n: SyntaxNode) -> ErrView {
    node_err(ErrorKind::UnknownTypeAnnotation, "unknown type annotation '"@ + n.text@ + "'"@, n)
}

pub open spec fn is_digit(c: char) -> bool {
    '0' <= c <= '9'
}

/// The value of a string of decimal digits.
pub open spec fn digits_value(s: Seq<char>) -> nat
    decreases s.len(),
{
    if s.len() == 0 {
        0
    } else {
        digits_value(s.drop_last()) * 10 + (s.last() as nat - '0' as nat) as nat
    }
}

/// The value of an integer literal written in decimal digits, when it fits a `usize`.
pub open spec fn literal_value(s: Seq<char>) -> Option<usize> {
    if s.len() > 0 && (forall|i: int| 0 <= i < s.len() ==> is_digit(#[trigger] s[i]))
        && digits_value(s) <= usize::MAX {
        Some(digits_value(s) as usize)
    } else {
        None
    }
}

/// The type that an annotation node stands for.
pub open spec fn annotated(n: SyntaxNode) -> Result<Ty, ErrView> {
    match annotation_type(n.text@) {
        Some(t) => Ok(t),
        None => Err(unknown_annotation(n)),
    }
}

/// The type of an expression node, read in the given environment.
pub open spec fn infer(e: EnvView, n: SyntaxNode) -> Result<Ty, ErrView>
    decreases n,
{
    match n.spec_kind() {
        NodeKind::Identifier => match var_type(e, n.text@) {
            Some(t) => Ok(t),
            None => Err(undefined(n)),
        },
        NodeKind::Call => match field_child(n, "function"@) {
            None => Err(missing(n, "function"@)),
            Some(f) => {
                proof {
                    lemma_field_child_decreases(n, "function"@);
                }
                match infer(e, f) {
                    Err(x) => Err(x),
                    Ok(Ty::Function(_, _, rs)) => if rs.len() == 1 {
                        Ok(rs[0])
                    } else {
                        Ok(Ty::Union(rs))
                    },
                    Ok(_) => Ok(Ty::NoneType),
                }
            },
        },
        NodeKind::Integer => match literal_value(n.text@) {
            Some(v) => Ok(Ty::Integer(v)),
            None => Err(bad_literal(n)),
        },
        NodeKind::StringLiteral => Ok(Ty::Str),
        NodeKind::ReturnStatement => if named_children(n).len() > 0 {
            proof {
                lemma_first_named_decreases(n);
            }
            infer(e, named_children(n)[0])
        } else {
            Ok(Ty::NoneType)
        },
        NodeKind::BinaryOperator => Ok(Ty::BinOp(at("binop"@, n.start))),
        NodeKind::TypedParameter => match field_child(n, "type"@) {
            None => Err(missing(n, "type"@)),
            Some(t) => annotated(t),
        },
        NodeKind::NoneLiteral => Ok(Ty::NoneType),
        _ => Ok(Ty::Var(at("exp"@, n.start))),
    }
}

pub open spec fn ty_result(r: Result<TypeVar, CheckErr>) -> Result<Ty, ErrView> {
    match r {
        Ok(t) => Ok(t@),
        Err(e) => Err(e@),
    }
}

proof fn lemma_digits_step(s: Seq<char>, i: int)
    requires
        0 <= i < s.len(),
    ensures
        digits_value(s.take(i + 1)) == digits_value(s.take(i)) * 10 + (s[i] as nat - '0' as nat) as nat,
{
    assert(s.take(i + 1).drop_last() =~= s.take(i));
}

proof fn lemma_digits_grow(s: Seq<char>, i: int)
    requires
        0 <= i <= s.len(),
    ensures
        digits_value(s.take(i)) <= digits_value(s),
    decreases s.len() - i,
{
    if i < s.len() {
        lemma_digits_step(s, i);
        lemma_digits_grow(s, i + 1);
    } else {
        assert(s.take(i) =~= s);
    }
}

/// The value of an integer literal in decimal digits, `None` when it holds anything
/// else or does not fit a `usize`.
pub fn parse_int(s: &str) -> (r: Option<usize>)
    ensures
        r == literal_value(s@),
{
    let n = s.unicode_len();
    if n == 0 {
        return None;
    }
    let mut v: usize = 0;
    let mut i: usize = 0;
    let mut overflow = false;
    while i < n
        invariant
            n == s@.len(),
            0 <= i <= n,
            forall|j: int| 0 <= j < i ==> is_digit(#[trigger] s@[j]),
            !overflow ==> v == digits_value(s@.take(i as int)),
            overflow ==> digits_value(s@.take(i as int)) > usize::MAX,
        decreases n - i,
    {
        let c = s.get_char(i);
        if !('0' <= c && c <= '9') {
            assert(!is_digit(s@[i as int]));
            return None;
        }
        proof {
            lemma_digits_step(s@, i as int);
        }
        let d = (c as u32 - '0' as u32) as usize;
        if !overflow {
            if v > (usize::MAX - d) / 10 {
                overflow = true;
                assert(v * 10 + d > usize::MAX) by (nonlinear_arith)
                    requires
                        v > (usize::MAX - d) / 10,
                        d <= 9,
                ;
            } else {
                assert(v * 10 + d <= usize::MAX) by (nonlinear_arith)
                    requires
                        v <= (usize::MAX - d) / 10,
                        d <= 9,
                ;
                v = v * 10 + d;
            }
        } else {
            assert(digits_value(s@.take(i as int)) * 10 >= digits_value(s@.take(i as int)))
                by (nonlinear_arith);
        }
        i = i + 1;
    }
    proof {
        lemma_digits_grow(s@, n as int);
        assert(s@.take(n as int) =~= s@);
    }
    if overflow {
        None
    } else {
        Some(v)
    }
}

fn node_err_exec(kind: ErrorKind, msg: String, n: &SyntaxNode) -> (r: CheckErr)
    ensures
        r@ == node_err(kind, msg@, *n),
{
    CheckErr {
        kind,
        msg,
        start_place: Place::from_ts_point("start", n.start),
        end_place: Some(Place::from_ts_point("end", n.end)),
    }
}

fn missing_err(n: &SyntaxNode, role: &str) -> (r: CheckErr)
    ensures
        r@ == missing(*n, role@),
{
    let mut m = String::from_str("missing '");
    m.append(role);
    m.append("' in ");
    m.append(n.kind.as_str());
    node_err_exec(ErrorKind::StructuralError, m, n)
}

fn quoted_err(kind: ErrorKind, prefix: &str, n: &SyntaxNode) -> (r: CheckErr)
    ensures
        r@ == node_err(kind, prefix@ + n.text@ + "'"@, *n),
{
    let mut m = String::from_str(prefix);
    m.append(n.text.as_str());
    m.append("'");
    node_err_exec(kind, m, n)
}

fn annotated_exec(n: &SyntaxNode) -> (r: Result<TypeVar, CheckErr>)
    ensures
        ty_result(r) == annotated(*n),
{
    match TypeVar::from_type_str(n.text.as_str()) {
        Some(t) => Ok(t),
        None => Err(quoted_err(ErrorKind::UnknownTypeAnnotation, "unknown type annotation '", n)),
    }
}

/// A type revealed by `reveal_type`: where the call stands, the identifier, and its type.
#[derive(Debug, Clone)]
pub struct Reveal {
    pub row: usize,
    pub column: usize,
    pub name: String,
    pub ty: TypeVar,
}

pub struct RevealView {
    pub row: usize,
    pub column: usize,
    pub name: Seq<char>,
    pub ty: Ty,
}

impl View for Reveal {
    type V = RevealView;

    open spec fn view(&self) -> RevealView {
        RevealView { row: self.row, column: self.column, name: self.name@, ty: self.ty@ }
    }
}

/// What a check has reached: the environment, the diagnostics in the order they
/// were found, the revealed types in the order they were asked for, and the
/// kinds of nodes that no rule treats.
pub struct CheckState {
    pub env: EnvView,
    pub errors: Seq<ErrView>,
    pub reveals: Seq<RevealView>,
    /// the kinds of the visited nodes that no rule treats, in visiting order
    pub unseen: Seq<Seq<char>>,
}

pub open spec fn with_env(st: CheckState, e: EnvView) -> CheckState {
    CheckState { env: e, errors: st.errors, reveals: st.reveals, unseen: st.unseen }
}

pub open spec fn push_error(st: CheckState, x: ErrView) -> CheckState {
    CheckState { env: st.env, errors: st.errors.push(x), reveals: st.reveals, unseen: st.unseen }
}

pub open spec fn push_reveal(st: CheckState, r: RevealView) -> CheckState {
    CheckState { env: st.env, errors: st.errors, reveals: st.reveals.push(r), unseen: st.unseen }
}

pub open spec fn push_unseen(st: CheckState, k: Seq<char>) -> CheckState {
    CheckState { env: st.env, errors: st.errors, reveals: st.reveals, unseen: st.unseen.push(k) }
}

/// The state after a step whose own diagnostic, if any, is recorded.
pub open spec fn absorb(r: (CheckState, Option<ErrView>)) -> CheckState {
    match r.1 {
        Some(x) => push_error(r.0, x),
        None => r.0,
    }
}

pub open spec fn err_of(r: Result<(), CheckErr>) -> Option<ErrView> {
    match r {
        Ok(_) => None,
        Err(e) => Some(e@),
    }
}

/// The environment after binding a place to a type and letting an identifier
/// resolve to that place.
pub open spec fn define(e: EnvView, name: Seq<char>, p: PlaceView, t: Ty) -> EnvView {
    with_var(with_binding(e, p, t), name, p)
}

/// Checks and binds an assignment `left = right` or `left: type = right`.
pub open spec fn assignment_step(st: CheckState, n: SyntaxNode) -> (CheckState, Option<ErrView>) {
    match field_child(n, "left"@) {
        None => (st, Some(missing(n, "left"@))),
        Some(lhs) => match field_child(n, "right"@) {
            None => (st, Some(missing(n, "right"@))),
            Some(rhs) => match infer(st.env, rhs) {
                Err(x) => (st, Some(x)),
                Ok(rt) => {
                    let id = lhs.text@;
                    let lp = at(id, lhs.start);
                    match field_child(n, "type"@) {
                        None => (with_env(st, define(st.env, id, lp, rt)), None),
                        Some(tn) => match annotated(tn) {
                            Err(x) => (with_env(st, define(st.env, id, lp, rt)), Some(x)),
                            Ok(dt) => {
                                let st2 = with_env(st, define(st.env, id, lp, dt));
                                if compatible(dt, rt) {
                                    (st2, None)
                                } else {
                                    (st2, Some(assign_mismatch(n, id, dt, rt)))
                                }
                            },
                        },
                    }
                },
            },
        },
    }
}

pub open spec fn assign_mismatch(n: SyntaxNode, id: Seq<char>, dt: Ty, rt: Ty) -> ErrView {
    node_err(
        ErrorKind::TypeMismatch,
        "Mismatched types while assigning to '"@ + id + "' expected "@ + ty_text(dt) + " found "@
            + ty_text(rt),
        n,
    )
}

/// The sum of two literal values, held at the largest `usize` when it does not fit.
pub open spec fn literal_sum(a: usize, b: usize) -> usize {
    if a + b <= usize::MAX {
        (a + b) as usize
    } else {
        usize::MAX
    }
}

/// The result type of a binary operation on operands of the given types.
pub open spec fn binop_result(a: Ty, b: Ty) -> Option<Ty> {
    match (a, b) {
        (Ty::Integer(x), Ty::Integer(y)) => Some(Ty::Integer(literal_sum(x, y))),
        (Ty::Str, Ty::Str) => Some(Ty::Str),
        _ => None,
    }
}

pub open spec fn binop_mismatch(n: SyntaxNode, a: Ty, b: Ty) -> ErrView {
    ErrView {
        kind: ErrorKind::TypeMismatch,
        msg: "Invalid types ("@ + ty_text(a) + ", "@ + ty_text(b) + ") for BinOp"@,
        start: at("binop"@, n.start),
        end: Some(at("binop"@, n.end)),
    }
}

/// Checks a binary operation and records its operand and result types.
pub open spec fn binop_step(st: CheckState, n: SyntaxNode) -> (CheckState, Option<ErrView>) {
    match field_child(n, "left"@) {
        None => (st, Some(missing(n, "left"@))),
        Some(l) => match field_child(n, "right"@) {
            None => (st, Some(missing(n, "right"@))),
            Some(r) => match infer(st.env, l) {
                Err(x) => (st, Some(x)),
                Ok(a1) => match infer(st.env, r) {
                    Err(x) => (st, Some(x)),
                    Ok(a2) => match binop_result(a1, a2) {
                        None => (st, Some(binop_mismatch(n, a1, a2))),
                        Some(rt) => {
                            let bp = at("binop"@, n.start);
                            let e1 = with_binding(st.env, bp, Ty::Call(bp, seq![a1, a2], seq![rt]));
                            let e2 = with_binding(e1, at("arg1"@, l.start), a1);
                            let e3 = with_binding(e2, at("arg2"@, r.start), a2);
                            let e4 = with_binding(e3, at("return"@, n.start), rt);
                            (with_env(st, e4), None)
                        },
                    },
                },
            },
        },
    }
}

/// The identifier that a parameter node declares.
pub open spec fn param_name(p: SyntaxNode) -> Seq<char> {
    if p.spec_kind() == NodeKind::Identifier {
        p.text@
    } else {
        match field_child(p, "name"@) {
            Some(c) => c.text@,
            None => if named_children(p).len() > 0 {
                named_children(p)[0].text@
            } else {
                p.text@
            },
        }
    }
}

/// The declared type of a parameter, `Any` when it has no annotation.
pub open spec fn param_type(p: SyntaxNode) -> Result<Ty, ErrView> {
    match field_child(p, "type"@) {
        None => Ok(Ty::Any),
        Some(t) => annotated(t),
    }
}

/// Binds one parameter in the innermost scope; an unknown annotation is reported
/// and the parameter taken as `Any`.
pub open spec fn param_step(st: CheckState, p: SyntaxNode) -> (CheckState, Ty) {
    let (st1, t) = match param_type(p) {
        Ok(t) => (st, t),
        Err(x) => (push_error(st, x), Ty::Any),
    };
    let name = param_name(p);
    (with_env(st1, define(st1.env, name, at(name, p.start), t)), t)
}

/// Binds each parameter in turn, and gives their types in order.
pub open spec fn params_fold(st: CheckState, ps: Seq<SyntaxNode>) -> (CheckState, Seq<Ty>)
    decreases ps.len(),
{
    if ps.len() == 0 {
        (st, Seq::empty())
    } else {
        let r = params_fold(st, ps.drop_last());
        let s = param_step(r.0, ps.last());
        (s.0, r.1.push(s.1))
    }
}

pub open spec fn opt_ty(a: Option<TypeVar>) -> Option<Ty> {
    match a {
        Some(t) => Some(t@),
        None => None,
    }
}

pub open spec fn return_mismatch(n: SyntaxNode, t: Ty, dt: Ty) -> ErrView {
    node_err(
        ErrorKind::TypeMismatch,
        "Unexpected return type "@ + ty_text(t) + ", fn signature return ["@ + ty_text(dt) + "]"@,
        n,
    )
}

/// Records the type of a return statement, and reports it when a declared result
/// type does not allow it.
pub open spec fn ret_visit(
    e: EnvView,
    allowed: Option<Ty>,
    acc: (Seq<ErrView>, Seq<Ty>),
    n: SyntaxNode,
) -> (Seq<ErrView>, Seq<Ty>) {
    if n.spec_kind() == NodeKind::ReturnStatement {
        match infer(e, n) {
            Ok(t) => match allowed {
                Some(dt) => if compatible(dt, t) {
                    (acc.0, acc.1.push(t))
                } else {
                    (acc.0.push(return_mismatch(n, t, dt)), acc.1.push(t))
                },
                None => (acc.0, acc.1.push(t)),
            },
            Err(x) => (acc.0.push(x), acc.1),
        }
    } else {
        acc
    }
}

/// Visits a node and all below it, in pre-order, collecting return types.
pub open spec fn ret_walk(
    e: EnvView,
    allowed: Option<Ty>,
    acc: (Seq<ErrView>, Seq<Ty>),
    n: SyntaxNode,
) -> (Seq<ErrView>, Seq<Ty>)
    decreases n,
{
    proof {
        assert(decreases_to!(n => n.children));
    }
    ret_walk_all(e, allowed, ret_visit(e, allowed, acc, n), n.children@)
}

pub open spec fn ret_walk_all(
    e: EnvView,
    allowed: Option<Ty>,
    acc: (Seq<ErrView>, Seq<Ty>),
    s: Seq<SyntaxNode>,
) -> (Seq<ErrView>, Seq<Ty>)
    decreases s,
{
    if s.len() == 0 {
        acc
    } else {
        ret_walk(e, allowed, ret_walk_all(e, allowed, acc, s.subrange(0, s.len() - 1)), s[s.len() - 1])
    }
}

/// The return types found anywhere in a function body; `None` alone when there is
/// no return statement.
pub open spec fn body_returns(st: CheckState, body: SyntaxNode, allowed: Option<Ty>) -> (CheckState, Seq<Ty>) {
    let acc = ret_walk(st.env, allowed, (st.errors, Seq::empty()), body);
    (
        CheckState { env: st.env, errors: acc.0, reveals: st.reveals, unseen: st.unseen },
        if acc.1.len() == 0 {
            seq![Ty::NoneType]
        } else {
            acc.1
        },
    )
}

/// The result types of a function: the declared one, checked against each return
/// statement, or else those of its return statements.
pub open spec fn fn_returns(st: CheckState, n: SyntaxNode, body: SyntaxNode) -> (CheckState, Seq<Ty>) {
    match field_child(n, "return_type"@) {
        None => body_returns(st, body, None),
        Some(rt) => match annotated(rt) {
            Err(x) => body_returns(push_error(st, x), body, None),
            Ok(dt) => (body_returns(st, body, Some(dt)).0, seq![dt]),
        },
    }
}

/// Checks a function definition in a scope named after it, then binds its name to
/// its signature in the enclosing scope.
pub open spec fn fn_def_step(st: CheckState, n: SyntaxNode) -> (CheckState, Option<ErrView>) {
    match field_child(n, "name"@) {
        None => (st, Some(missing(n, "name"@))),
        Some(nm) => match field_child(n, "parameters"@) {
            None => (st, Some(missing(n, "parameters"@))),
            Some(ps) => match field_child(n, "body"@) {
                None => (st, Some(missing(n, "body"@))),
                Some(body) => {
                    let fname = nm.text@;
                    let fp = at(fname, n.start);
                    let s1 = with_env(st, entered(st.env, fname));
                    let (s2, ptys) = params_fold(s1, named_children(ps));
                    let (s3, rets) = fn_returns(s2, n, body);
                    let s4 = with_env(s3, cut_to(s3.env, st.env.live.len() as int));
                    (with_env(s4, define(s4.env, fname, fp, Ty::Function(fp, ptys, rets))), None)
                },
            },
        },
    }
}

pub open spec fn arity_mismatch(n: SyntaxNode, nargs: nat, nparams: nat) -> ErrView {
    ErrView {
        kind: ErrorKind::ArityMismatch,
        msg: "Fn called with "@ + decimal(nargs) + " args expected "@ + decimal(nparams),
        start: at("fncall"@, n.start),
        end: Some(at("fncall"@, n.end)),
    }
}

pub open spec fn arg_mismatch(a: SyntaxNode, fname: Seq<char>, p: Ty, t: Ty) -> ErrView {
    ErrView {
        kind: ErrorKind::TypeMismatch,
        msg: "Type mismatch calling fn `"@ + fname + "` Expected "@ + ty_text(p) + " found "@
            + ty_text(t),
        start: at("arg"@, a.start),
        end: Some(at("arg"@, a.end)),
    }
}

/// The diagnostics for one argument against its parameter's type.
pub open spec fn arg_check(e: EnvView, fname: Seq<char>, a: SyntaxNode, p: Ty) -> Seq<ErrView> {
    match infer(e, a) {
        Ok(t) => if compatible(t, p) {
            Seq::empty()
        } else {
            seq![arg_mismatch(a, fname, p, t)]
        },
        Err(x) => seq![x],
    }
}

/// The diagnostics for each argument in turn, against the parameter at its position.
pub open spec fn arg_errors(e: EnvView, fname: Seq<char>, args: Seq<SyntaxNode>, params: Seq<Ty>) -> Seq<ErrView>
    decreases args.len(),
{
    if args.len() == 0 {
        Seq::empty()
    } else {
        arg_errors(e, fname, args.drop_last(), params) + arg_check(
            e,
            fname,
            args.last(),
            params[args.len() - 1],
        )
    }
}

/// Reveals the type of one argument of `reveal_type`, or reports it as undefined.
pub open spec fn reveal_visit(st: CheckState, n: SyntaxNode, a: SyntaxNode) -> CheckState {
    match var_type(st.env, a.text@) {
        Some(t) => push_reveal(
            st,
            RevealView { row: n.start.row, column: n.start.column, name: a.text@, ty: t },
        ),
        None => push_error(st, undefined(a)),
    }
}

pub open spec fn reveal_fold(st: CheckState, n: SyntaxNode, args: Seq<SyntaxNode>) -> CheckState
    decreases args.len(),
{
    if args.len() == 0 {
        st
    } else {
        reveal_visit(reveal_fold(st, n, args.drop_last()), n, args.last())
    }
}

/// `reveal_type(x)`: reveals the type of each argument; exactly one is expected.
pub open spec fn reveal_step(st: CheckState, n: SyntaxNode) -> (CheckState, Option<ErrView>) {
    match field_child(n, "arguments"@) {
        None => (st, Some(missing(n, "arguments"@))),
        Some(args) => {
            let a = named_children(args);
            let s2 = reveal_fold(st, n, a);
            if a.len() > 1 {
                (s2, Some(node_err(ErrorKind::ArityMismatch, "Too many arguments"@, args)))
            } else if a.len() == 0 {
                (s2, Some(node_err(ErrorKind::ArityMismatch, "No argument given"@, args)))
            } else {
                (s2, None)
            }
        },
    }
}

/// Checks a call against the signature its callee is bound to where the call
/// stands; the arguments are read inside the scope named after the callee. A callee
/// that nothing binds is reported as undefined.
pub open spec fn call_step(st: CheckState, n: SyntaxNode) -> (CheckState, Option<ErrView>) {
    match field_child(n, "function"@) {
        None => (st, Some(missing(n, "function"@))),
        Some(f) => if f.text@ == "reveal_type"@ {
            reveal_step(st, n)
        } else {
            let fname = f.text@;
            match var_type(st.env, fname) {
                None => (st, Some(undefined(f))),
                Some(sig) => {
                    let e1 = entered(st.env, fname);
                    let back = cut_to(e1, st.env.live.len() as int);
                    match field_child(n, "arguments"@) {
                        None => (with_env(st, back), Some(missing(n, "arguments"@))),
                        Some(args) => match sig {
                            Ty::Function(_, params, _) => {
                                let a = named_children(args);
                                if a.len() != params.len() {
                                    (
                                        with_env(st, back),
                                        Some(arity_mismatch(n, a.len(), params.len())),
                                    )
                                } else {
                                    (
                                        CheckState {
                                            env: back,
                                            errors: st.errors + arg_errors(e1, fname, a, params),
                                            reveals: st.reveals,
                                            unseen: st.unseen,
                                        },
                                        None,
                                    )
                                }
                            },
                            _ => (with_env(st, back), None),
                        },
                    }
                },
            }
        },
    }
}

/// What visiting one node does to the state.
pub open spec fn visit(st: CheckState, n: SyntaxNode) -> CheckState {
    match n.spec_kind() {
        NodeKind::Assignment => absorb(assignment_step(st, n)),
        NodeKind::BinaryOperator => absorb(binop_step(st, n)),
        NodeKind::FunctionDefinition => absorb(fn_def_step(st, n)),
        NodeKind::Call => absorb(call_step(st, n)),
        NodeKind::Module | NodeKind::ExpressionStatement => st,
        _ => push_unseen(st, n.kind@),
    }
}

/// Visits a node and every node below it, in pre-order; what lies below a
/// function definition is visited inside the function's scope.
pub open spec fn walk(st: CheckState, n: SyntaxNode) -> CheckState
    decreases n,
{
    proof {
        assert(decreases_to!(n => n.children));
    }
    let s1 = visit(st, n);
    if body_scope(n) is Some {
        let s2 = with_env(s1, entered(s1.env, body_scope(n)->0));
        let s3 = walk_all(s2, n.children@);
        with_env(s3, cut_to(s3.env, s1.env.live.len() as int))
    } else {
        walk_all(s1, n.children@)
    }
}

/// The scope that the nodes below a node are checked in, when it is not the
/// current one: the scope of a function definition, named after the function.
pub open spec fn body_scope(n: SyntaxNode) -> Option<Seq<char>> {
    if n.spec_kind() == NodeKind::FunctionDefinition && field_child(n, "name"@) is Some {
        Some(field_child(n, "name"@)->0.text@)
    } else {
        None
    }
}

pub open spec fn walk_all(st: CheckState, s: Seq<SyntaxNode>) -> CheckState
    decreases s,
{
    if s.len() == 0 {
        st
    } else {
        walk(walk_all(st, s.subrange(0, s.len() - 1)), s[s.len() - 1])
    }
}

/// The state of a check: the environment, the diagnostics so far, and the
/// types revealed so far.
pub struct Checker {
    env: Environment,
    errors: Vec<CheckErr>,
    reveals: Vec<Reveal>,
    unseen: Vec<String>,
    src: SourceLines,
    file_name: String,
}

impl View for Checker {
    type V = CheckState;

    closed spec fn view(&self) -> CheckState {
        CheckState {
            env: self.env@,
            errors: self.errors@.map_values(|e: CheckErr| e@),
            reveals: self.reveals@.map_values(|r: Reveal| r@),
            unseen: self.unseen@.map_values(|k: String| k@),
        }
    }
}

impl Checker {
    pub closed spec fn wf(&self) -> bool {
        self.env.wf() && self.src.wf()
    }

    /// The source text being checked.
    pub closed spec fn source(&self) -> Seq<char> {
        self.src.text()
    }

    /// The name of the file being checked.
    pub closed spec fn file(&self) -> Seq<char> {
        self.file_name@
    }

    /// A checker for a source text, with one live scope named after the file.
    /// What a well-formed checker shows of its environment: the live stack points
    /// into the registry of scopes.
    pub proof fn lemma_wf(&self)
        requires
            self.wf(),
        ensures
            Environment::live_ok(self@.env),
    {
        self.env.lemma_wf();
    }

    pub fn new(src: &str, file_name: &str) -> (r: Checker)
        ensures
            r.wf(),
            r.source() == src@,
            r.file() == file_name@,
            r@ == (CheckState {
                env: EnvView { scopes: seq![empty_scope(file_name@)], live: seq![0usize] },
                errors: Seq::empty(),
                reveals: Seq::empty(),
                unseen: Seq::empty(),
            }),
    {
        let r = Checker {
            env: Environment::new(file_name),
            errors: Vec::new(),
            reveals: Vec::new(),
            unseen: Vec::new(),
            src: SourceLines::new(src),
            file_name: String::from_str(file_name),
        };
        assert(r@.errors =~= Seq::<ErrView>::empty());
        assert(r@.reveals =~= Seq::<RevealView>::empty());
        assert(r@.unseen =~= Seq::<Seq<char>>::empty());
        r
    }

    /// Check every node of a module, in pre-order.
    pub fn check_module(&mut self, root: &SyntaxNode)
        requires
            old(self).wf(),
        ensures
            final(self).wf(),
            final(self).source() == old(self).source(),
            final(self).file() == old(self).file(),
            final(self)@ == walk(old(self)@, *root),
            final(self)@.env.live == old(self)@.env.live,
    {
        self.check_tree(root);
        proof {
            lemma_walk_keeps_live(old(self)@, *root);
        }
    }

    /// The diagnostics found so far, in the order they were found.
    pub fn errors(&self) -> (r: &Vec<CheckErr>)
        ensures
            r@.map_values(|e: CheckErr| e@) == self@.errors,
    {
        &self.errors
    }

    /// The types revealed so far, in the order they were asked for.
    pub fn reveals(&self) -> (r: &Vec<Reveal>)
        ensures
            r@.map_values(|x: Reveal| x@) == self@.reveals,
    {
        &self.reveals
    }

    pub fn env(&self) -> (r: &Environment)
        requires
            self.wf(),
        ensures
            r.wf(),
            r@ == self@.env,
    {
        &self.env
    }

    pub fn file_name(&self) -> (r: &str)
        ensures
            r@ == self.file(),
    {
        self.file_name.as_str()
    }

    /// The report on the diagnostics found so far.
    pub fn report(&self) -> (r: Vec<Vec<Segment>>)
        requires
            self.wf(),
        ensures
            lines_view(r@) == report_of(self.source(), self.file(), self@.errors),
    {
        render_report(&self.src, self.file_name.as_str(), &self.errors)
    }

    /// One line for each type revealed so far.
    pub fn reveal_report(&self) -> (r: Vec<Vec<Segment>>)
        ensures
            lines_view(r@) == self@.reveals.map_values(|x: RevealView| reveal_line(self.file(), x)),
    {
        let mut out: Vec<Vec<Segment>> = Vec::new();
        let mut i: usize = 0;
        while i < self.reveals.len()
            invariant
                0 <= i <= self.reveals@.len(),
                lines_view(out@) == self@.reveals.take(i as int).map_values(
                    |x: RevealView| reveal_line(self.file(), x),
                ),
            decreases self.reveals.len() - i,
        {
            let l = render_reveal(self.file_name.as_str(), &self.reveals[i]);
            proof {
                crate::report::lemma_lines_push(out@, l);
            }
            out.push(l);
            proof {
                assert(self@.reveals.take(i + 1).map_values(|x: RevealView| reveal_line(self.file(), x))
                    =~= self@.reveals.take(i as int).map_values(|x: RevealView| reveal_line(self.file(), x)).push(
                    reveal_line(self.file(), self@.reveals[i as int])));
            }
            i = i + 1;
        }
        assert(self@.reveals.take(self.reveals@.len() as int) =~= self@.reveals);
        out
    }

    fn push_err(&mut self, e: CheckErr)
        ensures
            final(self).wf() == old(self).wf(),
            final(self).source() == old(self).source(),
            final(self).file() == old(self).file(),
            final(self)@ == push_error(old(self)@, e@),
    {
        let ghost x = e@;
        self.errors.push(e);
        assert(self@.errors =~= old(self)@.errors.push(x));
    }

    fn push_reveal(&mut self, r: Reveal)
        ensures
            final(self).wf() == old(self).wf(),
            final(self).source() == old(self).source(),
            final(self).file() == old(self).file(),
            final(self)@ == push_reveal(old(self)@, r@),
    {
        let ghost x = r@;
        self.reveals.push(r);
        assert(self@.reveals =~= old(self)@.reveals.push(x));
    }

    fn push_unseen(&mut self, k: String)
        ensures
            final(self).wf() == old(self).wf(),
            final(self).source() == old(self).source(),
            final(self).file() == old(self).file(),
            final(self)@ == push_unseen(old(self)@, k@),
    {
        let ghost x = k@;
        self.unseen.push(k);
        assert(self@.unseen =~= old(self)@.unseen.push(x));
    }

    /// The kinds of the visited nodes that no rule treats, in visiting order.
    pub fn unseen(&self) -> (r: &Vec<String>)
        ensures
            r@.map_values(|k: String| k@) == self@.unseen,
    {
        &self.unseen
    }

    fn define(&mut self, name: &str, p: Place, t: TypeVar)
        requires
            old(self).wf(),
        ensures
            final(self).wf(),
            final(self).source() == old(self).source(),
            final(self).file() == old(self).file(),
            final(self)@ == with_env(old(self)@, define(old(self)@.env, name@, p@, t@)),
    {
        let q = p.duplicate();
        self.env.insert_binding(p, t);
        self.env.insert_var(name, q);
    }

    fn param_name_of(p: &SyntaxNode) -> (r: &str)
        ensures
            r@ == param_name(*p),
    {
        match p.node_kind() {
            NodeKind::Identifier => p.text.as_str(),
            _ => match p.child_by_field_name("name") {
                Some(c) => c.text.as_str(),
                None => match p.first_named_child() {
                    Some(c) => c.text.as_str(),
                    None => p.text.as_str(),
                },
            },
        }
    }

    fn param_type_of(p: &SyntaxNode) -> (r: Result<TypeVar, CheckErr>)
        ensures
            ty_result(r) == param_type(*p),
    {
        match p.child_by_field_name("type") {
            None => Ok(TypeVar::Any),
            Some(t) => annotated_exec(t),
        }
    }

    fn check_params(&mut self, params: &SyntaxNode) -> (r: Vec<TypeVar>)
        requires
            old(self).wf(),
        ensures
            final(self).wf(),
            final(self).source() == old(self).source(),
            final(self).file() == old(self).file(),
            (final(self)@, tys_of(r@)) == params_fold(old(self)@, named_children(*params)),
    {
        let mut types: Vec<TypeVar> = Vec::new();
        let mut i: usize = 0;
        let ghost st0 = self@;
        let ghost cs = params.children@;
        proof {
            assert(cs.take(0) =~= Seq::<SyntaxNode>::empty());
        }
        while i < params.children.len()
            invariant
                self.wf(),
                self.source() == old(self).source(),
                self.file() == old(self).file(),
                cs == params.children@,
                0 <= i <= cs.len(),
                (self@, tys_of(types@)) == params_fold(st0, named_of(cs.take(i as int))),
            decreases params.children.len() - i,
        {
            let p = &params.children[i];
            proof {
                crate::ast::lemma_named_of_step(cs, i as int);
            }
            if p.named {
                let ghost before = named_of(cs.take(i as int));
                proof {
                    assert(before.push(*p).drop_last() =~= before);
                }
                let p_type = match Self::param_type_of(p) {
                    Ok(t) => t,
                    Err(x) => {
                        self.push_err(x);
                        TypeVar::Any
                    },
                };
                let name = Self::param_name_of(p);
                let place = Place::from_ts_point(name, p.start);
                proof {
                    lemma_tys_of_push(types@, p_type);
                }
                types.push(p_type.duplicate());
                self.define(name, place, p_type);
            }
            i = i + 1;
        }
        proof {
            crate::ast::lemma_named_of_all(cs);
        }
        types
    }

    fn collect_returns(&mut self, n: &SyntaxNode, allowed: &Option<TypeVar>, out: &mut Vec<TypeVar>)
        requires
            old(self).wf(),
        ensures
            final(self).wf(),
            final(self).source() == old(self).source(),
            final(self).file() == old(self).file(),
            final(self)@.env == old(self)@.env,
            final(self)@.reveals == old(self)@.reveals,
            final(self)@.unseen == old(self)@.unseen,
            (final(self)@.errors, tys_of(final(out)@)) == ret_walk(
                old(self)@.env,
                opt_ty(*allowed),
                (old(self)@.errors, tys_of(old(out)@)),
                *n,
            ),
        decreases n,
    {
        let ghost e = self@.env;
        let ghost al = opt_ty(*allowed);
        if n.node_kind() == NodeKind::ReturnStatement {
            match self.infer_type_for_node(n) {
                Ok(t) => {
                    match allowed {
                        Some(dt) => {
                            if !dt.type_check(&t) {
                                let mut m = String::from_str("Unexpected return type ");
                                let tt = t.to_text();
                                m.append(tt.as_str());
                                m.append(", fn signature return [");
                                let dtt = dt.to_text();
                                m.append(dtt.as_str());
                                m.append("]");
                                self.push_err(node_err_exec(ErrorKind::TypeMismatch, m, n));
                            }
                        },
                        None => {},
                    }
                    proof {
                        lemma_tys_of_push(out@, t);
                    }
                    out.push(t);
                },
                Err(x) => {
                    self.push_err(x);
                },
            }
        }
        let ghost acc1 = (self@.errors, tys_of(out@));
        assert(acc1 == ret_visit(e, al, (old(self)@.errors, tys_of(old(out)@)), *n));
        let ghost cs = n.children@;
        proof {
            assert(cs.take(0) =~= Seq::<SyntaxNode>::empty());
        }
        let mut i: usize = 0;
        while i < n.children.len()
            invariant
                self.wf(),
                self.source() == old(self).source(),
                self.file() == old(self).file(),
                cs == n.children@,
                0 <= i <= cs.len(),
                self@.env == e,
                al == opt_ty(*allowed),
                self@.reveals == old(self)@.reveals,
                self@.unseen == old(self)@.unseen,
                (self@.errors, tys_of(out@)) == ret_walk_all(e, al, acc1, cs.take(i as int)),
            decreases n.children.len() - i,
        {
            proof {
                assert(cs.take(i + 1).subrange(0, i as int) =~= cs.take(i as int));
                assert(decreases_to!(n.children => n.children[i as int]));
            }
            let ghost prev = (self@.errors, tys_of(out@));
            let child = &n.children[i];
            self.collect_returns(child, allowed, out);
            proof {
                let t = cs.take(i + 1);
                assert(t.len() == i + 1);
                assert(t[i as int] == cs[i as int]);
                assert(ret_walk_all(e, al, acc1, t) == ret_walk(
                    e,
                    al,
                    ret_walk_all(e, al, acc1, t.subrange(0, i as int)),
                    t[i as int],
                ));
            }
            i = i + 1;
        }
        proof {
            crate::ast::lemma_named_of_all(cs);
        }
    }

    /// The return types found in a function body, each checked against the declared
    /// result type when one is given.
    pub fn infer_fn_body(&mut self, node: &SyntaxNode, allowed: Option<TypeVar>) -> (r: Vec<TypeVar>)
        requires
            old(self).wf(),
        ensures
            final(self).wf(),
            final(self).source() == old(self).source(),
            final(self).file() == old(self).file(),
            (final(self)@, tys_of(r@)) == body_returns(old(self)@, *node, opt_ty(allowed)),
    {
        let mut found: Vec<TypeVar> = Vec::new();
        proof {
            lemma_tys_of(found@);
            assert(tys_of(found@) =~= Seq::<Ty>::empty());
        }
        self.collect_returns(node, &allowed, &mut found);
        if found.len() == 0 {
            let r = vec![TypeVar::NoneType];
            proof {
                lemma_tys_of(found@);
                lemma_tys_of(r@);
                assert(tys_of(r@) =~= seq![Ty::NoneType]);
            }
            r
        } else {
            proof {
                lemma_tys_of(found@);
            }
            found
        }
    }

    /// Check a function definition and bind its name to its signature.
    pub fn check_function_def(&mut self, node: &SyntaxNode) -> (r: Result<(), CheckErr>)
        requires
            old(self).wf(),
        ensures
            final(self).wf(),
            final(self).source() == old(self).source(),
            final(self).file() == old(self).file(),
            (final(self)@, err_of(r)) == fn_def_step(old(self)@, *node),
    {
        let name_node = match node.child_by_field_name("name") {
            Some(c) => c,
            None => {
                return Err(missing_err(node, "name"));
            },
        };
        let param_node = match node.child_by_field_name("parameters") {
            Some(c) => c,
            None => {
                return Err(missing_err(node, "parameters"));
            },
        };
        let body_node = match node.child_by_field_name("body") {
            Some(c) => c,
            None => {
                return Err(missing_err(node, "body"));
            },
        };
        let fn_name = name_node.text.as_str();
        let fn_place = Place::from_ts_point(fn_name, node.start);
        let guard = self.env.enter_scope(fn_name);
        let param_types = self.check_params(param_node);
        let return_type = match node.child_by_field_name("return_type") {
            None => self.infer_fn_body(body_node, None),
            Some(rt) => match annotated_exec(rt) {
                Err(x) => {
                    self.push_err(x);
                    self.infer_fn_body(body_node, None)
                },
                Ok(ty) => {
                    let declared = vec![ty.duplicate()];
                    proof {
                        lemma_tys_of(declared@);
                        assert(tys_of(declared@) =~= seq![ty@]);
                    }
                    self.infer_fn_body(body_node, Some(ty));
                    declared
                },
            },
        };
        self.env.release(guard);
        let sig = TypeVar::Function(fn_place.duplicate(), param_types, return_type);
        self.define(fn_name, fn_place, sig);
        Ok(())
    }

    fn named_count(n: &SyntaxNode) -> (r: usize)
        ensures
            r == named_children(*n).len(),
    {
        let ghost cs = n.children@;
        let mut k: usize = 0;
        let mut i: usize = 0;
        while i < n.children.len()
            invariant
                cs == n.children@,
                0 <= i <= cs.len(),
                k == named_of(cs.take(i as int)).len(),
            decreases n.children.len() - i,
        {
            proof {
                crate::ast::lemma_named_of_step(cs, i as int);
                crate::ast::lemma_named_prefix(cs, i as int + 1);
                crate::ast::lemma_named_len(cs.take(i as int + 1));
            }
            if n.children[i].named {
                k = k + 1;
            }
            i = i + 1;
        }
        proof {
            crate::ast::lemma_named_of_all(cs);
        }
        k
    }

    /// Handle `reveal_type(x)`: record the type of its argument.
    pub fn call_reveal_type(&mut self, node: &SyntaxNode) -> (r: Result<(), CheckErr>)
        requires
            old(self).wf(),
        ensures
            final(self).wf(),
            final(self).source() == old(self).source(),
            final(self).file() == old(self).file(),
            (final(self)@, err_of(r)) == reveal_step(old(self)@, *node),
    {
        let fn_args_list = match node.child_by_field_name("arguments") {
            Some(c) => c,
            None => {
                return Err(missing_err(node, "arguments"));
            },
        };
        let ghost st0 = self@;
        let ghost cs = fn_args_list.children@;
        proof {
            assert(cs.take(0) =~= Seq::<SyntaxNode>::empty());
        }
        let mut count: usize = 0;
        let mut i: usize = 0;
        while i < fn_args_list.children.len()
            invariant
                self.wf(),
                self.source() == old(self).source(),
                self.file() == old(self).file(),
                cs == fn_args_list.children@,
                0 <= i <= cs.len(),
                count == named_of(cs.take(i as int)).len(),
                self@ == reveal_fold(st0, *node, named_of(cs.take(i as int))),
                self@.env == st0.env,
            decreases fn_args_list.children.len() - i,
        {
            let a = &fn_args_list.children[i];
            proof {
                crate::ast::lemma_named_of_step(cs, i as int);
                crate::ast::lemma_named_prefix(cs, i as int + 1);
                crate::ast::lemma_named_len(cs.take(i as int + 1));
            }
            if a.named {
                let ghost before = named_of(cs.take(i as int));
                proof {
                    assert(before.push(*a).drop_last() =~= before);
                }
                match self.env.var_type(a.text.as_str()) {
                    Some(ty) => {
                        self.push_reveal(
                            Reveal {
                                row: node.start.row,
                                column: node.start.column,
                                name: a.text.clone(),
                                ty,
                            },
                        );
                    },
                    None => {
                        self.push_err(
                            quoted_err(ErrorKind::UndefinedIdentifier, "undefined identifier '", a),
                        );
                    },
                }
                count = count + 1;
            }
            i = i + 1;
        }
        proof {
            crate::ast::lemma_named_of_all(cs);
        }
        if count > 1 {
            Err(node_err_exec(ErrorKind::ArityMismatch, String::from_str("Too many arguments"), fn_args_list))
        } else if count == 0 {
            Err(node_err_exec(ErrorKind::ArityMismatch, String::from_str("No argument given"), fn_args_list))
        } else {
            Ok(())
        }
    }

    fn check_args(
        &mut self,
        fn_name: &str,
        args: &SyntaxNode,
        params: &Vec<TypeVar>,
    )
        requires
            old(self).wf(),
            named_children(*args).len() == params@.len(),
        ensures
            final(self).wf(),
            final(self).source() == old(self).source(),
            final(self).file() == old(self).file(),
            final(self)@ == (CheckState {
                env: old(self)@.env,
                errors: old(self)@.errors + arg_errors(
                    old(self)@.env,
                    fn_name@,
                    named_children(*args),
                    tys_of(params@),
                ),
                reveals: old(self)@.reveals,
                unseen: old(self)@.unseen,
            }),
    {
        let ghost st0 = self@;
        let ghost cs = args.children@;
        let ghost pv = tys_of(params@);
        proof {
            assert(cs.take(0) =~= Seq::<SyntaxNode>::empty());
            lemma_tys_of(params@);
            assert(st0.errors + Seq::<ErrView>::empty() =~= st0.errors);
        }
        let mut k: usize = 0;
        let mut i: usize = 0;
        while i < args.children.len()
            invariant
                self.wf(),
                self.source() == old(self).source(),
                self.file() == old(self).file(),
                cs == args.children@,
                pv == tys_of(params@),
                named_of(cs).len() == params@.len(),
                pv.len() == params@.len(),
                forall|j: int| 0 <= j < params@.len() ==> #[trigger] pv[j] == params@[j]@,
                0 <= i <= cs.len(),
                k == named_of(cs.take(i as int)).len(),
                self@ == (CheckState {
                    env: st0.env,
                    errors: st0.errors + arg_errors(st0.env, fn_name@, named_of(cs.take(i as int)), pv),
                    reveals: st0.reveals,
                    unseen: st0.unseen,
                }),
            decreases args.children.len() - i,
        {
            let a = &args.children[i];
            proof {
                crate::ast::lemma_named_of_step(cs, i as int);
                crate::ast::lemma_named_prefix(cs, i as int + 1);
                crate::ast::lemma_named_len(cs.take(i as int + 1));
            }
            if a.named {
                let ghost before = named_of(cs.take(i as int));
                let ghost errs = self@.errors;
                proof {
                    assert(before.push(*a).drop_last() =~= before);
                }
                let b = &params[k];
                match self.infer_type_for_node(a) {
                    Ok(arg_ty) => {
                        if !arg_ty.type_check(b) {
                            let mut m = String::from_str("Type mismatch calling fn `");
                            m.append(fn_name);
                            m.append("` Expected ");
                            let bt = b.to_text();
                            m.append(bt.as_str());
                            m.append(" found ");
                            let at = arg_ty.to_text();
                            m.append(at.as_str());
                            self.push_err(
                                CheckErr {
                                    kind: ErrorKind::TypeMismatch,
                                    msg: m,
                                    start_place: Place::from_ts_point("arg", a.start),
                                    end_place: Some(Place::from_ts_point("arg", a.end)),
                                },
                            );
                            proof {
                                assert(self@.errors =~= errs + arg_check(st0.env, fn_name@, *a, pv[k as int]));
                            }
                        } else {
                            proof {
                                assert(self@.errors =~= errs + arg_check(st0.env, fn_name@, *a, pv[k as int]));
                            }
                        }
                    },
                    Err(x) => {
                        self.push_err(x);
                        proof {
                            assert(self@.errors =~= errs + arg_check(st0.env, fn_name@, *a, pv[k as int]));
                        }
                    },
                }
                proof {
                    let ae = arg_errors(st0.env, fn_name@, before, pv);
                    let ck = arg_check(st0.env, fn_name@, *a, pv[k as int]);
                    assert(st0.errors + (ae + ck) =~= (st0.errors + ae) + ck);
                }
                k = k + 1;
            }
            i = i + 1;
        }
        proof {
            crate::ast::lemma_named_of_all(cs);
        }
    }

    /// Check a call: the argument count against the callee's parameters, then each
    /// argument against its parameter's type. `reveal_type` is handled on its own.
    pub fn check_fn_call(&mut self, node: &SyntaxNode) -> (r: Result<(), CheckErr>)
        requires
            old(self).wf(),
        ensures
            final(self).wf(),
            final(self).source() == old(self).source(),
            final(self).file() == old(self).file(),
            (final(self)@, err_of(r)) == call_step(old(self)@, *node),
    {
        let f = match node.child_by_field_name("function") {
            Some(c) => c,
            None => {
                return Err(missing_err(node, "function"));
            },
        };
        let fn_name = f.text.as_str();
        if crate::type_var::str_eq(fn_name, "reveal_type") {
            return self.call_reveal_type(node);
        }
        let fn_sig = match self.env.var_type(fn_name) {
            Some(t) => t,
            None => {
                return Err(quoted_err(ErrorKind::UndefinedIdentifier, "undefined identifier '", f));
            },
        };
        let guard = self.env.enter_scope(fn_name);
        let fn_args_list = match node.child_by_field_name("arguments") {
            Some(c) => c,
            None => {
                self.env.release(guard);
                return Err(missing_err(node, "arguments"));
            },
        };
        match fn_sig {
            TypeVar::Function(_, params, _) => {
                proof {
                    lemma_tys_of(params@);
                }
                let n_args = Self::named_count(fn_args_list);
                if n_args != params.len() {
                    self.env.release(guard);
                    let mut m = String::from_str("Fn called with ");
                    let na = decimal_text(n_args as u128);
                    m.append(na.as_str());
                    m.append(" args expected ");
                    let np = decimal_text(params.len() as u128);
                    m.append(np.as_str());
                    return Err(
                        CheckErr {
                            kind: ErrorKind::ArityMismatch,
                            msg: m,
                            start_place: Place::from_ts_point("fncall", node.start),
                            end_place: Some(Place::from_ts_point("fncall", node.end)),
                        },
                    );
                }
                self.check_args(fn_name, fn_args_list, &params);
            },
            _ => {},
        }
        self.env.release(guard);
        Ok(())
    }

    /// Check one node, by its kind.
    pub fn check_visit(&mut self, node: &SyntaxNode)
        requires
            old(self).wf(),
        ensures
            final(self).wf(),
            final(self).source() == old(self).source(),
            final(self).file() == old(self).file(),
            final(self)@ == visit(old(self)@, *node),
    {
        let r = match node.node_kind() {
            NodeKind::Assignment => self.check_assignment(node),
            NodeKind::BinaryOperator => self.check_binop(node),
            NodeKind::FunctionDefinition => self.check_function_def(node),
            NodeKind::Call => self.check_fn_call(node),
            NodeKind::Module | NodeKind::ExpressionStatement => Ok(()),
            _ => {
                self.push_unseen(node.kind.clone());
                Ok(())
            },
        };
        match r {
            Ok(()) => {},
            Err(e) => self.push_err(e),
        }
    }

    /// Check a node and every node below it, in pre-order.
    pub fn check_tree(&mut self, node: &SyntaxNode)
        requires
            old(self).wf(),
        ensures
            final(self).wf(),
            final(self).source() == old(self).source(),
            final(self).file() == old(self).file(),
            final(self)@ == walk(old(self)@, *node),
        decreases node,
    {
        self.check_visit(node);
        let ghost s1 = self@;
        let mut guard = None;
        if node.node_kind() == NodeKind::FunctionDefinition {
            match node.child_by_field_name("name") {
                Some(nm) => {
                    guard = Some(self.env.enter_scope(nm.text.as_str()));
                },
                None => {},
            }
        }
        let ghost st1 = self@;
        assert(body_scope(*node) is Some ==> st1 == with_env(s1, entered(s1.env, body_scope(*node)->0)));
        assert(body_scope(*node) is None ==> st1 == s1);
        let ghost cs = node.children@;
        proof {
            assert(cs.take(0) =~= Seq::<SyntaxNode>::empty());
        }
        let mut i: usize = 0;
        while i < node.children.len()
            invariant
                self.wf(),
                self.source() == old(self).source(),
                self.file() == old(self).file(),
                cs == node.children@,
                0 <= i <= cs.len(),
                self@ == walk_all(st1, cs.take(i as int)),
                guard is Some <==> body_scope(*node) is Some,
                guard matches Some(g) ==> g.depth() == s1.env.live.len(),
            decreases node.children.len() - i,
        {
            proof {
                assert(cs.take(i + 1).subrange(0, i as int) =~= cs.take(i as int));
                assert(decreases_to!(node.children => node.children[i as int]));
            }
            self.check_tree(&node.children[i]);
            i = i + 1;
        }
        proof {
            crate::ast::lemma_named_of_all(cs);
        }
        match guard {
            Some(g) => {
                self.env.release(g);
            },
            None => {},
        }
    }

    /// Check an assignment and bind its left-hand identifier.
    pub fn check_assignment(&mut self, node: &SyntaxNode) -> (r: Result<(), CheckErr>)
        requires
            old(self).wf(),
        ensures
            final(self).wf(),
            final(self).source() == old(self).source(),
            final(self).file() == old(self).file(),
            (final(self)@, err_of(r)) == assignment_step(old(self)@, *node),
    {
        let lhs = match node.child_by_field_name("left") {
            Some(c) => c,
            None => {
                return Err(missing_err(node, "left"));
            },
        };
        let rhs = match node.child_by_field_name("right") {
            Some(c) => c,
            None => {
                return Err(missing_err(node, "right"));
            },
        };
        let rhs_type = match self.infer_type_for_node(rhs) {
            Ok(t) => t,
            Err(x) => {
                return Err(x);
            },
        };
        let id = lhs.text.as_str();
        let left_place = Place::from_ts_point(id, lhs.start);
        match node.child_by_field_name("type") {
            None => {
                self.define(id, left_place, rhs_type);
                Ok(())
            },
            Some(type_node) => match annotated_exec(type_node) {
                Err(x) => {
                    self.define(id, left_place, rhs_type);
                    Err(x)
                },
                Ok(ty) => {
                    let ok = ty.type_check(&rhs_type);
                    if ok {
                        self.define(id, left_place, ty);
                        Ok(())
                    } else {
                        let mut m = String::from_str("Mismatched types while assigning to '");
                        m.append(id);
                        m.append("' expected ");
                        let dt = ty.to_text();
                        m.append(dt.as_str());
                        m.append(" found ");
                        let ft = rhs_type.to_text();
                        m.append(ft.as_str());
                        self.define(id, left_place, ty);
                        Err(node_err_exec(ErrorKind::TypeMismatch, m, node))
                    }
                },
            },
        }
    }

    /// Check a binary operation and record the types of its operands and result.
    pub fn check_binop(&mut self, node: &SyntaxNode) -> (r: Result<(), CheckErr>)
        requires
            old(self).wf(),
        ensures
            final(self).wf(),
            final(self).source() == old(self).source(),
            final(self).file() == old(self).file(),
            (final(self)@, err_of(r)) == binop_step(old(self)@, *node),
    {
        let arg1 = match node.child_by_field_name("left") {
            Some(c) => c,
            None => {
                return Err(missing_err(node, "left"));
            },
        };
        let arg2 = match node.child_by_field_name("right") {
            Some(c) => c,
            None => {
                return Err(missing_err(node, "right"));
            },
        };
        let a1_type = match self.infer_type_for_node(arg1) {
            Ok(t) => t,
            Err(x) => {
                return Err(x);
            },
        };
        let a2_type = match self.infer_type_for_node(arg2) {
            Ok(t) => t,
            Err(x) => {
                return Err(x);
            },
        };
        let return_type = match (&a1_type, &a2_type) {
            (TypeVar::Integer(a), TypeVar::Integer(b)) => {
                let sum = if *a <= usize::MAX - *b {
                    *a + *b
                } else {
                    usize::MAX
                };
                TypeVar::Integer(sum)
            },
            (TypeVar::String(), TypeVar::String()) => TypeVar::String(),
            _ => {
                let mut m = String::from_str("Invalid types (");
                let t1 = a1_type.to_text();
                m.append(t1.as_str());
                m.append(", ");
                let t2 = a2_type.to_text();
                m.append(t2.as_str());
                m.append(") for BinOp");
                return Err(
                    CheckErr {
                        kind: ErrorKind::TypeMismatch,
                        msg: m,
                        start_place: Place::from_ts_point("binop", node.start),
                        end_place: Some(Place::from_ts_point("binop", node.end)),
                    },
                );
            },
        };
        let binop_place = Place::from_ts_point("binop", node.start);
        let args = vec![a1_type.duplicate(), a2_type.duplicate()];
        let rets = vec![return_type.duplicate()];
        proof {
            lemma_tys_of(args@);
            lemma_tys_of(rets@);
            assert(tys_of(args@) =~= seq![a1_type@, a2_type@]);
            assert(tys_of(rets@) =~= seq![return_type@]);
        }
        let binop_type = TypeVar::Call(binop_place.duplicate(), args, rets);
        self.env.insert_binding(binop_place, binop_type);
        self.env.insert_binding(Place::from_ts_point("arg1", arg1.start), a1_type);
        self.env.insert_binding(Place::from_ts_point("arg2", arg2.start), a2_type);
        self.env.insert_binding(Place::from_ts_point("return", node.start), return_type);
        Ok(())
    }

    /// The type of an expression node in the current environment.
    pub fn infer_type_for_node(&self, node: &SyntaxNode) -> (r: Result<TypeVar, CheckErr>)
        requires
            self.wf(),
        ensures
            ty_result(r) == infer(self@.env, *node),
        decreases node,
    {
        match node.node_kind() {
            NodeKind::Identifier => match self.env.var_type(node.text.as_str()) {
                Some(t) => Ok(t),
                None => Err(quoted_err(ErrorKind::UndefinedIdentifier, "undefined identifier '", node)),
            },
            NodeKind::Call => match node.child_by_field_name("function") {
                None => Err(missing_err(node, "function")),
                Some(f) => {
                    proof {
                        lemma_field_child_decreases(*node, "function"@);
                    }
                    match self.infer_type_for_node(f) {
                        Err(x) => Err(x),
                        Ok(TypeVar::Function(_, _, ret)) => {
                            proof {
                                lemma_tys_of(ret@);
                            }
                            if ret.len() == 1 {
                                Ok(ret[0].duplicate())
                            } else {
                                Ok(TypeVar::Union(ret))
                            }
                        },
                        Ok(_) => Ok(TypeVar::NoneType),
                    }
                },
            },
            NodeKind::Integer => match parse_int(node.text.as_str()) {
                Some(v) => Ok(TypeVar::Integer(v)),
                None => Err(quoted_err(ErrorKind::StructuralError, "invalid integer literal '", node)),
            },
            NodeKind::StringLiteral => Ok(TypeVar::String()),
            NodeKind::ReturnStatement => match node.first_named_child() {
                Some(c) => {
                    proof {
                        lemma_first_named_decreases(*node);
                    }
                    self.infer_type_for_node(c)
                },
                None => Ok(TypeVar::NoneType),
            },
            NodeKind::BinaryOperator => Ok(
                TypeVar::BinOp(Place::from_ts_point("binop", node.start)),
            ),
            NodeKind::TypedParameter => match node.child_by_field_name("type") {
                None => Err(missing_err(node, "type")),
                Some(t) => annotated_exec(t),
            },
            NodeKind::NoneLiteral => Ok(TypeVar::NoneType),
            _ => Ok(TypeVar::Var(Place::exp_from_ts_point(node.start))),
        }
    }
}

/// How many diagnostics of a list are of the given class.
pub open spec fn count_kind(errs: Seq<ErrView>, k: ErrorKind) -> nat
    decreases errs.len(),
{
    if errs.len() == 0 {
        0
    } else {
        count_kind(errs.drop_last(), k) + if errs.last().kind == k {
            1nat
        } else {
            0nat
        }
    }
}

proof fn lemma_reveal_fold_arity(st: CheckState, n: SyntaxNode, args: Seq<SyntaxNode>)
    ensures
        count_kind(reveal_fold(st, n, args).errors, ErrorKind::ArityMismatch) == count_kind(
            st.errors,
            ErrorKind::ArityMismatch,
        ),
        reveal_fold(st, n, args).env == st.env,
    decreases args.len(),
{
    if args.len() > 0 {
        lemma_reveal_fold_arity(st, n, args.drop_last());
        let s1 = reveal_fold(st, n, args.drop_last());
        if var_type(s1.env, args.last().text@) is None {
            assert(s1.errors.push(undefined(args.last())).drop_last() =~= s1.errors);
        }
    }
}

/// `reveal_type` with one argument that is bound reports nothing and reveals that
/// argument's type; with no argument or with more than one, it reports exactly one
/// arity mismatch.
pub proof fn lemma_reveal_type(st: CheckState, n: SyntaxNode)
    requires
        n.spec_kind() == NodeKind::Call,
        field_child(n, "function"@) matches Some(f) && f.text@ == "reveal_type"@,
        field_child(n, "arguments"@) is Some,
    ensures
        ({
            let args = named_children(field_child(n, "arguments"@)->0);
            let after = visit(st, n);
            &&& (args.len() == 1 && var_type(st.env, args[0].text@) is Some) ==> after == push_reveal(
                st,
                RevealView {
                    row: n.start.row,
                    column: n.start.column,
                    name: args[0].text@,
                    ty: var_type(st.env, args[0].text@)->0,
                },
            )
            &&& args.len() != 1 ==> count_kind(after.errors, ErrorKind::ArityMismatch) == count_kind(
                st.errors,
                ErrorKind::ArityMismatch,
            ) + 1
        }),
{
    let args = named_children(field_child(n, "arguments"@)->0);
    lemma_reveal_fold_arity(st, n, args);
    assert(call_step(st, n) == reveal_step(st, n));
    assert(visit(st, n) == absorb(reveal_step(st, n)));
    if args.len() == 1 {
        assert(args.drop_last().len() == 0);
        assert(reveal_fold(st, n, args.drop_last()) == st);
        assert(args.last() == args[0]);
        assert(reveal_fold(st, n, args) == reveal_visit(st, n, args[0]));
        assert(reveal_step(st, n).1 is None);
    } else {
        let s2 = reveal_fold(st, n, args);
        let r = reveal_step(st, n);
        let x = r.1->0;
        assert(x.kind == ErrorKind::ArityMismatch);
        assert(s2.errors.push(x).drop_last() =~= s2.errors);
    }
}

proof fn lemma_lookups_kept(e: EnvView, e2: EnvView, k: int, p: PlaceView, v: Seq<char>)
    requires
        Environment::live_ok(e),
        e2.live == e.live,
        e2.scopes.len() >= e.scopes.len(),
        forall|i: int| 0 <= i < e.scopes.len() ==> e2.scopes[i] == e.scopes[i],
        k <= e.live.len(),
    ensures
        binding_in(e2, k, p) == binding_in(e, k, p),
        var_in(e2, k, v) == var_in(e, k, v),
    decreases k,
{
    if k > 0 {
        assert(e.live[k - 1] < e.scopes.len());
        lemma_lookups_kept(e, e2, k - 1, p, v);
    }
}

/// A call leaves the type of every identifier as it was, so a function defined
/// once keeps, for every later call, the signature bound at its definition.
pub proof fn lemma_call_keeps_bindings(st: CheckState, n: SyntaxNode, v: Seq<char>)
    requires
        Environment::live_ok(st.env),
        n.spec_kind() == NodeKind::Call,
    ensures
        var_type(visit(st, n).env, v) == var_type(st.env, v),
{
    let e = st.env;
    if let Some(f) = field_child(n, "function"@) {
        if f.text@ == "reveal_type"@ {
            let args = named_children(field_child(n, "arguments"@)->0);
            if field_child(n, "arguments"@) is Some {
                lemma_reveal_fold_arity(st, n, args);
            }
        } else {
            let e1 = entered(e, f.text@);
            let back = cut_to(e1, e.live.len() as int);
            assert(e1.live.subrange(0, e.live.len() as int) =~= e.live);
            assert(back.live == e.live);
            lemma_lookups_kept(e, back, e.live.len() as int, (Seq::empty(), 0usize, 0usize), v);
            if let Some(p) = var_in(e, e.live.len() as int, v) {
                lemma_lookups_kept(e, back, e.live.len() as int, p, v);
            }
        }
    }
}

/// Whether a node is a return statement that a declared result type does not
/// allow, or whose type cannot be read.
pub open spec fn is_bad_return(e: EnvView, dt: Ty, n: SyntaxNode) -> bool {
    n.spec_kind() == NodeKind::ReturnStatement && match infer(e, n) {
        Ok(t) => !compatible(dt, t),
        Err(_) => true,
    }
}

/// How many return statements in a tree are bad for a declared result type.
pub open spec fn bad_returns(e: EnvView, dt: Ty, n: SyntaxNode) -> nat
    decreases n,
{
    proof {
        assert(decreases_to!(n => n.children));
    }
    (if is_bad_return(e, dt, n) {
        1nat
    } else {
        0nat
    }) + bad_returns_all(e, dt, n.children@)
}

pub open spec fn bad_returns_all(e: EnvView, dt: Ty, s: Seq<SyntaxNode>) -> nat
    decreases s,
{
    if s.len() == 0 {
        0
    } else {
        bad_returns_all(e, dt, s.subrange(0, s.len() - 1)) + bad_returns(e, dt, s[s.len() - 1])
    }
}

proof fn lemma_ret_walk_count(e: EnvView, dt: Ty, acc: (Seq<ErrView>, Seq<Ty>), n: SyntaxNode)
    ensures
        ret_walk(e, Some(dt), acc, n).0.len() == acc.0.len() + bad_returns(e, dt, n),
    decreases n,
{
    assert(decreases_to!(n => n.children));
    lemma_ret_walk_all_count(e, dt, ret_visit(e, Some(dt), acc, n), n.children@);
}

proof fn lemma_ret_walk_all_count(
    e: EnvView,
    dt: Ty,
    acc: (Seq<ErrView>, Seq<Ty>),
    s: Seq<SyntaxNode>,
)
    ensures
        ret_walk_all(e, Some(dt), acc, s).0.len() == acc.0.len() + bad_returns_all(e, dt, s),
    decreases s,
{
    if s.len() > 0 {
        let p = s.subrange(0, s.len() - 1);
        lemma_ret_walk_all_count(e, dt, acc, p);
        lemma_ret_walk_count(e, dt, ret_walk_all(e, Some(dt), acc, p), s[s.len() - 1]);
    }
}

/// Scanning a body against a declared result type reports one diagnostic for each
/// return statement that the type does not allow (or whose type cannot be read),
/// each on its own, and nothing else.
pub proof fn lemma_one_diagnostic_per_bad_return(st: CheckState, body: SyntaxNode, dt: Ty)
    ensures
        body_returns(st, body, Some(dt)).0.errors.len() == st.errors.len() + bad_returns(
            st.env,
            dt,
            body,
        ),
        body_returns(st, body, Some(dt)).0.errors.take(st.errors.len() as int) == st.errors,
{
    lemma_ret_walk_count(st.env, dt, (st.errors, Seq::empty()), body);
    lemma_ret_walk_prefix(st.env, Some(dt), (st.errors, Seq::empty()), body);
}

proof fn lemma_ret_walk_prefix(e: EnvView, al: Option<Ty>, acc: (Seq<ErrView>, Seq<Ty>), n: SyntaxNode)
    ensures
        ret_walk(e, al, acc, n).0.len() >= acc.0.len(),
        ret_walk(e, al, acc, n).0.take(acc.0.len() as int) == acc.0,
    decreases n,
{
    assert(decreases_to!(n => n.children));
    let a1 = ret_visit(e, al, acc, n);
    assert(a1.0.take(acc.0.len() as int) =~= acc.0);
    lemma_ret_walk_all_prefix(e, al, a1, n.children@);
    let r = ret_walk(e, al, acc, n).0;
    assert(r.take(acc.0.len() as int) =~= r.take(a1.0.len() as int).take(acc.0.len() as int));
}

proof fn lemma_ret_walk_all_prefix(
    e: EnvView,
    al: Option<Ty>,
    acc: (Seq<ErrView>, Seq<Ty>),
    s: Seq<SyntaxNode>,
)
    ensures
        ret_walk_all(e, al, acc, s).0.len() >= acc.0.len(),
        ret_walk_all(e, al, acc, s).0.take(acc.0.len() as int) == acc.0,
    decreases s,
{
    if s.len() == 0 {
        assert(acc.0.take(acc.0.len() as int) =~= acc.0);
    } else {
        let p = s.subrange(0, s.len() - 1);
        lemma_ret_walk_all_prefix(e, al, acc, p);
        let a1 = ret_walk_all(e, al, acc, p);
        lemma_ret_walk_prefix(e, al, a1, s[s.len() - 1]);
        let r = ret_walk_all(e, al, acc, s).0;
        assert(r.take(acc.0.len() as int) =~= r.take(a1.0.len() as int).take(acc.0.len() as int));
    }
}

proof fn lemma_count_concat(x: Seq<ErrView>, y: Seq<ErrView>, k: ErrorKind)
    ensures
        count_kind(x + y, k) == count_kind(x, k) + count_kind(y, k),
    decreases y.len(),
{
    if y.len() > 0 {
        lemma_count_concat(x, y.drop_last(), k);
        assert((x + y).drop_last() =~= x + y.drop_last());
    } else {
        assert(x + y =~= x);
    }
}

/// Reading the type of an expression never fails with an arity mismatch.
proof fn lemma_infer_not_arity(e: EnvView, n: SyntaxNode)
    ensures
        infer(e, n) matches Err(x) ==> x.kind != ErrorKind::ArityMismatch,
    decreases n,
{
    match n.spec_kind() {
        NodeKind::Call => {
            if let Some(f) = field_child(n, "function"@) {
                lemma_field_child_decreases(n, "function"@);
                lemma_infer_not_arity(e, f);
            }
        },
        NodeKind::ReturnStatement => {
            if named_children(n).len() > 0 {
                lemma_first_named_decreases(n);
                lemma_infer_not_arity(e, named_children(n)[0]);
            }
        },
        _ => {},
    }
}

proof fn lemma_arg_errors_not_arity(
    e: EnvView,
    fname: Seq<char>,
    args: Seq<SyntaxNode>,
    params: Seq<Ty>,
)
    ensures
        count_kind(arg_errors(e, fname, args, params), ErrorKind::ArityMismatch) == 0,
    decreases args.len(),
{
    if args.len() > 0 {
        lemma_arg_errors_not_arity(e, fname, args.drop_last(), params);
        lemma_infer_not_arity(e, args.last());
        let ck = arg_check(e, fname, args.last(), params[args.len() - 1]);
        lemma_count_concat(arg_errors(e, fname, args.drop_last(), params), ck, ErrorKind::ArityMismatch);
        if ck.len() == 1 {
            assert(ck.drop_last() =~= Seq::<ErrView>::empty());
            assert(ck.last().kind != ErrorKind::ArityMismatch);
            assert(count_kind(ck.drop_last(), ErrorKind::ArityMismatch) == 0);
        }
        assert(count_kind(ck, ErrorKind::ArityMismatch) == 0);
    }
}

/// A call to a function whose argument count differs from its parameter count
/// reports exactly one arity mismatch and nothing else; with the counts equal it
/// reports no arity mismatch.
pub proof fn lemma_call_arity(st: CheckState, n: SyntaxNode)
    requires
        n.spec_kind() == NodeKind::Call,
        field_child(n, "function"@) matches Some(f) && f.text@ != "reveal_type"@,
        field_child(n, "arguments"@) is Some,
        var_type(st.env, field_child(n, "function"@)->0.text@) is Some,
        var_type(st.env, field_child(n, "function"@)->0.text@)->0 is Function,
    ensures
        ({
            let fname = field_child(n, "function"@)->0.text@;
            let params = var_type(st.env, fname)->0->Function_1;
            let nargs = named_children(field_child(n, "arguments"@)->0).len();
            let after = visit(st, n);
            &&& nargs != params.len() ==> after.errors == st.errors.push(
                arity_mismatch(n, nargs, params.len()),
            )
            &&& nargs == params.len() ==> count_kind(after.errors, ErrorKind::ArityMismatch)
                == count_kind(st.errors, ErrorKind::ArityMismatch)
        }),
{
    let f = field_child(n, "function"@)->0;
    let fname = f.text@;
    let e1 = entered(st.env, fname);
    let params = var_type(st.env, fname)->0->Function_1;
    let a = named_children(field_child(n, "arguments"@)->0);
    if a.len() == params.len() {
        lemma_arg_errors_not_arity(e1, fname, a, params);
        lemma_count_concat(st.errors, arg_errors(e1, fname, a, params), ErrorKind::ArityMismatch);
    }
}

proof fn lemma_params_keep_live(st: CheckState, ps: Seq<SyntaxNode>)
    ensures
        params_fold(st, ps).0.env.live == st.env.live,
    decreases ps.len(),
{
    if ps.len() > 0 {
        lemma_params_keep_live(st, ps.drop_last());
    }
}

proof fn lemma_visit_keeps_live(st: CheckState, n: SyntaxNode)
    ensures
        visit(st, n).env.live == st.env.live,
{
    let len = st.env.live.len() as int;
    match n.spec_kind() {
        NodeKind::FunctionDefinition => {
            if let (Some(nm), Some(ps), Some(body)) = (
                field_child(n, "name"@),
                field_child(n, "parameters"@),
                field_child(n, "body"@),
            ) {
                let s1 = with_env(st, entered(st.env, nm.text@));
                lemma_params_keep_live(s1, named_children(ps));
                let s2 = params_fold(s1, named_children(ps)).0;
                let s3 = fn_returns(s2, n, body).0;
                assert(s3.env == s2.env);
                assert(s1.env.live.subrange(0, len) =~= st.env.live);
            }
        },
        NodeKind::Call => {
            if let Some(f) = field_child(n, "function"@) {
                if f.text@ == "reveal_type"@ {
                    if let Some(args) = field_child(n, "arguments"@) {
                        lemma_reveal_fold_arity(st, n, named_children(args));
                    }
                } else {
                    let e1 = entered(st.env, f.text@);
                    assert(e1.live.subrange(0, len) =~= st.env.live);
                }
            }
        },
        _ => {},
    }
}

/// Checking a node and all below it leaves the live scopes as they were.
pub proof fn lemma_walk_keeps_live(st: CheckState, n: SyntaxNode)
    ensures
        walk(st, n).env.live == st.env.live,
    decreases n,
{
    assert(decreases_to!(n => n.children));
    lemma_visit_keeps_live(st, n);
    let s1 = visit(st, n);
    if body_scope(n) is Some {
        let s2 = with_env(s1, entered(s1.env, body_scope(n)->0));
        lemma_walk_all_keeps_live(s2, n.children@);
        assert(s2.env.live.subrange(0, s1.env.live.len() as int) =~= s1.env.live);
    } else {
        lemma_walk_all_keeps_live(s1, n.children@);
    }
}

proof fn lemma_walk_all_keeps_live(st: CheckState, s: Seq<SyntaxNode>)
    ensures
        walk_all(st, s).env.live == st.env.live,
    decreases s,
{
    if s.len() > 0 {
        let p = s.subrange(0, s.len() - 1);
        lemma_walk_all_keeps_live(st, p);
        lemma_walk_keeps_live(walk_all(st, p), s[s.len() - 1]);
    }
}

/// Whether a list of diagnostics starts with another.
pub open spec fn extends(a: Seq<ErrView>, b: Seq<ErrView>) -> bool {
    b.len() >= a.len() && b.take(a.len() as int) == a
}

proof fn lemma_extends_trans(a: Seq<ErrView>, b: Seq<ErrView>, c: Seq<ErrView>)
    requires
        extends(a, b),
        extends(b, c),
    ensures
        extends(a, c),
{
    assert(c.take(a.len() as int) =~= c.take(b.len() as int).take(a.len() as int));
}

proof fn lemma_extends_push(a: Seq<ErrView>, x: ErrView)
    ensures
        extends(a, a.push(x)),
        extends(a, a),
{
    assert(a.push(x).take(a.len() as int) =~= a);
    assert(a.take(a.len() as int) =~= a);
}

proof fn lemma_extends_concat(a: Seq<ErrView>, b: Seq<ErrView>)
    ensures
        extends(a, a + b),
{
    assert((a + b).take(a.len() as int) =~= a);
}

proof fn lemma_absorb_extends(r: (CheckState, Option<ErrView>), st: CheckState)
    requires
        extends(st.errors, r.0.errors),
    ensures
        extends(st.errors, absorb(r).errors),
{
    if let Some(x) = r.1 {
        lemma_extends_push(r.0.errors, x);
        lemma_extends_trans(st.errors, r.0.errors, r.0.errors.push(x));
    }
}

proof fn lemma_params_extend(st: CheckState, ps: Seq<SyntaxNode>)
    ensures
        extends(st.errors, params_fold(st, ps).0.errors),
    decreases ps.len(),
{
    if ps.len() == 0 {
        lemma_extends_push(st.errors, arbitrary());
    } else {
        lemma_params_extend(st, ps.drop_last());
        let r = params_fold(st, ps.drop_last()).0;
        match param_type(ps.last()) {
            Ok(_) => {},
            Err(x) => {
                lemma_extends_push(r.errors, x);
                lemma_extends_trans(st.errors, r.errors, r.errors.push(x));
            },
        }
    }
}

proof fn lemma_reveal_fold_extends(st: CheckState, n: SyntaxNode, args: Seq<SyntaxNode>)
    ensures
        extends(st.errors, reveal_fold(st, n, args).errors),
    decreases args.len(),
{
    if args.len() == 0 {
        lemma_extends_push(st.errors, arbitrary());
    } else {
        lemma_reveal_fold_extends(st, n, args.drop_last());
        let r = reveal_fold(st, n, args.drop_last());
        let x = undefined(args.last());
        lemma_extends_push(r.errors, x);
        if var_type(r.env, args.last().text@) is None {
            lemma_extends_trans(st.errors, r.errors, r.errors.push(x));
        }
    }
}

proof fn lemma_visit_extends(st: CheckState, n: SyntaxNode)
    ensures
        extends(st.errors, visit(st, n).errors),
{
    lemma_extends_push(st.errors, arbitrary());
    match n.spec_kind() {
        NodeKind::Assignment => {
            lemma_absorb_extends(assignment_step(st, n), st);
        },
        NodeKind::BinaryOperator => {
            lemma_absorb_extends(binop_step(st, n), st);
        },
        NodeKind::FunctionDefinition => {
            if let (Some(nm), Some(ps), Some(body)) = (
                field_child(n, "name"@),
                field_child(n, "parameters"@),
                field_child(n, "body"@),
            ) {
                let s1 = with_env(st, entered(st.env, nm.text@));
                lemma_params_extend(s1, named_children(ps));
                let s2 = params_fold(s1, named_children(ps)).0;
                let s2b = match field_child(n, "return_type"@) {
                    Some(rt) => match annotated(rt) {
                        Err(x) => push_error(s2, x),
                        Ok(_) => s2,
                    },
                    None => s2,
                };
                lemma_extends_push(s2.errors, arbitrary());
                if let Some(rt) = field_child(n, "return_type"@) {
                    if let Err(x) = annotated(rt) {
                        lemma_extends_push(s2.errors, x);
                    }
                }
                lemma_extends_trans(st.errors, s2.errors, s2b.errors);
                let al = match field_child(n, "return_type"@) {
                    Some(rt) => match annotated(rt) {
                        Ok(dt) => Some(dt),
                        Err(_) => None,
                    },
                    None => None,
                };
                lemma_ret_walk_prefix(s2b.env, al, (s2b.errors, Seq::empty()), body);
                let s3 = fn_returns(s2, n, body).0;
                assert(s3.errors == body_returns(s2b, body, al).0.errors);
                lemma_extends_trans(st.errors, s2b.errors, s3.errors);
            }
            lemma_absorb_extends(fn_def_step(st, n), st);
        },
        NodeKind::Call => {
            if let Some(f) = field_child(n, "function"@) {
                if f.text@ == "reveal_type"@ {
                    if let Some(args) = field_child(n, "arguments"@) {
                        lemma_reveal_fold_extends(st, n, named_children(args));
                    }
                } else if let (Some(Ty::Function(_, params, _)), Some(args)) = (
                    var_type(st.env, f.text@),
                    field_child(n, "arguments"@),
                ) {
                    let e1 = entered(st.env, f.text@);
                    lemma_extends_concat(
                        st.errors,
                        arg_errors(e1, f.text@, named_children(args), params),
                    );
                }
            }
            lemma_absorb_extends(call_step(st, n), st);
        },
        _ => {},
    }
}

/// Checking a node and all below it only ever appends diagnostics: those found
/// before stay, in their order.
pub proof fn lemma_walk_extends(st: CheckState, n: SyntaxNode)
    ensures
        extends(st.errors, walk(st, n).errors),
    decreases n,
{
    assert(decreases_to!(n => n.children));
    lemma_visit_extends(st, n);
    let s1 = visit(st, n);
    if body_scope(n) is Some {
        let s2 = with_env(s1, entered(s1.env, body_scope(n)->0));
        lemma_walk_all_extends(s2, n.children@);
        lemma_extends_trans(st.errors, s1.errors, walk_all(s2, n.children@).errors);
    } else {
        lemma_walk_all_extends(s1, n.children@);
        lemma_extends_trans(st.errors, s1.errors, walk_all(s1, n.children@).errors);
    }
}

proof fn lemma_walk_all_extends(st: CheckState, s: Seq<SyntaxNode>)
    ensures
        extends(st.errors, walk_all(st, s).errors),
    decreases s,
{
    if s.len() == 0 {
        lemma_extends_push(st.errors, arbitrary());
    } else {
        let p = s.subrange(0, s.len() - 1);
        lemma_walk_all_extends(st, p);
        lemma_walk_extends(walk_all(st, p), s[s.len() - 1]);
        lemma_extends_trans(st.errors, walk_all(st, p).errors, walk_all(st, s).errors);
    }
}

} // verus!
