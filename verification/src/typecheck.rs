//! The type checker: builds the declared world (records, enums, channels,
//! signatures), checks the C boundary (`@cstruct`, `@export`), then checks
//! every body with flow typing for `is` tests.
use vstd::prelude::*;
use crate::ast::{
    Stmt,
    AssignTarget, BinOp, Block, Contract, Expr, FuncDecl, Item, Param, Pattern, Program, RecordDecl, StmtKind,
    Type, TypeParam, UnaryOp,
};
use crate::env::{apply_complement, apply_narrowing, extract_narrowing, Env};
use crate::kind::{
    accepts_cast_kind, accepts_error_kind, accepts_kind, is_typevar, is_unknown, kind_eq, method_type,
    map_key_ok, push_kind, subst, typevar_index, Kind, KindV, accepts_spec, accepts_cast_spec,
    accepts_error_spec, map_key_spec, method_spec, bindings_view, subst_spec,
};
use crate::names::{names_of, NameMap, NameSet};
use crate::resolve::error_type_names;
use crate::text::{concat3, push_decimal, push_str, str_eq};
use crate::token::Span;

verus! {

#[derive(Debug)]
pub struct TypeError {
    pub message: String,
    pub span: Span,
}

/// A function's signature: parameter kinds, return kind, and how many type
/// parameters it has.
struct FuncSig {
    params: Vec<Kind>,
    ret: Option<Kind>,
    tparams: usize,
}

/// An enum variant: its enum and its field kinds.
struct VariantInfo {
    owner: String,
    fields: Vec<Kind>,
}

pub struct TypeChecker {
    /// type declarations by name (records and enums)
    decls: NameMap<Kind>,
    /// record field kinds: (record, field, kind); a later entry overrides
    fields: Vec<(String, String, Kind)>,
    /// enum variant -> its enum and field kinds
    variants: NameMap<VariantInfo>,
    /// enum name -> variant names (for exhaustiveness)
    enum_variants: NameMap<Vec<String>>,
    /// function signatures by name
    funcs: NameMap<FuncSig>,
    /// record constructor -> field kinds in order
    record_ctors: NameMap<Vec<Kind>>,
    /// channels: name -> kind
    chans: NameMap<Kind>,
    /// type parameters in scope while signatures are read
    cur_tparams: Vec<String>,
    /// constraints of the in-scope type parameters, by index (e.g. Ordered)
    cur_constraints: Vec<Option<String>>,
    /// the enclosing function's declared error channel (for `?` acceptance)
    cur_error_channel: Option<Kind>,
    /// span of the construct being checked; errors point at it
    cur_span: Span,
    errors: Vec<TypeError>,
}

/// Whether a name is one of the stdlib error records.
pub open spec fn is_error_name(n: Seq<char>) -> bool {
    error_type_names().contains(n)
}

/// An `@export` function that cannot be a C symbol: `main`, a generic one,
/// or an `async` one.
pub open spec fn bad_export(it: Item) -> bool {
    it matches Item::Func(f) && f.exported && (f.name@ == "main"@ || f.type_params@.len() > 0 || f.is_async)
}

/// A type that is never C-representable whatever the program declares: a
/// builtin without a C layout, a type with arguments, or an error union.
pub open spec fn never_c(ty: Type) -> bool {
    match ty {
        Type::Named(n, args) => is_non_c_builtin(n@) || args.len() > 0,
        Type::NamedPlain(_) => false,
        Type::Union(_) => true,
    }
}

/// A `@cstruct` record with a field that can never have a C layout.
pub open spec fn bad_cstruct(it: Item) -> bool {
    it matches Item::Record(r) && r.cstruct && exists|k: int| 0 <= k < r.fields@.len() && never_c(#[trigger] r.fields@[k].ty)
}

/// The kind a builtin scalar type name denotes (`Err` is the root error).
pub open spec fn scalar_kind(name: Seq<char>) -> Option<KindV> {
    if name == "Bool"@ {
        Some(KindV::Bool)
    } else if name == "Int"@ {
        Some(KindV::Int)
    } else if name == "usize"@ {
        Some(KindV::Usize)
    } else if name == "Float"@ {
        Some(KindV::Float)
    } else if name == "Char"@ {
        Some(KindV::Char)
    } else if name == "Str"@ {
        Some(KindV::Str)
    } else if name == "Bytes"@ {
        Some(KindV::Bytes)
    } else if name == "Unit"@ {
        Some(KindV::Unit)
    } else if name == "Ptr"@ {
        Some(KindV::Ptr)
    } else if name == "Option"@ || name == "Result"@ || name == "Chan"@ || name == "List"@ || name == "Map"@
        || name == "Set"@ {
        None
    } else if name == "Err"@ {
        Some(KindV::ErrRoot)
    } else {
        None
    }
}

/// The kind a written type denotes when it names a builtin scalar.
pub open spec fn scalar_type_kind(ty: Type) -> Option<KindV> {
    match ty {
        Type::Named(n, _) => scalar_kind(n@),
        Type::NamedPlain(n) => scalar_kind(n@),
        Type::Union(_) => None,
    }
}

/// The kind of a literal: `Int`, `Float`, `Char`, `Str` (plain or raw),
/// `Bool`, and `none` as an option of nothing known.
pub open spec fn literal_kind(e: Expr) -> Option<KindV> {
    match e {
        Expr::Int(_) => Some(KindV::Int),
        Expr::Float(_) => Some(KindV::Float),
        Expr::Char(_) => Some(KindV::Char),
        Expr::Str(_) => Some(KindV::Str),
        Expr::RawStr(_) => Some(KindV::Str),
        Expr::Bool(_) => Some(KindV::Bool),
        Expr::NoneLit => Some(KindV::OptionOf(Box::new(KindV::Unknown))),
        _ => None,
    }
}

/// The form of an expression's kind that its syntax alone fixes: a literal
/// has its literal kind, `not` gives `Bool`, a list or set literal gives a
/// list or set, indexing gives `Result[T, Err]` (or nothing known when the
/// base is not a list), and `loop` never yields.
pub open spec fn kind_form_ok(e: Expr, k: KindV) -> bool {
    &&& (literal_kind(e) matches Some(lk) ==> k == lk)
    &&& (e matches Expr::Unary(op, _) && op == UnaryOp::Not ==> k is Bool)
    &&& (e is ListLit ==> k is ListOf)
    &&& (e is SetLit ==> k is SetOf)
    &&& (e is Index ==> (k matches KindV::ResultOf(_, err) && *err is ErrRoot) || k is Unknown)
    &&& (e is Loop ==> k is Never)
}

/// A binding whose declared type is a builtin scalar and whose initializer
/// is a literal that type does not accept, such as `let s: Str = 1`.
pub open spec fn mistyped_literal_binding(s: crate::ast::Stmt) -> bool {
    s.kind matches StmtKind::Decl(d) && (!d.recv && (d.ty matches Some(t) && (scalar_type_kind(t) matches Some(sk)
        && (d.init matches Some(e) && (literal_kind(*e) matches Some(lk) && !accepts_spec(lk, sk))))))
}

/// An expression the checker rejects whatever surrounds it: a cast of a
/// literal to a scalar type that `as` does not allow, indexing a literal or
/// indexing with a literal that is not an `Int`, `?` on a literal, or a
/// `for` over a literal that is not an `Int`.
pub open spec fn rejected_expr(e: Expr) -> bool {
    match e {
        Expr::Cast(a, t) => literal_kind(*a) matches Some(lk) && (scalar_type_kind(t) matches Some(sk)
            && !accepts_cast_spec(lk, sk)),
        Expr::Index(b, i) => literal_kind(*b) is Some || (literal_kind(*i) matches Some(lk) && lk != KindV::Int),
        Expr::Prop(b, _) => literal_kind(*b) is Some,
        Expr::For(_, it, _) => literal_kind(*it) matches Some(lk) && lk != KindV::Int,
        _ => false,
    }
}

/// A statement the checker rejects whatever surrounds it: a mistyped literal
/// binding, or a binding, assignment or expression statement whose
/// expression is rejected.
pub open spec fn rejected_stmt(s: crate::ast::Stmt) -> bool {
    mistyped_literal_binding(s) || match s.kind {
        StmtKind::Decl(d) => d.init matches Some(e) && rejected_expr(*e),
        StmtKind::Assign(a) => rejected_expr(*a.value),
        StmtKind::Expr(e) => rejected_expr(e),
        _ => false,
    }
}

/// Some statement at the top level of the block is rejected.
pub open spec fn block_has_rejected_stmt(b: Block) -> bool {
    exists|i: int| 0 <= i < b.stmts@.len() && rejected_stmt(#[trigger] b.stmts@[i])
}

/// A function or task whose body holds a rejected statement at its top
/// level.
pub open spec fn item_has_rejected_stmt(it: Item) -> bool {
    match it {
        Item::Func(f) => block_has_rejected_stmt(f.body),
        Item::Task(t) => block_has_rejected_stmt(t.body),
        _ => false,
    }
}

/// A type written as a builtin scalar (`Int`, `Str`, ...).
pub open spec fn scalar_type(t: Type) -> bool {
    scalar_type_kind(t) is Some
}

/// Every parameter has a builtin scalar type.
pub open spec fn scalar_params(ps: Seq<Param>) -> bool {
    forall|k: int| 0 <= k < ps.len() ==> scalar_type(#[trigger] ps[k].ty)
}

/// A signature the checker reads without complaint: scalar parameters and a
/// scalar result, if any.
pub open spec fn scalar_sig(ps: Seq<Param>, ret: Option<Type>) -> bool {
    scalar_params(ps) && (ret matches Some(t) ==> scalar_type(t))
}

/// A statement the checker always accepts: a literal as a statement, or a
/// binding of a literal whose written type, if any, is a builtin scalar that
/// accepts it.
pub open spec fn plain_stmt(s: crate::ast::Stmt) -> bool {
    match s.kind {
        StmtKind::Decl(d) => !d.recv && (d.init matches Some(e) && (literal_kind(*e) matches Some(lk)
            && (d.ty matches Some(t) ==> (scalar_type_kind(t) matches Some(sk) && accepts_spec(lk, sk))))),
        StmtKind::Expr(e) => literal_kind(e) is Some,
        _ => false,
    }
}

/// Every statement of the block is plain.
pub open spec fn plain_block(b: Block) -> bool {
    forall|i: int| 0 <= i < b.stmts@.len() ==> plain_stmt(#[trigger] b.stmts@[i])
}

/// An item the checker always accepts: a function that is not exported,
/// has no contract, a scalar signature and a plain body; a task with a plain
/// body; an extern with a scalar signature; a record that is not a
/// `@cstruct` and has scalar fields; a channel of a scalar.
pub open spec fn plain_item(it: Item) -> bool {
    match it {
        Item::Func(f) => !f.exported && f.contracts@.len() == 0 && scalar_sig(f.params@, f.ret) && plain_block(f.body),
        Item::Task(t) => plain_block(t.body),
        Item::Extern(e) => scalar_sig(e.params@, e.ret),
        Item::Record(r) => !r.cstruct && forall|k: int| 0 <= k < r.fields@.len() ==> scalar_type(#[trigger] r.fields@[k].ty),
        Item::Chan(c) => scalar_type(c.payload),
        Item::Enum(_) => false,
    }
}

/// Every item of the program is plain.
pub open spec fn plain_program(items: Seq<Item>) -> bool {
    forall|i: int| 0 <= i < items.len() ==> plain_item(#[trigger] items[i])
}

/// Some expression of the list is rejected whatever surrounds it.
pub open spec fn some_rejected(es: Seq<Expr>) -> bool {
    exists|j: int| 0 <= j < es.len() && rejected_expr(#[trigger] es[j])
}

/// Every expression of the list is a literal.
pub open spec fn all_literals(es: Seq<Expr>) -> bool {
    forall|j: int| 0 <= j < es.len() ==> (#[trigger] literal_kind(es[j])) is Some
}

/// Some argument that has an expected kind is a literal that kind does not
/// accept.
pub open spec fn literal_mismatch(es: Seq<Expr>, expected: Seq<KindV>) -> bool {
    exists|j: int| 0 <= j < es.len() && j < expected.len() && (#[trigger] literal_kind(es[j]) matches Some(lk)
        && !accepts_spec(lk, expected[j]))
}

/// The expression a contract states.
pub open spec fn contract_expr(c: Contract) -> Expr {
    match c {
        Contract::Pre(e) => e,
        Contract::Post(e) => e,
        Contract::Invariant(e) => e,
    }
}

/// The kind recorded last for field `f` of record `rec`.
pub open spec fn field_entry(fields: Seq<(String, String, Kind)>, rec: Seq<char>, f: Seq<char>) -> Option<KindV>
    decreases fields.len(),
{
    if fields.len() == 0 {
        None
    } else if fields.last().0@ == rec && fields.last().1@ == f {
        Some(fields.last().2@)
    } else {
        field_entry(fields.drop_last(), rec, f)
    }
}

/// Two checker states declare the same types, constructors, enums,
/// channels and functions.
spec fn registry_same(a: TypeChecker, b: TypeChecker) -> bool {
    &&& a.decls@ == b.decls@
    &&& a.record_ctors@ == b.record_ctors@
    &&& a.enum_variants@ == b.enum_variants@
    &&& a.chans@ == b.chans@
    &&& a.funcs@ == b.funcs@
}

/// What reading the declarations registers for an item: a record's type and
/// constructor, an enum's type and variants, a channel.
spec fn item_registered(tc: TypeChecker, it: Item) -> bool {
    match it {
        Item::Record(r) => tc.decls@.dom().contains(r.name@) && tc.record_ctors@.dom().contains(r.name@),
        Item::Enum(e) => tc.decls@.dom().contains(e.name@) && tc.enum_variants@.dom().contains(e.name@),
        Item::Chan(c) => tc.chans@.dom().contains(c.name@),
        _ => true,
    }
}

/// What reading the signatures registers for an item: a function's or an
/// extern's signature, a channel.
spec fn sig_registered(tc: TypeChecker, it: Item) -> bool {
    match it {
        Item::Func(f) => tc.funcs@.dom().contains(f.name@),
        Item::Extern(e) => tc.funcs@.dom().contains(e.name@),
        Item::Chan(c) => tc.chans@.dom().contains(c.name@),
        _ => true,
    }
}

/// What a call of the named function `n` with `nargs` arguments gives, in
/// the checker state `st` before the call: the builtins' result forms, an
/// error record, an enum variant, a record constructor or a declared
/// function (a wrong number of arguments is reported), and an unknown name,
/// which is reported and gives nothing known.
/// A method that takes no arguments.
pub open spec fn is_nullary_method(m: Seq<char>) -> bool {
    m == "len"@ || m == "abs"@ || m == "to_str"@ || m == "to_upper"@ || m == "to_lower"@ || m == "is_empty"@
        || m == "keys"@ || m == "values"@
}

/// The kind a method call has on a receiver of kind `rk`: the method's
/// result, or `Unknown` where the receiver has no such method.
pub open spec fn method_result(rk: KindV, m: Seq<char>) -> KindV {
    match method_spec(rk, m) {
        Some(t) => t,
        None => KindV::Unknown,
    }
}

/// The kind that an expression has before anything is checked: a literal's
/// kind, or the kind a name is bound to in `env`.
pub open spec fn known_kind(e: Expr, env: Map<Seq<char>, KindV>) -> Option<KindV> {
    match literal_kind(e) {
        Some(k) => Some(k),
        None => match e {
            Expr::Name(n) => if env.dom().contains(n@) {
                Some(env[n@])
            } else {
                None
            },
            _ => None,
        },
    }
}

/// What reading field `f` of a value of kind `bk` gives: a record's declared
/// field, a result's `value` payload; an error where there is no such field.
spec fn field_outcome(fields: Seq<(String, String, Kind)>, bk: KindV, f: Seq<char>, k: KindV, grew: bool) -> bool {
    match bk {
        KindV::Record(rec) => match field_entry(fields, rec, f) {
            Some(kv) => k == kv,
            None => k == KindV::Unknown && grew,
        },
        KindV::ResultOf(t, _) => if f == "value"@ {
            k == *t
        } else if f == "err"@ {
            k == KindV::Unknown
        } else {
            k == KindV::Unknown && grew
        },
        KindV::Enum(_) => k == KindV::Unknown,
        _ => k == KindV::Unknown && grew,
    }
}

/// Every entry's literal kind is the same as the first's.
pub open spec fn same_literal_kinds(es: Seq<Expr>) -> bool {
    forall|j: int| 0 <= j < es.len() ==> literal_kind(#[trigger] es[j]) == literal_kind(es[0])
}

/// Some literal entry has a literal kind other than the first entry's.
pub open spec fn literal_kinds_differ(es: Seq<Expr>) -> bool {
    exists|j: int| 1 <= j < es.len() && (literal_kind(#[trigger] es[j]) matches Some(a) && (literal_kind(es[0])
        matches Some(b) && a != b))
}

/// Some arm after the first yields a literal whose kind differs from the
/// first arm's literal.
pub open spec fn arm_literals_differ(arms: Seq<(Pattern, Box<Expr>)>) -> bool {
    exists|j: int| 1 <= j < arms.len() && (literal_kind(*(#[trigger] arms[j]).1) matches Some(a) && (literal_kind(
        *arms[0].1,
    ) matches Some(b) && a != b))
}

/// An `if` whose condition, branch conditions or blocks hold something the
/// checker rejects whatever surrounds it.
pub open spec fn if_has_rejected(ifx: crate::ast::IfExpr) -> bool {
    ||| rejected_expr(*ifx.cond)
    ||| block_has_rejected_stmt(ifx.then_block)
    ||| (exists|j: int| 0 <= j < ifx.elif@.len() && (rejected_expr(*(#[trigger] ifx.elif@[j]).0)
        || block_has_rejected_stmt(ifx.elif@[j].1)))
    ||| (ifx.else_block matches Some(b) && block_has_rejected_stmt(b))
}

/// Checking a call of method `m` on a value of kind `rk` added the error
/// saying there is no such method.
pub open spec fn method_refused(before: Seq<TypeError>, after: Seq<TypeError>, m: Seq<char>, rk: KindV) -> bool {
    exists|j: int| before.len() <= j < after.len() && (#[trigger] after[j]).message@ == "no method '"@ + m + "' on "@
        + crate::kind::kind_text(rk)
}

/// Checking `?` on a result whose error is `err`, inside a function whose
/// error channel is `ch`, added the error refusing it.
pub open spec fn propagation_refused(before: Seq<TypeError>, after: Seq<TypeError>, err: KindV, ch: KindV) -> bool {
    exists|k: int| before.len() <= k < after.len() && (#[trigger] after[k]).message@ == "cannot propagate "@
        + crate::kind::kind_text(err) + " via '?': the enclosing function's error channel is "@
        + crate::kind::kind_text(ch)
}

/// Checking a cast from `from` to `to` added the error refusing it.
pub open spec fn cast_refused(before: Seq<TypeError>, after: Seq<TypeError>, from: KindV, to: KindV) -> bool {
    exists|k: int| before.len() <= k < after.len() && (#[trigger] after[k]).message@ == "cannot cast "@
        + crate::kind::kind_text(from) + " to "@ + crate::kind::kind_text(to)
        + " (allowed: Int<->usize, Int->Float, Float->Int, Str<->Bytes)"@
}

/// The name a statement assigns a literal to, if it is such an assignment.
pub open spec fn assigns_literal_to(st: Stmt) -> Option<Seq<char>> {
    match st.kind {
        StmtKind::Assign(a) => match a.target {
            AssignTarget::Name(n) => if literal_kind(*a.value) is Some {
                Some(n@)
            } else {
                None
            },
            _ => None,
        },
        _ => None,
    }
}

/// Whether the parameter list's last parameter named `n` is `mut`, if
/// there is one.
pub open spec fn param_is_mut(ps: Seq<Param>, n: Seq<char>) -> Option<bool>
    decreases ps.len(),
{
    if ps.len() == 0 {
        None
    } else if ps.last().name@ == n {
        Some(ps.last().mutable)
    } else {
        param_is_mut(ps.drop_last(), n)
    }
}

/// A function without contracts whose body starts by assigning a literal
/// to one of its parameters that is not `mut`.
pub open spec fn immutable_param_assign(it: Item) -> bool {
    it matches Item::Func(f) && f.contracts@.len() == 0 && f.body.stmts@.len() > 0 && (assigns_literal_to(
        f.body.stmts@[0],
    ) matches Some(n) && param_is_mut(f.params@, n) == Some(false))
}

/// A block that starts by binding a name with `let` and then assigns a
/// literal to it.
pub open spec fn let_then_assign(ss: Seq<Stmt>) -> bool {
    ss.len() >= 2 && (ss[0].kind matches StmtKind::Decl(d) && !d.recv && !d.mutable && assigns_literal_to(ss[1]) == Some(
        d.name@,
    ))
}

/// The name such a block binds.
pub open spec fn let_name(ss: Seq<Stmt>) -> Seq<char> {
    match ss[0].kind {
        StmtKind::Decl(d) => d.name@,
        _ => Seq::empty(),
    }
}

/// A function or task whose body starts with such a binding and
/// assignment.
pub open spec fn immutable_local_assign(it: Item) -> bool {
    match it {
        Item::Func(f) => let_then_assign(f.body.stmts@),
        Item::Task(t) => let_then_assign(t.body.stmts@),
        _ => false,
    }
}

/// The name such a body binds.
pub open spec fn local_assigned(it: Item) -> Seq<char> {
    match it {
        Item::Func(f) => let_name(f.body.stmts@),
        Item::Task(t) => let_name(t.body.stmts@),
        _ => Seq::empty(),
    }
}

/// A block that starts by binding a name with a scalar declared type and
/// then binds another name to a cast of the first that `as` does not allow.
pub open spec fn let_then_bad_cast(ss: Seq<Stmt>) -> bool {
    ss.len() >= 2 && (ss[0].kind matches StmtKind::Decl(d0) && !d0.recv && (d0.ty matches Some(t0) && (scalar_type_kind(
        t0,
    ) matches Some(k0) && (ss[1].kind matches StmtKind::Decl(d1) && !d1.recv && (d1.init matches Some(e) && (*e matches Expr::Cast(
        a,
        t1,
    ) && (*a matches Expr::Name(n) && n@ == d0.name@) && (scalar_type_kind(t1) matches Some(k1) && !accepts_cast_spec(
        k0,
        k1,
    ))))))))
}

/// The kinds of such a refused cast: from the first binding's type to the
/// cast's target.
pub open spec fn bad_cast_kinds(ss: Seq<Stmt>) -> (KindV, KindV) {
    let k0 = match ss[0].kind {
        StmtKind::Decl(d0) => match d0.ty {
            Some(t0) => scalar_type_kind(t0)->0,
            None => KindV::Unknown,
        },
        _ => KindV::Unknown,
    };
    let k1 = match ss[1].kind {
        StmtKind::Decl(d1) => match d1.init {
            Some(e) => match *e {
                Expr::Cast(_, t1) => scalar_type_kind(t1)->0,
                _ => KindV::Unknown,
            },
            None => KindV::Unknown,
        },
        _ => KindV::Unknown,
    };
    (k0, k1)
}

/// A function or task whose body starts with such a pair.
pub open spec fn refused_cast_body(it: Item) -> bool {
    match it {
        Item::Func(f) => let_then_bad_cast(f.body.stmts@),
        Item::Task(t) => let_then_bad_cast(t.body.stmts@),
        _ => false,
    }
}

/// The kinds of the refused cast such a body starts with.
pub open spec fn body_cast_kinds(it: Item) -> (KindV, KindV) {
    match it {
        Item::Func(f) => bad_cast_kinds(f.body.stmts@),
        Item::Task(t) => bad_cast_kinds(t.body.stmts@),
        _ => (KindV::Unknown, KindV::Unknown),
    }
}

proof fn lemma_cast_grows(before: Seq<TypeError>, a: Seq<TypeError>, b: Seq<TypeError>, from: KindV, to: KindV)
    requires
        cast_refused(before, a, from, to),
        a.is_prefix_of(b),
    ensures
        cast_refused(before, b, from, to),
{
    let k = choose|k: int| before.len() <= k < a.len() && (#[trigger] a[k]).message@ == "cannot cast "@
        + crate::kind::kind_text(from) + " to "@ + crate::kind::kind_text(to)
        + " (allowed: Int<->usize, Int->Float, Float->Int, Str<->Bytes)"@;
    assert(b[k] == a[k]);
}

/// The name a function's first statement assigns a literal to.
pub open spec fn first_assigned(it: Item) -> Seq<char> {
    match it {
        Item::Func(f) => assigns_literal_to(f.body.stmts@[0])->0,
        _ => Seq::empty(),
    }
}

/// A report stays in an error list that only grows.
proof fn lemma_reported_grows(before: Seq<TypeError>, a: Seq<TypeError>, b: Seq<TypeError>, n: Seq<char>)
    requires
        immutable_assign_reported(before, a, n),
        a.is_prefix_of(b),
    ensures
        immutable_assign_reported(before, b, n),
{
    let k = choose|k: int| before.len() <= k < a.len() && (#[trigger] a[k]).message@ == "cannot assign to immutable binding '"@
        + n + "' (declare it with `mut`)"@;
    assert(b[k] == a[k]);
}

/// Checking an assignment to the immutable binding `n` added an error
/// saying so.
pub open spec fn immutable_assign_reported(before: Seq<TypeError>, after: Seq<TypeError>, n: Seq<char>) -> bool {
    exists|k: int| before.len() <= k < after.len() && (#[trigger] after[k]).message@ == "cannot assign to immutable binding '"@
        + n + "' (declare it with `mut`)"@
}

/// The bindings after binding type variable `ti` to `k`, the list grown
/// with unbound entries to reach it.
pub open spec fn bind_var(b: Seq<Option<KindV>>, ti: int, k: KindV) -> Seq<Option<KindV>> {
    let ext = if b.len() <= ti {
        b + Seq::new((ti + 1 - b.len()) as nat, |_j: int| None::<KindV>)
    } else {
        b
    };
    ext.update(ti, Some(k))
}

/// What a call's first `n` arguments bind: where parameter `i` is a type
/// variable, it is bound to argument `i`'s kind, a later argument
/// overriding an earlier one.
pub open spec fn inferred(params: Seq<KindV>, aks: Seq<KindV>, n: int) -> Seq<Option<KindV>>
    decreases n,
{
    if n <= 0 {
        Seq::empty()
    } else {
        let b = inferred(params, aks, n - 1);
        if n - 1 < params.len() && params[n - 1] is TypeVar {
            bind_var(b, params[n - 1]->TypeVar_0 as int, aks[n - 1])
        } else {
            b
        }
    }
}

proof fn lemma_inferred_prefix(params: Seq<KindV>, a: Seq<KindV>, b: Seq<KindV>, n: int)
    requires
        0 <= n <= a.len(),
        n <= b.len(),
        forall|j: int| 0 <= j < n ==> a[j] == b[j],
    ensures
        inferred(params, a, n) == inferred(params, b, n),
    decreases n,
{
    if n > 0 {
        lemma_inferred_prefix(params, a, b, n - 1);
    }
}

spec fn named_call_result(n: Seq<char>, args: Seq<Expr>, st: TypeChecker, k: KindV, grew: bool) -> bool {
    let nargs = args.len();
    if n == "print"@ {
        k == KindV::Unit
    } else if n == "ok"@ {
        if nargs == 0 {
            k == KindV::ResultOf(Box::new(KindV::Unit), Box::new(KindV::Unknown))
        } else {
            k matches KindV::ResultOf(_, er) && *er is Unknown
        }
    } else if n == "err"@ {
        k matches KindV::ResultOf(ok, _) && *ok is Unknown
    } else if n == "some"@ {
        k is OptionOf
    } else if n == "sqrt"@ {
        k == KindV::ResultOf(Box::new(KindV::Float), Box::new(KindV::ErrRoot))
    } else if is_error_name(n) {
        k is ErrRoot
    } else if st.variants@.dom().contains(n) {
        k matches KindV::Enum(en) && en == st.variants@[n].owner@ && (nargs != st.variants@[n].fields@.len() ==> grew)
    } else if st.record_ctors@.dom().contains(n) {
        k == KindV::Record(n) && (nargs != st.record_ctors@[n]@.len() ==> grew)
    } else if st.funcs@.dom().contains(n) {
        &&& nargs != st.funcs@[n].params@.len() ==> grew
        &&& st.funcs@[n].ret is None ==> k == KindV::Unit
        &&& (st.funcs@[n].ret matches Some(rt) ==> all_literals(args) ==> k == subst_spec(
            rt@,
            inferred(st.funcs@[n].params@.map_values(|p: Kind| p@), args.map_values(|a: Expr| literal_kind(a)->0), nargs as int),
        ))
    } else {
        k == KindV::Unknown && grew
    }
}

/// Type-checks a program. Declaration-level errors (unknown map keys in
/// signatures, `@cstruct` and `@export` violations) stop the check before
/// any body is looked at; otherwise every body is checked.
pub fn typecheck(program: &Program) -> (r: Result<(), Vec<TypeError>>)
    ensures
        r matches Err(v) ==> v.len() > 0,
        (exists|i: int| 0 <= i < program.items@.len() && bad_export(#[trigger] program.items@[i])) ==> r is Err,
        (exists|i: int| 0 <= i < program.items@.len() && bad_cstruct(#[trigger] program.items@[i])) ==> r is Err,
        (exists|i: int| 0 <= i < program.items@.len() && item_has_rejected_stmt(#[trigger] program.items@[i]))
            ==> r is Err,
        plain_program(program.items@) ==> r is Ok,
        (exists|i: int| 0 <= i < program.items@.len() && immutable_param_assign(#[trigger] program.items@[i])) ==> r is Err,
        (exists|i: int| 0 <= i < program.items@.len() && immutable_local_assign(#[trigger] program.items@[i])) ==> r is Err,
        (exists|i: int| 0 <= i < program.items@.len() && refused_cast_body(#[trigger] program.items@[i])) ==> r is Err,
{
    let mut tc = TypeChecker {
        decls: NameMap::new(),
        fields: Vec::new(),
        variants: NameMap::new(),
        enum_variants: NameMap::new(),
        funcs: NameMap::new(),
        record_ctors: NameMap::new(),
        chans: NameMap::new(),
        cur_tparams: Vec::new(),
        cur_constraints: Vec::new(),
        cur_error_channel: None,
        cur_span: Span::nowhere(&String::new()),
        errors: Vec::new(),
    };
    tc.build_world(program);
    let ghost n0 = tc.errors@.len();
    tc.check_cstructs(program);
    let ghost n1 = tc.errors@.len();
    tc.check_exports(program);
    tc.collect_sigs(program);
    tc.predeclare_stdlib();
    if tc.errors.len() > 0 {
        return Err(tc.errors);
    }
    let ghost pre = tc.errors@;
    tc.check_bodies(program);
    proof {
        if exists|i: int| 0 <= i < program.items@.len() && immutable_param_assign(#[trigger] program.items@[i]) {
            let i = choose|i: int| 0 <= i < program.items@.len() && immutable_param_assign(#[trigger] program.items@[i]);
            assert(immutable_assign_reported(pre, tc.errors@, first_assigned(program.items@[i])));
        }
        if exists|i: int| 0 <= i < program.items@.len() && immutable_local_assign(#[trigger] program.items@[i]) {
            let i = choose|i: int| 0 <= i < program.items@.len() && immutable_local_assign(#[trigger] program.items@[i]);
            assert(immutable_assign_reported(pre, tc.errors@, local_assigned(program.items@[i])));
        }
        if exists|i: int| 0 <= i < program.items@.len() && refused_cast_body(#[trigger] program.items@[i]) {
            let i = choose|i: int| 0 <= i < program.items@.len() && refused_cast_body(#[trigger] program.items@[i]);
            assert(cast_refused(pre, tc.errors@, body_cast_kinds(program.items@[i]).0, body_cast_kinds(program.items@[i]).1));
        }
    }
    if tc.errors.len() > 0 {
        return Err(tc.errors);
    }
    Ok(())
}

/// Whether `name` is a stdlib error record (`IoError`, ..., `Err`).
pub fn is_error_record(name: &str) -> (r: bool)
    ensures
        r == is_error_name(name@),
{
    let errs = crate::resolve::stdlib_error_types();
    let mut i: usize = 0;
    while i < errs.len()
        invariant
            i <= errs.len(),
            errs@.len() == error_type_names().len(),
            forall|k: int| 0 <= k < errs@.len() ==> #[trigger] errs@[k]@ == error_type_names()[k],
            forall|k: int| 0 <= k < i ==> error_type_names()[k] != name@,
        decreases errs.len() - i,
    {
        if str_eq(errs[i].as_str(), name) {
            proof {
                assert(error_type_names()[i as int] == name@);
            }
            return true;
        }
        i += 1;
    }
    false
}

/// Error record constructors are the error records themselves.
pub fn is_error_ctor(name: &str) -> (r: bool)
    ensures
        r == is_error_name(name@),
{
    is_error_record(name)
}

/// Whether a type is `Unit` (C-representable only as a return).
pub fn is_unit_type(ty: &Type) -> (r: bool)
    ensures
        r == match *ty {
            Type::Named(n, args) => n@ == "Unit"@ && args.len() == 0,
            Type::NamedPlain(n) => n@ == "Unit"@,
            Type::Union(_) => false,
        },
{
    match ty {
        Type::Named(name, args) => str_eq(name.as_str(), "Unit") && args.len() == 0,
        Type::NamedPlain(name) => str_eq(name.as_str(), "Unit"),
        Type::Union(_) => false,
    }
}

/// The scalar types C can hold directly.
pub open spec fn is_c_scalar(n: Seq<char>) -> bool {
    n == "Bool"@ || n == "Int"@ || n == "usize"@ || n == "Float"@ || n == "Char"@ || n == "Str"@
        || n == "Bytes"@ || n == "Ptr"@
}

/// The builtin type constructors that have no C layout.
pub open spec fn is_non_c_builtin(n: Seq<char>) -> bool {
    n == "Unit"@ || n == "Option"@ || n == "Result"@ || n == "List"@ || n == "Map"@ || n == "Set"@
        || n == "Chan"@
}

fn is_c_scalar_name(n: &str) -> (r: bool)
    ensures
        r == is_c_scalar(n@),
{
    str_eq(n, "Bool") || str_eq(n, "Int") || str_eq(n, "usize") || str_eq(n, "Float") || str_eq(n, "Char")
        || str_eq(n, "Str") || str_eq(n, "Bytes") || str_eq(n, "Ptr")
}

fn is_non_c_builtin_name(n: &str) -> (r: bool)
    ensures
        r == is_non_c_builtin(n@),
{
    str_eq(n, "Unit") || str_eq(n, "Option") || str_eq(n, "Result") || str_eq(n, "List") || str_eq(n, "Map")
        || str_eq(n, "Set") || str_eq(n, "Chan")
}

/// Item `it` declares a record named `n`.
pub open spec fn declares_record(it: Item, n: Seq<char>) -> bool {
    it matches Item::Record(r) && r.name@ == n
}

/// The last record declared under `name`, if any.
fn find_record<'a>(program: &'a Program, name: &str) -> (r: Option<&'a RecordDecl>)
    ensures
        r matches Some(rec) ==> rec.name@ == name@,
        r is Some <==> exists|i: int| 0 <= i < program.items@.len() && declares_record(#[trigger] program.items@[i], name@),
        r matches Some(rec) ==> exists|i: int| 0 <= i < program.items@.len() && #[trigger] program.items@[i] == Item::Record(*rec)
            && forall|j: int| i < j < program.items@.len() ==> !declares_record(#[trigger] program.items@[j], name@),
{
    let mut found: Option<&RecordDecl> = None;
    let ghost mut at: int = 0;
    let mut i: usize = 0;
    while i < program.items.len()
        invariant
            i <= program.items.len(),
            found matches Some(rec) ==> rec.name@ == name@,
            found is Some <==> exists|k: int| 0 <= k < i && declares_record(#[trigger] program.items@[k], name@),
            found matches Some(rec) ==> 0 <= at < i && program.items@[at] == Item::Record(*rec)
                && forall|j: int| at < j < i ==> !declares_record(#[trigger] program.items@[j], name@),
            found is None ==> forall|j: int| 0 <= j < i ==> !declares_record(#[trigger] program.items@[j], name@),
        decreases program.items.len() - i,
    {
        match &program.items[i] {
            Item::Record(r) => {
                if str_eq(r.name.as_str(), name) {
                    found = Some(r);
                    proof {
                        at = i as int;
                    }
                }
            }
            _ => {}
        }
        i += 1;
    }
    proof {
        if found is Some {
            assert(program.items@[at] == Item::Record(*found->0));
        }
    }
    found
}

/// The names of the records (only the `@cstruct` ones when `cstruct_only`)
/// and, when `enums` is set, of the enums among `items`.
pub open spec fn decl_names(items: Seq<Item>, enums: bool, cstruct_only: bool) -> Set<Seq<char>>
    decreases items.len(),
{
    if items.len() == 0 {
        Set::empty()
    } else {
        let rest = decl_names(items.drop_last(), enums, cstruct_only);
        match items.last() {
            Item::Record(r) => if !enums && (!cstruct_only || r.cstruct) {
                rest.insert(r.name@)
            } else {
                rest
            },
            Item::Enum(e) => if enums {
                rest.insert(e.name@)
            } else {
                rest
            },
            _ => rest,
        }
    }
}

/// The `@cstruct` records, the records, and the enums of a program.
fn c_world(program: &Program) -> (r: (NameSet, NameSet, NameSet))
    ensures
        r.0@.finite(),
        r.0@ == decl_names(program.items@, false, true),
        r.1@ == decl_names(program.items@, false, false),
        r.2@ == decl_names(program.items@, true, false),
{
    let ghost items = program.items@;
    let mut cstruct = NameSet::new();
    let mut records = NameSet::new();
    let mut enums = NameSet::new();
    let mut i: usize = 0;
    while i < program.items.len()
        invariant
            i <= program.items.len(),
            items == program.items@,
            cstruct@ == decl_names(items.take(i as int), false, true),
            records@ == decl_names(items.take(i as int), false, false),
            enums@ == decl_names(items.take(i as int), true, false),
        decreases program.items.len() - i,
    {
        proof {
            assert(items.take(i + 1).drop_last() == items.take(i as int));
            assert(items.take(i + 1).last() == items[i as int]);
        }
        match &program.items[i] {
            Item::Record(r) => {
                let _ = records.insert(r.name.clone());
                if r.cstruct {
                    let _ = cstruct.insert(r.name.clone());
                }
            }
            Item::Enum(e) => {
                let _ = enums.insert(e.name.clone());
            }
            _ => {}
        }
        i += 1;
    }
    proof {
        cstruct.lemma_finite();
        assert(items.take(items.len() as int) == items);
    }
    (cstruct, records, enums)
}

/// Whether a field, parameter or return type is representable in C. The
/// scalars are; a `@cstruct` record is when its fields are, unless it nests
/// itself by value (`visiting` holds the records being descended); every
/// other type is not, and the error says why.
pub fn cstruct_field_ok(
    ty: &Type,
    cstruct: &NameSet,
    records: &NameSet,
    enums: &NameSet,
    program: &Program,
    visiting: &mut NameSet,
) -> (r: Result<(), String>)
    requires
        cstruct@.finite(),
    ensures
        r is Ok ==> final(visiting)@ == old(visiting)@,
        old(visiting)@.subset_of(final(visiting)@),
        final(visiting)@.subset_of(old(visiting)@.union(cstruct@)),
        match *ty {
            Type::Named(n, args) => if is_non_c_builtin(n@) {
                (r matches Err(m) && m@ == cstruct_msg_not_c(n@))
            } else if args.len() > 0 {
                r is Err
            } else {
                named_ok_spec(n@, cstruct@, records@, enums@, old(visiting)@, r)
            },
            Type::NamedPlain(n) => named_ok_spec(n@, cstruct@, records@, enums@, old(visiting)@, r),
            Type::Union(_) => r is Err,
        },
    decreases cstruct@.difference(old(visiting)@).len(), 1nat,
{
    match ty {
        Type::Named(name, args) => {
            if is_non_c_builtin_name(name.as_str()) {
                return Err(concat3("type '", name.as_str(), "' is not a C type"));
            }
            if args.len() > 0 {
                return Err(concat3("'", name.as_str(), "' has type arguments; @cstruct fields must be concrete"));
            }
            cstruct_named_ok(name.as_str(), cstruct, records, enums, program, visiting)
        }
        Type::NamedPlain(name) => cstruct_named_ok(name.as_str(), cstruct, records, enums, program, visiting),
        Type::Union(_) => Err("an error union is not a C type".to_string()),
    }
}

pub open spec fn cstruct_msg_not_c(n: Seq<char>) -> Seq<char> {
    "type '"@ + n + "' is not a C type"@
}

/// What `cstruct_named_ok` answers: scalars are fine; a `@cstruct` record
/// already being descended is a cycle; a plain record, an enum, or an
/// unknown name is not C-representable, each with its own message. (For a
/// `@cstruct` record not yet descended, the answer depends on its fields.)
pub open spec fn named_ok_spec(
    n: Seq<char>,
    cstruct: Set<Seq<char>>,
    records: Set<Seq<char>>,
    enums: Set<Seq<char>>,
    visiting: Set<Seq<char>>,
    r: Result<(), String>,
) -> bool {
    if is_c_scalar(n) {
        r is Ok
    } else if cstruct.contains(n) {
        visiting.contains(n) ==> (r matches Err(m) && m@ == "'"@ + n
            + "' nests itself by value; a @cstruct cycle has infinite size"@)
    } else if records.contains(n) {
        r matches Err(m) && m@ == "type '"@ + n + "' is a plain record; declare it @cstruct"@
    } else if enums.contains(n) {
        r matches Err(m) && m@ == "type '"@ + n + "' is an enum; enums are not C-representable"@
    } else {
        r matches Err(m) && m@ == "type '"@ + n + "' is not C-representable"@
    }
}

pub fn cstruct_named_ok(
    name: &str,
    cstruct: &NameSet,
    records: &NameSet,
    enums: &NameSet,
    program: &Program,
    visiting: &mut NameSet,
) -> (r: Result<(), String>)
    requires
        cstruct@.finite(),
    ensures
        r is Ok ==> final(visiting)@ == old(visiting)@,
        old(visiting)@.subset_of(final(visiting)@),
        final(visiting)@.subset_of(old(visiting)@.union(cstruct@)),
        named_ok_spec(name@, cstruct@, records@, enums@, old(visiting)@, r),
    decreases cstruct@.difference(old(visiting)@).len(), 0nat,
{
    if is_c_scalar_name(name) {
        return Ok(());
    }
    if cstruct.contains(name) {
        let ghost before = visiting@;
        if !visiting.insert(name.to_string()) {
            return Err(concat3("'", name, "' nests itself by value; a @cstruct cycle has infinite size"));
        }
        proof {
            assert(cstruct@.difference(visiting@) =~= cstruct@.difference(before).remove(name@));
            assert(cstruct@.difference(before).contains(name@));
        }
        match find_record(program, name) {
            Some(rec) => {
                let mut i: usize = 0;
                while i < rec.fields.len()
                    invariant
                        i <= rec.fields.len(),
                        cstruct@.finite(),
                        visiting@ == before.insert(name@),
                        before == old(visiting)@,
                        cstruct@.contains(name@),
                        !before.contains(name@),
                        !is_c_scalar(name@),
                        cstruct@.difference(visiting@).len() < cstruct@.difference(before).len(),
                        before.subset_of(visiting@),
                        visiting@.subset_of(before.union(cstruct@)),
                    decreases rec.fields.len() - i,
                {
                    match cstruct_field_ok(&rec.fields[i].ty, cstruct, records, enums, program, visiting) {
                        Ok(()) => {}
                        Err(e) => {
                            let mut m = concat3("nested field '", rec.fields[i].name.as_str(), "': ");
                            push_str(&mut m, e.as_str());
                            return Err(m);
                        }
                    }
                    i += 1;
                }
            }
            None => {}
        }
        visiting.remove(name);
        proof {
            assert(visiting@ =~= before);
        }
        return Ok(());
    }
    if records.contains(name) {
        return Err(concat3("type '", name, "' is a plain record; declare it @cstruct"));
    }
    if enums.contains(name) {
        return Err(concat3("type '", name, "' is an enum; enums are not C-representable"));
    }
    Err(concat3("type '", name, "' is not C-representable"))
}

impl TypeChecker {
    fn error(&mut self, message: String)
        ensures
            final(self).cur_error_channel == old(self).cur_error_channel,
            final(self).errors@.len() == old(self).errors@.len() + 1,
            final(self).errors@.drop_last() == old(self).errors@,
            final(self).errors@.last().message == message,
            final(self).cur_span == old(self).cur_span,
            final(self).fields@ == old(self).fields@,
            registry_same(*old(self), *final(self)),
    {
        let span = self.cur_span.clone();
        self.errors.push(TypeError { message: message, span: span });
    }

    fn error_at(&mut self, message: String, span: Span)
        ensures
            final(self).errors@.len() == old(self).errors@.len() + 1,
            final(self).errors@.drop_last() == old(self).errors@,
            registry_same(*old(self), *final(self)),
    {
        self.errors.push(TypeError { message: message, span: span });
    }

    fn build_world(&mut self, program: &Program)
        ensures
            old(self).errors@.is_prefix_of(final(self).errors@),
            plain_program(program.items@) ==> final(self).errors@ == old(self).errors@,
            forall|j: int| 0 <= j < program.items@.len() ==> item_registered(*final(self), #[trigger] program.items@[j]),
    {
        let mut i: usize = 0;
        while i < program.items.len()
            invariant
                i <= program.items.len(),
                old(self).errors@.is_prefix_of(self.errors@),
                plain_program(program.items@) ==> self.errors@ == old(self).errors@,
                forall|j: int| 0 <= j < i ==> item_registered(*self, #[trigger] program.items@[j]),
            decreases program.items.len() - i,
        {
            proof {
                if plain_program(program.items@) {
                    assert(plain_item(program.items@[i as int]));
                }
            }
            let ghost st = *self;
            match &program.items[i] {
                Item::Record(rec) => {
                    let name = rec.name.clone();
                    self.decls.insert(name.clone(), Kind::Record(name.clone()));
                    let mut ctors: Vec<Kind> = Vec::new();
                    let ghost before = self.errors@;
                    let ghost reg = *self;
                    let ghost scalar = forall|k: int| 0 <= k < rec.fields@.len() ==> scalar_type(#[trigger] rec.fields@[k].ty);
                    let mut j: usize = 0;
                    while j < rec.fields.len()
                        invariant
                            j <= rec.fields.len(),
                            old(self).errors@.is_prefix_of(self.errors@),
                            before.len() >= old(self).errors@.len(),
                            scalar == forall|k: int| 0 <= k < rec.fields@.len() ==> scalar_type(#[trigger] rec.fields@[k].ty),
                            scalar ==> self.errors@ == before,
                            registry_same(reg, *self),
                        decreases rec.fields.len() - j,
                    {
                        self.cur_span = rec.fields[j].span.clone();
                        let ft = self.from_ast(&rec.fields[j].ty);
                        self.fields.push((name.clone(), rec.fields[j].name.clone(), ft.clone()));
                        ctors.push(ft);
                        j += 1;
                    }
                    self.record_ctors.insert(name, ctors);
                }
                Item::Enum(en) => {
                    let name = en.name.clone();
                    self.decls.insert(name.clone(), Kind::Enum(name.clone()));
                    let mut vnames: Vec<String> = Vec::new();
                    let ghost reg = *self;
                    let mut j: usize = 0;
                    while j < en.variants.len()
                        invariant
                            j <= en.variants.len(),
                            old(self).errors@.is_prefix_of(self.errors@),
                            registry_same(reg, *self),
                        decreases en.variants.len() - j,
                    {
                        let v = &en.variants[j];
                        self.cur_span = v.span.clone();
                        let mut ft: Vec<Kind> = Vec::new();
                        let mut k: usize = 0;
                        while k < v.fields.len()
                            invariant
                                k <= v.fields.len(),
                                old(self).errors@.is_prefix_of(self.errors@),
                                registry_same(reg, *self),
                            decreases v.fields.len() - k,
                        {
                            let fk = self.from_ast(&v.fields[k].ty);
                            ft.push(fk);
                            k += 1;
                        }
                        self.variants.insert(v.name.clone(), VariantInfo { owner: name.clone(), fields: ft });
                        vnames.push(v.name.clone());
                        j += 1;
                    }
                    self.enum_variants.insert(name, vnames);
                }
                Item::Chan(c) => {
                    self.cur_span = c.span.clone();
                    let payload = self.from_ast(&c.payload);
                    self.chans.insert(c.name.clone(), payload);
                }
                _ => {}
            }
            proof {
                assert(st.decls@.dom().subset_of(self.decls@.dom()));
                assert(st.record_ctors@.dom().subset_of(self.record_ctors@.dom()));
                assert(st.enum_variants@.dom().subset_of(self.enum_variants@.dom()));
                assert(st.chans@.dom().subset_of(self.chans@.dom()));
                assert forall|j: int| 0 <= j < i + 1 implies item_registered(*self, #[trigger] program.items@[j]) by {
                    if j < i {
                        assert(item_registered(st, program.items@[j]));
                    }
                }
            }
            i += 1;
        }
    }

    /// A `@cstruct` record promises the C struct layout, so each field must
    /// be C-representable; each violation is reported on its field.
    fn check_cstructs(&mut self, program: &Program)
        ensures
            old(self).errors@.is_prefix_of(final(self).errors@),
            (exists|i: int| 0 <= i < program.items@.len() && bad_cstruct(#[trigger] program.items@[i]))
                ==> final(self).errors@.len() > old(self).errors@.len(),
            plain_program(program.items@) ==> final(self).errors@ == old(self).errors@,
    {
        let (cstruct, records, enums) = c_world(program);
        let mut i: usize = 0;
        while i < program.items.len()
            invariant
                i <= program.items.len(),
                cstruct@.finite(),
                old(self).errors@.is_prefix_of(self.errors@),
                (exists|j: int| 0 <= j < i && bad_cstruct(#[trigger] program.items@[j]))
                    ==> self.errors@.len() > old(self).errors@.len(),
                plain_program(program.items@) ==> self.errors@ == old(self).errors@,
            decreases program.items.len() - i,
        {
            proof {
                if plain_program(program.items@) {
                    assert(plain_item(program.items@[i as int]));
                }
            }
            let ghost before = self.errors@.len();
            let ghost before_v = self.errors@;
            match &program.items[i] {
                Item::Record(r) => {
                    if r.cstruct {
                        let mut visiting = NameSet::new();
                        let _ = visiting.insert(r.name.clone());
                        let mut j: usize = 0;
                        while j < r.fields.len()
                            invariant
                                j <= r.fields.len(),
                                cstruct@.finite(),
                                self.errors@.len() >= before,
                                before >= old(self).errors@.len(),
                                before == before_v.len(),
                                before_v.is_prefix_of(self.errors@),
                                old(self).errors@.is_prefix_of(before_v),
                                (exists|q: int| 0 <= q < j && never_c(#[trigger] r.fields@[q].ty))
                                    ==> self.errors@.len() > before,
                            decreases r.fields.len() - j,
                        {
                            let f = &r.fields[j];
                            match cstruct_field_ok(&f.ty, &cstruct, &records, &enums, program, &mut visiting) {
                                Ok(()) => {}
                                Err(msg) => {
                                    let mut m = concat3("@cstruct record '", r.name.as_str(), "' field '");
                                    push_str(&mut m, f.name.as_str());
                                    push_str(&mut m, "': ");
                                    push_str(&mut m, msg.as_str());
                                    self.error_at(m, f.span.clone());
                                }
                            }
                            j += 1;
                        }
                    }
                }
                _ => {}
            }
            proof {
                if bad_cstruct(program.items@[i as int]) {
                    assert(self.errors@.len() > before);
                }
            }
            i += 1;
        }
    }

    /// An `@export` function becomes a C symbol, so its signature must be
    /// C-representable end to end and it must be concrete: not `main`, no
    /// type parameters, not `async`.
    fn check_exports(&mut self, program: &Program)
        ensures
            old(self).errors@.is_prefix_of(final(self).errors@),
            (exists|i: int| 0 <= i < program.items@.len() && bad_export(#[trigger] program.items@[i]))
                ==> final(self).errors@.len() > old(self).errors@.len(),
            plain_program(program.items@) ==> final(self).errors@ == old(self).errors@,
    {
        let (cstruct, records, enums) = c_world(program);
        let mut i: usize = 0;
        while i < program.items.len()
            invariant
                i <= program.items.len(),
                cstruct@.finite(),
                old(self).errors@.is_prefix_of(self.errors@),
                (exists|j: int| 0 <= j < i && bad_export(#[trigger] program.items@[j]))
                    ==> self.errors@.len() > old(self).errors@.len(),
                plain_program(program.items@) ==> self.errors@ == old(self).errors@,
            decreases program.items.len() - i,
        {
            proof {
                if plain_program(program.items@) {
                    assert(plain_item(program.items@[i as int]));
                }
            }
            match &program.items[i] {
                Item::Func(f) => {
                    if f.exported {
                        self.check_export(f, &cstruct, &records, &enums, program);
                    }
                }
                _ => {}
            }
            i += 1;
        }
    }

    fn check_export(&mut self, f: &FuncDecl, cstruct: &NameSet, records: &NameSet, enums: &NameSet, program: &Program)
        requires
            cstruct@.finite(),
        ensures
            old(self).errors@.is_prefix_of(final(self).errors@),
            f.name@ == "main"@ || f.type_params@.len() > 0 || f.is_async
                ==> final(self).errors@.len() > old(self).errors@.len(),
    {
        if str_eq(f.name.as_str(), "main") {
            self.error_at("'main' cannot be @export; a library has no entry point".to_string(), f.span.clone());
            return;
        }
        if f.type_params.len() > 0 {
            let m = concat3("@export func '", f.name.as_str(), "' cannot be generic; a C symbol has one concrete signature");
            self.error_at(m, f.span.clone());
            return;
        }
        if f.is_async {
            let m = concat3("@export func '", f.name.as_str(), "' cannot be async");
            self.error_at(m, f.span.clone());
            return;
        }
        let mut visiting = NameSet::new();
        let mut j: usize = 0;
        while j < f.params.len()
            invariant
                j <= f.params.len(),
                cstruct@.finite(),
                old(self).errors@.is_prefix_of(self.errors@),
            decreases f.params.len() - j,
        {
            let p = &f.params[j];
            match cstruct_field_ok(&p.ty, cstruct, records, enums, program, &mut visiting) {
                Ok(()) => {}
                Err(msg) => {
                    let mut m = concat3("@export func '", f.name.as_str(), "' parameter '");
                    push_str(&mut m, p.name.as_str());
                    push_str(&mut m, "': ");
                    push_str(&mut m, msg.as_str());
                    self.error_at(m, p.span.clone());
                }
            }
            j += 1;
        }
        match &f.ret {
            Some(rt) => {
                if !is_unit_type(rt) {
                    match cstruct_field_ok(rt, cstruct, records, enums, program, &mut visiting) {
                        Ok(()) => {}
                        Err(msg) => {
                            let mut m = concat3("@export func '", f.name.as_str(), "' return: ");
                            push_str(&mut m, msg.as_str());
                            self.error_at(m, f.span.clone());
                        }
                    }
                }
            }
            None => {}
        }
    }

    /// Puts a generic item's type parameters (and their constraints) in scope.
    fn enter_tparams(&mut self, tps: &Vec<TypeParam>)
        ensures
            final(self).cur_tparams@.len() == tps@.len(),
            final(self).cur_constraints@.len() == tps@.len(),
            final(self).errors@ == old(self).errors@,
            registry_same(*old(self), *final(self)),
    {
        let mut names: Vec<String> = Vec::new();
        let mut cons: Vec<Option<String>> = Vec::new();
        let mut i: usize = 0;
        while i < tps.len()
            invariant
                i <= tps.len(),
                names@.len() == i,
                cons@.len() == i,
            decreases tps.len() - i,
        {
            names.push(tps[i].name.clone());
            cons.push(tps[i].constraint.clone());
            i += 1;
        }
        self.cur_tparams = names;
        self.cur_constraints = cons;
    }

    fn sig_of(&mut self, params: &Vec<crate::ast::Param>, ret: &Option<Type>, ntp: usize) -> (s: FuncSig)
        ensures
            s.params@.len() == params@.len(),
            old(self).errors@.is_prefix_of(final(self).errors@),
            scalar_sig(params@, *ret) ==> final(self).errors@ == old(self).errors@,
            registry_same(*old(self), *final(self)),
    {
        let mut ps: Vec<Kind> = Vec::new();
        let mut i: usize = 0;
        while i < params.len()
            invariant
                i <= params.len(),
                ps@.len() == i,
                old(self).errors@.is_prefix_of(self.errors@),
                scalar_params(params@) ==> self.errors@ == old(self).errors@,
                registry_same(*old(self), *self),
            decreases params.len() - i,
        {
            let k = self.from_ast(&params[i].ty);
            ps.push(k);
            i += 1;
        }
        let ret_ty = match ret {
            Some(t) => Some(self.from_ast(t)),
            None => None,
        };
        FuncSig { params: ps, ret: ret_ty, tparams: ntp }
    }

    fn collect_sigs(&mut self, program: &Program)
        ensures
            old(self).errors@.is_prefix_of(final(self).errors@),
            plain_program(program.items@) ==> final(self).errors@ == old(self).errors@,
            forall|j: int| 0 <= j < program.items@.len() ==> sig_registered(*final(self), #[trigger] program.items@[j]),
            final(self).decls@ == old(self).decls@,
    {
        let mut i: usize = 0;
        while i < program.items.len()
            invariant
                i <= program.items.len(),
                old(self).errors@.is_prefix_of(self.errors@),
                plain_program(program.items@) ==> self.errors@ == old(self).errors@,
                forall|j: int| 0 <= j < i ==> sig_registered(*self, #[trigger] program.items@[j]),
                self.decls@ == old(self).decls@,
            decreases program.items.len() - i,
        {
            proof {
                if plain_program(program.items@) {
                    assert(plain_item(program.items@[i as int]));
                }
            }
            let ghost st = *self;
            let ghost before = self.errors@.len();
            match &program.items[i] {
                Item::Func(f) => {
                    self.cur_span = f.span.clone();
                    self.enter_tparams(&f.type_params);
                    let sig = self.sig_of(&f.params, &f.ret, f.type_params.len());
                    self.funcs.insert(f.name.clone(), sig);
                }
                Item::Extern(e) => {
                    self.cur_span = e.span.clone();
                    self.enter_tparams(&e.type_params);
                    let sig = self.sig_of(&e.params, &e.ret, e.type_params.len());
                    self.funcs.insert(e.name.clone(), sig);
                }
                Item::Chan(c) => {
                    self.cur_span = c.span.clone();
                    let payload = self.from_ast(&c.payload);
                    self.chans.insert(c.name.clone(), Kind::ChanOf(Box::new(payload)));
                }
                _ => {}
            }
            proof {
                assert(st.funcs@.dom().subset_of(self.funcs@.dom()));
                assert(st.chans@.dom().subset_of(self.chans@.dom()));
                assert forall|j: int| 0 <= j < i + 1 implies sig_registered(*self, #[trigger] program.items@[j]) by {
                    if j < i {
                        assert(sig_registered(st, program.items@[j]));
                    }
                }
            }
            i += 1;
        }
    }

    fn predeclare_stdlib(&mut self)
        ensures
            final(self).errors@ == old(self).errors@,
            final(self).decls@ == old(self).decls@,
            final(self).chans@ == old(self).chans@,
            final(self).funcs@.dom() == old(self).funcs@.dom().insert("print"@).insert("read_file"@).insert(
                "approx_sqrt"@,
            ).insert("now"@).insert("monotonic"@),
            final(self).funcs@["print"@].ret matches Some(k) && k@ == KindV::Unit,
            final(self).funcs@["print"@].params@.len() == 1 && final(self).funcs@["print"@].params@[0]@ == KindV::Str,
            final(self).funcs@["read_file"@].ret matches Some(k) && k@ == KindV::ResultOf(
                Box::new(KindV::Str),
                Box::new(KindV::ErrRoot),
            ),
            final(self).funcs@["approx_sqrt"@].ret matches Some(k) && k@ == KindV::Float,
            final(self).funcs@["now"@].ret matches Some(k) && k@ == KindV::Float,
            final(self).funcs@["now"@].params@.len() == 0,
            final(self).funcs@["monotonic"@].ret matches Some(k) && k@ == KindV::Float,
    {
        let mut p1: Vec<Kind> = Vec::new();
        p1.push(Kind::Str);
        self.funcs.insert("print".to_string(), FuncSig { params: p1, ret: Some(Kind::Unit), tparams: 0 });
        let mut p2: Vec<Kind> = Vec::new();
        p2.push(Kind::Str);
        let rf = Kind::ResultOf(Box::new(Kind::Str), Box::new(Kind::ErrRoot));
        self.funcs.insert("read_file".to_string(), FuncSig { params: p2, ret: Some(rf), tparams: 0 });
        let mut p3: Vec<Kind> = Vec::new();
        p3.push(Kind::Float);
        self.funcs.insert("approx_sqrt".to_string(), FuncSig { params: p3, ret: Some(Kind::Float), tparams: 0 });
        self.funcs.insert("now".to_string(), FuncSig { params: Vec::new(), ret: Some(Kind::Float), tparams: 0 });
        self.funcs.insert("monotonic".to_string(), FuncSig { params: Vec::new(), ret: Some(Kind::Float), tparams: 0 });
        proof {
            reveal_strlit("print");
            reveal_strlit("read_file");
            reveal_strlit("approx_sqrt");
            reveal_strlit("now");
            reveal_strlit("monotonic");
            assert(Kind::Str@ == KindV::Str);
            assert(Kind::ErrRoot@ == KindV::ErrRoot);
            assert(Kind::Unit@ == KindV::Unit);
            assert("print"@[0] == 'p' && "read_file"@[0] == 'r' && "approx_sqrt"@[0] == 'a' && "now"@[0] == 'n'
                && "monotonic"@[0] == 'm');
            assert("print"@ != "read_file"@ && "print"@ != "approx_sqrt"@ && "print"@ != "now"@
                && "print"@ != "monotonic"@);
        }
    }

    /// The kind a written type denotes. A map key or set element that is
    /// neither a valid key kind, a type variable nor unknown is reported.
    fn from_ast(&mut self, ty: &Type) -> (k: Kind)
        ensures
            old(self).errors@.is_prefix_of(final(self).errors@),
            final(self).cur_span == old(self).cur_span,
            scalar_type_kind(*ty) matches Some(sk) ==> k@ == sk,
            scalar_type_kind(*ty) is Some ==> final(self).errors@ == old(self).errors@,
            registry_same(*old(self), *final(self)),
        decreases ty, 2nat,
    {
        match ty {
            Type::Named(name, args) => {
                proof {
                    assert forall|i: int| 0 <= i < args.len() implies decreases_to!(*ty => #[trigger] args@[i]) by {
                        assert(decreases_to!(*ty => (*ty)->Named_1));
                        assert(decreases_to!(*args => args[i]));
                    }
                }
                self.from_ast_named(name.as_str(), args, Ghost(*ty))
            }
            Type::NamedPlain(name) => {
                let none: Vec<Type> = Vec::new();
                self.from_ast_named(name.as_str(), &none, Ghost(*ty))
            }
            Type::Union(members) => {
                // error unions are kept so `?` acceptance can check membership
                let mut kinds: Vec<Kind> = Vec::new();
                let mut i: usize = 0;
                while i < members.len()
                    invariant
                        i <= members.len(),
                        *ty == Type::Union(*members),
                        old(self).errors@.is_prefix_of(self.errors@),
                        self.cur_span == old(self).cur_span,
                        registry_same(*old(self), *self),
                    decreases members.len() - i,
                {
                    proof {
                        assert(decreases_to!(*ty => (*ty)->Union_0));
                        assert(decreases_to!(*members => members[i as int]));
                    }
                    let k = self.from_ast(&members[i]);
                    kinds.push(k);
                    i += 1;
                }
                Kind::ErrUnion(kinds)
            }
        }
    }

    fn arg_kind(&mut self, args: &Vec<Type>, i: usize, Ghost(parent): Ghost<Type>) -> (k: Kind)
        requires
            forall|j: int| 0 <= j < args.len() ==> decreases_to!(parent => #[trigger] args@[j]),
        ensures
            old(self).errors@.is_prefix_of(final(self).errors@),
            final(self).cur_span == old(self).cur_span,
            i >= args@.len() ==> k@ == KindV::Unknown && final(self).errors@ == old(self).errors@,
            i < args@.len() ==> (scalar_type_kind(args@[i as int]) matches Some(sk) ==> k@ == sk
                && final(self).errors@ == old(self).errors@),
            registry_same(*old(self), *final(self)),
        decreases parent, 0nat,
    {
        if i < args.len() {
            proof {
                assert(decreases_to!(parent => args@[i as int]));
            }
            self.from_ast(&args[i])
        } else {
            // a missing type argument (`List` alone) denotes nothing known
            Kind::Unknown
        }
    }

    fn key_error(&mut self, what: &str, k: &Kind)
        ensures
            final(self).errors@.len() == old(self).errors@.len() + 1,
            final(self).errors@.drop_last() == old(self).errors@,
            final(self).cur_span == old(self).cur_span,
            registry_same(*old(self), *final(self)),
    {
        let mut m = String::new();
        push_str(&mut m, what);
        push_str(&mut m, " type must be Int, usize, Bool, Char, or Str, got ");
        push_kind(&mut m, k);
        self.error(m);
    }

    fn from_ast_named(&mut self, name: &str, args: &Vec<Type>, Ghost(parent): Ghost<Type>) -> (k: Kind)
        requires
            forall|j: int| 0 <= j < args.len() ==> decreases_to!(parent => #[trigger] args@[j]),
        ensures
            old(self).errors@.is_prefix_of(final(self).errors@),
            final(self).cur_span == old(self).cur_span,
            scalar_kind(name@) matches Some(sk) ==> k@ == sk,
            scalar_kind(name@) is Some ==> final(self).errors@ == old(self).errors@,
            registry_same(*old(self), *final(self)),
        decreases parent, 1nat,
    {
        if str_eq(name, "Bool") {
            Kind::Bool
        } else if str_eq(name, "Int") {
            Kind::Int
        } else if str_eq(name, "usize") {
            Kind::Usize
        } else if str_eq(name, "Float") {
            Kind::Float
        } else if str_eq(name, "Char") {
            Kind::Char
        } else if str_eq(name, "Str") {
            Kind::Str
        } else if str_eq(name, "Bytes") {
            Kind::Bytes
        } else if str_eq(name, "Unit") {
            Kind::Unit
        } else if str_eq(name, "Ptr") {
            Kind::Ptr
        } else if str_eq(name, "Option") {
            let inner = self.arg_kind(args, 0, Ghost(parent));
            Kind::OptionOf(Box::new(inner))
        } else if str_eq(name, "Result") {
            let t = self.arg_kind(args, 0, Ghost(parent));
            let e = self.arg_kind(args, 1, Ghost(parent));
            Kind::ResultOf(Box::new(t), Box::new(e))
        } else if str_eq(name, "Chan") {
            let inner = self.arg_kind(args, 0, Ghost(parent));
            Kind::ChanOf(Box::new(inner))
        } else if str_eq(name, "List") {
            let inner = self.arg_kind(args, 0, Ghost(parent));
            Kind::ListOf(Box::new(inner))
        } else if str_eq(name, "Map") {
            let key = self.arg_kind(args, 0, Ghost(parent));
            let val = self.arg_kind(args, 1, Ghost(parent));
            if !map_key_ok(&key) && !is_unknown(&key) && !is_typevar(&key) {
                self.key_error("Map key", &key);
            }
            Kind::MapOf(Box::new(key), Box::new(val))
        } else if str_eq(name, "Set") {
            let elem = self.arg_kind(args, 0, Ghost(parent));
            if !map_key_ok(&elem) && !is_unknown(&elem) && !is_typevar(&elem) {
                self.key_error("Set element", &elem);
            }
            Kind::SetOf(Box::new(elem))
        } else if str_eq(name, "Err") {
            Kind::ErrRoot
        } else {
            // a type parameter in scope (generic signature or body)
            let mut i: usize = 0;
            while i < self.cur_tparams.len()
                invariant
                    i <= self.cur_tparams.len(),
                    scalar_kind(name@) is None,
                decreases self.cur_tparams.len() - i,
            {
                if str_eq(self.cur_tparams[i].as_str(), name) {
                    return Kind::TypeVar(i);
                }
                i += 1;
            }
            // a record or enum by name
            match self.decls.get(name) {
                Some(t) => return t.clone(),
                None => {}
            }
            // error records conform to the root error
            if is_error_record(name) {
                return Kind::ErrRoot;
            }
            Kind::Unknown
        }
    }
}

/// The printed forms used in messages: `a` then the kind.
fn msg_k(a: &str, k: &Kind) -> (s: String)
    ensures
        s@ == a@ + crate::kind::kind_text(k@),
{
    let mut s = String::new();
    push_str(&mut s, a);
    push_kind(&mut s, k);
    s
}

/// `a`, the first kind, `b`, the second kind.
fn msg_kk(a: &str, k1: &Kind, b: &str, k2: &Kind) -> (s: String)
    ensures
        s@ == a@ + crate::kind::kind_text(k1@) + b@ + crate::kind::kind_text(k2@),
{
    let mut s = msg_k(a, k1);
    push_str(&mut s, b);
    push_kind(&mut s, k2);
    s
}

/// `a`, the number, `b`.
fn msg_n(a: &str, n: usize, b: &str) -> (s: String)
    ensures
        s@ == a@ + crate::text::decimal(n as nat) + b@,
{
    let mut s = String::new();
    push_str(&mut s, a);
    push_decimal(&mut s, n as u64);
    push_str(&mut s, b);
    s
}

/// The binding a field-assignment target is rooted at (`a` for `a.b.c`).
pub open spec fn root_of(e: Expr) -> Option<Seq<char>>
    decreases e,
{
    match e {
        Expr::Name(n) => Some(n@),
        Expr::Field(base, _) => root_of(*base),
        _ => None,
    }
}

/// The binding a field-assignment target is rooted at (`a` for `a.b.c`).
fn root_name(e: &Expr) -> (r: Option<String>)
    ensures
        match root_of(*e) {
            Some(n) => r matches Some(s) && s@ == n,
            None => r is None,
        },
    decreases e,
{
    match e {
        Expr::Name(n) => Some(n.clone()),
        Expr::Field(base, _) => root_name(base),
        _ => None,
    }
}

fn is_arith(op: BinOp) -> (r: bool)
    ensures
        r == (op is Add || op is Sub || op is Mul || op is Div || op is Mod),
{
    match op {
        BinOp::Add | BinOp::Sub | BinOp::Mul | BinOp::Div | BinOp::Mod => true,
        _ => false,
    }
}

fn is_compare(op: BinOp) -> (r: bool)
    ensures
        r == (op is Eq || op is Ne || op is Lt || op is Le || op is Gt || op is Ge),
{
    match op {
        BinOp::Eq | BinOp::Ne | BinOp::Lt | BinOp::Le | BinOp::Gt | BinOp::Ge => true,
        _ => false,
    }
}

/// Whether `n` is in the list of names.
fn has_name(v: &Vec<String>, n: &str) -> (r: bool)
    ensures
        r == exists|i: int| 0 <= i < v@.len() && (#[trigger] v@[i])@ == n@,
{
    let mut i: usize = 0;
    while i < v.len()
        invariant
            i <= v.len(),
            forall|j: int| 0 <= j < i ==> (#[trigger] v@[j])@ != n@,
        decreases v.len() - i,
    {
        if str_eq(v[i].as_str(), n) {
            return true;
        }
        i += 1;
    }
    false
}

fn copy_kinds(v: &Vec<Kind>) -> (r: Vec<Kind>)
    ensures
        r@.len() == v@.len(),
        forall|i: int| 0 <= i < v@.len() ==> (#[trigger] r@[i])@ == v@[i]@,
{
    let mut r: Vec<Kind> = Vec::new();
    let mut i: usize = 0;
    while i < v.len()
        invariant
            i <= v.len(),
            r@.len() == i,
            forall|j: int| 0 <= j < i ==> (#[trigger] r@[j])@ == v@[j]@,
        decreases v.len() - i,
    {
        r.push(v[i].clone());
        i += 1;
    }
    r
}

fn copy_names(v: &Vec<String>) -> (r: Vec<String>)
    ensures
        r@.len() == v@.len(),
        forall|i: int| 0 <= i < v@.len() ==> (#[trigger] r@[i])@ == v@[i]@,
{
    v.clone()
}

impl TypeChecker {
    /// Whether a value of kind `value` fits where `target` is expected.
    pub fn accepts(&self, value: &Kind, target: &Kind) -> (r: bool)
        ensures
            r == accepts_spec(value@, target@),
    {
        accepts_kind(value, target)
    }

    /// Whether `value as target` is an allowed cast.
    pub fn accepts_cast(&self, value: &Kind, target: &Kind) -> (r: bool)
        ensures
            r == accepts_cast_spec(value@, target@),
    {
        accepts_cast_kind(value, target)
    }

    /// The `?` acceptance rule: may `callee_e` propagate into `caller_e`?
    pub fn accepts_error(&self, callee_e: &Kind, caller_e: &Kind) -> (r: bool)
        ensures
            r == accepts_error_spec(callee_e@, caller_e@),
    {
        accepts_error_kind(callee_e, caller_e)
    }

    /// A comparison or arithmetic on a bare type parameter needs a
    /// justifying constraint; only `T: Ordered` (comparison) is defined.
    fn check_tvar_op(&mut self, at: &Kind, bt: &Kind, op: BinOp)
        requires
            at@ is TypeVar || bt@ is TypeVar,
        ensures
            old(self).errors@.is_prefix_of(final(self).errors@),
            final(self).errors@.len() <= old(self).errors@.len() + 1,
            (final(self).errors@.len() == old(self).errors@.len()) == ((op is Eq || op is Ne || op is Lt || op is Le
                || op is Gt || op is Ge) && {
                let idx = if at@ is TypeVar { at@->TypeVar_0 } else { bt@->TypeVar_0 };
                idx < old(self).cur_constraints@.len() && (old(self).cur_constraints@[idx as int] matches Some(c)
                    && c@ == "Ordered"@)
            }),
    {
        let idx = match typevar_index(at) {
            Some(i) => i,
            None => match typevar_index(bt) {
                Some(i) => i,
                None => 0,
            },
        };
        if is_compare(op) {
            let constrained = idx < self.cur_constraints.len() && match &self.cur_constraints[idx] {
                Some(c) => str_eq(c.as_str(), "Ordered"),
                None => false,
            };
            if !constrained {
                let m = msg_kk(
                    "type parameter must be constrained (T: Ordered) to compare values of type ",
                    at,
                    "/",
                    bt,
                );
                self.error(m);
            }
        } else {
            self.error("cannot use arithmetic on type parameter (constraint not defined)".to_string());
        }
    }

    fn seed_env(&self, env: &mut Env)
        ensures
            forall|n: Seq<char>| #[trigger] self.chans@.dom().contains(n) ==> final(env).kinds().dom().contains(n)
                && final(env).kinds()[n] == self.chans@[n]@,
            forall|n: Seq<char>| !self.chans@.dom().contains(n) ==> (#[trigger] final(env).kinds().dom().contains(n)
                == old(env).kinds().dom().contains(n)) && (old(env).kinds().dom().contains(n) ==> final(env).kinds()[n]
                == old(env).kinds()[n]),
            final(env).muts() == old(env).muts(),
    {
        let keys = self.chans.keys();
        let mut i: usize = 0;
        while i < keys.len()
            invariant
                i <= keys.len(),
                forall|k: Seq<char>| self.chans@.dom().contains(k) <==> exists|q: int| 0 <= q < keys.len() && keys@[q]@ == k,
                forall|q: int| 0 <= q < i ==> env.kinds().dom().contains(#[trigger] keys@[q]@)
                    && env.kinds()[keys@[q]@] == self.chans@[keys@[q]@]@,
                forall|n: Seq<char>| !self.chans@.dom().contains(n) ==> (#[trigger] env.kinds().dom().contains(n)
                    == old(env).kinds().dom().contains(n)) && (old(env).kinds().dom().contains(n) ==> env.kinds()[n]
                    == old(env).kinds()[n]),
                env.muts() == old(env).muts(),
            decreases keys.len() - i,
        {
            proof {
                assert(self.chans@.dom().contains(keys@[i as int]@));
            }
            match self.chans.get(keys[i].as_str()) {
                Some(ty) => env.insert(keys[i].clone(), ty.clone()),
                None => {}
            }
            i += 1;
        }
    }

    fn check_bodies(&mut self, program: &Program)
        ensures
            old(self).errors@.is_prefix_of(final(self).errors@),
            (exists|i: int| 0 <= i < program.items@.len() && item_has_rejected_stmt(#[trigger] program.items@[i]))
                ==> final(self).errors@.len() > old(self).errors@.len(),
            plain_program(program.items@) ==> final(self).errors@ == old(self).errors@,
            forall|j: int| 0 <= j < program.items@.len() && immutable_param_assign(#[trigger] program.items@[j])
                ==> immutable_assign_reported(old(self).errors@, final(self).errors@, first_assigned(program.items@[j])),
            forall|j: int| 0 <= j < program.items@.len() && immutable_local_assign(#[trigger] program.items@[j])
                ==> immutable_assign_reported(old(self).errors@, final(self).errors@, local_assigned(program.items@[j])),
            forall|j: int| 0 <= j < program.items@.len() && refused_cast_body(#[trigger] program.items@[j]) ==> cast_refused(
                old(self).errors@,
                final(self).errors@,
                body_cast_kinds(program.items@[j]).0,
                body_cast_kinds(program.items@[j]).1,
            ),
    {
        let mut i: usize = 0;
        while i < program.items.len()
            invariant
                i <= program.items.len(),
                old(self).errors@.is_prefix_of(self.errors@),
                (exists|j: int| 0 <= j < i && item_has_rejected_stmt(#[trigger] program.items@[j]))
                    ==> self.errors@.len() > old(self).errors@.len(),
                forall|j: int| 0 <= j < i && immutable_param_assign(#[trigger] program.items@[j])
                    ==> immutable_assign_reported(old(self).errors@, self.errors@, first_assigned(program.items@[j])),
                forall|j: int| 0 <= j < i && immutable_local_assign(#[trigger] program.items@[j])
                    ==> immutable_assign_reported(old(self).errors@, self.errors@, local_assigned(program.items@[j])),
                forall|j: int| 0 <= j < i && refused_cast_body(#[trigger] program.items@[j]) ==> cast_refused(
                    old(self).errors@,
                    self.errors@,
                    body_cast_kinds(program.items@[j]).0,
                    body_cast_kinds(program.items@[j]).1,
                ),
                plain_program(program.items@) ==> self.errors@ == old(self).errors@,
            decreases program.items.len() - i,
        {
            proof {
                if plain_program(program.items@) {
                    assert(plain_item(program.items@[i as int]));
                }
            }
            let ghost before = self.errors@.len();
            let ghost before_v = self.errors@;
            match &program.items[i] {
                Item::Func(f) => {
                    self.cur_span = f.span.clone();
                    self.enter_tparams(&f.type_params);
                    let ret_ty: Option<Kind> = match &f.ret {
                        Some(t) => Some(self.from_ast(t)),
                        None => None,
                    };
                    self.cur_error_channel = match &ret_ty {
                        Some(Kind::ResultOf(_, e)) => Some((**e).clone()),
                        _ => None,
                    };
                    let mut env = Env::new();
                    let mut j: usize = 0;
                    while j < f.params.len()
                        invariant
                            j <= f.params.len(),
                            self.errors@.len() >= before,
                            before >= old(self).errors@.len(),
                            before == before_v.len(),
                            before_v.is_prefix_of(self.errors@),
                            old(self).errors@.is_prefix_of(before_v),
                            forall|n: Seq<char>| #[trigger] param_is_mut(f.params@.take(j as int), n) is Some ==> env.kinds().dom().contains(n),
                            forall|n: Seq<char>| #[trigger] param_is_mut(f.params@.take(j as int), n) == Some(false) ==> !env.muts().contains(n),
                            scalar_params(f.params@) && (f.ret matches Some(t) ==> scalar_type(t)) ==> self.errors@ == before_v,
                        decreases f.params.len() - j,
                    {
                        let p = &f.params[j];
                        self.cur_span = p.span.clone();
                        let k = self.from_ast(&p.ty);
                        env.insert_binding(p.name.clone(), k, p.mutable);
                        proof {
                            let t1 = f.params@.take(j + 1);
                            assert(t1.drop_last() == f.params@.take(j as int));
                            assert(t1.last() == f.params@[j as int]);
                            assert forall|n: Seq<char>| #[trigger] param_is_mut(t1, n) is Some implies env.kinds().dom().contains(n) by {
                                if n != p.name@ {
                                    assert(param_is_mut(t1, n) == param_is_mut(f.params@.take(j as int), n));
                                }
                            }
                            assert forall|n: Seq<char>| #[trigger] param_is_mut(t1, n) == Some(false) implies !env.muts().contains(n) by {
                                if n != p.name@ {
                                    assert(param_is_mut(t1, n) == param_is_mut(f.params@.take(j as int), n));
                                }
                            }
                        }
                        j += 1;
                    }
                    proof {
                        assert(f.params@.take(f.params@.len() as int) == f.params@);
                    }
                    self.seed_env(&mut env);
                    self.check_contracts(&f.contracts, &mut env, &ret_ty);
                    self.check_block(&f.body, &mut env);
                    proof {
                        if immutable_param_assign(program.items@[i as int]) {
                            let n = first_assigned(program.items@[i as int]);
                            assert(param_is_mut(f.params@, n) == Some(false));
                        }
                    }
                }
                Item::Task(t) => {
                    self.cur_span = t.span.clone();
                    let mut env = Env::new();
                    self.seed_env(&mut env);
                    self.check_block(&t.body, &mut env);
                }
                _ => {}
            }
            i += 1;
        }
    }

    fn expect_bool(&mut self, t: &Kind, what: &str)
        ensures
            old(self).errors@.is_prefix_of(final(self).errors@),
            (t@ is Bool || t@ is Unknown) ==> final(self).errors@ == old(self).errors@,
            !(t@ is Bool || t@ is Unknown) ==> final(self).errors@.len() == old(self).errors@.len() + 1,
    {
        match t {
            Kind::Bool | Kind::Unknown => {}
            _ => {
                let m = concat3(what, " must be a Bool expression", "");
                self.error(m);
            }
        }
    }

    fn check_contracts(&mut self, contracts: &Vec<Contract>, env: &mut Env, ret_ty: &Option<Kind>)
        ensures
            old(self).errors@.is_prefix_of(final(self).errors@),
            contracts@.len() == 0 ==> final(self).errors@ == old(self).errors@,
            contracts@.len() == 0 ==> final(env).kinds() == old(env).kinds() && final(env).muts() == old(env).muts(),
            (exists|i: int| 0 <= i < contracts@.len() && (rejected_expr(contract_expr(#[trigger] contracts@[i]))
                || (literal_kind(contract_expr(contracts@[i])) matches Some(lk) && !(lk is Bool))))
                ==> final(self).errors@.len() > old(self).errors@.len(),
    {
        let mut i: usize = 0;
        while i < contracts.len()
            invariant
                i == 0 ==> env.kinds() == old(env).kinds() && env.muts() == old(env).muts(),
                i <= contracts.len(),
                old(self).errors@.is_prefix_of(self.errors@),
                contracts@.len() == 0 ==> self.errors@ == old(self).errors@,
                (exists|j: int| 0 <= j < i && (rejected_expr(contract_expr(#[trigger] contracts@[j]))
                    || (literal_kind(contract_expr(contracts@[j])) matches Some(lk) && !(lk is Bool))))
                    ==> self.errors@.len() > old(self).errors@.len(),
            decreases contracts.len() - i,
        {
            match &contracts[i] {
                Contract::Pre(e) => {
                    let t = self.check_expr(e, env);
                    self.expect_bool(&t, "precondition");
                }
                Contract::Post(e) => {
                    let mut post_env = env.copy();
                    // `result` is the return value, typed by the declared return
                    let ret = match ret_ty {
                        Some(t) => t.clone(),
                        None => Kind::Unknown,
                    };
                    post_env.insert("result".to_string(), ret);
                    let t = self.check_expr(e, &mut post_env);
                    self.expect_bool(&t, "postcondition");
                }
                Contract::Invariant(e) => {
                    let t = self.check_expr(e, env);
                    self.expect_bool(&t, "invariant");
                }
            }
            i += 1;
        }
    }

    fn lookup_name(&self, n: &str, env: &Env) -> (k: Kind)
        ensures
            env.kinds().dom().contains(n@) ==> k@ == env.kinds()[n@],
    {
        match env.get(n) {
            Some(t) => return t.clone(),
            None => {}
        }
        // constants
        if str_eq(n, "PI") || str_eq(n, "E") {
            return Kind::Float;
        }
        // a channel
        match self.chans.get(n) {
            Some(p) => return Kind::ChanOf(Box::new(p.clone())),
            None => {}
        }
        // an enum variant used as a value
        if self.variants.contains_key(n) {
            return Kind::Enum(String::new());
        }
        match self.funcs.get(n) {
            Some(sig) => match &sig.ret {
                Some(r) => return r.clone(),
                None => {}
            },
            None => {}
        }
        Kind::Unknown
    }

    fn field_kind(&self, rec: &str, fname: &str) -> (r: Option<Kind>)
        ensures
            match field_entry(self.fields@, rec@, fname@) {
                Some(kv) => r matches Some(k) && k@ == kv,
                None => r is None,
            },
    {
        let mut j: usize = self.fields.len();
        proof {
            assert(self.fields@.take(j as int) == self.fields@);
        }
        while j > 0
            invariant
                j <= self.fields.len(),
                field_entry(self.fields@.take(j as int), rec@, fname@) == field_entry(self.fields@, rec@, fname@),
            decreases j,
        {
            let f = &self.fields[j - 1];
            proof {
                assert(self.fields@.take(j as int).last() == self.fields@[j - 1]);
                assert(self.fields@.take(j as int).drop_last() == self.fields@.take(j - 1));
            }
            if str_eq(f.0.as_str(), rec) && str_eq(f.1.as_str(), fname) {
                return Some(f.2.clone());
            }
            j -= 1;
        }
        None
    }

    fn check_block(&mut self, block: &Block, env: &mut Env)
        ensures
            old(self).errors@.is_prefix_of(final(self).errors@),
            block_has_rejected_stmt(*block) ==> final(self).errors@.len() > old(self).errors@.len(),
            plain_block(*block) ==> final(self).errors@ == old(self).errors@,
            block.stmts@.len() > 0 ==> (assigns_literal_to(block.stmts@[0]) matches Some(n) ==> (old(env).kinds().dom().contains(
                n,
            ) && !old(env).muts().contains(n) ==> immutable_assign_reported(old(self).errors@, final(self).errors@, n))),
            let_then_assign(block.stmts@) ==> immutable_assign_reported(old(self).errors@, final(self).errors@, let_name(block.stmts@)),
            let_then_bad_cast(block.stmts@) ==> cast_refused(
                old(self).errors@,
                final(self).errors@,
                bad_cast_kinds(block.stmts@).0,
                bad_cast_kinds(block.stmts@).1,
            ),
        decreases block, 3nat,
    {
        let mut i: usize = 0;
        while i < block.stmts.len()
            invariant
                i <= block.stmts.len(),
                old(self).errors@.is_prefix_of(self.errors@),
                i == 0 ==> env.kinds() == old(env).kinds() && env.muts() == old(env).muts() && self.errors@ == old(
                    self,
                ).errors@,
                i > 0 ==> (assigns_literal_to(block.stmts@[0]) matches Some(n) ==> (old(env).kinds().dom().contains(n)
                    && !old(env).muts().contains(n) ==> immutable_assign_reported(old(self).errors@, self.errors@, n))),
                i == 1 && let_then_assign(block.stmts@) ==> env.kinds().dom().contains(let_name(block.stmts@))
                    && !env.muts().contains(let_name(block.stmts@)),
                i > 1 && let_then_assign(block.stmts@) ==> immutable_assign_reported(old(self).errors@, self.errors@, let_name(block.stmts@)),
                i == 1 && let_then_bad_cast(block.stmts@) ==> env.kinds().dom().contains(let_name(block.stmts@))
                    && env.kinds()[let_name(block.stmts@)] == bad_cast_kinds(block.stmts@).0,
                i > 1 && let_then_bad_cast(block.stmts@) ==> cast_refused(
                    old(self).errors@,
                    self.errors@,
                    bad_cast_kinds(block.stmts@).0,
                    bad_cast_kinds(block.stmts@).1,
                ),
                (exists|j: int| 0 <= j < i && rejected_stmt(#[trigger] block.stmts@[j]))
                    ==> self.errors@.len() > old(self).errors@.len(),
                plain_block(*block) ==> self.errors@ == old(self).errors@,
            decreases block.stmts.len() - i,
        {
            proof {
                if plain_block(*block) {
                    assert(plain_stmt(block.stmts@[i as int]));
                }
            }
            let ghost mid = self.errors@;
            self.check_stmt(&block.stmts[i], env);
            proof {
                if i > 0 {
                    if let Some(n) = assigns_literal_to(block.stmts@[0]) {
                        if old(env).kinds().dom().contains(n) && !old(env).muts().contains(n) {
                            lemma_reported_grows(old(self).errors@, mid, self.errors@, n);
                        }
                    }
                }
                if let_then_bad_cast(block.stmts@) {
                    let (k0, k1) = bad_cast_kinds(block.stmts@);
                    if i == 1 {
                        assert(cast_refused(mid, self.errors@, k0, k1));
                        let k = choose|k: int| mid.len() <= k < self.errors@.len() && (#[trigger] self.errors@[k]).message@
                            == "cannot cast "@ + crate::kind::kind_text(k0) + " to "@ + crate::kind::kind_text(k1)
                            + " (allowed: Int<->usize, Int->Float, Float->Int, Str<->Bytes)"@;
                        assert(old(self).errors@.len() <= k);
                    } else if i > 1 {
                        lemma_cast_grows(old(self).errors@, mid, self.errors@, k0, k1);
                    }
                }
                if let_then_assign(block.stmts@) {
                    let n = let_name(block.stmts@);
                    if i == 1 {
                        assert(immutable_assign_reported(mid, self.errors@, n));
                        let k = choose|k: int| mid.len() <= k < self.errors@.len() && (#[trigger] self.errors@[k]).message@
                            == "cannot assign to immutable binding '"@ + n + "' (declare it with `mut`)"@;
                        assert(old(self).errors@.len() <= k);
                    } else if i > 1 {
                        lemma_reported_grows(old(self).errors@, mid, self.errors@, n);
                    }
                }
            }
            i += 1;
        }
    }

    /// Checks one statement, binding what it declares in `env`.
    fn check_stmt(&mut self, stmt: &Stmt, env: &mut Env)
        ensures
            old(self).errors@.is_prefix_of(final(self).errors@),
            rejected_stmt(*stmt) ==> final(self).errors@.len() > old(self).errors@.len(),
            plain_stmt(*stmt) ==> final(self).errors@ == old(self).errors@,
            stmt.kind matches StmtKind::Decl(d) ==> (!d.recv ==> final(env).kinds().dom().contains(d.name@)
                && final(env).muts().contains(d.name@) == d.mutable),
            stmt.kind matches StmtKind::Decl(d) ==> (!d.recv ==> (d.ty matches Some(t) ==> (scalar_type_kind(t) matches Some(
                sk,
            ) ==> final(env).kinds()[d.name@] == sk))),
            stmt.kind matches StmtKind::Decl(d) ==> (!d.recv ==> (d.init matches Some(e) ==> (*e matches Expr::Cast(a, t) ==> (
            known_kind(*a, old(env).kinds()) matches Some(ka) ==> (scalar_type_kind(t) matches Some(sk) ==> (
            !accepts_cast_spec(ka, sk) ==> cast_refused(old(self).errors@, final(self).errors@, ka, sk))))))),
            stmt.kind matches StmtKind::Assign(a) ==> (a.target matches AssignTarget::Name(n) ==> (literal_kind(
                *a.value,
            ) matches Some(lk) ==> old(env).kinds().dom().contains(n@) ==> {
                &&& !old(env).muts().contains(n@) ==> immutable_assign_reported(
                    old(self).errors@,
                    final(self).errors@,
                    n@,
                )
                &&& old(env).muts().contains(n@) && accepts_spec(lk, old(env).kinds()[n@]) ==> final(self).errors@
                    == old(self).errors@
            })),
        decreases stmt, 2nat,
    {
        match &stmt.kind {
            StmtKind::Decl(d) => {
                self.cur_span = d.span.clone();
                let declared_ty = match &d.ty {
                    Some(t) => Some(self.from_ast(t)),
                    None => None,
                };
                let init_ty = match &d.init {
                    Some(e) => Some(self.check_expr(e, env)),
                    None => None,
                };
                if d.recv {
                    // `let x <- recv(ch)`: the channel's payload
                    let ch = match &d.chan {
                        Some(c) => c.clone(),
                        None => String::new(),
                    };
                    let ch_ty = match env.get(ch.as_str()) {
                        Some(t) => Some(t.clone()),
                        None => None,
                    };
                    match ch_ty {
                        Some(Kind::ChanOf(inner)) => env.insert_binding(d.name.clone(), *inner, d.mutable),
                        Some(_) => {
                            let m = concat3("'", ch.as_str(), "' is not a channel");
                            self.error(m);
                        }
                        None => {
                            let m = concat3("unknown channel '", ch.as_str(), "'");
                            self.error(m);
                        }
                    }
                } else {
                    match (declared_ty, init_ty) {
                        (Some(dt), Some(it)) => {
                            if !self.accepts(&it, &dt) {
                                let mut m = concat3("binding '", d.name.as_str(), "' declared as ");
                                push_kind(&mut m, &dt);
                                push_str(&mut m, " but initializer is ");
                                push_kind(&mut m, &it);
                                self.error(m);
                            }
                            env.insert_binding(d.name.clone(), dt, d.mutable);
                        }
                        (Some(dt), None) => env.insert_binding(d.name.clone(), dt, d.mutable),
                        (None, Some(it)) => env.insert_binding(d.name.clone(), it, d.mutable),
                        (None, None) => env.insert_binding(d.name.clone(), Kind::Unknown, d.mutable),
                    }
                }
            }
            StmtKind::Assign(a) => {
                self.cur_span = a.span.clone();
                let val_ty = self.check_expr(&a.value, env);
                match &a.target {
                    AssignTarget::Name(n) => {
                        let target_ty = match env.get(n.as_str()) {
                            Some(t) => Some(t.clone()),
                            None => None,
                        };
                        let ghost before = self.errors@;
                        if target_ty.is_some() && !env.is_mut(n.as_str()) {
                            let m = concat3("cannot assign to immutable binding '", n.as_str(), "' (declare it with `mut`)");
                            self.error(m);
                            assert(self.errors@[before.len() as int].message@ == "cannot assign to immutable binding '"@
                                + n@ + "' (declare it with `mut`)"@);
                        }
                        match target_ty {
                            Some(tt) => {
                                if !self.accepts(&val_ty, &tt) {
                                    let mut m = msg_k("cannot assign ", &val_ty);
                                    push_str(&mut m, " to '");
                                    push_str(&mut m, n.as_str());
                                    push_str(&mut m, "' of type ");
                                    push_kind(&mut m, &tt);
                                    self.error(m);
                                }
                            }
                            None => {
                                let m = concat3("unknown name '", n.as_str(), "' in assignment");
                                self.error(m);
                            }
                        }
                    }
                    AssignTarget::Field(base, fname) => {
                        match root_name(base) {
                            Some(root) => {
                                if env.get(root.as_str()).is_some() && !env.is_mut(root.as_str()) {
                                    let m = concat3(
                                        "cannot assign to field of immutable binding '",
                                        root.as_str(),
                                        "' (declare it with `mut`)",
                                    );
                                    self.error(m);
                                }
                            }
                            None => {}
                        }
                        let base_ty = self.check_expr(base, env);
                        match &base_ty {
                            Kind::Record(rec) => {
                                match self.field_kind(rec.as_str(), fname.as_str()) {
                                    Some(ft) => {
                                        if !self.accepts(&val_ty, &ft) {
                                            let mut m = msg_k("cannot assign ", &val_ty);
                                            push_str(&mut m, " to field '");
                                            push_str(&mut m, fname.as_str());
                                            push_str(&mut m, "' of type ");
                                            push_kind(&mut m, &ft);
                                            self.error(m);
                                        }
                                    }
                                    None => {
                                        let mut m = concat3("record '", rec.as_str(), "' has no field '");
                                        push_str(&mut m, fname.as_str());
                                        push_str(&mut m, "'");
                                        self.error(m);
                                    }
                                }
                            }
                            _ => self.error("cannot assign field on non-record".to_string()),
                        }
                    }
                }
            }
            StmtKind::Expr(e) => {
                let _ = self.check_expr(e, env);
            }
            StmtKind::Break => {}
            StmtKind::Continue => {}
        }
    }

    /// Checks argument `i` of a call, if there is one.
    fn check_arg(&mut self, args: &Vec<Expr>, i: usize, env: &mut Env, Ghost(parent): Ghost<Expr>) -> (k: Kind)
        requires
            forall|j: int| 0 <= j < args.len() ==> decreases_to!(parent => #[trigger] args@[j]),
        ensures
            old(self).errors@.is_prefix_of(final(self).errors@),
            i >= args@.len() ==> k@ == KindV::Unknown && final(self).errors@ == old(self).errors@,
            i < args@.len() ==> kind_form_ok(args@[i as int], k@),
            i < args@.len() && rejected_expr(args@[i as int]) ==> final(self).errors@.len() > old(self).errors@.len(),
            i < args@.len() && literal_kind(args@[i as int]) is Some ==> final(self).errors@ == old(self).errors@,
        decreases parent, 0nat,
    {
        if i < args.len() {
            proof {
                assert(decreases_to!(parent => args@[i as int]));
            }
            self.check_expr(&args[i], env)
        } else {
            Kind::Unknown
        }
    }

    /// Checks every argument, for calls whose arguments are not matched
    /// against a signature.
    fn check_all(&mut self, args: &Vec<Expr>, env: &mut Env, Ghost(parent): Ghost<Expr>)
        requires
            forall|j: int| 0 <= j < args.len() ==> decreases_to!(parent => #[trigger] args@[j]),
        ensures
            old(self).errors@.is_prefix_of(final(self).errors@),
            some_rejected(args@) ==> final(self).errors@.len() > old(self).errors@.len(),
            all_literals(args@) ==> final(self).errors@ == old(self).errors@,
        decreases parent, 0nat,
    {
        let mut i: usize = 0;
        while i < args.len()
            invariant
                i <= args.len(),
                forall|j: int| 0 <= j < args.len() ==> decreases_to!(parent => #[trigger] args@[j]),
                old(self).errors@.is_prefix_of(self.errors@),
                (exists|j: int| 0 <= j < i && rejected_expr(#[trigger] args@[j])) ==> self.errors@.len() > old(self).errors@.len(),
                all_literals(args@) ==> self.errors@ == old(self).errors@,
            decreases args.len() - i,
        {
            proof {
                assert(decreases_to!(parent => args@[i as int]));
                if all_literals(args@) {
                    assert(literal_kind(args@[i as int]) is Some);
                }
            }
            let _ = self.check_expr(&args[i], env);
            i += 1;
        }
    }

    /// Checks the arguments against expected kinds, reporting each mismatch
    /// with `what(i)`.
    fn check_against(
        &mut self,
        args: &Vec<Expr>,
        expected: &Vec<Kind>,
        env: &mut Env,
        pre: &str,
        post: &str,
        Ghost(parent): Ghost<Expr>,
    )
        requires
            forall|j: int| 0 <= j < args.len() ==> decreases_to!(parent => #[trigger] args@[j]),
        ensures
            old(self).errors@.is_prefix_of(final(self).errors@),
            some_rejected(args@) ==> final(self).errors@.len() > old(self).errors@.len(),
            literal_mismatch(args@, expected@.map_values(|k: Kind| k@)) ==> final(self).errors@.len() > old(self).errors@.len(),
            all_literals(args@) && !literal_mismatch(args@, expected@.map_values(|k: Kind| k@))
                ==> final(self).errors@ == old(self).errors@,
        decreases parent, 0nat,
    {
        let ghost ex = expected@.map_values(|k: Kind| k@);
        let mut i: usize = 0;
        while i < args.len()
            invariant
                i <= args.len(),
                ex == expected@.map_values(|k: Kind| k@),
                forall|j: int| 0 <= j < args.len() ==> decreases_to!(parent => #[trigger] args@[j]),
                old(self).errors@.is_prefix_of(self.errors@),
                (exists|j: int| 0 <= j < i && rejected_expr(#[trigger] args@[j])) ==> self.errors@.len() > old(self).errors@.len(),
                (exists|j: int| 0 <= j < i && j < ex.len() && (#[trigger] literal_kind(args@[j]) matches Some(lk)
                    && !accepts_spec(lk, ex[j]))) ==> self.errors@.len() > old(self).errors@.len(),
                all_literals(args@) && !literal_mismatch(args@, ex) ==> self.errors@ == old(self).errors@,
            decreases args.len() - i,
        {
            proof {
                assert(decreases_to!(parent => args@[i as int]));
                if all_literals(args@) {
                    assert(literal_kind(args@[i as int]) is Some);
                }
            }
            let at = self.check_expr(&args[i], env);
            if i < expected.len() {
                if !self.accepts(&at, &expected[i]) {
                    let m = msg_n(pre, i, post);
                    self.error(m);
                }
            }
            i += 1;
        }
    }

    fn check_named_call(&mut self, e: &Expr, env: &mut Env) -> (k: Kind)
        ensures
            old(self).errors@.is_prefix_of(final(self).errors@),
            e matches Expr::Call(c, args) ==> (**c matches Expr::Name(n) ==> named_call_result(
                n@,
                args@,
                *old(self),
                k@,
                final(self).errors@.len() > old(self).errors@.len(),
            )),
        decreases e, 1nat,
    {
        let (n, args) = match e {
            Expr::Call(callee, args) => match &**callee {
                Expr::Name(n) => (n, args),
                _ => return Kind::Unknown,
            },
            _ => return Kind::Unknown,
        };
        proof {
            assert forall|j: int| 0 <= j < args.len() implies decreases_to!(*e => #[trigger] args@[j]) by {
                assert(decreases_to!(*e => (*e)->Call_1));
                assert(decreases_to!(*args => args[j]));
            }
        }
        let g = Ghost(*e);
        proof {
            reveal_strlit("print");
            reveal_strlit("ok");
            reveal_strlit("err");
            reveal_strlit("some");
            reveal_strlit("sqrt");
            assert(Kind::Unit@ == KindV::Unit);
            assert(Kind::Unknown@ == KindV::Unknown);
            assert(Kind::Float@ == KindV::Float);
            assert(Kind::ErrRoot@ == KindV::ErrRoot);
        }
        if str_eq(n.as_str(), "print") {
            self.check_all(args, env, g);
            return Kind::Unit;
        }
        if str_eq(n.as_str(), "ok") {
            if args.len() == 0 {
                return Kind::ResultOf(Box::new(Kind::Unit), Box::new(Kind::Unknown));
            }
            let t = self.check_arg(args, 0, env, g);
            return Kind::ResultOf(Box::new(t), Box::new(Kind::Unknown));
        }
        if str_eq(n.as_str(), "err") {
            let et = self.check_arg(args, 0, env, g);
            return Kind::ResultOf(Box::new(Kind::Unknown), Box::new(et));
        }
        if str_eq(n.as_str(), "some") {
            let t = self.check_arg(args, 0, env, g);
            return Kind::OptionOf(Box::new(t));
        }
        if str_eq(n.as_str(), "sqrt") {
            self.check_all(args, env, g);
            return Kind::ResultOf(Box::new(Kind::Float), Box::new(Kind::ErrRoot));
        }
        if is_error_ctor(n.as_str()) {
            // an error record constructor, e.g. DomainError("msg")
            self.check_all(args, env, g);
            return Kind::ErrRoot;
        }
        // an enum variant constructor
        let variant = match self.variants.get(n.as_str()) {
            Some(v) => Some((v.owner.clone(), copy_kinds(&v.fields))),
            None => None,
        };
        match variant {
            Some((en, fts)) => {
                if args.len() != fts.len() {
                    let mut m = concat3("variant '", n.as_str(), "' expects ");
                    push_decimal(&mut m, fts.len() as u64);
                    push_str(&mut m, " fields, got ");
                    push_decimal(&mut m, args.len() as u64);
                    self.error(m);
                }
                let pre = concat3("variant '", n.as_str(), "' field ");
                self.check_against(args, &fts, env, pre.as_str(), " type mismatch", g);
                return Kind::Enum(en);
            }
            None => {}
        }
        // a record constructor
        let ctor = match self.record_ctors.get(n.as_str()) {
            Some(ft) => Some(copy_kinds(ft)),
            None => None,
        };
        match ctor {
            Some(ft) => {
                if args.len() != ft.len() {
                    let mut m = concat3("'", n.as_str(), "' expects ");
                    push_decimal(&mut m, ft.len() as u64);
                    push_str(&mut m, " args, got ");
                    push_decimal(&mut m, args.len() as u64);
                    self.error(m);
                }
                let post = concat3(" to record constructor '", n.as_str(), "' type mismatch");
                self.check_against(args, &ft, env, "argument ", post.as_str(), g);
                return Kind::Record(n.clone());
            }
            None => {}
        }
        // a regular function call
        let sig = match self.funcs.get(n.as_str()) {
            Some(s) => Some((copy_kinds(&s.params), match &s.ret {
                Some(r) => Some(r.clone()),
                None => None,
            })),
            None => None,
        };
        match sig {
            Some((params, ret)) => {
                if args.len() != params.len() {
                    let mut m = concat3("function '", n.as_str(), "' expects ");
                    push_decimal(&mut m, params.len() as u64);
                    push_str(&mut m, " args, got ");
                    push_decimal(&mut m, args.len() as u64);
                    self.error(m);
                }
                // infer type arguments: where a parameter is TypeVar(i), bind
                // it to the argument's kind
                let mut bindings: Vec<Option<Kind>> = Vec::new();
                let ghost pv = params@.map_values(|p: Kind| p@);
                let ghost mut aks: Seq<KindV> = Seq::empty();
                proof {
                    assert(pv =~= old(self).funcs@[n@].params@.map_values(|p: Kind| p@));
                    assert(bindings_view(bindings@) =~= inferred(pv, aks, 0));
                }
                let mut i: usize = 0;
                while i < args.len()
                    invariant
                        i <= args.len(),
                        forall|j: int| 0 <= j < args.len() ==> decreases_to!(*e => #[trigger] args@[j]),
                        old(self).errors@.is_prefix_of(self.errors@),
                        args.len() != params.len() ==> self.errors@.len() > old(self).errors@.len(),
                        pv == params@.map_values(|p: Kind| p@),
                        aks.len() == i,
                        forall|j: int| 0 <= j < i ==> kind_form_ok(args@[j], #[trigger] aks[j]),
                        bindings_view(bindings@) == inferred(pv, aks, i as int),
                    decreases args.len() - i,
                {
                    proof {
                        assert(decreases_to!(*e => args@[i as int]));
                    }
                    let at = self.check_expr(&args[i], env);
                    let ghost b0 = bindings_view(bindings@);
                    proof {
                        let old_aks = aks;
                        aks = aks.push(at@);
                        lemma_inferred_prefix(pv, old_aks, aks, i as int);
                        assert(b0 == inferred(pv, aks, i as int));
                        assert(aks[i as int] == at@);
                    }
                    if i < params.len() {
                        match typevar_index(&params[i]) {
                            Some(ti) => {
                                if bindings.len() <= ti {
                                    while bindings.len() <= ti
                                        invariant
                                            bindings.len() <= ti + 1,
                                            b0.len() <= bindings@.len(),
                                            b0.len() <= ti,
                                            bindings_view(bindings@) == b0 + Seq::new(
                                                (bindings@.len() - b0.len()) as nat,
                                                |_j: int| None::<KindV>,
                                            ),
                                        decreases ti + 1 - bindings.len(),
                                    {
                                        let ghost bb = bindings@;
                                        bindings.push(None);
                                        proof {
                                            let lhs = bindings_view(bindings@);
                                            let rhs = b0 + Seq::new(
                                                (bindings@.len() - b0.len()) as nat,
                                                |_j: int| None::<KindV>,
                                            );
                                            let prev = b0 + Seq::new((bb.len() - b0.len()) as nat, |_j: int| None::<KindV>);
                                            assert(bindings_view(bb) == prev);
                                            assert forall|k: int| 0 <= k < lhs.len() implies lhs[k] == rhs[k] by {
                                                if k < bb.len() {
                                                    assert(bindings@[k] == bb[k]);
                                                    assert(lhs[k] == bindings_view(bb)[k]);
                                                    assert(prev[k] == rhs[k]);
                                                }
                                            }
                                            assert(lhs =~= rhs);
                                        }
                                    }
                                }
                                let ghost ext = bindings_view(bindings@);
                                bindings.set(ti, Some(at));
                                proof {
                                    assert(pv[i as int] == params@[i as int]@);
                                    assert(bindings_view(bindings@) =~= ext.update(ti as int, Some(at@)));
                                    if b0.len() <= ti {
                                        assert(ext =~= b0 + Seq::new((ti + 1 - b0.len()) as nat, |_j: int| None::<KindV>));
                                    } else {
                                        assert(ext == b0);
                                    }
                                    assert(bindings_view(bindings@) =~= inferred(pv, aks, i + 1));
                                }
                            }
                            None => {
                                if !self.accepts(&at, &params[i]) {
                                    let mut m = msg_n("argument ", i, " to '");
                                    push_str(&mut m, n.as_str());
                                    push_str(&mut m, "' type mismatch");
                                    self.error(m);
                                }
                            }
                        }
                    }
                    proof {
                        if !(i < params.len() && pv[i as int] is TypeVar) {
                            assert(bindings_view(bindings@) == inferred(pv, aks, i + 1));
                        }
                    }
                    i += 1;
                }
                proof {
                    if all_literals(args@) {
                        assert forall|j: int| 0 <= j < aks.len() implies aks[j] == args@.map_values(
                            |a: Expr| literal_kind(a)->0,
                        )[j] by {
                            assert(literal_kind(args@[j]) is Some);
                        }
                        assert(aks =~= args@.map_values(|a: Expr| literal_kind(a)->0));
                    }
                }
                match ret {
                    Some(t) => subst(&t, &bindings),
                    None => Kind::Unit,
                }
            }
            None => {
                let m = concat3("unknown function '", n.as_str(), "'");
                self.error(m);
                Kind::Unknown
            }
        }
    }

    /// Checks the one argument a collection method expects against `want`,
    /// reporting `"{method} {what} expects {want}, got {got}"`.
    fn check_first_against(
        &mut self,
        args: &Vec<Expr>,
        idx: usize,
        want: &Kind,
        env: &mut Env,
        label: &str,
        Ghost(parent): Ghost<Expr>,
    )
        requires
            forall|j: int| 0 <= j < args.len() ==> decreases_to!(parent => #[trigger] args@[j]),
        ensures
            old(self).errors@.is_prefix_of(final(self).errors@),
            idx >= args@.len() ==> final(self).errors@ == old(self).errors@,
            idx < args@.len() && rejected_expr(args@[idx as int]) ==> final(self).errors@.len() > old(self).errors@.len(),
            idx < args@.len() ==> (literal_kind(args@[idx as int]) matches Some(lk) ==> (if accepts_spec(lk, want@) {
                final(self).errors@ == old(self).errors@
            } else {
                final(self).errors@.len() == old(self).errors@.len() + 1
            })),
        decreases parent, 0nat,
    {
        if idx < args.len() {
            proof {
                assert(decreases_to!(parent => args@[idx as int]));
            }
            let at = self.check_expr(&args[idx], env);
            if !self.accepts(&at, want) {
                let mut m = msg_k(label, want);
                push_str(&mut m, ", got ");
                push_kind(&mut m, &at);
                self.error(m);
            }
        }
    }

    fn check_method_call(&mut self, e: &Expr, env: &mut Env) -> (k: Kind)
        ensures
            old(self).errors@.is_prefix_of(final(self).errors@),
            e matches Expr::Call(c, args) ==> (**c matches Expr::Field(recv, m) ==> {
                &&& (is_nullary_method(m@) && args@.len() > 0 ==> final(self).errors@.len() > old(self).errors@.len())
                &&& (known_kind(*recv, old(env).kinds()) matches Some(rk) ==> {
                    &&& k@ == method_result(rk, m@)
                    &&& (method_spec(rk, m@) is None ==> method_refused(old(self).errors@, final(self).errors@, m@, rk))
                })
            }),
        decreases e, 1nat,
    {
        let (receiver, method, args) = match e {
            Expr::Call(callee, args) => match &**callee {
                Expr::Field(receiver, method) => (receiver, method, args),
                _ => return Kind::Unknown,
            },
            _ => return Kind::Unknown,
        };
        proof {
            assert forall|j: int| 0 <= j < args.len() implies decreases_to!(*e => #[trigger] args@[j]) by {
                assert(decreases_to!(*e => (*e)->Call_1));
                assert(decreases_to!(*args => args[j]));
            }
            assert(decreases_to!(*e => (*e)->Call_0));
        }
        let g = Ghost(*e);
        let rt = self.check_expr(receiver, env);
        let mt = method_type(&rt, method.as_str());
        let m = method.as_str();
        let nullary = str_eq(m, "len") || str_eq(m, "abs") || str_eq(m, "to_str") || str_eq(m, "to_upper")
            || str_eq(m, "to_lower") || str_eq(m, "is_empty") || str_eq(m, "keys") || str_eq(m, "values");
        if nullary && args.len() != 0 {
            let msg = concat3("method '", m, "' takes no arguments");
            self.error(msg);
        }
        if str_eq(m, "append") {
            if args.len() != 1 {
                self.error("append takes one argument".to_string());
            }
            match &rt {
                Kind::ListOf(t) => {
                    let mut i: usize = 0;
                    while i < args.len()
                        invariant
                            i <= args.len(),
                            forall|j: int| 0 <= j < args.len() ==> decreases_to!(*e => #[trigger] args@[j]),
                            old(self).errors@.is_prefix_of(self.errors@),
                            nullary && args.len() > 0 ==> self.errors@.len() > old(self).errors@.len(),
                        decreases args.len() - i,
                    {
                        proof {
                            assert(decreases_to!(*e => args@[i as int]));
                        }
                        let at = self.check_expr(&args[i], env);
                        if !self.accepts(&at, t) {
                            let msg = msg_kk("append expects ", t, ", got ", &at);
                            self.error(msg);
                        }
                        i += 1;
                    }
                }
                _ => self.check_all(args, env, g),
            }
        } else if str_eq(m, "insert") {
            match &rt {
                Kind::MapOf(k, v) => {
                    if args.len() != 2 {
                        self.error("insert takes two arguments".to_string());
                    }
                    self.check_first_against(args, 0, k, env, "insert key expects ", g);
                    self.check_first_against(args, 1, v, env, "insert value expects ", g);
                }
                Kind::SetOf(t) => {
                    if args.len() != 1 {
                        self.error("insert takes one argument".to_string());
                    }
                    self.check_first_against(args, 0, t, env, "insert element expects ", g);
                }
                _ => self.check_all(args, env, g),
            }
        } else if str_eq(m, "contains") {
            if args.len() != 1 {
                self.error("contains takes one argument".to_string());
            }
            match &rt {
                Kind::SetOf(t) => self.check_first_against(args, 0, t, env, "contains element expects ", g),
                _ => self.check_all(args, env, g),
            }
        } else if str_eq(m, "get") {
            if args.len() != 1 {
                self.error("get takes one argument".to_string());
            }
            match &rt {
                Kind::MapOf(k, _) => self.check_first_against(args, 0, k, env, "get key expects ", g),
                _ => self.check_all(args, env, g),
            }
        } else {
            self.check_all(args, env, g);
        }
        proof {
            if literal_kind(**receiver) is Some {
                assert(rt@ == literal_kind(**receiver)->0);
            }
        }
        let ghost before = self.errors@;
        match mt {
            Some(t) => t,
            None => {
                let mut msg = concat3("no method '", m, "' on ");
                push_kind(&mut msg, &rt);
                self.error(msg);
                assert(self.errors@[before.len() as int].message@ == msg@);
                Kind::Unknown
            }
        }
    }

    fn check_field(&mut self, e: &Expr, env: &mut Env) -> (k: Kind)
        ensures
            old(self).errors@.is_prefix_of(final(self).errors@),
            e matches Expr::Field(base, f) ==> (known_kind(**base, old(env).kinds()) matches Some(bk) ==> field_outcome(
                final(self).fields@,
                bk,
                f@,
                k@,
                final(self).errors@.len() > old(self).errors@.len(),
            )),
        decreases e, 1nat,
    {
        let (base, fname) = match e {
            Expr::Field(base, fname) => (base, fname),
            _ => return Kind::Unknown,
        };
        let bt = self.check_expr(base, env);
        match &bt {
            Kind::Record(rec) => {
                match self.field_kind(rec.as_str(), fname.as_str()) {
                    Some(ft) => ft,
                    None => {
                        let mut m = concat3("record '", rec.as_str(), "' has no field '");
                        push_str(&mut m, fname.as_str());
                        push_str(&mut m, "'");
                        self.error(m);
                        Kind::Unknown
                    }
                }
            }
            // `.value` is a result's payload (under `is ok`); `.err` its error
            Kind::ResultOf(t, _) => {
                if str_eq(fname.as_str(), "value") {
                    (**t).clone()
                } else if str_eq(fname.as_str(), "err") {
                    Kind::Unknown
                } else {
                    let m = concat3("Result has no field '", fname.as_str(), "' (use .value / .err)");
                    self.error(m);
                    Kind::Unknown
                }
            }
            Kind::Enum(_) => Kind::Unknown,
            _ => {
                let mut m = concat3("cannot access field '", fname.as_str(), "' of ");
                push_kind(&mut m, &bt);
                self.error(m);
                Kind::Unknown
            }
        }
    }

    /// A list or set literal: every element must share the first one's kind.
    fn check_elems(&mut self, elems: &Vec<Expr>, env: &mut Env, what: &str, Ghost(parent): Ghost<Expr>) -> (k: Kind)
        requires
            forall|j: int| 0 <= j < elems.len() ==> decreases_to!(parent => #[trigger] elems@[j]),
        ensures
            old(self).errors@.is_prefix_of(final(self).errors@),
            elems@.len() == 0 ==> k@ == KindV::Unknown && final(self).errors@ == old(self).errors@,
            elems@.len() > 0 ==> kind_form_ok(elems@[0], k@),
            literal_kinds_differ(elems@) ==> final(self).errors@.len() > old(self).errors@.len(),
            all_literals(elems@) && same_literal_kinds(elems@) ==> final(self).errors@ == old(self).errors@,
        decreases parent, 0nat,
    {
        if elems.len() == 0 {
            return Kind::Unknown;
        }
        proof {
            assert(decreases_to!(parent => elems@[0]));
        }
        let first = self.check_expr(&elems[0], env);
        let mut i: usize = 1;
        while i < elems.len()
            invariant
                1 <= i <= elems.len(),
                forall|j: int| 0 <= j < elems.len() ==> decreases_to!(parent => #[trigger] elems@[j]),
                old(self).errors@.is_prefix_of(self.errors@),
                kind_form_ok(elems@[0], first@),
                (exists|j: int| 1 <= j < i && (literal_kind(#[trigger] elems@[j]) matches Some(a) && (literal_kind(
                    elems@[0],
                ) matches Some(b) && a != b))) ==> self.errors@.len() > old(self).errors@.len(),
                all_literals(elems@) && same_literal_kinds(elems@) ==> self.errors@ == old(self).errors@,
            decreases elems.len() - i,
        {
            proof {
                assert(decreases_to!(parent => elems@[i as int]));
                if all_literals(elems@) {
                    assert(literal_kind(elems@[i as int]) is Some);
                }
            }
            let t = self.check_expr(&elems[i], env);
            if !kind_eq(&t, &first) {
                let mut m = String::new();
                push_str(&mut m, what);
                push_str(&mut m, " literal elements must share a type: ");
                push_kind(&mut m, &first);
                push_str(&mut m, " vs ");
                push_kind(&mut m, &t);
                self.error(m);
            }
            i += 1;
        }
        first
    }

    fn check_map_lit(&mut self, e: &Expr, env: &mut Env) -> (k: Kind)
        ensures
            old(self).errors@.is_prefix_of(final(self).errors@),
            e matches Expr::MapLit(entries) ==> if entries@.len() == 0 {
                k@ == KindV::MapOf(Box::new(KindV::Unknown), Box::new(KindV::Unknown)) && final(self).errors@
                    == old(self).errors@
            } else {
                &&& k@ matches KindV::MapOf(kk, vv) && kind_form_ok(entries@[0].0, *kk) && kind_form_ok(entries@[0].1, *vv)
                &&& (literal_kind(entries@[0].0) matches Some(lk) && !map_key_spec(lk)
                    ==> final(self).errors@.len() > old(self).errors@.len())
            },
        decreases e, 1nat,
    {
        let entries = match e {
            Expr::MapLit(entries) => entries,
            _ => return Kind::Unknown,
        };
        if entries.len() == 0 {
            // key and value kinds come from the binding's declared type
            proof {
                assert(Kind::Unknown@ == KindV::Unknown);
            }
            return Kind::MapOf(Box::new(Kind::Unknown), Box::new(Kind::Unknown));
        }
        proof {
            assert(decreases_to!(*e => (*e)->MapLit_0));
            assert(decreases_to!(*entries => entries[0]));
            assert(decreases_to!(entries[0] => entries[0].0));
            assert(decreases_to!(entries[0] => entries[0].1));
        }
        let k0 = self.check_expr(&entries[0].0, env);
        let v0 = self.check_expr(&entries[0].1, env);
        let mut i: usize = 1;
        while i < entries.len()
            invariant
                1 <= i <= entries.len(),
                *e == Expr::MapLit(*entries),
                old(self).errors@.is_prefix_of(self.errors@),
            decreases entries.len() - i,
        {
            proof {
                assert(decreases_to!(*e => (*e)->MapLit_0));
                assert(decreases_to!(*entries => entries[i as int]));
                assert(decreases_to!(entries[i as int] => entries[i as int].0));
                assert(decreases_to!(entries[i as int] => entries[i as int].1));
            }
            let kt = self.check_expr(&entries[i].0, env);
            let vt = self.check_expr(&entries[i].1, env);
            if !kind_eq(&kt, &k0) {
                let m = msg_kk("map literal keys must share a type: ", &k0, " vs ", &kt);
                self.error(m);
            }
            if !kind_eq(&vt, &v0) {
                let m = msg_kk("map literal values must share a type: ", &v0, " vs ", &vt);
                self.error(m);
            }
            i += 1;
        }
        if !map_key_ok(&k0) && !is_unknown(&k0) {
            self.key_error("Map key", &k0);
        }
        Kind::MapOf(Box::new(k0), Box::new(v0))
    }

    fn check_binary(&mut self, e: &Expr, env: &mut Env) -> (k: Kind)
        ensures
            old(self).errors@.is_prefix_of(final(self).errors@),
            e matches Expr::Binary(op, a, b) ==> if op is Add || op is Sub || op is Mul || op is Div || op is Mod {
                known_kind(**a, old(env).kinds()) matches Some(ka) ==> {
                    &&& k@ == ka
                    &&& (!(op is Add && ka is Str) && (literal_kind(**b) matches Some(kb) && kb != ka)
                        ==> final(self).errors@.len() > old(self).errors@.len())
                }
            } else {
                &&& k@ == KindV::Bool
                &&& (op is And || op is Or || op is Implies) ==> ((known_kind(**a, old(env).kinds()) matches Some(ka)
                    && !(ka is Bool)) || (literal_kind(**b) matches Some(kb) && !(kb is Bool))
                    ==> final(self).errors@.len() > old(self).errors@.len())
            },
        decreases e, 1nat,
    {
        let (op, a, b) = match e {
            Expr::Binary(op, a, b) => (*op, a, b),
            _ => return Kind::Unknown,
        };
        let at = self.check_expr(a, env);
        let bt = self.check_expr(b, env);
        // operations on a bare type parameter need a justifying constraint
        if is_typevar(&at) || is_typevar(&bt) {
            self.check_tvar_op(&at, &bt, op);
        }
        if is_arith(op) {
            // string concatenation
            if op == BinOp::Add {
                if let Kind::Str = at {
                    return Kind::Str;
                }
            }
            if !kind_eq(&at, &bt) {
                self.error("arithmetic on mismatched types".to_string());
            }
            at
        } else if op == BinOp::And || op == BinOp::Or || op == BinOp::Implies {
            let both = match (&at, &bt) {
                (Kind::Bool, Kind::Bool) => true,
                _ => false,
            };
            if !both {
                self.error("logical op requires Bools".to_string());
            }
            Kind::Bool
        } else {
            Kind::Bool
        }
    }

    fn check_match(&mut self, e: &Expr, env: &mut Env) -> (k: Kind)
        ensures
            old(self).errors@.is_prefix_of(final(self).errors@),
            e matches Expr::Match(_, arms) ==> {
                &&& (arms@.len() == 0 ==> k@ == KindV::Unknown)
                &&& (arms@.len() > 0 ==> (literal_kind(*arms@[0].1) matches Some(lk) ==> k@ == lk))
                &&& (arm_literals_differ(arms@) ==> final(self).errors@.len() > old(self).errors@.len())
            },
        decreases e, 1nat,
    {
        let (subject, arms) = match e {
            Expr::Match(subject, arms) => (subject, arms),
            _ => return Kind::Unknown,
        };
        let st = self.check_expr(subject, env);
        let mut covered: Vec<String> = Vec::new();
        let mut has_wildcard = false;
        let mut result_ty = Kind::Unknown;
        proof {
            assert(Kind::Unknown@ == KindV::Unknown);
        }
        let mut i: usize = 0;
        while i < arms.len()
            invariant
                i <= arms.len(),
                *e == Expr::Match(*subject, *arms),
                old(self).errors@.is_prefix_of(self.errors@),
                i == 0 ==> result_ty@ == KindV::Unknown,
                i > 0 ==> (literal_kind(*arms@[0].1) matches Some(lk) ==> result_ty@ == lk),
                (exists|j: int| 1 <= j < i && (literal_kind(*(#[trigger] arms@[j]).1) matches Some(a) && (literal_kind(
                    *arms@[0].1,
                ) matches Some(b) && a != b))) ==> self.errors@.len() > old(self).errors@.len(),
            decreases arms.len() - i,
        {
            proof {
                assert(decreases_to!(*e => (*e)->Match_1));
                assert(decreases_to!(*arms => arms[i as int]));
                assert(decreases_to!(arms[i as int] => arms[i as int].1));
            }
            // the pattern's names are bound before the body is checked
            match &arms[i].0 {
                Pattern::Name(nm) => {
                    env.insert(nm.clone(), Kind::Unknown);
                    has_wildcard = true;
                }
                Pattern::Wildcard => {
                    has_wildcard = true;
                }
                Pattern::Variant(vname, names) => {
                    let fts = match self.variants.get(vname.as_str()) {
                        Some(v) => Some(copy_kinds(&v.fields)),
                        None => None,
                    };
                    match fts {
                        Some(fts) => {
                            let mut j: usize = 0;
                            while j < names.len()
                                invariant
                                    j <= names.len(),
                                decreases names.len() - j,
                            {
                                if j < fts.len() {
                                    env.insert(names[j].clone(), fts[j].clone());
                                }
                                j += 1;
                            }
                        }
                        None => {}
                    }
                    covered.push(vname.clone());
                }
                Pattern::NoneLit => {}
            }
            let bt = self.check_expr(&arms[i].1, env);
            if is_unknown(&result_ty) {
                result_ty = bt.clone();
            }
            if !kind_eq(&result_ty, &bt) {
                let m = msg_kk("match arms produce different types: ", &result_ty, " vs ", &bt);
                self.error(m);
            }
            i += 1;
        }
        // an enum subject must cover all its variants
        match &st {
            Kind::Enum(ename) => {
                if !has_wildcard {
                    let vnames = match self.enum_variants.get(ename.as_str()) {
                        Some(v) => copy_names(v),
                        None => Vec::new(),
                    };
                    let mut j: usize = 0;
                    while j < vnames.len()
                        invariant
                            j <= vnames.len(),
                            old(self).errors@.is_prefix_of(self.errors@),
                            arm_literals_differ(arms@) ==> self.errors@.len() > old(self).errors@.len(),
                        decreases vnames.len() - j,
                    {
                        if !has_name(&covered, vnames[j].as_str()) {
                            let mut m = concat3("match on enum '", ename.as_str(), "' is not exhaustive: missing variant '");
                            push_str(&mut m, vnames[j].as_str());
                            push_str(&mut m, "'");
                            self.error(m);
                        }
                        j += 1;
                    }
                }
            }
            _ => {}
        }
        result_ty
    }

    fn check_if(&mut self, e: &Expr, env: &mut Env) -> (k: Kind)
        ensures
            old(self).errors@.is_prefix_of(final(self).errors@),
            k@ == KindV::Unknown,
            e matches Expr::If(ifx) ==> (if_has_rejected(*ifx) ==> final(self).errors@.len() > old(self).errors@.len()),
        decreases e, 1nat,
    {
        let ifx = match e {
            Expr::If(ifx) => ifx,
            _ => return Kind::Unknown,
        };
        proof {
            assert(decreases_to!(*e => (*e)->If_0));
        }
        let _ = self.check_expr(&ifx.cond, env);
        // flow typing: a positive test narrows the tested name in its branch;
        // each elif and the else are their own branch
        let pos = extract_narrowing(&ifx.cond);
        let mut then_env = env.copy();
        apply_narrowing(&mut then_env, &pos);
        self.check_block(&ifx.then_block, &mut then_env);
        let mut i: usize = 0;
        while i < ifx.elif.len()
            invariant
                i <= ifx.elif.len(),
                *e == Expr::If(*ifx),
                old(self).errors@.is_prefix_of(self.errors@),
                (rejected_expr(*ifx.cond) || block_has_rejected_stmt(ifx.then_block) || (exists|j: int| 0 <= j < i
                    && (rejected_expr(*(#[trigger] ifx.elif@[j]).0) || block_has_rejected_stmt(ifx.elif@[j].1))))
                    ==> self.errors@.len() > old(self).errors@.len(),
            decreases ifx.elif.len() - i,
        {
            proof {
                assert(decreases_to!(*e => (*e)->If_0));
                assert(decreases_to!(*ifx => ifx.elif));
                assert(decreases_to!(ifx.elif => ifx.elif[i as int]));
                assert(decreases_to!(ifx.elif[i as int] => ifx.elif[i as int].0));
                assert(decreases_to!(ifx.elif[i as int] => ifx.elif[i as int].1));
            }
            let _ = self.check_expr(&ifx.elif[i].0, env);
            let mut s = env.copy();
            let n = extract_narrowing(&ifx.elif[i].0);
            apply_narrowing(&mut s, &n);
            self.check_block(&ifx.elif[i].1, &mut s);
            i += 1;
        }
        match &ifx.else_block {
            Some(b) => {
                let mut s = env.copy();
                apply_complement(&mut s, &pos);
                self.check_block(b, &mut s);
            }
            None => {}
        }
        Kind::Unknown
    }

    fn check_expr(&mut self, e: &Expr, env: &mut Env) -> (k: Kind)
        ensures
            old(self).errors@.is_prefix_of(final(self).errors@),
            kind_form_ok(*e, k@),
            e matches Expr::Name(n) ==> (old(env).kinds().dom().contains(n@) ==> k@ == old(env).kinds()[n@]),
            rejected_expr(*e) ==> final(self).errors@.len() > old(self).errors@.len(),
            literal_kind(*e) is Some ==> final(self).errors@ == old(self).errors@,
            literal_kind(*e) is Some ==> final(env).kinds() == old(env).kinds() && final(env).muts() == old(env).muts(),
            e matches Expr::Prop(b, _) ==> (known_kind(**b, old(env).kinds()) matches Some(KindV::ResultOf(t, err)) ==> {
                &&& k@ == *t
                &&& (final(self).cur_error_channel matches Some(ch) ==> (!accepts_error_spec(*err, ch@)
                    ==> propagation_refused(old(self).errors@, final(self).errors@, *err, ch@)))
                &&& (final(self).cur_error_channel is None ==> final(self).errors@.len() > old(self).errors@.len())
            }),
            e matches Expr::Cast(a, t) ==> (known_kind(**a, old(env).kinds()) matches Some(ka) ==> (scalar_type_kind(*t) matches Some(
                sk,
            ) ==> k@ == sk && (!accepts_cast_spec(ka, sk) ==> cast_refused(old(self).errors@, final(self).errors@, ka, sk)))),
            e matches Expr::Call(c, args) ==> (**c matches Expr::Name(n) ==> named_call_result(
                n@,
                args@,
                *old(self),
                k@,
                final(self).errors@.len() > old(self).errors@.len(),
            )),
            e matches Expr::Call(c, args) ==> (**c matches Expr::Field(recv, m) ==> {
                &&& (is_nullary_method(m@) && args@.len() > 0 ==> final(self).errors@.len() > old(self).errors@.len())
                &&& (known_kind(*recv, old(env).kinds()) matches Some(rk) ==> {
                    &&& k@ == method_result(rk, m@)
                    &&& (method_spec(rk, m@) is None ==> method_refused(old(self).errors@, final(self).errors@, m@, rk))
                })
            }),
            e matches Expr::Field(base, f) ==> (known_kind(**base, old(env).kinds()) matches Some(bk) ==> field_outcome(
                final(self).fields@,
                bk,
                f@,
                k@,
                final(self).errors@.len() > old(self).errors@.len(),
            )),
            e matches Expr::MapLit(entries) ==> if entries@.len() == 0 {
                k@ == KindV::MapOf(Box::new(KindV::Unknown), Box::new(KindV::Unknown)) && final(self).errors@
                    == old(self).errors@
            } else {
                &&& k@ matches KindV::MapOf(kk, vv) && kind_form_ok(entries@[0].0, *kk) && kind_form_ok(entries@[0].1, *vv)
                &&& (literal_kind(entries@[0].0) matches Some(lk) && !map_key_spec(lk)
                    ==> final(self).errors@.len() > old(self).errors@.len())
            },
            e matches Expr::Binary(op, a, b) ==> if op is Add || op is Sub || op is Mul || op is Div || op is Mod {
                known_kind(**a, old(env).kinds()) matches Some(ka) ==> {
                    &&& k@ == ka
                    &&& (!(op is Add && ka is Str) && (literal_kind(**b) matches Some(kb) && kb != ka)
                        ==> final(self).errors@.len() > old(self).errors@.len())
                }
            } else {
                &&& k@ == KindV::Bool
                &&& (op is And || op is Or || op is Implies) ==> ((known_kind(**a, old(env).kinds()) matches Some(ka)
                    && !(ka is Bool)) || (literal_kind(**b) matches Some(kb) && !(kb is Bool))
                    ==> final(self).errors@.len() > old(self).errors@.len())
            },
            e matches Expr::Match(_, arms) ==> {
                &&& (arms@.len() == 0 ==> k@ == KindV::Unknown)
                &&& (arms@.len() > 0 ==> (literal_kind(*arms@[0].1) matches Some(lk) ==> k@ == lk))
                &&& (arm_literals_differ(arms@) ==> final(self).errors@.len() > old(self).errors@.len())
            },
            e matches Expr::If(ifx) ==> k@ == KindV::Unknown && (if_has_rejected(*ifx) ==> final(self).errors@.len()
                > old(self).errors@.len()),
        decreases e, 2nat,
    {
        match e {
            Expr::Int(_) => Kind::Int,
            Expr::Float(_) => Kind::Float,
            Expr::Char(_) => Kind::Char,
            Expr::Str(_) => Kind::Str,
            Expr::RawStr(_) => Kind::Str,
            Expr::Bool(_) => Kind::Bool,
            Expr::NoneLit => {
                let k = Kind::OptionOf(Box::new(Kind::Unknown));
                assert(Kind::Unknown@ == KindV::Unknown);
                k
            }
            Expr::Name(n) => self.lookup_name(n.as_str(), env),
            Expr::Call(callee, _) => {
                match &**callee {
                    Expr::Name(_) => self.check_named_call(e, env),
                    Expr::Field(_, _) => self.check_method_call(e, env),
                    _ => {
                        let _ = self.check_expr(callee, env);
                        Kind::Unknown
                    }
                }
            }
            Expr::Field(_, _) => self.check_field(e, env),
            Expr::ListLit(elems) => {
                // `[]` takes its element kind from the binding's declared type
                proof {
                    assert forall|j: int| 0 <= j < elems.len() implies decreases_to!(*e => #[trigger] elems@[j]) by {
                        assert(decreases_to!(*e => (*e)->ListLit_0));
                        assert(decreases_to!(*elems => elems[j]));
                    }
                }
                let t = self.check_elems(elems, env, "list", Ghost(*e));
                Kind::ListOf(Box::new(t))
            }
            Expr::MapLit(_) => self.check_map_lit(e, env),
            Expr::SetLit(elems) => {
                proof {
                    assert forall|j: int| 0 <= j < elems.len() implies decreases_to!(*e => #[trigger] elems@[j]) by {
                        assert(decreases_to!(*e => (*e)->SetLit_0));
                        assert(decreases_to!(*elems => elems[j]));
                    }
                }
                let t = self.check_elems(elems, env, "set", Ghost(*e));
                if elems.len() > 0 && !map_key_ok(&t) && !is_unknown(&t) {
                    self.key_error("Set element", &t);
                }
                Kind::SetOf(Box::new(t))
            }
            Expr::Index(base, idx) => {
                let bt = self.check_expr(base, env);
                let it = self.check_expr(idx, env);
                match &it {
                    Kind::Int | Kind::Unknown => {}
                    _ => {
                        let m = msg_k("index must be an Int, got ", &it);
                        self.error(m);
                    }
                }
                match &bt {
                    // bounds-checked indexing gives Result[T, IndexError]
                    Kind::ListOf(t) => {
                        assert(Kind::ErrRoot@ == KindV::ErrRoot);
                        Kind::ResultOf(Box::new((**t).clone()), Box::new(Kind::ErrRoot))
                    }
                    _ => {
                        let m = msg_k("indexing is only defined for List[T], got ", &bt);
                        self.error(m);
                        Kind::Unknown
                    }
                }
            }
            Expr::Prop(base, _) => {
                let bt = self.check_expr(base, env);
                match &bt {
                    Kind::ResultOf(t, err) => {
                        // `?` unwraps the payload; the callee's error must be
                        // accepted by the enclosing function's error channel
                        let caller = match &self.cur_error_channel {
                            Some(c) => Some(c.clone()),
                            None => None,
                        };
                        match caller {
                            Some(caller_e) => {
                                let ghost before = self.errors@;
                                if !self.accepts_error(err, &caller_e) {
                                    let m = msg_kk(
                                        "cannot propagate ",
                                        err,
                                        " via '?': the enclosing function's error channel is ",
                                        &caller_e,
                                    );
                                    self.error(m);
                                    assert(self.errors@[before.len() as int].message@ == m@);
                                }
                            }
                            None => {
                                self.error(
                                    "cannot use '?' here: the enclosing function has no error channel (declare Result[_, E])".to_string(),
                                );
                            }
                        }
                        (**t).clone()
                    }
                    _ => {
                        let mut m = msg_k("'?' not allowed on ", &bt);
                        self.error(m);
                        Kind::Unknown
                    }
                }
            }
            Expr::Unary(op, a) => {
                let at = self.check_expr(a, env);
                match op {
                    UnaryOp::Neg => at,
                    UnaryOp::Not => Kind::Bool,
                }
            }
            Expr::Binary(_, _, _) => self.check_binary(e, env),
            Expr::Cast(a, ty) => {
                let at = self.check_expr(a, env);
                let tt = self.from_ast(ty);
                let ghost before = self.errors@;
                if !self.accepts_cast(&at, &tt) {
                    let mut m = msg_kk("cannot cast ", &at, " to ", &tt);
                    push_str(&mut m, " (allowed: Int<->usize, Int->Float, Float->Int, Str<->Bytes)");
                    self.error(m);
                    assert(self.errors@[before.len() as int].message@ == m@);
                }
                tt
            }
            Expr::Match(_, _) => self.check_match(e, env),
            Expr::If(_) => self.check_if(e, env),
            Expr::Loop(b) => {
                self.check_block(b, env);
                Kind::Never
            }
            Expr::For(name, iter, b) => {
                let it = self.check_expr(iter, env);
                // `for i in n` iterates 0..n; a list or set iterates its elements
                let elem = match &it {
                    Kind::Int => Kind::Int,
                    Kind::ListOf(t) => (**t).clone(),
                    Kind::SetOf(t) => (**t).clone(),
                    Kind::Unknown => Kind::Unknown,
                    _ => {
                        let m = msg_k("for-in iterable must be an Int range, a List[T], or a Set[T], got ", &it);
                        self.error(m);
                        Kind::Unknown
                    }
                };
                env.insert(name.clone(), elem);
                self.check_block(b, env);
                Kind::Never
            }
            Expr::Await(a) => self.check_expr(a, env),
            Expr::Send(ch, value) => {
                let _ = self.check_expr(ch, env);
                let _ = self.check_expr(value, env);
                Kind::Unit
            }
            Expr::Recv(ch) => {
                match env.get(ch.as_str()) {
                    Some(Kind::ChanOf(inner)) => (**inner).clone(),
                    _ => Kind::Unknown,
                }
            }
            Expr::Transfer(a) => self.check_expr(a, env),
            Expr::OkOf(inner) => {
                let inner_ty = match inner {
                    Some(v) => self.check_expr(v, env),
                    None => Kind::Unit,
                };
                Kind::ResultOf(Box::new(inner_ty), Box::new(Kind::Unknown))
            }
            Expr::ErrOf(a) => {
                let et = self.check_expr(a, env);
                Kind::ResultOf(Box::new(Kind::Unknown), Box::new(et))
            }
            Expr::SomeOf(a) => {
                let t = self.check_expr(a, env);
                Kind::OptionOf(Box::new(t))
            }
        }
    }
}

} // verus!
