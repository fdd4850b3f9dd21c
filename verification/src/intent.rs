//! Intent verification: each documented function states its effects, its
//! natural-language claims are paired with formal contracts, and `@trusted`
//! stamps sit where they are allowed. The derived effect profile of a body
//! (its own effects plus the declared effects of what it calls) must match
//! the declared one.
use vstd::prelude::*;
use crate::ast::{Block, Contract, DocClaim, DocComment, Expr, FuncDecl, Item, Param, Pattern, Program, Stmt, StmtKind, TaskDecl};
use crate::chars::{trim, trimmed};
use crate::names::NameMap;
use crate::text::{chars_of, concat3, push_str, str_eq};
use crate::token::{DocTag, Span};

verus! {

#[derive(Debug)]
pub struct IntentError {
    pub code: String,
    pub message: String,
    pub span: Span,
    pub suggestion: Option<IntentSuggestion>,
}

/// A suggested fix and how sure the checker is of it, in hundredths
/// (90 stands for 0.9).
#[derive(Debug)]
pub struct IntentSuggestion {
    pub fix: String,
    pub confidence_pct: u32,
}

/// An effect profile: which of the four effects a body may have.
#[derive(Clone, Copy, Debug, PartialEq, Eq, Structural)]
pub struct EffectSet {
    pub io: bool,
    pub chan: bool,
    pub mut_: bool,
    pub extern_: bool,
}

/// The profile with no effect.
pub open spec fn no_effects() -> EffectSet {
    EffectSet { io: false, chan: false, mut_: false, extern_: false }
}

/// The union of two profiles.
pub open spec fn union_spec(a: EffectSet, b: EffectSet) -> EffectSet {
    EffectSet { io: a.io || b.io, chan: a.chan || b.chan, mut_: a.mut_ || b.mut_, extern_: a.extern_ || b.extern_ }
}

/// `a` has every effect `b` has.
pub open spec fn covers(a: EffectSet, b: EffectSet) -> bool {
    (b.io ==> a.io) && (b.chan ==> a.chan) && (b.mut_ ==> a.mut_) && (b.extern_ ==> a.extern_)
}

/// A profile's labels in alphabetical order: chan, extern, io, mut.
pub open spec fn sorted_labels(e: EffectSet) -> Seq<Seq<char>> {
    (if e.chan { seq!["chan"@] } else { Seq::empty() })
        + (if e.extern_ { seq!["extern"@] } else { Seq::empty() })
        + (if e.io { seq!["io"@] } else { Seq::empty() })
        + (if e.mut_ { seq!["mut"@] } else { Seq::empty() })
}

/// A profile's labels in the order they are listed: mut, io, chan, extern.
pub open spec fn labels_spec(e: EffectSet) -> Seq<Seq<char>> {
    (if e.mut_ { seq!["mut"@] } else { Seq::empty() })
        + (if e.io { seq!["io"@] } else { Seq::empty() })
        + (if e.chan { seq!["chan"@] } else { Seq::empty() })
        + (if e.extern_ { seq!["extern"@] } else { Seq::empty() })
}

impl EffectSet {
    /// The profile with no effects.
    pub fn empty() -> (e: EffectSet)
        ensures
            e == no_effects(),
    {
        EffectSet { io: false, chan: false, mut_: false, extern_: false }
    }

    /// Adds the effects of `other`.
    pub fn merge(&mut self, other: &EffectSet)
        ensures
            *final(self) == union_spec(*old(self), *other),
    {
        self.io = self.io || other.io;
        self.chan = self.chan || other.chan;
        self.mut_ = self.mut_ || other.mut_;
        self.extern_ = self.extern_ || other.extern_;
    }

    /// The effect labels present, in the order mut, io, chan, extern.
    pub fn labels(&self) -> (v: Vec<&'static str>)
        ensures
            v@.map_values(|s: &str| s@) == labels_spec(*self),
    {
        let mut v: Vec<&'static str> = Vec::new();
        if self.mut_ {
            v.push("mut");
        }
        if self.io {
            v.push("io");
        }
        if self.chan {
            v.push("chan");
        }
        if self.extern_ {
            v.push("extern");
        }
        proof {
            assert(v@.map_values(|s: &str| s@) =~= labels_spec(*self));
        }
        v
    }
}

/// Merging profiles is a join: commutative, associative, idempotent, and the
/// result covers both sides.
pub proof fn law_merge_is_a_join(a: EffectSet, b: EffectSet, c: EffectSet)
    ensures
        union_spec(a, b) == union_spec(b, a),
        union_spec(union_spec(a, b), c) == union_spec(a, union_spec(b, c)),
        union_spec(a, a) == a,
        covers(union_spec(a, b), a) && covers(union_spec(a, b), b),
{
}

/// The comma-separated parts of a text, in order (an empty text is one
/// empty part).
pub open spec fn split_commas(s: Seq<char>) -> Seq<Seq<char>>
    decreases s.len(),
{
    if s.len() == 0 {
        seq![Seq::empty()]
    } else {
        let rest = split_commas(s.drop_last());
        if s.last() == ',' {
            rest.push(Seq::empty())
        } else {
            rest.update(rest.len() - 1, rest.last().push(s.last()))
        }
    }
}

proof fn lemma_split_nonempty(s: Seq<char>)
    ensures
        split_commas(s).len() >= 1,
    decreases s.len(),
{
    if s.len() > 0 {
        lemma_split_nonempty(s.drop_last());
    }
}

/// Some part of the declaration, trimmed, is `label`.
pub open spec fn has_part(parts: Seq<Seq<char>>, label: Seq<char>) -> bool {
    exists|i: int| 0 <= i < parts.len() && trimmed(#[trigger] parts[i]) == label
}

/// Whether a declared effects text says "nothing": `none` or empty.
pub open spec fn says_none(t: Seq<char>) -> bool {
    t == "none"@ || t.len() == 0
}

/// The profile an `@effects` text declares: after trimming, `none` or an
/// empty text is no effect; otherwise each comma-separated part names one
/// (unknown parts are ignored here and reported by `is_valid_effects`).
pub open spec fn effects_of_text(text: Seq<char>) -> EffectSet {
    let t = trimmed(text);
    if says_none(t) {
        EffectSet { io: false, chan: false, mut_: false, extern_: false }
    } else {
        let parts = split_commas(t);
        EffectSet {
            io: has_part(parts, "io"@),
            chan: has_part(parts, "chan"@),
            mut_: has_part(parts, "mut"@),
            extern_: has_part(parts, "extern"@),
        }
    }
}

pub open spec fn is_effect_label(p: Seq<char>) -> bool {
    p == "mut"@ || p == "io"@ || p == "chan"@ || p == "extern"@
}

/// An `@effects` text is valid when it says none or every part is a label.
pub open spec fn valid_effects_text(text: Seq<char>) -> bool {
    let t = trimmed(text);
    says_none(t) || forall|i: int| 0 <= i < split_commas(t).len() ==> is_effect_label(trimmed(#[trigger] split_commas(t)[i]))
}

/// The trimmed comma-separated parts of `t`.
fn trimmed_parts(t: &Vec<char>) -> (r: Vec<Vec<char>>)
    ensures
        r@.len() == split_commas(t@).len(),
        forall|i: int| 0 <= i < r@.len() ==> (#[trigger] r@[i])@ == trimmed(split_commas(t@)[i]),
{
    let mut parts: Vec<Vec<char>> = Vec::new();
    parts.push(Vec::new());
    let mut i: usize = 0;
    while i < t.len()
        invariant
            i <= t.len(),
            parts@.len() == split_commas(t@.take(i as int)).len(),
            forall|j: int| 0 <= j < parts@.len() ==> (#[trigger] parts@[j])@ == split_commas(t@.take(i as int))[j],
        decreases t.len() - i,
    {
        proof {
            assert(t@.take(i + 1).drop_last() == t@.take(i as int));
            lemma_split_nonempty(t@.take(i as int));
        }
        if t[i] == ',' {
            parts.push(Vec::new());
        } else {
            let last = parts.len() - 1;
            let mut cur = parts[last].clone();
            cur.push(t[i]);
            parts.set(last, cur);
        }
        i += 1;
    }
    proof {
        assert(t@.take(t.len() as int) == t@);
    }
    let mut r: Vec<Vec<char>> = Vec::new();
    let mut k: usize = 0;
    while k < parts.len()
        invariant
            k <= parts.len(),
            parts@.len() == split_commas(t@).len(),
            forall|j: int| 0 <= j < parts@.len() ==> (#[trigger] parts@[j])@ == split_commas(t@)[j],
            r@.len() == k,
            forall|j: int| 0 <= j < k ==> (#[trigger] r@[j])@ == trimmed(split_commas(t@)[j]),
        decreases parts.len() - k,
    {
        r.push(trim(&parts[k]));
        k += 1;
    }
    r
}

fn vec_is(v: &Vec<char>, s: &str) -> (r: bool)
    ensures
        r == (v@ == s@),
{
    let cs = chars_of(s);
    if v.len() != cs.len() {
        return false;
    }
    let mut i: usize = 0;
    while i < v.len()
        invariant
            i <= v.len(),
            v.len() == cs.len(),
            cs@ == s@,
            forall|j: int| 0 <= j < i ==> v@[j] == cs@[j],
        decreases v.len() - i,
    {
        if v[i] != cs[i] {
            return false;
        }
        i += 1;
    }
    assert(v@ =~= cs@);
    true
}

fn says_none_vec(t: &Vec<char>) -> (r: bool)
    ensures
        r == says_none(t@),
{
    t.len() == 0 || vec_is(t, "none")
}

/// The profile an `@effects` text declares.
pub fn effect_set_from_text(text: &str) -> (e: EffectSet)
    ensures
        e == effects_of_text(text@),
{
    let t = trim(&chars_of(text));
    if says_none_vec(&t) {
        return EffectSet::empty();
    }
    let parts = trimmed_parts(&t);
    let mut set = EffectSet::empty();
    let ghost sp = split_commas(t@);
    let mut i: usize = 0;
    while i < parts.len()
        invariant
            i <= parts.len(),
            parts@.len() == sp.len(),
            sp == split_commas(t@),
            forall|j: int| 0 <= j < parts@.len() ==> (#[trigger] parts@[j])@ == trimmed(sp[j]),
            set.io == exists|j: int| 0 <= j < i && trimmed(#[trigger] sp[j]) == "io"@,
            set.chan == exists|j: int| 0 <= j < i && trimmed(#[trigger] sp[j]) == "chan"@,
            set.mut_ == exists|j: int| 0 <= j < i && trimmed(#[trigger] sp[j]) == "mut"@,
            set.extern_ == exists|j: int| 0 <= j < i && trimmed(#[trigger] sp[j]) == "extern"@,
        decreases parts.len() - i,
    {
        let p = &parts[i];
        proof {
            assert(p@ == trimmed(sp[i as int]));
            reveal_strlit("mut");
            reveal_strlit("io");
            reveal_strlit("chan");
            reveal_strlit("extern");
        }
        if vec_is(p, "mut") {
            set.mut_ = true;
        } else if vec_is(p, "io") {
            set.io = true;
        } else if vec_is(p, "chan") {
            set.chan = true;
        } else if vec_is(p, "extern") {
            set.extern_ = true;
        }
        i += 1;
    }
    set
}

/// Whether every part of an `@effects` text is a known effect.
pub fn is_valid_effects(text: &str) -> (r: bool)
    ensures
        r == valid_effects_text(text@),
{
    let t = trim(&chars_of(text));
    if says_none_vec(&t) {
        return true;
    }
    let parts = trimmed_parts(&t);
    let ghost sp = split_commas(t@);
    let mut i: usize = 0;
    while i < parts.len()
        invariant
            i <= parts.len(),
            parts@.len() == sp.len(),
            sp == split_commas(t@),
            forall|j: int| 0 <= j < parts@.len() ==> (#[trigger] parts@[j])@ == trimmed(sp[j]),
            forall|j: int| 0 <= j < i ==> is_effect_label(trimmed(#[trigger] sp[j])),
            !says_none(t@),
            t@ == trimmed(text@),
        decreases parts.len() - i,
    {
        let p = &parts[i];
        if !(vec_is(p, "mut") || vec_is(p, "io") || vec_is(p, "chan") || vec_is(p, "extern")) {
            proof {
                assert(p@ == trimmed(sp[i as int]));
                assert(!is_effect_label(trimmed(sp[i as int])));
                assert(t@ == trimmed(text@));
            }
            return false;
        }
        i += 1;
    }
    true
}

/// The profile a doc comment's `@effects` lines declare (the last one wins).
pub fn effects_from_doc(d: &DocComment) -> (e: EffectSet)
    ensures
        e == doc_effects(d.claims@),
{
    let ghost cs = d.claims@;
    let mut set = EffectSet::empty();
    let mut i: usize = 0;
    while i < d.claims.len()
        invariant
            i <= d.claims.len(),
            cs == d.claims@,
            set == doc_effects(cs.take(i as int)),
        decreases d.claims.len() - i,
    {
        proof {
            assert(cs.take(i + 1).drop_last() == cs.take(i as int));
            assert(cs.take(i + 1).last() == cs[i as int]);
        }
        if d.claims[i].tag == DocTag::Effects {
            set = effect_set_from_text(d.claims[i].text.as_str());
        }
        i += 1;
    }
    proof {
        assert(cs.take(cs.len() as int) == cs);
    }
    set
}

/// Calls of these C library functions carry the `extern` effect.
pub fn is_extern(name: &str) -> (r: bool)
    ensures
        r == (name@ == "malloc"@ || name@ == "free"@ || name@ == "strlen"@ || name@ == "memcpy"@),
{
    str_eq(name, "malloc") || str_eq(name, "free") || str_eq(name, "strlen") || str_eq(name, "memcpy")
}

/// The profile with the one effect `io`, `chan`, `mut` or `extern` set.
pub open spec fn only_io() -> EffectSet {
    EffectSet { io: true, chan: false, mut_: false, extern_: false }
}

pub open spec fn only_chan() -> EffectSet {
    EffectSet { io: false, chan: true, mut_: false, extern_: false }
}

pub open spec fn only_mut() -> EffectSet {
    EffectSet { io: false, chan: false, mut_: true, extern_: false }
}

pub open spec fn only_extern() -> EffectSet {
    EffectSet { io: false, chan: false, mut_: false, extern_: true }
}

/// What a call of `n` adds: `print` is `io`; a function with declared
/// effects adds those, and a declared `extern func` adds `extern`;
/// otherwise a known C function is `extern`; anything else adds nothing.
pub open spec fn call_effects(n: Seq<char>, declared: Map<Seq<char>, EffectSet>) -> EffectSet {
    if n == "print"@ {
        only_io()
    } else if declared.dom().contains(n) {
        declared[n]
    } else if n == "malloc"@ || n == "free"@ || n == "strlen"@ || n == "memcpy"@ {
        only_extern()
    } else {
        no_effects()
    }
}

/// The effects an expression has: its subexpressions' effects, plus what
/// each call of a named function adds (method calls on values are pure),
/// plus `chan` for a send or a receive.
pub open spec fn expr_effects(e: Expr, d: Map<Seq<char>, EffectSet>) -> EffectSet
    decreases e,
{
    match e {
        Expr::Call(c, args) => {
            proof {
                assert(decreases_to!(args => args@));
            }
            let callee = match *c {
                Expr::Name(n) => call_effects(n@, d),
                Expr::Field(_, _) => no_effects(),
                _ => expr_effects(*c, d),
            };
            union_spec(exprs_effects(args@, d), callee)
        },
        Expr::Field(b, _) => expr_effects(*b, d),
        Expr::Index(b, i) => union_spec(expr_effects(*b, d), expr_effects(*i, d)),
        Expr::ListLit(es) => {
            proof {
                assert(decreases_to!(es => es@));
            }
            exprs_effects(es@, d)
        },
        Expr::SetLit(es) => {
            proof {
                assert(decreases_to!(es => es@));
            }
            exprs_effects(es@, d)
        },
        Expr::MapLit(ps) => {
            proof {
                assert(decreases_to!(ps => ps@));
            }
            pairs_effects(ps@, d)
        },
        Expr::Prop(b, _) => expr_effects(*b, d),
        Expr::Unary(_, a) => expr_effects(*a, d),
        Expr::Binary(_, a, b) => union_spec(expr_effects(*a, d), expr_effects(*b, d)),
        Expr::Cast(a, _) => expr_effects(*a, d),
        Expr::Match(s, arms) => {
            proof {
                assert(decreases_to!(arms => arms@));
            }
            union_spec(expr_effects(*s, d), arms_effects(arms@, d))
        },
        Expr::If(ifx) => {
            proof {
                assert(decreases_to!(ifx.elif => ifx.elif@));
            }
            let rest = match ifx.else_block {
                Some(b) => block_effects(b, d),
                None => no_effects(),
            };
            union_spec(
                union_spec(expr_effects(*ifx.cond, d), block_effects(ifx.then_block, d)),
                union_spec(elifs_effects(ifx.elif@, d), rest),
            )
        },
        Expr::Loop(b) => block_effects(b, d),
        Expr::For(_, it, b) => union_spec(expr_effects(*it, d), block_effects(b, d)),
        Expr::Await(a) => expr_effects(*a, d),
        Expr::Send(_, _) => only_chan(),
        Expr::Recv(_) => only_chan(),
        Expr::Transfer(a) => expr_effects(*a, d),
        Expr::OkOf(inner) => match inner {
            Some(v) => expr_effects(*v, d),
            None => no_effects(),
        },
        Expr::ErrOf(a) => expr_effects(*a, d),
        Expr::SomeOf(a) => expr_effects(*a, d),
        _ => no_effects(),
    }
}

pub open spec fn exprs_effects(es: Seq<Expr>, d: Map<Seq<char>, EffectSet>) -> EffectSet
    decreases es,
{
    if es.len() == 0 {
        no_effects()
    } else {
        proof {
            assert(decreases_to!(es => es.subrange(0, es.len() - 1)));
            assert(decreases_to!(es => es[es.len() - 1]));
        }
        union_spec(exprs_effects(es.drop_last(), d), expr_effects(es.last(), d))
    }
}

pub open spec fn pairs_effects(ps: Seq<(Expr, Expr)>, d: Map<Seq<char>, EffectSet>) -> EffectSet
    decreases ps,
{
    if ps.len() == 0 {
        no_effects()
    } else {
        proof {
            assert(decreases_to!(ps => ps.subrange(0, ps.len() - 1)));
            assert(decreases_to!(ps => ps[ps.len() - 1]));
            assert(decreases_to!(ps[ps.len() - 1] => ps[ps.len() - 1].0));
            assert(decreases_to!(ps[ps.len() - 1] => ps[ps.len() - 1].1));
        }
        union_spec(pairs_effects(ps.drop_last(), d), union_spec(expr_effects(ps.last().0, d), expr_effects(ps.last().1, d)))
    }
}

pub open spec fn arms_effects(arms: Seq<(Pattern, Box<Expr>)>, d: Map<Seq<char>, EffectSet>) -> EffectSet
    decreases arms,
{
    if arms.len() == 0 {
        no_effects()
    } else {
        proof {
            assert(decreases_to!(arms => arms.subrange(0, arms.len() - 1)));
            assert(decreases_to!(arms => arms[arms.len() - 1]));
            assert(decreases_to!(arms[arms.len() - 1] => arms[arms.len() - 1].1));
        }
        union_spec(arms_effects(arms.drop_last(), d), expr_effects(*arms.last().1, d))
    }
}

pub open spec fn elifs_effects(els: Seq<(Box<Expr>, Block)>, d: Map<Seq<char>, EffectSet>) -> EffectSet
    decreases els,
{
    if els.len() == 0 {
        no_effects()
    } else {
        proof {
            assert(decreases_to!(els => els.subrange(0, els.len() - 1)));
            assert(decreases_to!(els => els[els.len() - 1]));
            assert(decreases_to!(els[els.len() - 1] => els[els.len() - 1].0));
            assert(decreases_to!(els[els.len() - 1] => els[els.len() - 1].1));
        }
        union_spec(
            elifs_effects(els.drop_last(), d),
            union_spec(expr_effects(*els.last().0, d), block_effects(els.last().1, d)),
        )
    }
}

/// The effects of a block: a `mut` binding or an assignment is `mut`, a
/// receiving binding is `chan`, and its expressions add theirs.
pub open spec fn block_effects(b: Block, d: Map<Seq<char>, EffectSet>) -> EffectSet
    decreases b,
{
    proof {
        assert(decreases_to!(b => b.stmts));
        assert(decreases_to!(b.stmts => b.stmts@));
    }
    stmts_effects(b.stmts@, d)
}

pub open spec fn stmts_effects(ss: Seq<Stmt>, d: Map<Seq<char>, EffectSet>) -> EffectSet
    decreases ss,
{
    if ss.len() == 0 {
        no_effects()
    } else {
        proof {
            assert(decreases_to!(ss => ss.subrange(0, ss.len() - 1)));
            assert(decreases_to!(ss => ss[ss.len() - 1]));
        }
        union_spec(stmts_effects(ss.drop_last(), d), stmt_effects(ss.last(), d))
    }
}

pub open spec fn stmt_effects(s: Stmt, d: Map<Seq<char>, EffectSet>) -> EffectSet
    decreases s,
{
    proof {
        assert(decreases_to!(s => s.kind));
    }
    match s.kind {
        StmtKind::Decl(dc) => union_spec(
            EffectSet { io: false, chan: dc.recv, mut_: dc.mutable, extern_: false },
            match dc.init {
                Some(e) => expr_effects(*e, d),
                None => no_effects(),
            },
        ),
        StmtKind::Assign(a) => union_spec(only_mut(), expr_effects(*a.value, d)),
        StmtKind::Expr(e) => expr_effects(e, d),
        _ => no_effects(),
    }
}

proof fn lemma_exprs_cover(es: Seq<Expr>, d: Map<Seq<char>, EffectSet>, k: int)
    requires
        0 <= k < es.len(),
    ensures
        covers(exprs_effects(es, d), expr_effects(es[k], d)),
    decreases es.len(),
{
    if k < es.len() - 1 {
        lemma_exprs_cover(es.drop_last(), d, k);
    }
}

proof fn lemma_pairs_cover(ps: Seq<(Expr, Expr)>, d: Map<Seq<char>, EffectSet>, k: int)
    requires
        0 <= k < ps.len(),
    ensures
        covers(pairs_effects(ps, d), expr_effects(ps[k].0, d)),
        covers(pairs_effects(ps, d), expr_effects(ps[k].1, d)),
    decreases ps.len(),
{
    if k < ps.len() - 1 {
        lemma_pairs_cover(ps.drop_last(), d, k);
    }
}

proof fn lemma_arms_cover(arms: Seq<(Pattern, Box<Expr>)>, d: Map<Seq<char>, EffectSet>, k: int)
    requires
        0 <= k < arms.len(),
    ensures
        covers(arms_effects(arms, d), expr_effects(*arms[k].1, d)),
    decreases arms.len(),
{
    if k < arms.len() - 1 {
        lemma_arms_cover(arms.drop_last(), d, k);
    }
}

proof fn lemma_elifs_cover(els: Seq<(Box<Expr>, Block)>, d: Map<Seq<char>, EffectSet>, k: int)
    requires
        0 <= k < els.len(),
    ensures
        covers(elifs_effects(els, d), expr_effects(*els[k].0, d)),
        covers(elifs_effects(els, d), block_effects(els[k].1, d)),
    decreases els.len(),
{
    if k < els.len() - 1 {
        lemma_elifs_cover(els.drop_last(), d, k);
    }
}

proof fn lemma_stmts_cover(ss: Seq<Stmt>, d: Map<Seq<char>, EffectSet>, k: int)
    requires
        0 <= k < ss.len(),
    ensures
        covers(stmts_effects(ss, d), stmt_effects(ss[k], d)),
    decreases ss.len(),
{
    if k < ss.len() - 1 {
        lemma_stmts_cover(ss.drop_last(), d, k);
    }
}

/// A block has the effects of every statement in it, and a statement those
/// of the expression it evaluates.
pub proof fn law_block_effects_include_statements(b: Block, d: Map<Seq<char>, EffectSet>, k: int)
    requires
        0 <= k < b.stmts@.len(),
    ensures
        covers(block_effects(b, d), stmt_effects(b.stmts@[k], d)),
        b.stmts@[k].kind matches StmtKind::Expr(e) ==> covers(block_effects(b, d), expr_effects(e, d)),
        b.stmts@[k].kind matches StmtKind::Assign(a) ==> covers(block_effects(b, d), expr_effects(*a.value, d))
            && block_effects(b, d).mut_,
        b.stmts@[k].kind matches StmtKind::Decl(dc) ==> (dc.init matches Some(e) ==> covers(
            block_effects(b, d),
            expr_effects(*e, d),
        )),
        b.stmts@[k].kind matches StmtKind::Decl(dc) ==> (dc.mutable ==> block_effects(b, d).mut_) && (dc.recv
            ==> block_effects(b, d).chan),
{
    lemma_stmts_cover(b.stmts@, d, k);
}

/// A function's derived profile has every effect of its body, and `mut`
/// when one of its parameters is `mut`.
pub proof fn law_function_effects_include_body(f: FuncDecl, d: Map<Seq<char>, EffectSet>)
    ensures
        covers(func_derived(f, d), block_effects(f.body, d)),
        (exists|j: int| 0 <= j < f.params@.len() && (#[trigger] f.params@[j]).mutable) ==> func_derived(f, d).mut_,
{
}

/// An expression has the effects of each of its parts (its operands,
/// arguments, elements, conditions and blocks), and a call of `print` is
/// `io`; so an effect anywhere inside an expression, however deeply nested,
/// is an effect of the whole.
pub proof fn law_expr_effects_include_parts(e: Expr, d: Map<Seq<char>, EffectSet>)
    ensures
        e matches Expr::Call(c, args) ==> {
            &&& forall|k: int| 0 <= k < args@.len() ==> covers(expr_effects(e, d), expr_effects(#[trigger] args@[k], d))
            &&& (*c matches Expr::Name(n) && n@ == "print"@ ==> expr_effects(e, d).io)
            &&& (!(*c is Name) && !(*c is Field) ==> covers(expr_effects(e, d), expr_effects(*c, d)))
        },
        e matches Expr::Binary(_, a, b) ==> covers(expr_effects(e, d), expr_effects(*a, d)) && covers(
            expr_effects(e, d),
            expr_effects(*b, d),
        ),
        e matches Expr::Index(a, b) ==> covers(expr_effects(e, d), expr_effects(*a, d)) && covers(
            expr_effects(e, d),
            expr_effects(*b, d),
        ),
        e matches Expr::Field(a, _) ==> covers(expr_effects(e, d), expr_effects(*a, d)),
        e matches Expr::Prop(a, _) ==> covers(expr_effects(e, d), expr_effects(*a, d)),
        e matches Expr::Unary(_, a) ==> covers(expr_effects(e, d), expr_effects(*a, d)),
        e matches Expr::Cast(a, _) ==> covers(expr_effects(e, d), expr_effects(*a, d)),
        e matches Expr::Await(a) ==> covers(expr_effects(e, d), expr_effects(*a, d)),
        e matches Expr::Transfer(a) ==> covers(expr_effects(e, d), expr_effects(*a, d)),
        e matches Expr::ErrOf(a) ==> covers(expr_effects(e, d), expr_effects(*a, d)),
        e matches Expr::SomeOf(a) ==> covers(expr_effects(e, d), expr_effects(*a, d)),
        e matches Expr::OkOf(inner) ==> (inner matches Some(a) ==> covers(expr_effects(e, d), expr_effects(*a, d))),
        e matches Expr::ListLit(es) ==> forall|k: int| 0 <= k < es@.len() ==> covers(
            expr_effects(e, d),
            expr_effects(#[trigger] es@[k], d),
        ),
        e matches Expr::SetLit(es) ==> forall|k: int| 0 <= k < es@.len() ==> covers(
            expr_effects(e, d),
            expr_effects(#[trigger] es@[k], d),
        ),
        e matches Expr::MapLit(ps) ==> forall|k: int| 0 <= k < ps@.len() ==> covers(
            expr_effects(e, d),
            expr_effects((#[trigger] ps@[k]).0, d),
        ) && covers(expr_effects(e, d), expr_effects(ps@[k].1, d)),
        e matches Expr::Match(sub, arms) ==> covers(expr_effects(e, d), expr_effects(*sub, d)) && forall|k: int|
            0 <= k < arms@.len() ==> covers(expr_effects(e, d), expr_effects(*(#[trigger] arms@[k]).1, d)),
        e matches Expr::If(ifx) ==> {
            &&& covers(expr_effects(e, d), expr_effects(*ifx.cond, d))
            &&& covers(expr_effects(e, d), block_effects(ifx.then_block, d))
            &&& forall|k: int| 0 <= k < ifx.elif@.len() ==> covers(
                expr_effects(e, d),
                expr_effects(*(#[trigger] ifx.elif@[k]).0, d),
            ) && covers(expr_effects(e, d), block_effects(ifx.elif@[k].1, d))
            &&& (ifx.else_block matches Some(b) ==> covers(expr_effects(e, d), block_effects(b, d)))
        },
        e matches Expr::Loop(b) ==> covers(expr_effects(e, d), block_effects(b, d)),
        e matches Expr::For(_, it, b) ==> covers(expr_effects(e, d), expr_effects(*it, d)) && covers(
            expr_effects(e, d),
            block_effects(b, d),
        ),
        e is Send || e is Recv ==> expr_effects(e, d).chan,
{
    reveal_strlit("print");
    match e {
        Expr::Call(c, args) => {
            assert forall|k: int| 0 <= k < args@.len() implies covers(expr_effects(e, d), expr_effects(#[trigger] args@[k], d)) by {
                lemma_exprs_cover(args@, d, k);
            }
        },
        Expr::ListLit(es) => {
            assert forall|k: int| 0 <= k < es@.len() implies covers(expr_effects(e, d), expr_effects(#[trigger] es@[k], d)) by {
                lemma_exprs_cover(es@, d, k);
            }
        },
        Expr::SetLit(es) => {
            assert forall|k: int| 0 <= k < es@.len() implies covers(expr_effects(e, d), expr_effects(#[trigger] es@[k], d)) by {
                lemma_exprs_cover(es@, d, k);
            }
        },
        Expr::MapLit(ps) => {
            assert forall|k: int| 0 <= k < ps@.len() implies covers(expr_effects(e, d), expr_effects((#[trigger] ps@[k]).0, d))
                && covers(expr_effects(e, d), expr_effects(ps@[k].1, d)) by {
                lemma_pairs_cover(ps@, d, k);
            }
        },
        Expr::Match(sub, arms) => {
            assert forall|k: int| 0 <= k < arms@.len() implies covers(expr_effects(e, d), expr_effects(*(#[trigger] arms@[k]).1, d)) by {
                lemma_arms_cover(arms@, d, k);
            }
        },
        Expr::If(ifx) => {
            assert forall|k: int| 0 <= k < ifx.elif@.len() implies covers(expr_effects(e, d), expr_effects(*(#[trigger] ifx.elif@[k]).0, d))
                && covers(expr_effects(e, d), block_effects(ifx.elif@[k].1, d)) by {
                lemma_elifs_cover(ifx.elif@, d, k);
            }
        },
        _ => {},
    }
}

/// Adds a block's effects.
pub fn walk_block(block: &Block, set: &mut EffectSet, declared: &NameMap<EffectSet>)
    ensures
        *final(set) == union_spec(*old(set), block_effects(*block, declared@)),
    decreases block, 2nat,
{
    let ghost d = declared@;
    let ghost ss = block.stmts@;
    let mut i: usize = 0;
    while i < block.stmts.len()
        invariant
            i <= block.stmts.len(),
            ss == block.stmts@,
            d == declared@,
            *set == union_spec(*old(set), stmts_effects(ss.take(i as int), d)),
        decreases block.stmts.len() - i,
    {
        proof {
            assert(ss.take(i + 1).drop_last() == ss.take(i as int));
            assert(ss.take(i + 1).last() == ss[i as int]);
            assert(decreases_to!(*block => block.stmts));
            assert(decreases_to!(block.stmts => block.stmts[i as int]));
            assert(decreases_to!(block.stmts[i as int] => block.stmts[i as int].kind));
        }
        let ghost before = *set;
        match &block.stmts[i].kind {
            StmtKind::Decl(dc) => {
                if dc.mutable {
                    set.mut_ = true;
                }
                if dc.recv {
                    set.chan = true;
                }
                match &dc.init {
                    Some(e) => walk_expr(e, set, declared),
                    None => {}
                }
            }
            StmtKind::Assign(a) => {
                set.mut_ = true;
                walk_expr(&a.value, set, declared);
            }
            StmtKind::Expr(e) => walk_expr(e, set, declared),
            _ => {}
        }
        assert(*set == union_spec(before, stmt_effects(ss[i as int], d)));
        i += 1;
    }
    proof {
        assert(ss.take(ss.len() as int) == ss);
    }
}

fn walk_all(es: &Vec<Expr>, set: &mut EffectSet, declared: &NameMap<EffectSet>, Ghost(parent): Ghost<Expr>)
    requires
        forall|j: int| 0 <= j < es.len() ==> decreases_to!(parent => #[trigger] es@[j]),
    ensures
        *final(set) == union_spec(*old(set), exprs_effects(es@, declared@)),
    decreases parent, 0nat,
{
    let mut i: usize = 0;
    while i < es.len()
        invariant
            i <= es.len(),
            forall|j: int| 0 <= j < es.len() ==> decreases_to!(parent => #[trigger] es@[j]),
            *set == union_spec(*old(set), exprs_effects(es@.take(i as int), declared@)),
        decreases es.len() - i,
    {
        proof {
            assert(decreases_to!(parent => es@[i as int]));
            assert(es@.take(i + 1).drop_last() == es@.take(i as int));
            assert(es@.take(i + 1).last() == es@[i as int]);
        }
        walk_expr(&es[i], set, declared);
        i += 1;
    }
    proof {
        assert(es@.take(es.len() as int) == es@);
    }
}

/// Adds an expression's effects: `print` is `io`; a call of a function with
/// declared effects adds those (transitive propagation), and so does a call
/// of a declared `extern func` (`extern`); a call of a known C function is
/// `extern`; `send` and `recv` are `chan`; method calls on values
/// are pure.
#[verifier::rlimit(40)]
pub fn walk_expr(e: &Expr, set: &mut EffectSet, declared: &NameMap<EffectSet>)
    ensures
        *final(set) == union_spec(*old(set), expr_effects(*e, declared@)),
    decreases e, 1nat,
{
    match e {
        Expr::Int(_) | Expr::Float(_) | Expr::Char(_) | Expr::Str(_) | Expr::RawStr(_) | Expr::Bool(_)
        | Expr::NoneLit | Expr::Name(_) => {}
        Expr::Call(callee, args) => {
            proof {
                assert forall|j: int| 0 <= j < args.len() implies decreases_to!(*e => #[trigger] args@[j]) by {
                    assert(decreases_to!(*e => (*e)->Call_1));
                    assert(decreases_to!(*args => args[j]));
                }
            }
            walk_all(args, set, declared, Ghost(*e));
            match &**callee {
                Expr::Name(n) => {
                    if str_eq(n.as_str(), "print") {
                        set.io = true;
                    } else {
                        match declared.get(n.as_str()) {
                            Some(callee_effects) => set.merge(callee_effects),
                            None => {
                                if is_extern(n.as_str()) {
                                    set.extern_ = true;
                                }
                            }
                        }
                    }
                }
                Expr::Field(_, _) => {
                    // method calls on values are pure in the stdlib surface
                }
                _ => walk_expr(callee, set, declared),
            }
        }
        Expr::Field(base, _) => walk_expr(base, set, declared),
        Expr::Index(base, idx) => {
            walk_expr(base, set, declared);
            walk_expr(idx, set, declared);
        }
        Expr::ListLit(elems) => {
            proof {
                assert forall|j: int| 0 <= j < elems.len() implies decreases_to!(*e => #[trigger] elems@[j]) by {
                    assert(decreases_to!(*e => (*e)->ListLit_0));
                    assert(decreases_to!(*elems => elems[j]));
                }
            }
            walk_all(elems, set, declared, Ghost(*e));
        }
        Expr::SetLit(elems) => {
            proof {
                assert forall|j: int| 0 <= j < elems.len() implies decreases_to!(*e => #[trigger] elems@[j]) by {
                    assert(decreases_to!(*e => (*e)->SetLit_0));
                    assert(decreases_to!(*elems => elems[j]));
                }
            }
            walk_all(elems, set, declared, Ghost(*e));
        }
        Expr::MapLit(entries) => {
            let ghost ps = entries@;
            let mut i: usize = 0;
            while i < entries.len()
                invariant
                    i <= entries.len(),
                    *e == Expr::MapLit(*entries),
                    ps == entries@,
                    *set == union_spec(*old(set), pairs_effects(ps.take(i as int), declared@)),
                decreases entries.len() - i,
            {
                proof {
                    assert(decreases_to!(*e => (*e)->MapLit_0));
                    assert(decreases_to!(*entries => entries[i as int]));
                    assert(decreases_to!(entries[i as int] => entries[i as int].0));
                    assert(decreases_to!(entries[i as int] => entries[i as int].1));
                    assert(ps.take(i + 1).drop_last() == ps.take(i as int));
                    assert(ps.take(i + 1).last() == ps[i as int]);
                }
                walk_expr(&entries[i].0, set, declared);
                walk_expr(&entries[i].1, set, declared);
                i += 1;
            }
            proof {
                assert(ps.take(ps.len() as int) == ps);
            }
        }
        Expr::Prop(base, _) => walk_expr(base, set, declared),
        Expr::Unary(_, a) => walk_expr(a, set, declared),
        Expr::Binary(_, a, b) => {
            walk_expr(a, set, declared);
            walk_expr(b, set, declared);
        }
        Expr::Cast(a, _) => walk_expr(a, set, declared),
        Expr::Match(subject, arms) => {
            walk_expr(subject, set, declared);
            let ghost mid = *set;
            let ghost xs = arms@;
            let mut i: usize = 0;
            while i < arms.len()
                invariant
                    i <= arms.len(),
                    *e == Expr::Match(*subject, *arms),
                    xs == arms@,
                    *set == union_spec(mid, arms_effects(xs.take(i as int), declared@)),
                decreases arms.len() - i,
            {
                proof {
                    assert(decreases_to!(*e => (*e)->Match_1));
                    assert(decreases_to!(*arms => arms[i as int]));
                    assert(decreases_to!(arms[i as int] => arms[i as int].1));
                    assert(xs.take(i + 1).drop_last() == xs.take(i as int));
                    assert(xs.take(i + 1).last() == xs[i as int]);
                }
                walk_expr(&arms[i].1, set, declared);
                i += 1;
            }
            proof {
                assert(xs.take(xs.len() as int) == xs);
            }
        }
        Expr::If(ifx) => {
            walk_expr(&ifx.cond, set, declared);
            walk_block(&ifx.then_block, set, declared);
            let ghost mid = *set;
            let ghost xs = ifx.elif@;
            let mut i: usize = 0;
            while i < ifx.elif.len()
                invariant
                    i <= ifx.elif.len(),
                    *e == Expr::If(*ifx),
                    xs == ifx.elif@,
                    *set == union_spec(mid, elifs_effects(xs.take(i as int), declared@)),
                decreases ifx.elif.len() - i,
            {
                proof {
                    assert(decreases_to!(*e => (*e)->If_0));
                    assert(decreases_to!(*ifx => ifx.elif));
                    assert(decreases_to!(ifx.elif => ifx.elif[i as int]));
                    assert(decreases_to!(ifx.elif[i as int] => ifx.elif[i as int].0));
                    assert(decreases_to!(ifx.elif[i as int] => ifx.elif[i as int].1));
                    assert(xs.take(i + 1).drop_last() == xs.take(i as int));
                    assert(xs.take(i + 1).last() == xs[i as int]);
                }
                walk_expr(&ifx.elif[i].0, set, declared);
                walk_block(&ifx.elif[i].1, set, declared);
                i += 1;
            }
            proof {
                assert(xs.take(xs.len() as int) == xs);
            }
            match &ifx.else_block {
                Some(b) => walk_block(b, set, declared),
                None => {}
            }
        }
        Expr::Loop(b) => walk_block(b, set, declared),
        Expr::For(_, iter, b) => {
            walk_expr(iter, set, declared);
            walk_block(b, set, declared);
        }
        Expr::Await(a) => walk_expr(a, set, declared),
        Expr::Send(_, _) => {
            set.chan = true;
        }
        Expr::Recv(_) => {
            set.chan = true;
        }
        Expr::Transfer(a) => walk_expr(a, set, declared),
        Expr::OkOf(inner) => {
            match inner {
                Some(v) => walk_expr(v, set, declared),
                None => {}
            }
        }
        Expr::ErrOf(a) => walk_expr(a, set, declared),
        Expr::SomeOf(a) => walk_expr(a, set, declared),
    }
}

/// Whether an item needs an intent comment and lacks one: a function other
/// than `main`, or a task.
pub open spec fn missing_doc(it: Item) -> bool {
    match it {
        Item::Func(f) => f.name@ != "main"@ && f.doc is None,
        Item::Task(t) => t.doc is None,
        _ => false,
    }
}

/// Every error carries an intent code (`I` and its number).
pub open spec fn codes_ok(errs: Seq<IntentError>) -> bool {
    forall|i: int| 0 <= i < errs.len() ==> (#[trigger] errs[i]).code@.len() > 0 && errs[i].code@[0] == 'I'
}

/// Checking added an error with intent code `code`.
pub open spec fn code_reported(before: Seq<IntentError>, after: Seq<IntentError>, code: Seq<char>) -> bool {
    exists|k: int| before.len() <= k < after.len() && (#[trigger] after[k]).code@ == code
}

/// A function (not `main`) whose first `@effects` line declares other
/// effects than its body has.
pub open spec fn effects_mismatch(it: Item, d: Map<Seq<char>, EffectSet>) -> bool {
    it matches Item::Func(f) && f.name@ != "main"@ && (f.doc matches Some(dc) && (first_effects(dc.claims@) matches Some(t)
        && effects_of_text(t) != func_derived(f, d)))
}

proof fn lemma_code_grows(before: Seq<IntentError>, a: Seq<IntentError>, b: Seq<IntentError>, code: Seq<char>)
    requires
        code_reported(before, a, code),
        a.is_prefix_of(b),
        before.len() <= a.len(),
    ensures
        code_reported(before, b, code),
{
    let k = choose|k: int| before.len() <= k < a.len() && (#[trigger] a[k]).code@ == code;
    assert(b[k] == a[k]);
}

/// The intent code with the given number, e.g. `I0020` for `0020`.
fn intent_code(digits: &str) -> (c: String)
    ensures
        c@.len() > 0 && c@[0] == 'I',
        c@ == "I"@ + digits@,
{
    let c = concat3("I", digits, "");
    proof {
        reveal_strlit("I");
        reveal_strlit("");
    }
    c
}

/// A documented item with no `@effects` line.
pub open spec fn lacks_effects(it: Item) -> bool {
    match it {
        Item::Func(f) => f.name@ != "main"@ && (f.doc matches Some(d) && no_effects_claim(d.claims@)),
        Item::Task(t) => t.doc matches Some(d) && no_effects_claim(d.claims@),
        _ => false,
    }
}

pub open spec fn no_effects_claim(cs: Seq<DocClaim>) -> bool {
    forall|k: int| 0 <= k < cs.len() ==> !(#[trigger] cs[k].tag is Effects)
}

/// A function (other than `main`) with a `@trusted` stamp on a claim other
/// than `@ensures` / `@requires`.
pub open spec fn misplaced_trust(it: Item) -> bool {
    it matches Item::Func(f) && (f.name@ != "main"@ && (f.doc matches Some(d) && exists|k: int|
        0 <= k < d.claims@.len() && (#[trigger] d.claims@[k]).trusted && !(d.claims@[k].tag is Ensures)
            && !(d.claims@[k].tag is Requires)))
}

/// A function (other than `main`) with a `@trusted` claim and no review note.
pub open spec fn unreviewed_trust(it: Item) -> bool {
    it matches Item::Func(f) && (f.name@ != "main"@ && (f.doc matches Some(d) && exists|k: int|
        0 <= k < d.claims@.len() && (#[trigger] d.claims@[k]).trusted && !d.claims@[k].reviewed))
}

/// The failures every mode reports: a missing intent comment, a missing
/// `@effects` line, a misplaced `@trusted`.
pub open spec fn always_fails(items: Seq<Item>) -> bool {
    exists|i: int| 0 <= i < items.len() && (missing_doc(#[trigger] items[i]) || lacks_effects(items[i]) || misplaced_trust(items[i]))
}

/// The profile the last `@effects` line among `cs` declares, or no effect
/// without one.
pub open spec fn doc_effects(cs: Seq<DocClaim>) -> EffectSet
    decreases cs.len(),
{
    if cs.len() == 0 {
        no_effects()
    } else if cs.last().tag is Effects {
        effects_of_text(cs.last().text@)
    } else {
        doc_effects(cs.drop_last())
    }
}

/// The declared profile of each documented function, by name, and the
/// `extern` profile of each declared `extern func` (a later declaration of
/// a name replaces an earlier one).
pub open spec fn declared_effects(items: Seq<Item>) -> Map<Seq<char>, EffectSet>
    decreases items.len(),
{
    if items.len() == 0 {
        Map::empty()
    } else {
        let m = declared_effects(items.drop_last());
        match items.last() {
            Item::Func(f) => match f.doc {
                Some(dc) => m.insert(f.name@, doc_effects(dc.claims@)),
                None => m,
            },
            Item::Extern(e) => m.insert(e.name@, only_extern()),
            _ => m,
        }
    }
}

/// The text of the first `@effects` line among `cs`.
pub open spec fn first_effects(cs: Seq<DocClaim>) -> Option<Seq<char>>
    decreases cs.len(),
{
    if cs.len() == 0 {
        None
    } else {
        match first_effects(cs.drop_last()) {
            Some(t) => Some(t),
            None => if cs.last().tag is Effects {
                Some(cs.last().text@)
            } else {
                None
            },
        }
    }
}

/// How many claims carry `tag`.
pub open spec fn count_claims(cs: Seq<DocClaim>, tag: DocTag) -> nat
    decreases cs.len(),
{
    if cs.len() == 0 {
        0
    } else {
        count_claims(cs.drop_last(), tag) + if cs.last().tag == tag { 1nat } else { 0nat }
    }
}

/// How many `pre` (`post` when `post` is set) contracts there are.
pub open spec fn count_contracts(cs: Seq<Contract>, post: bool) -> nat
    decreases cs.len(),
{
    if cs.len() == 0 {
        0
    } else {
        count_contracts(cs.drop_last(), post) + if (post && cs.last() is Post) || (!post && cs.last() is Pre) {
            1nat
        } else {
            0nat
        }
    }
}

/// A natural-language `@requires` or `@ensures` claim lacks its formal
/// contract.
pub open spec fn pairing_fails(f: FuncDecl, cs: Seq<DocClaim>) -> bool {
    count_claims(cs, DocTag::Requires) > count_contracts(f.contracts@, false)
        || count_claims(cs, DocTag::Ensures) > count_contracts(f.contracts@, true)
}

/// A `@trusted` stamp sits on a claim other than `@ensures`/`@requires`, or,
/// in strict mode, has no review note.
pub open spec fn trust_fails(cs: Seq<DocClaim>, strict: bool) -> bool {
    exists|k: int| 0 <= k < cs.len() && (#[trigger] cs[k]).trusted && ((!(cs[k].tag is Ensures) && !(cs[k].tag is Requires))
        || (strict && !cs[k].reviewed))
}

/// The declared effects are missing, name an unknown effect, or differ from
/// the derived ones.
pub open spec fn effects_fail(cs: Seq<DocClaim>, derived: EffectSet) -> bool {
    match first_effects(cs) {
        None => true,
        Some(t) => !valid_effects_text(t) || effects_of_text(t) != derived,
    }
}

/// Some parameter is `mut`.
pub open spec fn has_mut_param(ps: Seq<Param>) -> bool {
    exists|j: int| 0 <= j < ps.len() && (#[trigger] ps[j]).mutable
}

/// The derived profile of a function: `mut` for a `mut` parameter, and the
/// effects of its body.
pub open spec fn func_derived(f: FuncDecl, d: Map<Seq<char>, EffectSet>) -> EffectSet {
    union_spec(
        EffectSet { io: false, chan: false, mut_: has_mut_param(f.params@), extern_: false },
        block_effects(f.body, d),
    )
}

/// A function fails its intent checks.
pub open spec fn func_fails(f: FuncDecl, d: Map<Seq<char>, EffectSet>, strict: bool) -> bool {
    match f.doc {
        None => true,
        Some(dc) => pairing_fails(f, dc.claims@) || trust_fails(dc.claims@, strict) || effects_fail(
            dc.claims@,
            func_derived(f, d),
        ),
    }
}

/// A task fails its intent checks.
pub open spec fn task_fails(t: TaskDecl, d: Map<Seq<char>, EffectSet>) -> bool {
    match t.doc {
        None => true,
        Some(dc) => effects_fail(dc.claims@, block_effects(t.body, d)),
    }
}

/// An item fails its intent checks (`main` is exempt; records, enums,
/// channels and externs have none).
pub open spec fn item_fails(it: Item, d: Map<Seq<char>, EffectSet>, strict: bool) -> bool {
    match it {
        Item::Func(f) => f.name@ != "main"@ && func_fails(f, d, strict),
        Item::Task(t) => task_fails(t, d),
        _ => false,
    }
}

/// Some item of the program fails its intent checks.
pub open spec fn intent_fails(items: Seq<Item>, strict: bool) -> bool {
    exists|i: int| 0 <= i < items.len() && item_fails(#[trigger] items[i], declared_effects(items), strict)
}

/// Strict mode rejects every program the default mode rejects: it only adds
/// the review-note requirement.
pub proof fn law_strict_rejects_more(items: Seq<Item>)
    ensures
        intent_fails(items, false) ==> intent_fails(items, true),
{
    if intent_fails(items, false) {
        let d = declared_effects(items);
        let i = choose|i: int| 0 <= i < items.len() && item_fails(#[trigger] items[i], d, false);
        match items[i] {
            Item::Func(f) => {
                match f.doc {
                    Some(dc) => {
                        if trust_fails(dc.claims@, false) {
                            let k = choose|k: int| 0 <= k < dc.claims@.len() && (#[trigger] dc.claims@[k]).trusted
                                && ((!(dc.claims@[k].tag is Ensures) && !(dc.claims@[k].tag is Requires))
                                || (false && !dc.claims@[k].reviewed));
                            assert(dc.claims@[k].trusted);
                            assert(trust_fails(dc.claims@, true));
                        }
                    }
                    None => {}
                }
            }
            _ => {}
        }
        assert(item_fails(items[i], d, true));
    }
}

/// What strict mode rejects beyond the default mode comes only from a
/// `@trusted` claim without a review note.
pub proof fn law_strict_adds_only_review_notes(items: Seq<Item>)
    ensures
        intent_fails(items, true) && !intent_fails(items, false) ==> exists|i: int| 0 <= i < items.len()
            && unreviewed_trust(#[trigger] items[i]),
{
    if intent_fails(items, true) && !intent_fails(items, false) {
        let d = declared_effects(items);
        let i = choose|i: int| 0 <= i < items.len() && item_fails(#[trigger] items[i], d, true);
        assert(!item_fails(items[i], d, false));
        match items[i] {
            Item::Func(f) => {
                match f.doc {
                    Some(dc) => {
                        assert(trust_fails(dc.claims@, true) && !trust_fails(dc.claims@, false));
                        let k = choose|k: int| 0 <= k < dc.claims@.len() && (#[trigger] dc.claims@[k]).trusted
                            && ((!(dc.claims@[k].tag is Ensures) && !(dc.claims@[k].tag is Requires))
                            || (true && !dc.claims@[k].reviewed));
                        assert(!dc.claims@[k].reviewed);
                        assert(unreviewed_trust(items[i]));
                    }
                    None => {}
                }
            }
            _ => {}
        }
    }
}

pub struct IntentChecker {
    errors: Vec<IntentError>,
    /// function name -> declared @effects profile (for transitive propagation)
    declared: NameMap<EffectSet>,
    /// strict mode: a trusted claim without a review note blocks the build
    strict: bool,
}

/// Checks intent claims; `@trusted` claims need no review note. Passes
/// exactly when no function or task fails its checks.
pub fn check_intent(program: &Program) -> (r: Result<(), Vec<IntentError>>)
    ensures
        (exists|i: int| 0 <= i < program.items@.len() && effects_mismatch(#[trigger] program.items@[i], declared_effects(
            program.items@,
        ))) ==> (r matches Err(v) && code_reported(Seq::empty(), v@, "I0020"@)),
        r is Ok <==> !intent_fails(program.items@, false),
        r matches Err(v) ==> v.len() > 0 && codes_ok(v@),
        always_fails(program.items@) ==> r is Err,
{
    run(program, false)
}

/// Checks intent claims; a `@trusted` claim without a review note is an
/// error. Passes exactly when no function or task fails its checks.
pub fn check_intent_strict(program: &Program) -> (r: Result<(), Vec<IntentError>>)
    ensures
        (exists|i: int| 0 <= i < program.items@.len() && unreviewed_trust(#[trigger] program.items@[i]))
            ==> (r matches Err(v) && code_reported(Seq::empty(), v@, "I0004"@)),
        (exists|i: int| 0 <= i < program.items@.len() && effects_mismatch(#[trigger] program.items@[i], declared_effects(
            program.items@,
        ))) ==> (r matches Err(v) && code_reported(Seq::empty(), v@, "I0020"@)),
        r is Ok <==> !intent_fails(program.items@, true),
        r matches Err(v) ==> v.len() > 0 && codes_ok(v@),
        always_fails(program.items@) ==> r is Err,
        (exists|i: int| 0 <= i < program.items@.len() && unreviewed_trust(#[trigger] program.items@[i])) ==> r is Err,
{
    run(program, true)
}

fn run(program: &Program, strict: bool) -> (r: Result<(), Vec<IntentError>>)
    ensures
        strict && (exists|i: int| 0 <= i < program.items@.len() && unreviewed_trust(#[trigger] program.items@[i]))
            ==> (r matches Err(v) && code_reported(Seq::empty(), v@, "I0004"@)),
        (exists|i: int| 0 <= i < program.items@.len() && effects_mismatch(#[trigger] program.items@[i], declared_effects(
            program.items@,
        ))) ==> (r matches Err(v) && code_reported(Seq::empty(), v@, "I0020"@)),
        r is Ok <==> !intent_fails(program.items@, strict),
        r matches Err(v) ==> v.len() > 0 && codes_ok(v@),
        always_fails(program.items@) ==> r is Err,
        strict && (exists|i: int| 0 <= i < program.items@.len() && unreviewed_trust(#[trigger] program.items@[i]))
            ==> r is Err,
{
    let ghost items = program.items@;
    let mut ic = IntentChecker { errors: Vec::new(), declared: NameMap::new(), strict: strict };
    ic.collect_declared(program);
    let ghost d = declared_effects(items);
    let mut i: usize = 0;
    while i < program.items.len()
        invariant
            i <= program.items.len(),
            items == program.items@,
            d == declared_effects(items),
            ic.declared@ == d,
            (ic.errors@.len() > 0) == exists|j: int| 0 <= j < i && item_fails(#[trigger] items[j], d, strict),
            (exists|j: int| 0 <= j < i && (missing_doc(#[trigger] program.items@[j]) || lacks_effects(program.items@[j])
                || misplaced_trust(program.items@[j]))) ==> ic.errors@.len() > 0,
            ic.strict == strict,
            strict && (exists|j: int| 0 <= j < i && unreviewed_trust(#[trigger] program.items@[j])) ==> ic.errors@.len() > 0,
            codes_ok(ic.errors@),
            forall|j: int| 0 <= j < i && effects_mismatch(#[trigger] items[j], d) ==> code_reported(
                Seq::empty(),
                ic.errors@,
                "I0020"@,
            ),
            strict ==> forall|j: int| 0 <= j < i && unreviewed_trust(#[trigger] items[j]) ==> code_reported(
                Seq::empty(),
                ic.errors@,
                "I0004"@,
            ),
        decreases program.items.len() - i,
    {
        let ghost before = ic.errors@.len();
        let ghost before_v = ic.errors@;
        match &program.items[i] {
            Item::Func(f) => {
                if !str_eq(f.name.as_str(), "main") {
                    ic.check_func(f);
                }
            }
            Item::Task(t) => {
                ic.check_task(t);
            }
            _ => {}
        }
        proof {
            assert forall|j: int| 0 <= j < i + 1 && effects_mismatch(#[trigger] items[j], d) implies code_reported(
                Seq::empty(),
                ic.errors@,
                "I0020"@,
            ) by {
                if j < i {
                    lemma_code_grows(Seq::empty(), before_v, ic.errors@, "I0020"@);
                } else {
                    let k = choose|k: int| before_v.len() <= k < ic.errors@.len() && (#[trigger] ic.errors@[k]).code@
                        == "I0020"@;
                    assert(0 <= k);
                }
            }
            if strict {
                assert forall|j: int| 0 <= j < i + 1 && unreviewed_trust(#[trigger] items[j]) implies code_reported(
                    Seq::empty(),
                    ic.errors@,
                    "I0004"@,
                ) by {
                    if j < i {
                        lemma_code_grows(Seq::empty(), before_v, ic.errors@, "I0004"@);
                    } else {
                        let k = choose|k: int| before_v.len() <= k < ic.errors@.len() && (#[trigger] ic.errors@[k]).code@
                            == "I0004"@;
                        assert(0 <= k);
                    }
                }
            }
            assert((ic.errors@.len() > before) == item_fails(items[i as int], d, strict));
            if exists|j: int| 0 <= j < i + 1 && item_fails(#[trigger] items[j], d, strict) {
                if !item_fails(items[i as int], d, strict) {
                    let j = choose|j: int| 0 <= j < i + 1 && item_fails(#[trigger] items[j], d, strict);
                    assert(j < i);
                }
            }
        }
        i += 1;
    }
    if ic.errors.len() > 0 {
        return Err(ic.errors);
    }
    Ok(())
}

/// Texts joined with commas.
pub open spec fn join_commas(s: Seq<Seq<char>>) -> Seq<char>
    decreases s.len(),
{
    if s.len() == 0 {
        Seq::empty()
    } else if s.len() == 1 {
        s[0]
    } else {
        join_commas(s.drop_last()) + ","@ + s.last()
    }
}

/// How a profile is named in messages: its labels in alphabetical order,
/// joined by commas, or `none` when it has no effect.
pub open spec fn profile_text(e: EffectSet) -> Seq<char> {
    if sorted_labels(e).len() == 0 {
        "none"@
    } else {
        join_commas(sorted_labels(e))
    }
}

/// Appends `label` to a comma-joined list of `prev` labels.
fn push_label(s: &mut String, first: bool, label: &str, Ghost(prev): Ghost<Seq<Seq<char>>>)
    requires
        old(s)@ == join_commas(prev),
        first == (prev.len() == 0),
    ensures
        final(s)@ == join_commas(prev.push(label@)),
{
    if !first {
        push_str(s, ",");
    }
    push_str(s, label);
    proof {
        assert(prev.push(label@).drop_last() == prev);
        if prev.len() == 0 {
            assert(old(s)@ == Seq::<char>::empty());
            assert(prev.push(label@)[0] == label@);
        }
    }
}

fn count_tag(claims: &Vec<DocClaim>, tag: DocTag) -> (n: usize)
    ensures
        n == count_claims(claims@, tag),
{
    let ghost cs = claims@;
    let mut n: usize = 0;
    let mut i: usize = 0;
    while i < claims.len()
        invariant
            i <= claims.len(),
            cs == claims@,
            n <= i,
            n == count_claims(cs.take(i as int), tag),
        decreases claims.len() - i,
    {
        proof {
            assert(cs.take(i + 1).drop_last() == cs.take(i as int));
            assert(cs.take(i + 1).last() == cs[i as int]);
        }
        if claims[i].tag == tag {
            n += 1;
        }
        i += 1;
    }
    proof {
        assert(cs.take(cs.len() as int) == cs);
    }
    n
}

/// The labels of a profile in alphabetical order, joined by commas, or
/// `none` when there is no effect.
fn sorted_label_text(e: &EffectSet) -> (s: String)
    ensures
        s@ == profile_text(*e),
{
    let mut s = String::new();
    let mut first = true;
    let ghost mut done: Seq<Seq<char>> = Seq::empty();
    if e.chan {
        push_label(&mut s, first, "chan", Ghost(done));
        proof { done = done.push("chan"@); }
        first = false;
    }
    assert(done == (if e.chan { seq!["chan"@] } else { Seq::<Seq<char>>::empty() }));
    if e.extern_ {
        push_label(&mut s, first, "extern", Ghost(done));
        proof { done = done.push("extern"@); }
        first = false;
    }
    if e.io {
        push_label(&mut s, first, "io", Ghost(done));
        proof { done = done.push("io"@); }
        first = false;
    }
    if e.mut_ {
        push_label(&mut s, first, "mut", Ghost(done));
        proof { done = done.push("mut"@); }
        first = false;
    }
    assert(done =~= sorted_labels(*e));
    if first {
        push_str(&mut s, "none");
    }
    s
}

fn label_count(e: &EffectSet) -> (n: usize)
    ensures
        n == sorted_labels(*e).len(),
{
    let mut n: usize = 0;
    if e.chan {
        n += 1;
    }
    if e.extern_ {
        n += 1;
    }
    if e.io {
        n += 1;
    }
    if e.mut_ {
        n += 1;
    }
    n
}

impl IntentChecker {
    /// Registers each documented function's declared `@effects`, so calls
    /// can propagate them.
    fn collect_declared(&mut self, program: &Program)
        requires
            old(self).declared@ == Map::<Seq<char>, EffectSet>::empty(),
        ensures
            final(self).errors@ == old(self).errors@,
            final(self).strict == old(self).strict,
            final(self).declared@ == declared_effects(program.items@),
    {
        let ghost items = program.items@;
        let mut i: usize = 0;
        while i < program.items.len()
            invariant
                i <= program.items.len(),
                items == program.items@,
                self.errors@ == old(self).errors@,
                self.strict == old(self).strict,
                self.declared@ == declared_effects(items.take(i as int)),
            decreases program.items.len() - i,
        {
            proof {
                assert(items.take(i + 1).drop_last() == items.take(i as int));
                assert(items.take(i + 1).last() == items[i as int]);
            }
            match &program.items[i] {
                Item::Func(f) => {
                    match &f.doc {
                        Some(d) => {
                            let set = effects_from_doc(d);
                            self.declared.insert(f.name.clone(), set);
                        }
                        None => {}
                    }
                }
                Item::Extern(e) => {
                    let set = EffectSet { io: false, chan: false, mut_: false, extern_: true };
                    self.declared.insert(e.name.clone(), set);
                }
                _ => {}
            }
            i += 1;
        }
        proof {
            assert(items.take(items.len() as int) == items);
        }
    }

    fn error(&mut self, digits: &str, message: String, span: Span)
        requires
            codes_ok(old(self).errors@),
        ensures
            final(self).errors@.len() == old(self).errors@.len() + 1,
            final(self).errors@.drop_last() == old(self).errors@,
            final(self).errors@.last().code@ == "I"@ + digits@,
            final(self).declared@ == old(self).declared@,
            final(self).strict == old(self).strict,
            codes_ok(final(self).errors@),
    {
        let code = intent_code(digits);
        self.errors.push(IntentError { code: code, message: message, span: span, suggestion: None });
    }

    fn check_task(&mut self, t: &TaskDecl)
        requires
            codes_ok(old(self).errors@),
        ensures
            codes_ok(final(self).errors@),
            old(self).errors@.is_prefix_of(final(self).errors@),
            (final(self).errors@.len() > old(self).errors@.len()) == task_fails(*t, old(self).declared@),
            t.doc is None ==> final(self).errors@.len() > old(self).errors@.len(),
            (t.doc matches Some(d) && no_effects_claim(d.claims@)) ==> final(self).errors@.len() > old(self).errors@.len(),
            final(self).strict == old(self).strict,
            final(self).declared@ == old(self).declared@,
    {
        let doc = match &t.doc {
            Some(d) => d,
            None => {
                let m = concat3("missing intent comment on task '", t.name.as_str(), "'");
                self.error("0022", m, t.span.clone());
                return;
            }
        };
        let mut derived = EffectSet::empty();
        walk_block(&t.body, &mut derived, &self.declared);
        self.check_effects(&doc.claims, t.name.as_str(), t.span.clone(), derived);
    }

    fn check_func(&mut self, f: &FuncDecl)
        requires
            codes_ok(old(self).errors@),
        ensures
            codes_ok(final(self).errors@),
            old(self).errors@.is_prefix_of(final(self).errors@),
            (final(self).errors@.len() > old(self).errors@.len()) == func_fails(*f, old(self).declared@, old(self).strict),
            f.doc is None ==> final(self).errors@.len() > old(self).errors@.len(),
            (f.doc matches Some(d) && no_effects_claim(d.claims@)) ==> final(self).errors@.len() > old(self).errors@.len(),
            (f.doc matches Some(d) && exists|k: int| 0 <= k < d.claims@.len() && (#[trigger] d.claims@[k]).trusted
                && !(d.claims@[k].tag is Ensures) && !(d.claims@[k].tag is Requires))
                ==> final(self).errors@.len() > old(self).errors@.len(),
            old(self).strict ==> ((f.doc matches Some(d) && exists|k: int| 0 <= k < d.claims@.len()
                && (#[trigger] d.claims@[k]).trusted && !d.claims@[k].reviewed)
                ==> final(self).errors@.len() > old(self).errors@.len()),
            final(self).strict == old(self).strict,
            final(self).declared@ == old(self).declared@,
            f.doc matches Some(d) ==> (first_effects(d.claims@) matches Some(t) ==> (effects_of_text(t) != func_derived(
                *f,
                old(self).declared@,
            ) ==> code_reported(old(self).errors@, final(self).errors@, "I0020"@))),
            old(self).strict ==> ((f.doc matches Some(d) && exists|k: int| 0 <= k < d.claims@.len()
                && (#[trigger] d.claims@[k]).trusted && !d.claims@[k].reviewed) ==> code_reported(
                old(self).errors@,
                final(self).errors@,
                "I0004"@,
            )),
    {
        let doc = match &f.doc {
            Some(d) => d,
            None => {
                let m = concat3("missing intent comment on public function '", f.name.as_str(), "'");
                self.error("0022", m, f.span.clone());
                return;
            }
        };
        let ghost cs = doc.claims@;
        let ghost start0 = self.errors@.len();
        // 1. each natural-language claim is paired with a formal contract
        let nl_requires = count_tag(&doc.claims, DocTag::Requires);
        let nl_ensures = count_tag(&doc.claims, DocTag::Ensures);
        let ghost ks = f.contracts@;
        let mut formal_pre: usize = 0;
        let mut formal_post: usize = 0;
        let mut i: usize = 0;
        while i < f.contracts.len()
            invariant
                i <= f.contracts.len(),
                ks == f.contracts@,
                formal_pre <= i,
                formal_post <= i,
                formal_pre == count_contracts(ks.take(i as int), false),
                formal_post == count_contracts(ks.take(i as int), true),
            decreases f.contracts.len() - i,
        {
            proof {
                assert(ks.take(i + 1).drop_last() == ks.take(i as int));
                assert(ks.take(i + 1).last() == ks[i as int]);
            }
            match &f.contracts[i] {
                Contract::Pre(_) => formal_pre += 1,
                Contract::Post(_) => formal_post += 1,
                _ => {}
            }
            i += 1;
        }
        proof {
            assert(ks.take(ks.len() as int) == ks);
        }
        if nl_requires > formal_pre {
            let m = concat3("'@requires' claim without a paired 'pre' contract on '", f.name.as_str(), "'");
            self.error("0021", m, f.span.clone());
        }
        if nl_ensures > formal_post {
            let m = concat3("'@ensures' claim without a paired 'post' contract on '", f.name.as_str(), "'");
            self.error("0021", m, f.span.clone());
        }
        assert((self.errors@.len() > start0) == pairing_fails(*f, cs));
        // 2. `@trusted` sits only on @ensures / @requires, and in strict mode
        //    needs a review note
        let ghost start = self.errors@.len();
        let mut k: usize = 0;
        while k < doc.claims.len()
            invariant
                k <= doc.claims.len(),
                cs == doc.claims@,
                self.errors@.len() >= start,
                old(self).errors@.is_prefix_of(self.errors@),
                start >= old(self).errors@.len(),
                self.strict == old(self).strict,
                self.declared@ == old(self).declared@,
                codes_ok(self.errors@),
                (self.errors@.len() > start) == exists|q: int| 0 <= q < k && (#[trigger] cs[q]).trusted
                    && ((!(cs[q].tag is Ensures) && !(cs[q].tag is Requires)) || (self.strict && !cs[q].reviewed)),
                (exists|q: int| 0 <= q < k && (#[trigger] doc.claims@[q]).trusted && !(doc.claims@[q].tag is Ensures)
                    && !(doc.claims@[q].tag is Requires)) ==> self.errors@.len() > start,
                (self.strict && exists|q: int| 0 <= q < k && (#[trigger] doc.claims@[q]).trusted && !doc.claims@[q].reviewed)
                    ==> self.errors@.len() > start,
                (self.strict && exists|q: int| 0 <= q < k && (#[trigger] doc.claims@[q]).trusted && !doc.claims@[q].reviewed)
                    ==> code_reported(old(self).errors@, self.errors@, "I0004"@),
            decreases doc.claims.len() - k,
        {
            let c = &doc.claims[k];
            let ghost before = self.errors@.len();
            let ghost before_v = self.errors@;
            if c.trusted {
                if c.tag != DocTag::Ensures && c.tag != DocTag::Requires {
                    let m = concat3("'@trusted' must attach to an @ensures or @requires claim on '", f.name.as_str(), "'");
                    self.error("0003", m, c.span.clone());
                }
                if self.strict && !c.reviewed {
                    let m = concat3(
                        "@trusted claim on '",
                        f.name.as_str(),
                        "' is untrusted: missing review note ('// reviewed by <who> on <date>')",
                    );
                    self.error("0004", m, c.span.clone());
                    proof {
                        reveal_strlit("I");
                        reveal_strlit("0004");
                        reveal_strlit("I0004");
                        assert(self.errors@.last().code@ =~= "I0004"@);
                        assert(self.errors@[self.errors@.len() - 1] == self.errors@.last());
                    }
                }
            }
            proof {
                if self.strict && exists|q: int| 0 <= q < k + 1 && (#[trigger] doc.claims@[q]).trusted
                    && !doc.claims@[q].reviewed {
                    if c.trusted && !c.reviewed {
                        let j = (self.errors@.len() - 1) as int;
                        assert(old(self).errors@.len() <= j);
                        assert(self.errors@[j].code@ == "I0004"@);
                    } else {
                        let q = choose|q: int| 0 <= q < k + 1 && (#[trigger] doc.claims@[q]).trusted
                            && !doc.claims@[q].reviewed;
                        assert(q < k);
                        lemma_code_grows(old(self).errors@, before_v, self.errors@, "I0004"@);
                    }
                }
            }
            proof {
                let bad = cs[k as int].trusted && ((!(cs[k as int].tag is Ensures) && !(cs[k as int].tag is Requires))
                    || (self.strict && !cs[k as int].reviewed));
                assert((self.errors@.len() > before) == bad);
                if bad {
                    assert(exists|q: int| 0 <= q < k + 1 && (#[trigger] cs[q]).trusted
                        && ((!(cs[q].tag is Ensures) && !(cs[q].tag is Requires)) || (self.strict && !cs[q].reviewed)));
                }
                if exists|q: int| 0 <= q < k + 1 && (#[trigger] cs[q]).trusted
                    && ((!(cs[q].tag is Ensures) && !(cs[q].tag is Requires)) || (self.strict && !cs[q].reviewed)) {
                    if !bad {
                        let q = choose|q: int| 0 <= q < k + 1 && (#[trigger] cs[q]).trusted
                            && ((!(cs[q].tag is Ensures) && !(cs[q].tag is Requires)) || (self.strict && !cs[q].reviewed));
                        assert(q < k);
                    }
                }
            }
            k += 1;
        }
        assert((self.errors@.len() > start) == trust_fails(cs, old(self).strict));
        let ghost start2 = self.errors@.len();
        let ghost after_trust = self.errors@;
        // 3. derived effects (transitive) against the declared ones
        let mut derived = EffectSet::empty();
        let mut j: usize = 0;
        while j < f.params.len()
            invariant
                j <= f.params.len(),
                derived == (EffectSet { io: false, chan: false, mut_: exists|q: int| 0 <= q < j && (#[trigger] f.params@[q]).mutable, extern_: false }),
            decreases f.params.len() - j,
        {
            if f.params[j].mutable {
                derived.mut_ = true;
            }
            j += 1;
        }
        walk_block(&f.body, &mut derived, &self.declared);
        assert(derived == func_derived(*f, old(self).declared@));
        let ghost mid = self.errors@;
        self.check_effects(&doc.claims, f.name.as_str(), f.span.clone(), derived);
        proof {
            if old(self).strict && exists|k: int| 0 <= k < doc.claims@.len() && (#[trigger] doc.claims@[k]).trusted
                && !doc.claims@[k].reviewed {
                lemma_code_grows(old(self).errors@, after_trust, self.errors@, "I0004"@);
            }
            if let Some(t) = first_effects(doc.claims@) {
                if effects_of_text(t) != derived {
                    let k = choose|k: int| mid.len() <= k < self.errors@.len() && (#[trigger] self.errors@[k]).code@ == "I0020"@;
                    assert(old(self).errors@.len() <= k);
                }
            }
        }
    }

    /// Compares the declared `@effects` (the first such line) with the
    /// derived profile.
    fn check_effects(&mut self, claims: &Vec<DocClaim>, name: &str, span: Span, derived: EffectSet)
        requires
            codes_ok(old(self).errors@),
        ensures
            codes_ok(final(self).errors@),
            no_effects_claim(claims@) ==> final(self).errors@.len() > old(self).errors@.len(),
            (final(self).errors@.len() > old(self).errors@.len()) == effects_fail(claims@, derived),
            final(self).strict == old(self).strict,
            final(self).declared@ == old(self).declared@,
            old(self).errors@.is_prefix_of(final(self).errors@),
            first_effects(claims@) matches Some(t) ==> (effects_of_text(t) != derived ==> code_reported(
                old(self).errors@,
                final(self).errors@,
                "I0020"@,
            )),
    {
        let ghost cs = claims@;
        let mut first: Option<usize> = None;
        let mut i: usize = 0;
        while i < claims.len()
            invariant
                i <= claims.len(),
                cs == claims@,
                first matches Some(j) ==> j < claims.len() && claims@[j as int].tag is Effects,
                first matches Some(j) ==> first_effects(cs.take(i as int)) == Some(cs[j as int].text@),
                first is None ==> first_effects(cs.take(i as int)) is None,
                first is None ==> forall|q: int| 0 <= q < i ==> !(#[trigger] claims@[q].tag is Effects),
            decreases claims.len() - i,
        {
            proof {
                assert(cs.take(i + 1).drop_last() == cs.take(i as int));
                assert(cs.take(i + 1).last() == cs[i as int]);
            }
            if first.is_none() && claims[i].tag == DocTag::Effects {
                first = Some(i);
            }
            i += 1;
        }
        proof {
            assert(cs.take(cs.len() as int) == cs);
        }
        let raw = match first {
            Some(j) => &claims[j].text,
            None => {
                let m = concat3("missing @effects declaration on '", name, "'");
                self.error("0023", m, span);
                return;
            }
        };
        let declared = effect_set_from_text(raw.as_str());
        if !is_valid_effects(raw.as_str()) {
            let m = concat3("unknown effect in @effects on '", name, "' (allowed: none, mut, io, chan, extern)");
            self.error("0024", m, span.clone());
        }
        if declared != derived {
            let d_str = sorted_label_text(&derived);
            let p_str = sorted_label_text(&declared);
            let fix = if label_count(&derived) > label_count(&declared) {
                let mut f = concat3("extend @effects on '", name, "' to include '");
                push_str(&mut f, d_str.as_str());
                push_str(&mut f, "'");
                f
            } else {
                let mut f = concat3("narrow @effects on '", name, "' to '");
                push_str(&mut f, d_str.as_str());
                push_str(&mut f, "' (or remove the effect)");
                f
            };
            let mut m = concat3("declared @effects '", p_str.as_str(), "' does not match derived effects '");
            push_str(&mut m, d_str.as_str());
            push_str(&mut m, "' on '");
            push_str(&mut m, name);
            push_str(&mut m, "'");
            let ghost before = self.errors@;
            self.errors.push(IntentError {
                code: intent_code("0020"),
                message: m,
                span: span,
                suggestion: Some(IntentSuggestion { fix: fix, confidence_pct: 90 }),
            });
            proof {
                reveal_strlit("I");
                reveal_strlit("0020");
                reveal_strlit("I0020");
                assert(self.errors@[before.len() as int].code@ =~= "I0020"@);
            }
        }
    }
}

} // verus!
