//! Name resolution: every top-level symbol is declared once, and every name,
//! type and channel a body mentions is declared somewhere in scope.
use vstd::prelude::*;
use crate::ast::{
    AssignTarget, Block, Contract, Expr, Field, Item, Pattern, Program, StmtKind, Type, Variant,
};
use crate::names::NameSet;
use crate::text::{concat3, str_eq};
use crate::token::Span;

verus! {

#[derive(Debug)]
pub struct ResolveError {
    pub message: String,
    pub span: Span,
}

/// The stdlib error record names; they are type names and value constructors.
pub open spec fn error_type_names() -> Seq<Seq<char>> {
    seq![
        "IoError"@, "DomainError"@, "ParseError"@, "AllocError"@,
        "IndexError"@, "DecodeError"@, "HttpError"@, "Err"@,
    ]
}

/// The value symbols an item declares, in order: its own name for a function,
/// task, channel or extern; its variants' names for an enum; none for a record.
pub open spec fn item_values(it: Item) -> Seq<Seq<char>> {
    match it {
        Item::Func(f) => seq![f.name@],
        Item::Task(t) => seq![t.name@],
        Item::Chan(c) => seq![c.name@],
        Item::Extern(e) => seq![e.name@],
        Item::Record(_) => Seq::empty(),
        Item::Enum(en) => variant_names(en.variants@),
    }
}

pub open spec fn variant_names(vs: Seq<Variant>) -> Seq<Seq<char>>
    decreases vs.len(),
{
    if vs.len() == 0 {
        Seq::empty()
    } else {
        variant_names(vs.drop_last()).push(vs.last().name@)
    }
}

/// The type symbols an item declares: a record's or an enum's name.
pub open spec fn item_types(it: Item) -> Seq<Seq<char>> {
    match it {
        Item::Record(r) => seq![r.name@],
        Item::Enum(en) => seq![en.name@],
        _ => Seq::empty(),
    }
}

pub open spec fn value_symbols(items: Seq<Item>) -> Seq<Seq<char>>
    decreases items.len(),
{
    if items.len() == 0 {
        Seq::empty()
    } else {
        value_symbols(items.drop_last()) + item_values(items.last())
    }
}

pub open spec fn type_symbols(items: Seq<Item>) -> Seq<Seq<char>>
    decreases items.len(),
{
    if items.len() == 0 {
        Seq::empty()
    } else {
        type_symbols(items.drop_last()) + item_types(items.last())
    }
}

/// How many entries of `s` repeat a name of `base` or an earlier entry.
pub open spec fn repeats(s: Seq<Seq<char>>, base: Set<Seq<char>>) -> nat
    decreases s.len(),
{
    if s.len() == 0 {
        0
    } else {
        repeats(s.drop_last(), base) + if base.contains(s.last()) || s.drop_last().contains(s.last()) {
            1nat
        } else {
            0nat
        }
    }
}

/// The number of duplicate declarations in a program: value symbols that
/// repeat an earlier one, and type symbols that repeat an earlier one or a
/// stdlib error type.
pub open spec fn duplicate_count(items: Seq<Item>) -> nat {
    repeats(value_symbols(items), Set::empty()) + repeats(type_symbols(items), error_type_names().to_set())
}

/// A scope of in-scope names for expression resolution.
struct Scope {
    names: NameSet,
}

impl Scope {
    fn new() -> (s: Scope)
        ensures
            s.names@ == Set::<Seq<char>>::empty(),
    {
        Scope { names: NameSet::new() }
    }

    fn insert(&mut self, name: String)
        ensures
            final(self).names@ == old(self).names@.insert(name@),
    {
        let _ = self.names.insert(name);
    }

    fn contains(&self, name: &str) -> (r: bool)
        ensures
            r == self.names@.contains(name@),
    {
        self.names.contains(name)
    }
}

pub struct Resolver {
    /// Top-level value symbols: functions, tasks, channels, externs, and
    /// enum variants (all callable/addressable by bare name).
    values: NameSet,
    /// Top-level type symbols: records and enums (plus the stdlib error types).
    types: NameSet,
    errors: Vec<ResolveError>,
}

/// Checks the program's names. Duplicate top-level declarations are reported
/// first (one error per duplicate) and stop the check; otherwise every body,
/// contract, field, payload and extern signature is checked for unknown
/// names, types and channels.
pub fn resolve(program: &Program) -> (r: Result<(), Vec<ResolveError>>)
    ensures
        duplicate_count(program.items@) > 0 ==> (r matches Err(v) && v.len() == duplicate_count(program.items@)),
        duplicate_count(program.items@) == 0 ==> (r is Ok <==> items_ok(
            program.items@,
            value_symbols(program.items@).to_set(),
            error_type_names().to_set() + type_symbols(program.items@).to_set(),
        )),
        r matches Err(v) ==> v.len() > 0,
        duplicate_count(program.items@) == 0 ==> forall|i: int| 0 <= i < program.items@.len() ==> (
        #[trigger] program.items@[i] matches Item::Func(f) ==> forall|j: int| 0 <= j < f.body.stmts@.len() ==> (
        stmt_head_name(#[trigger] f.body.stmts@[j]) matches Some(n) ==> (!name_ok(
            n,
            param_names(f.params@).union(stdlib_scope()).union(declared_names(f.body.stmts@.take(j))),
            value_symbols(program.items@).to_set(),
            error_type_names().to_set() + type_symbols(program.items@).to_set(),
        ) ==> (r matches Err(v) && unknown_reported(Seq::empty(), v@, n))))),
{
    let mut r = Resolver { values: NameSet::new(), types: stdlib_types(), errors: Vec::new() };
    r.collect_top(program);
    if r.errors.len() > 0 {
        return Err(r.errors);
    }
    let ghost pre = r.errors@;
    r.resolve_bodies(program);
    proof {
        assert forall|i: int| 0 <= i < program.items@.len() implies (#[trigger] program.items@[i] matches Item::Func(f)
            ==> forall|j: int| 0 <= j < f.body.stmts@.len() ==> (stmt_head_name(#[trigger] f.body.stmts@[j]) matches Some(n)
            ==> (!name_ok(
            n,
            param_names(f.params@).union(stdlib_scope()).union(declared_names(f.body.stmts@.take(j))),
            value_symbols(program.items@).to_set(),
            error_type_names().to_set() + type_symbols(program.items@).to_set(),
        ) ==> r.errors@.len() > 0 && unknown_reported(Seq::empty(), r.errors@, n)))) by {
            if let Item::Func(f) = program.items@[i] {
                assert forall|j: int| 0 <= j < f.body.stmts@.len() implies (stmt_head_name(#[trigger] f.body.stmts@[j]) matches Some(
                    n,
                ) ==> (!name_ok(
                    n,
                    param_names(f.params@).union(stdlib_scope()).union(declared_names(f.body.stmts@.take(j))),
                    value_symbols(program.items@).to_set(),
                    error_type_names().to_set() + type_symbols(program.items@).to_set(),
                ) ==> r.errors@.len() > 0 && unknown_reported(Seq::empty(), r.errors@, n))) by {
                    if let Some(n) = stmt_head_name(f.body.stmts@[j]) {
                        if !name_ok(
                            n,
                            param_names(f.params@).union(stdlib_scope()).union(declared_names(f.body.stmts@.take(j))),
                            value_symbols(program.items@).to_set(),
                            error_type_names().to_set() + type_symbols(program.items@).to_set(),
                        ) {
                            assert(unknown_reported(pre, r.errors@, n));
                            let k = choose|k: int| pre.len() <= k < r.errors@.len() && (#[trigger] r.errors@[k]).message@
                                == "unknown name '"@ + n + "'"@;
                            assert(unknown_reported(Seq::empty(), r.errors@, n));
                        }
                    }
                }
            }
        }
    }
    if r.errors.len() > 0 {
        return Err(r.errors);
    }
    Ok(())
}

proof fn lemma_repeats_step(s: Seq<Seq<char>>, x: Seq<char>, base: Set<Seq<char>>)
    ensures
        repeats(s.push(x), base) == repeats(s, base) + if base.contains(x) || s.contains(x) { 1nat } else { 0nat },
{
    assert(s.push(x).drop_last() == s);
}

proof fn lemma_values_step(items: Seq<Item>, k: int)
    requires
        0 <= k < items.len(),
    ensures
        value_symbols(items.take(k + 1)) == value_symbols(items.take(k)) + item_values(items[k]),
        type_symbols(items.take(k + 1)) == type_symbols(items.take(k)) + item_types(items[k]),
{
    assert(items.take(k + 1).drop_last() == items.take(k));
}

proof fn lemma_variant_step(vs: Seq<Variant>, j: int)
    requires
        0 <= j < vs.len(),
    ensures
        variant_names(vs.take(j + 1)) == variant_names(vs.take(j)).push(vs[j].name@),
{
    assert(vs.take(j + 1).drop_last() == vs.take(j));
}

impl Resolver {
    fn error(&mut self, message: String, span: Span)
        ensures
            final(self).errors@ == old(self).errors@.push(ResolveError { message, span }),
            final(self).values@ == old(self).values@,
            final(self).types@ == old(self).types@,
    {
        self.errors.push(ResolveError { message: message, span: span });
    }

    /// Adds a value symbol, reporting it when it is already declared.
    fn declare_value(&mut self, name: &String, span: &Span)
        ensures
            final(self).values@ == old(self).values@.insert(name@),
            final(self).types@ == old(self).types@,
            final(self).errors@.len() == old(self).errors@.len() + if old(self).values@.contains(name@) { 1int } else { 0int },
    {
        if !self.values.insert(name.clone()) {
            let m = concat3("duplicate symbol '", name.as_str(), "'");
            self.error(m, span.clone());
        }
    }

    /// Adds a type symbol, reporting it when it is already declared.
    fn declare_type(&mut self, name: &String, span: &Span)
        ensures
            final(self).types@ == old(self).types@.insert(name@),
            final(self).values@ == old(self).values@,
            final(self).errors@.len() == old(self).errors@.len() + if old(self).types@.contains(name@) { 1int } else { 0int },
    {
        if !self.types.insert(name.clone()) {
            let m = concat3("duplicate type '", name.as_str(), "'");
            self.error(m, span.clone());
        }
    }

    fn collect_top(&mut self, program: &Program)
        requires
            old(self).errors@.len() == 0,
            old(self).values@ == Set::<Seq<char>>::empty(),
            old(self).types@ == error_type_names().to_set(),
        ensures
            final(self).errors@.len() == duplicate_count(program.items@),
            final(self).values@ == value_symbols(program.items@).to_set(),
            final(self).types@ == error_type_names().to_set() + type_symbols(program.items@).to_set(),
    {
        let items = &program.items;
        let ghost base = error_type_names().to_set();
        let mut i: usize = 0;
        while i < items.len()
            invariant
                i <= items.len(),
                self.values@ == value_symbols(items@.take(i as int)).to_set(),
                self.types@ == base + type_symbols(items@.take(i as int)).to_set(),
                self.errors@.len() == repeats(value_symbols(items@.take(i as int)), Set::empty())
                    + repeats(type_symbols(items@.take(i as int)), base),
            decreases items.len() - i,
        {
            proof {
                lemma_values_step(items@, i as int);
            }
            let ghost vs0 = value_symbols(items@.take(i as int));
            let ghost ts0 = type_symbols(items@.take(i as int));
            match &items[i] {
                Item::Func(f) => {
                    proof { lemma_repeats_step(vs0, f.name@, Set::empty()); }
                    self.declare_value(&f.name, &f.span);
                    proof { vs0.lemma_push_to_set_commute(f.name@); }
                    assert(vs0 + seq![f.name@] == vs0.push(f.name@));
                    assert(ts0 + Seq::<Seq<char>>::empty() == ts0);
                }
                Item::Task(t) => {
                    proof { lemma_repeats_step(vs0, t.name@, Set::empty()); }
                    self.declare_value(&t.name, &t.span);
                    proof { vs0.lemma_push_to_set_commute(t.name@); }
                    assert(vs0 + seq![t.name@] == vs0.push(t.name@));
                    assert(ts0 + Seq::<Seq<char>>::empty() == ts0);
                }
                Item::Chan(c) => {
                    proof { lemma_repeats_step(vs0, c.name@, Set::empty()); }
                    self.declare_value(&c.name, &c.span);
                    proof { vs0.lemma_push_to_set_commute(c.name@); }
                    assert(vs0 + seq![c.name@] == vs0.push(c.name@));
                    assert(ts0 + Seq::<Seq<char>>::empty() == ts0);
                }
                Item::Extern(e) => {
                    proof { lemma_repeats_step(vs0, e.name@, Set::empty()); }
                    self.declare_value(&e.name, &e.span);
                    proof { vs0.lemma_push_to_set_commute(e.name@); }
                    assert(vs0 + seq![e.name@] == vs0.push(e.name@));
                    assert(ts0 + Seq::<Seq<char>>::empty() == ts0);
                }
                Item::Record(rec) => {
                    proof { lemma_repeats_step(ts0, rec.name@, base); }
                    self.declare_type(&rec.name, &rec.span);
                    proof { ts0.lemma_push_to_set_commute(rec.name@); }
                    assert(ts0 + seq![rec.name@] == ts0.push(rec.name@));
                    assert(vs0 + Seq::<Seq<char>>::empty() == vs0);
                    assert(base + ts0.push(rec.name@).to_set() == (base + ts0.to_set()).insert(rec.name@));
                }
                Item::Enum(en) => {
                    proof { lemma_repeats_step(ts0, en.name@, base); }
                    self.declare_type(&en.name, &en.span);
                    proof { ts0.lemma_push_to_set_commute(en.name@); }
                    assert(ts0 + seq![en.name@] == ts0.push(en.name@));
                    assert(base + ts0.push(en.name@).to_set() == (base + ts0.to_set()).insert(en.name@));
                    let vars = &en.variants;
                    let mut j: usize = 0;
                    while j < vars.len()
                        invariant
                            j <= vars.len(),
                            self.values@ == (vs0 + variant_names(vars@.take(j as int))).to_set(),
                            self.types@ == base + ts0.push(en.name@).to_set(),
                            self.errors@.len() == repeats(vs0 + variant_names(vars@.take(j as int)), Set::empty())
                                + repeats(ts0.push(en.name@), base),
                        decreases vars.len() - j,
                    {
                        let ghost cur = vs0 + variant_names(vars@.take(j as int));
                        proof {
                            lemma_variant_step(vars@, j as int);
                            lemma_repeats_step(cur, vars@[j as int].name@, Set::empty());
                            assert(cur.push(vars@[j as int].name@) == vs0 + variant_names(vars@.take(j + 1)));
                            cur.lemma_push_to_set_commute(vars@[j as int].name@);
                        }
                        self.declare_value(&vars[j].name, &vars[j].span);
                        j += 1;
                    }
                    assert(vars@.take(vars.len() as int) == vars@);
                }
            }
            i += 1;
        }
        assert(items@.take(items.len() as int) == items@);
    }

    fn resolve_bodies(&mut self, program: &Program)
        ensures
            old(self).errors@.is_prefix_of(final(self).errors@),
            forall|i: int| 0 <= i < program.items@.len() ==> (#[trigger] program.items@[i] matches Item::Func(f) ==> forall|j: int| 0 <= j < f.body.stmts@.len() ==> (stmt_head_name(
                #[trigger] f.body.stmts@[j],
            ) matches Some(n) ==> (!name_ok(
                n,
                param_names(f.params@).union(stdlib_scope()).union(declared_names(f.body.stmts@.take(j))),
                old(self).values@,
                old(self).types@,
            ) ==> unknown_reported(old(self).errors@, final(self).errors@, n)))),
            (final(self).errors@.len() == old(self).errors@.len()) == items_ok(program.items@, old(self).values@, old(self).types@),
            final(self).values@ == old(self).values@,
            final(self).types@ == old(self).types@,
    {
        let ghost start = self.errors@.len();
        let items = &program.items;
        let mut i: usize = 0;
        while i < items.len()
            invariant
                i <= items.len(),
                self.errors@.len() >= start,
                old(self).errors@.is_prefix_of(self.errors@),
                self.values@ == old(self).values@,
                self.types@ == old(self).types@,
                start == old(self).errors@.len(),
                (self.errors@.len() == start) == forall|k: int| 0 <= k < i ==> item_ok(#[trigger] items@[k], self.values@, self.types@),
                items@ == program.items@,
                forall|q: int| 0 <= q < i ==> (#[trigger] program.items@[q] matches Item::Func(f) ==> forall|j: int| 0 <= j < f.body.stmts@.len() ==> (stmt_head_name(
                #[trigger] f.body.stmts@[j],
            ) matches Some(n) ==> (!name_ok(
                n,
                param_names(f.params@).union(stdlib_scope()).union(declared_names(f.body.stmts@.take(j))),
                old(self).values@,
                old(self).types@,
            ) ==> unknown_reported(old(self).errors@, self.errors@, n)))),
            decreases items.len() - i,
        {
            let ghost before = self.errors@.len();
            let ghost before_v = self.errors@;
            self.resolve_item(&items[i]);
            proof {
                assert forall|q: int| 0 <= q < i + 1 implies (#[trigger] program.items@[q] matches Item::Func(f) ==> forall|j: int| 0 <= j < f.body.stmts@.len() ==> (stmt_head_name(
                #[trigger] f.body.stmts@[j],
            ) matches Some(n) ==> (!name_ok(
                n,
                param_names(f.params@).union(stdlib_scope()).union(declared_names(f.body.stmts@.take(j))),
                old(self).values@,
                old(self).types@,
            ) ==> unknown_reported(old(self).errors@, self.errors@, n)))) by {
                    if q < i {
                        if let Item::Func(f) = program.items@[q] {
                            assert forall|j: int| 0 <= j < f.body.stmts@.len() implies (stmt_head_name(#[trigger] f.body.stmts@[j]) matches Some(
                                n,
                            ) ==> (!name_ok(
                                n,
                                param_names(f.params@).union(stdlib_scope()).union(declared_names(f.body.stmts@.take(j))),
                                old(self).values@,
                                old(self).types@,
                            ) ==> unknown_reported(old(self).errors@, self.errors@, n))) by {
                                if let Some(n) = stmt_head_name(f.body.stmts@[j]) {
                                    if !name_ok(
                                        n,
                                        param_names(f.params@).union(stdlib_scope()).union(declared_names(f.body.stmts@.take(j))),
                                        old(self).values@,
                                        old(self).types@,
                                    ) {
                                        lemma_unknown_grows(old(self).errors@, before_v, self.errors@, n);
                                    }
                                }
                            }
                        }
                    } else {
                        if let Item::Func(f) = program.items@[q] {
                            assert forall|j: int| 0 <= j < f.body.stmts@.len() implies (stmt_head_name(#[trigger] f.body.stmts@[j]) matches Some(
                                n,
                            ) ==> (!name_ok(
                                n,
                                param_names(f.params@).union(stdlib_scope()).union(declared_names(f.body.stmts@.take(j))),
                                old(self).values@,
                                old(self).types@,
                            ) ==> unknown_reported(old(self).errors@, self.errors@, n))) by {
                                if let Some(n) = stmt_head_name(f.body.stmts@[j]) {
                                    if !name_ok(
                                        n,
                                        param_names(f.params@).union(stdlib_scope()).union(declared_names(f.body.stmts@.take(j))),
                                        old(self).values@,
                                        old(self).types@,
                                    ) {
                                        assert(unknown_reported(before_v, self.errors@, n));
                                        let k = choose|k: int| before_v.len() <= k < self.errors@.len() && (#[trigger] self.errors@[k]).message@
                                            == "unknown name '"@ + n + "'"@;
                                        assert(old(self).errors@.len() <= k);
                                    }
                                }
                            }
                        }
                    }
                }
            }
            proof {
                if self.errors@.len() == start {
                    assert forall|k: int| 0 <= k < i + 1 implies item_ok(#[trigger] items@[k], self.values@, self.types@) by {
                        if k < i {
                        }
                    }
                } else {
                    if before == start {
                        assert(!item_ok(items@[i as int], self.values@, self.types@));
                    } else {
                        let w = choose|k: int| 0 <= k < i && !item_ok(#[trigger] items@[k], self.values@, self.types@);
                        assert(!item_ok(items@[w], self.values@, self.types@));
                    }
                }
            }
            i += 1;
        }
    }

    fn resolve_item(&mut self, item: &Item)
        ensures
            old(self).errors@.is_prefix_of(final(self).errors@),
            (final(self).errors@.len() == old(self).errors@.len()) == item_ok(*item, old(self).values@, old(self).types@),
            final(self).values@ == old(self).values@,
            final(self).types@ == old(self).types@,
            *item matches Item::Func(f) ==> forall|j: int| 0 <= j < f.body.stmts@.len() ==> (stmt_head_name(
                #[trigger] f.body.stmts@[j],
            ) matches Some(n) ==> (!name_ok(
                n,
                param_names(f.params@).union(stdlib_scope()).union(declared_names(f.body.stmts@.take(j))),
                old(self).values@,
                old(self).types@,
            ) ==> unknown_reported(old(self).errors@, final(self).errors@, n))),
    {
        match item {
            Item::Func(f) => {
                let mut scope = Scope::new();
                let mut k: usize = 0;
                while k < f.params.len()
                    invariant
                        k <= f.params.len(),
                        scope.names@ == param_names(f.params@.take(k as int)),
                    decreases f.params.len() - k,
                {
                    proof {
                        assert(f.params@.take(k + 1).drop_last() == f.params@.take(k as int));
                    }
                    scope.insert(f.params[k].name.clone());
                    k += 1;
                }
                assert(f.params@.take(f.params.len() as int) == f.params@);
                // stdlib functions are trusted; references to them are
                // predeclared (see the stdlib surface).
                self.predeclare_stdlib(&mut scope);
                self.resolve_contracts(&f.contracts, &scope);
                let ghost mid = self.errors@;
                self.resolve_block(&f.body, &mut scope);
                proof {
                    assert forall|j: int| 0 <= j < f.body.stmts@.len() implies (stmt_head_name(#[trigger] f.body.stmts@[j]) matches Some(
                        n,
                    ) ==> (!name_ok(
                        n,
                        param_names(f.params@).union(stdlib_scope()).union(declared_names(f.body.stmts@.take(j))),
                        old(self).values@,
                        old(self).types@,
                    ) ==> unknown_reported(old(self).errors@, self.errors@, n))) by {
                        if let Some(n) = stmt_head_name(f.body.stmts@[j]) {
                            if !name_ok(
                                n,
                                param_names(f.params@).union(stdlib_scope()).union(declared_names(f.body.stmts@.take(j))),
                                old(self).values@,
                                old(self).types@,
                            ) {
                                assert(unknown_reported(mid, self.errors@, n));
                                let k = choose|k: int| mid.len() <= k < self.errors@.len() && (#[trigger] self.errors@[k]).message@
                                    == "unknown name '"@ + n + "'"@;
                                assert(old(self).errors@.len() <= k);
                            }
                        }
                    }
                }
            }
            Item::Task(t) => {
                let mut scope = Scope::new();
                self.predeclare_stdlib(&mut scope);
                assert(Set::<Seq<char>>::empty().union(stdlib_scope()) == stdlib_scope());
                self.resolve_block(&t.body, &mut scope);
            }
            Item::Record(rec) => {
                self.resolve_type_opt_fields(&rec.fields);
            }
            Item::Enum(en) => {
                let ghost start = self.errors@.len();
                let mut j: usize = 0;
                while j < en.variants.len()
                    invariant
                        j <= en.variants.len(),
                        self.errors@.len() >= start,
                old(self).errors@.is_prefix_of(self.errors@),
                        start == old(self).errors@.len(),
                        self.values@ == old(self).values@,
                        self.types@ == old(self).types@,
                        (self.errors@.len() == start) == forall|q: int| 0 <= q < j ==> fields_ok(#[trigger] en.variants@[q].fields@, self.types@),
                    decreases en.variants.len() - j,
                {
                    let ghost before = self.errors@.len();
                    self.resolve_type_opt_fields(&en.variants[j].fields);
                    proof {
                        if self.errors@.len() != start && before == start {
                            assert(!fields_ok(en.variants@[j as int].fields@, self.types@));
                        }
                        if self.errors@.len() != start && before != start {
                            let w = choose|q: int| 0 <= q < j && !fields_ok(#[trigger] en.variants@[q].fields@, self.types@);
                            assert(!fields_ok(en.variants@[w].fields@, self.types@));
                        }
                    }
                    j += 1;
                }
            }
            Item::Chan(c) => {
                self.resolve_type(&c.payload);
            }
            Item::Extern(e) => {
                let ghost start = self.errors@.len();
                let mut j: usize = 0;
                while j < e.params.len()
                    invariant
                        j <= e.params.len(),
                        self.errors@.len() >= start,
                old(self).errors@.is_prefix_of(self.errors@),
                        start == old(self).errors@.len(),
                        self.values@ == old(self).values@,
                        self.types@ == old(self).types@,
                        (self.errors@.len() == start) == forall|q: int| 0 <= q < j ==> type_ok(#[trigger] e.params@[q].ty, self.types@),
                    decreases e.params.len() - j,
                {
                    let ghost before = self.errors@.len();
                    self.resolve_type(&e.params[j].ty);
                    proof {
                        if self.errors@.len() != start && before == start {
                            assert(!type_ok(e.params@[j as int].ty, self.types@));
                        }
                        if self.errors@.len() != start && before != start {
                            let w = choose|q: int| 0 <= q < j && !type_ok(#[trigger] e.params@[q].ty, self.types@);
                            assert(!type_ok(e.params@[w].ty, self.types@));
                        }
                    }
                    j += 1;
                }
                match &e.ret {
                    Some(t) => self.resolve_type(t),
                    None => {}
                }
            }
        }
    }

    fn predeclare_stdlib(&self, scope: &mut Scope)
        ensures
            final(scope).names@ == old(scope).names@.union(stdlib_scope()),
    {
        let ghost start = scope.names@;
        // stdlib functions and methods (see the stdlib surface)
        scope.insert("print".to_string());
        scope.insert("to_str".to_string());
        scope.insert("len".to_string());
        scope.insert("is_empty".to_string());
        scope.insert("to_upper".to_string());
        scope.insert("to_lower".to_string());
        scope.insert("at".to_string());
        scope.insert("to_bytes".to_string());
        scope.insert("abs".to_string());
        scope.insert("is_some".to_string());
        scope.insert("is_none".to_string());
        scope.insert("approx_sqrt".to_string());
        scope.insert("PI".to_string());
        scope.insert("E".to_string());
        let ghost mid = scope.names@;
        assert(mid == start.union(stdlib_functions()));
        // error records are value constructors too
        let errs = stdlib_error_types();
        let mut i: usize = 0;
        while i < errs.len()
            invariant
                i <= errs.len(),
                errs@.len() == error_type_names().len(),
                forall|k: int| 0 <= k < errs@.len() ==> #[trigger] errs@[k]@ == error_type_names()[k],
                scope.names@ == mid.union(error_type_names().take(i as int).to_set()),
            decreases errs.len() - i,
        {
            proof {
                let names = error_type_names();
                assert(names.take(i + 1) == names.take(i as int).push(names[i as int]));
                names.take(i as int).lemma_push_to_set_commute(names[i as int]);
            }
            scope.insert(errs[i].clone());
            i += 1;
        }
        assert(error_type_names().take(8) == error_type_names());
        assert(scope.names@ =~= start.union(stdlib_scope()));
    }

    fn resolve_contracts(&mut self, contracts: &Vec<Contract>, scope: &Scope)
        ensures
            old(self).errors@.is_prefix_of(final(self).errors@),
            (final(self).errors@.len() == old(self).errors@.len()) == forall|k: int|
                0 <= k < contracts@.len() ==> contract_ok(#[trigger] contracts@[k], scope.names@, old(self).values@, old(self).types@),
            final(self).values@ == old(self).values@,
            final(self).types@ == old(self).types@,
    {
        let ghost start = self.errors@.len();
        let mut i: usize = 0;
        while i < contracts.len()
            invariant
                i <= contracts.len(),
                self.errors@.len() >= start,
                old(self).errors@.is_prefix_of(self.errors@),
                start == old(self).errors@.len(),
                self.values@ == old(self).values@,
                self.types@ == old(self).types@,
                (self.errors@.len() == start) == forall|k: int|
                    0 <= k < i ==> contract_ok(#[trigger] contracts@[k], scope.names@, self.values@, self.types@),
            decreases contracts.len() - i,
        {
            let ghost before = self.errors@.len();
            match &contracts[i] {
                Contract::Pre(e) => self.resolve_expr(e, scope),
                Contract::Post(e) => {
                    let mut post_scope = child_scope(scope);
                    post_scope.insert("result".to_string());
                    self.resolve_expr(e, &post_scope);
                }
                Contract::Invariant(e) => self.resolve_expr(e, scope),
            }
            proof {
                if self.errors@.len() != start && before == start {
                    assert(!contract_ok(contracts@[i as int], scope.names@, self.values@, self.types@));
                }
                if self.errors@.len() != start && before != start {
                    let w = choose|k: int| 0 <= k < i && !contract_ok(#[trigger] contracts@[k], scope.names@, self.values@, self.types@);
                    assert(!contract_ok(contracts@[w], scope.names@, self.values@, self.types@));
                }
            }
            i += 1;
        }
    }

    fn resolve_type_opt_fields(&mut self, fields: &Vec<Field>)
        ensures
            old(self).errors@.is_prefix_of(final(self).errors@),
            (final(self).errors@.len() == old(self).errors@.len()) == fields_ok(fields@, old(self).types@),
            final(self).values@ == old(self).values@,
            final(self).types@ == old(self).types@,
    {
        let ghost start = self.errors@.len();
        let mut i: usize = 0;
        while i < fields.len()
            invariant
                i <= fields.len(),
                self.errors@.len() >= start,
                old(self).errors@.is_prefix_of(self.errors@),
                start == old(self).errors@.len(),
                self.values@ == old(self).values@,
                self.types@ == old(self).types@,
                (self.errors@.len() == start) == forall|q: int| 0 <= q < i ==> type_ok(#[trigger] fields@[q].ty, self.types@),
            decreases fields.len() - i,
        {
            let ghost before = self.errors@.len();
            self.resolve_type(&fields[i].ty);
            proof {
                if self.errors@.len() != start && before == start {
                    assert(!type_ok(fields@[i as int].ty, self.types@));
                }
                if self.errors@.len() != start && before != start {
                    let w = choose|q: int| 0 <= q < i && !type_ok(#[trigger] fields@[q].ty, self.types@);
                    assert(!type_ok(fields@[w].ty, self.types@));
                }
            }
            i += 1;
        }
    }

    fn unknown(&mut self, what: &str, name: &str)
        ensures
            final(self).errors@.len() == old(self).errors@.len() + 1,
            final(self).errors@.drop_last() == old(self).errors@,
            final(self).errors@.last().message@ == "unknown "@ + what@ + " '"@ + name@ + "'"@,
            final(self).values@ == old(self).values@,
            final(self).types@ == old(self).types@,
    {
        let mut m = concat3("unknown ", what, " '");
        crate::text::push_str(&mut m, name);
        crate::text::push_str(&mut m, "'");
        self.error(m, Span::nowhere(&String::new()));
    }

    fn resolve_type(&mut self, ty: &Type)
        ensures
            old(self).errors@.is_prefix_of(final(self).errors@),
            (final(self).errors@.len() == old(self).errors@.len()) == type_ok(*ty, old(self).types@),
            final(self).values@ == old(self).values@,
            final(self).types@ == old(self).types@,
        decreases ty,
    {
        match ty {
            Type::Named(name, args) => {
                let head = is_builtin_type(name.as_str()) || self.types.contains(name.as_str());
                if !head {
                    self.unknown("type", name.as_str());
                }
                let ghost start = old(self).errors@.len();
                let mut i: usize = 0;
                while i < args.len()
                    invariant
                        i <= args.len(),
                        *ty == Type::Named(*name, *args),
                        self.errors@.len() >= start,
                old(self).errors@.is_prefix_of(self.errors@),
                        start == old(self).errors@.len(),
                        self.values@ == old(self).values@,
                        self.types@ == old(self).types@,
                        head == (is_builtin_type_name(name@) || self.types@.contains(name@)),
                        (self.errors@.len() == start) == (head && types_ok(args@.take(i as int), self.types@)),
                    decreases args.len() - i,
                {
                    proof {
                        assert(decreases_to!(*ty => (*ty)->Named_1));
                        assert(decreases_to!(*args => args[i as int]));
                        assert(args@.take(i + 1).drop_last() == args@.take(i as int));
                        assert(args@.take(i + 1).last() == args@[i as int]);
                    }
                    self.resolve_type(&args[i]);
                    i += 1;
                }
                assert(args@.take(args.len() as int) == args@);
            }
            Type::Union(members) => {
                let ghost start = old(self).errors@.len();
                let mut i: usize = 0;
                while i < members.len()
                    invariant
                        i <= members.len(),
                        *ty == Type::Union(*members),
                        self.errors@.len() >= start,
                old(self).errors@.is_prefix_of(self.errors@),
                        start == old(self).errors@.len(),
                        self.values@ == old(self).values@,
                        self.types@ == old(self).types@,
                        (self.errors@.len() == start) == types_ok(members@.take(i as int), self.types@),
                    decreases members.len() - i,
                {
                    proof {
                        assert(decreases_to!(*ty => (*ty)->Union_0));
                        assert(decreases_to!(*members => members[i as int]));
                        assert(members@.take(i + 1).drop_last() == members@.take(i as int));
                        assert(members@.take(i + 1).last() == members@[i as int]);
                    }
                    self.resolve_type(&members[i]);
                    i += 1;
                }
                assert(members@.take(members.len() as int) == members@);
            }
            Type::NamedPlain(name) => {
                if !is_builtin_type(name.as_str()) && !self.types.contains(name.as_str()) {
                    self.unknown("type", name.as_str());
                }
            }
        }
    }

    fn resolve_block(&mut self, block: &Block, scope: &mut Scope)
        ensures
            old(self).errors@.is_prefix_of(final(self).errors@),
            (final(self).errors@.len() == old(self).errors@.len()) == block_ok(
                *block,
                old(scope).names@,
                old(self).values@,
                old(self).types@,
            ),
            final(scope).names@ == old(scope).names@.union(declared_names(block.stmts@)),
            final(self).values@ == old(self).values@,
            final(self).types@ == old(self).types@,
            forall|j: int| 0 <= j < block.stmts@.len() ==> (stmt_head_name(#[trigger] block.stmts@[j]) matches Some(n)
                ==> (!name_ok(n, old(scope).names@.union(declared_names(block.stmts@.take(j))), old(self).values@, old(self).types@)
                ==> unknown_reported(old(self).errors@, final(self).errors@, n))),
        decreases block,
    {
        let ghost start = self.errors@.len();
        let ghost base = scope.names@;
        let mut i: usize = 0;
        while i < block.stmts.len()
            invariant
                i <= block.stmts.len(),
                self.errors@.len() >= start,
                old(self).errors@.is_prefix_of(self.errors@),
                start == old(self).errors@.len(),
                base == old(scope).names@,
                self.values@ == old(self).values@,
                self.types@ == old(self).types@,
                scope.names@ == base.union(declared_names(block.stmts@.take(i as int))),
                (self.errors@.len() == start) == stmts_ok(block.stmts@.take(i as int), base, self.values@, self.types@),
                forall|j: int| 0 <= j < i ==> (stmt_head_name(#[trigger] block.stmts@[j]) matches Some(n) ==> (!name_ok(
                    n,
                    base.union(declared_names(block.stmts@.take(j))),
                    self.values@,
                    self.types@,
                ) ==> unknown_reported(old(self).errors@, self.errors@, n))),
            decreases block.stmts.len() - i,
        {
            let ghost ss = block.stmts@.take(i + 1);
            proof {
                assert(ss.drop_last() == block.stmts@.take(i as int));
                assert(ss.last() == block.stmts@[i as int]);
            }
            let ghost before = self.errors@.len();
            let ghost before_v = self.errors@;
            let ghost cur = scope.names@;
            let stmt = &block.stmts[i];
            match &stmt.kind {
                StmtKind::Decl(d) => {
                    match &d.init {
                        Some(e) => self.resolve_expr(e, scope),
                        None => {}
                    }
                    if d.recv {
                        match &d.chan {
                            Some(ch) => {
                                if !scope.contains(ch.as_str()) && !self.values.contains(ch.as_str()) {
                                    let m = concat3("unknown channel '", ch.as_str(), "'");
                                    self.error(m, d.span.clone());
                                }
                            }
                            None => {}
                        }
                    }
                    scope.insert(d.name.clone());
                    proof {
                        assert(base.union(declared_names(ss)) =~= cur.insert(d.name@));
                    }
                }
                StmtKind::Assign(a) => {
                    match &a.target {
                        AssignTarget::Name(n) => {
                            if !scope.contains(n.as_str()) {
                                let m = concat3("unknown name '", n.as_str(), "'");
                                self.error(m, a.span.clone());
                            }
                        }
                        AssignTarget::Field(base_e, _) => self.resolve_expr(base_e, scope),
                    }
                    self.resolve_expr(&a.value, scope);
                    proof {
                        assert(base.union(declared_names(ss)) =~= cur);
                    }
                }
                StmtKind::Expr(e) => {
                    self.resolve_expr(e, scope);
                    proof {
                        assert(base.union(declared_names(ss)) =~= cur);
                        if let Some(n) = stmt_head_name(block.stmts@[i as int]) {
                            if !name_ok(n, cur, self.values@, self.types@) {
                                if e is Name {
                                    assert(self.errors@[before as int] == self.errors@.last());
                                }
                                assert(unknown_reported(before_v, self.errors@, n));
                                let k = choose|k: int| before_v.len() <= k < self.errors@.len() && (#[trigger] self.errors@[k]).message@
                                    == "unknown name '"@ + n + "'"@;
                                assert(old(self).errors@.len() <= k);
                            }
                        }
                    }
                }
                StmtKind::Break => {
                    proof {
                        assert(base.union(declared_names(ss)) =~= cur);
                    }
                }
                StmtKind::Continue => {
                    proof {
                        assert(base.union(declared_names(ss)) =~= cur);
                    }
                }
            }
            proof {
                assert forall|j: int| 0 <= j < i + 1 implies (stmt_head_name(#[trigger] block.stmts@[j]) matches Some(n) ==> (
                !name_ok(n, base.union(declared_names(block.stmts@.take(j))), self.values@, self.types@)
                    ==> unknown_reported(old(self).errors@, self.errors@, n))) by {
                    if j < i {
                        if let Some(n) = stmt_head_name(block.stmts@[j]) {
                            if !name_ok(n, base.union(declared_names(block.stmts@.take(j))), self.values@, self.types@) {
                                lemma_unknown_grows(old(self).errors@, before_v, self.errors@, n);
                            }
                        }
                    }
                }
                assert(cur == base.union(declared_names(ss.drop_last())));
                assert(stmts_ok(ss, base, self.values@, self.types@) == (stmts_ok(ss.drop_last(), base, self.values@, self.types@)
                    && stmt_ok(block.stmts@[i as int], cur, self.values@, self.types@)));
                assert((self.errors@.len() == before) == stmt_ok(block.stmts@[i as int], cur, self.values@, self.types@));
            }
            i += 1;
        }
        proof {
            assert(block.stmts@.take(block.stmts.len() as int) == block.stmts@);
        }
    }

    /// Whether a bare name refers to something: a local, a top-level value,
    /// or a type (records and error types are constructors).
    fn name_known(&self, n: &str, scope: &Scope) -> (r: bool)
        ensures
            r == name_ok(n@, scope.names@, self.values@, self.types@),
    {
        scope.contains(n) || self.values.contains(n) || is_builtin_type(n) || self.types.contains(n)
    }

    fn resolve_exprs(&mut self, es: &Vec<Expr>, scope: &Scope, Ghost(parent): Ghost<Expr>)
        requires
            forall|k: int| 0 <= k < es.len() ==> decreases_to!(parent => #[trigger] es@[k]),
        ensures
            old(self).errors@.is_prefix_of(final(self).errors@),
            (final(self).errors@.len() == old(self).errors@.len()) == exprs_ok(es@, scope.names@, old(self).values@, old(self).types@),
            final(self).values@ == old(self).values@,
            final(self).types@ == old(self).types@,
        decreases parent, 0nat,
    {
        let ghost start = self.errors@.len();
        let mut i: usize = 0;
        while i < es.len()
            invariant
                i <= es.len(),
                forall|k: int| 0 <= k < es.len() ==> decreases_to!(parent => #[trigger] es@[k]),
                self.errors@.len() >= start,
                old(self).errors@.is_prefix_of(self.errors@),
                start == old(self).errors@.len(),
                self.values@ == old(self).values@,
                self.types@ == old(self).types@,
                (self.errors@.len() == start) == exprs_ok(es@.take(i as int), scope.names@, self.values@, self.types@),
            decreases es.len() - i,
        {
            proof {
                assert(decreases_to!(parent => es@[i as int]));
                assert(es@.take(i + 1).drop_last() == es@.take(i as int));
                assert(es@.take(i + 1).last() == es@[i as int]);
            }
            self.resolve_expr(&es[i], scope);
            i += 1;
        }
        assert(es@.take(es.len() as int) == es@);
    }

    fn resolve_expr(&mut self, e: &Expr, scope: &Scope)
        ensures
            old(self).errors@.is_prefix_of(final(self).errors@),
            (final(self).errors@.len() == old(self).errors@.len()) == expr_ok(*e, scope.names@, old(self).values@, old(self).types@),
            final(self).values@ == old(self).values@,
            final(self).types@ == old(self).types@,
            e matches Expr::Name(n) ==> (!name_ok(n@, scope.names@, old(self).values@, old(self).types@)
                ==> final(self).errors@.drop_last() == old(self).errors@ && final(self).errors@.last().message@
                == "unknown name '"@ + n@ + "'"@),
            e matches Expr::Call(c, _) ==> (**c matches Expr::Name(n) ==> (!name_ok(n@, scope.names@, old(self).values@, old(self).types@)
                ==> unknown_reported(old(self).errors@, final(self).errors@, n@))),
        decreases e, 1nat,
    {
        match e {
            Expr::Int(_) => {}
            Expr::Float(_) => {}
            Expr::Char(_) => {}
            Expr::Str(_) => {}
            Expr::RawStr(_) => {}
            Expr::Bool(_) => {}
            Expr::NoneLit => {}
            Expr::Name(n) => {
                if !self.name_known(n.as_str(), scope) {
                    self.unknown("name", n.as_str());
                    proof {
                        reveal_strlit("unknown ");
                        reveal_strlit("name");
                        reveal_strlit(" '");
                        reveal_strlit("unknown name '");
                        assert("unknown "@ + "name"@ + " '"@ =~= "unknown name '"@);
                    }
                }
            }
            Expr::Call(callee, args) => {
                self.resolve_expr(callee, scope);
                let ghost mid = self.errors@;
                proof {
                    if (**callee) is Name {
                        let n = (**callee)->Name_0;
                        if !name_ok(n@, scope.names@, old(self).values@, old(self).types@) {
                            assert(mid[old(self).errors@.len() as int] == mid.last());
                            assert(unknown_reported(old(self).errors@, mid, n@));
                        }
                    }
                }
                proof {
                    assert forall|k: int| 0 <= k < args.len() implies decreases_to!(*e => #[trigger] args@[k]) by {
                        assert(decreases_to!(*e => (*e)->Call_1));
                        assert(decreases_to!(*args => args[k]));
                    }
                }
                self.resolve_exprs(args, scope, Ghost(*e));
                proof {
                    if (**callee) is Name {
                        let n = (**callee)->Name_0;
                        if !name_ok(n@, scope.names@, old(self).values@, old(self).types@) {
                            lemma_unknown_grows(old(self).errors@, mid, self.errors@, n@);
                        }
                    }
                }
            }
            Expr::Field(base, _) => self.resolve_expr(base, scope),
            Expr::Index(base, idx) => {
                self.resolve_expr(base, scope);
                self.resolve_expr(idx, scope);
            }
            Expr::ListLit(elems) => {
                proof {
                    assert forall|k: int| 0 <= k < elems.len() implies decreases_to!(*e => #[trigger] elems@[k]) by {
                        assert(decreases_to!(*e => (*e)->ListLit_0));
                        assert(decreases_to!(*elems => elems[k]));
                    }
                }
                self.resolve_exprs(elems, scope, Ghost(*e));
            }
            Expr::MapLit(entries) => {
                let ghost start = self.errors@.len();
                let mut i: usize = 0;
                while i < entries.len()
                    invariant
                        i <= entries.len(),
                        *e == Expr::MapLit(*entries),
                        self.errors@.len() >= start,
                old(self).errors@.is_prefix_of(self.errors@),
                        start == old(self).errors@.len(),
                        self.values@ == old(self).values@,
                        self.types@ == old(self).types@,
                        (self.errors@.len() == start) == pairs_ok(entries@.take(i as int), scope.names@, self.values@, self.types@),
                    decreases entries.len() - i,
                {
                    proof {
                        assert(decreases_to!(*e => (*e)->MapLit_0));
                        assert(decreases_to!(*entries => entries[i as int]));
                        assert(decreases_to!(entries[i as int] => entries[i as int].0));
                        assert(decreases_to!(entries[i as int] => entries[i as int].1));
                        assert(entries@.take(i + 1).drop_last() == entries@.take(i as int));
                        assert(entries@.take(i + 1).last() == entries@[i as int]);
                    }
                    self.resolve_expr(&entries[i].0, scope);
                    self.resolve_expr(&entries[i].1, scope);
                    i += 1;
                }
                assert(entries@.take(entries.len() as int) == entries@);
            }
            Expr::SetLit(elems) => {
                proof {
                    assert forall|k: int| 0 <= k < elems.len() implies decreases_to!(*e => #[trigger] elems@[k]) by {
                        assert(decreases_to!(*e => (*e)->SetLit_0));
                        assert(decreases_to!(*elems => elems[k]));
                    }
                }
                self.resolve_exprs(elems, scope, Ghost(*e));
            }
            Expr::Prop(base, _) => self.resolve_expr(base, scope),
            Expr::Unary(_, a) => self.resolve_expr(a, scope),
            Expr::Binary(_, a, b) => {
                self.resolve_expr(a, scope);
                self.resolve_expr(b, scope);
            }
            Expr::Cast(a, ty) => {
                self.resolve_expr(a, scope);
                self.resolve_type(ty);
            }
            Expr::Match(subject, arms) => {
                self.resolve_expr(subject, scope);
                let ghost start = self.errors@.len();
                let ghost sub_ok = expr_ok(**subject, scope.names@, self.values@, self.types@);
                let mut i: usize = 0;
                while i < arms.len()
                    invariant
                        i <= arms.len(),
                        *e == Expr::Match(*subject, *arms),
                        self.errors@.len() >= start,
                old(self).errors@.is_prefix_of(self.errors@),
                        start >= old(self).errors@.len(),
                        (start == old(self).errors@.len()) == sub_ok,
                        self.values@ == old(self).values@,
                        self.types@ == old(self).types@,
                        (self.errors@.len() == start) == arms_ok(arms@.take(i as int), scope.names@, self.values@, self.types@),
                    decreases arms.len() - i,
                {
                    proof {
                        assert(decreases_to!(*e => (*e)->Match_1));
                        assert(decreases_to!(*arms => arms[i as int]));
                        assert(decreases_to!(arms[i as int] => arms[i as int].1));
                        assert(arms@.take(i + 1).drop_last() == arms@.take(i as int));
                        assert(arms@.take(i + 1).last() == arms@[i as int]);
                    }
                    let mut inner = child_scope(scope);
                    bind_pattern(&mut inner, &arms[i].0);
                    self.resolve_expr(&arms[i].1, &inner);
                    i += 1;
                }
                assert(arms@.take(arms.len() as int) == arms@);
            }
            Expr::If(ifx) => {
                self.resolve_expr(&ifx.cond, scope);
                let mut then_scope = child_scope(scope);
                self.resolve_block(&ifx.then_block, &mut then_scope);
                let ghost start = self.errors@.len();
                let ghost head_ok = expr_ok(*ifx.cond, scope.names@, self.values@, self.types@)
                    && block_ok(ifx.then_block, scope.names@, self.values@, self.types@);
                let mut i: usize = 0;
                while i < ifx.elif.len()
                    invariant
                        i <= ifx.elif.len(),
                        *e == Expr::If(*ifx),
                        self.errors@.len() >= start,
                old(self).errors@.is_prefix_of(self.errors@),
                        start >= old(self).errors@.len(),
                        (start == old(self).errors@.len()) == head_ok,
                        self.values@ == old(self).values@,
                        self.types@ == old(self).types@,
                        (self.errors@.len() == start) == elifs_ok(ifx.elif@.take(i as int), scope.names@, self.values@, self.types@),
                    decreases ifx.elif.len() - i,
                {
                    proof {
                        assert(decreases_to!(*e => (*e)->If_0));
                        assert(decreases_to!(*ifx => ifx.elif));
                        assert(decreases_to!(ifx.elif => ifx.elif[i as int]));
                        assert(decreases_to!(ifx.elif[i as int] => ifx.elif[i as int].0));
                        assert(decreases_to!(ifx.elif[i as int] => ifx.elif[i as int].1));
                        assert(ifx.elif@.take(i + 1).drop_last() == ifx.elif@.take(i as int));
                        assert(ifx.elif@.take(i + 1).last() == ifx.elif@[i as int]);
                    }
                    self.resolve_expr(&ifx.elif[i].0, scope);
                    let mut s = child_scope(scope);
                    self.resolve_block(&ifx.elif[i].1, &mut s);
                    i += 1;
                }
                assert(ifx.elif@.take(ifx.elif.len() as int) == ifx.elif@);
                match &ifx.else_block {
                    Some(b) => {
                        let mut s = child_scope(scope);
                        self.resolve_block(b, &mut s);
                    }
                    None => {}
                }
            }
            Expr::Loop(b) => {
                let mut inner = child_scope(scope);
                self.resolve_block(b, &mut inner);
            }
            Expr::For(name, iter, b) => {
                self.resolve_expr(iter, scope);
                let mut inner = child_scope(scope);
                inner.insert(name.clone());
                self.resolve_block(b, &mut inner);
            }
            Expr::Await(a) => self.resolve_expr(a, scope),
            Expr::Send(ch, value) => {
                self.resolve_expr(ch, scope);
                self.resolve_expr(value, scope);
            }
            Expr::Recv(ch) => {
                if !scope.contains(ch.as_str()) && !self.values.contains(ch.as_str()) {
                    self.unknown("channel", ch.as_str());
                }
            }
            Expr::Transfer(a) => self.resolve_expr(a, scope),
            Expr::OkOf(inner) => {
                match inner {
                    Some(v) => self.resolve_expr(v, scope),
                    None => {}
                }
            }
            Expr::ErrOf(a) => self.resolve_expr(a, scope),
            Expr::SomeOf(a) => self.resolve_expr(a, scope),
        }
    }
}

fn child_scope(scope: &Scope) -> (s: Scope)
    ensures
        s.names@ == scope.names@,
{
    Scope { names: scope.names.copy() }
}

/// Brings the names a match pattern binds into `scope`.
fn bind_pattern(scope: &mut Scope, pat: &Pattern)
    ensures
        final(scope).names@ == old(scope).names@.union(pattern_names(*pat)),
{
    match pat {
        Pattern::Wildcard => {
            assert(old(scope).names@.union(Set::empty()) == old(scope).names@);
        }
        Pattern::NoneLit => {
            assert(old(scope).names@.union(Set::empty()) == old(scope).names@);
        }
        Pattern::Name(n) => {
            scope.insert(n.clone());
            assert(old(scope).names@.union(set![n@]) == old(scope).names@.insert(n@));
        }
        Pattern::Variant(_, names) => {
            let mut i: usize = 0;
            while i < names.len()
                invariant
                    i <= names.len(),
                    scope.names@ == old(scope).names@.union(names@.take(i as int).map_values(|s: String| s@).to_set()),
                decreases names.len() - i,
            {
                scope.insert(names[i].clone());
                proof {
                    let f = |s: String| s@;
                    assert(names@.take(i + 1).map_values(f) == names@.take(i as int).map_values(f).push(names@[i as int]@));
                    names@.take(i as int).map_values(f).lemma_push_to_set_commute(names@[i as int]@);
                }
                i += 1;
            }
            assert(names@.take(names.len() as int) == names@);
        }
    }
}

/// The names a match pattern binds.
pub open spec fn pattern_names(p: Pattern) -> Set<Seq<char>> {
    match p {
        Pattern::Wildcard => Set::empty(),
        Pattern::NoneLit => Set::empty(),
        Pattern::Name(n) => set![n@],
        Pattern::Variant(_, names) => names@.map_values(|s: String| s@).to_set(),
    }
}

/// The builtin type names: the scalars and the composite collections.
pub open spec fn is_builtin_type_name(n: Seq<char>) -> bool {
    n == "Bool"@ || n == "Int"@ || n == "usize"@ || n == "Float"@ || n == "Char"@ || n == "Str"@
        || n == "Bytes"@ || n == "Unit"@ || n == "Ptr"@ || n == "List"@ || n == "Option"@
        || n == "Result"@ || n == "Map"@ || n == "Set"@ || n == "Chan"@
}

pub fn is_builtin_type(name: &str) -> (r: bool)
    ensures
        r == is_builtin_type_name(name@),
{
    str_eq(name, "Bool") || str_eq(name, "Int") || str_eq(name, "usize") || str_eq(name, "Float")
        || str_eq(name, "Char") || str_eq(name, "Str") || str_eq(name, "Bytes") || str_eq(name, "Unit")
        || str_eq(name, "Ptr") || str_eq(name, "List") || str_eq(name, "Option") || str_eq(name, "Result")
        || str_eq(name, "Map") || str_eq(name, "Set") || str_eq(name, "Chan")
}

/// The stdlib error record names, in a fixed order.
pub fn stdlib_error_types() -> (v: Vec<String>)
    ensures
        v@.len() == error_type_names().len(),
        forall|k: int| 0 <= k < v@.len() ==> #[trigger] v@[k]@ == error_type_names()[k],
{
    let mut v: Vec<String> = Vec::new();
    v.push("IoError".to_string());
    v.push("DomainError".to_string());
    v.push("ParseError".to_string());
    v.push("AllocError".to_string());
    v.push("IndexError".to_string());
    v.push("DecodeError".to_string());
    v.push("HttpError".to_string());
    v.push("Err".to_string());
    v
}

/// The type names every program starts with: the stdlib error types.
pub fn stdlib_types() -> (s: NameSet)
    ensures
        s@ == error_type_names().to_set(),
{
    let errs = stdlib_error_types();
    let mut set = NameSet::new();
    let mut i: usize = 0;
    while i < errs.len()
        invariant
            i <= errs.len(),
            errs@.len() == error_type_names().len(),
            forall|k: int| 0 <= k < errs@.len() ==> #[trigger] errs@[k]@ == error_type_names()[k],
            set@ == error_type_names().take(i as int).to_set(),
        decreases errs.len() - i,
    {
        let _ = set.insert(errs[i].clone());
        proof {
            let names = error_type_names();
            assert(names.take(i + 1) == names.take(i as int).push(names[i as int]));
            names.take(i as int).lemma_push_to_set_commute(names[i as int]);
        }
        i += 1;
    }
    assert(error_type_names().take(8) == error_type_names());
    set
}


// ---- what it means for the names of a body to resolve ----

/// A written type names only builtin and declared types.
pub open spec fn type_ok(t: Type, types: Set<Seq<char>>) -> bool
    decreases t,
{
    match t {
        Type::Named(n, args) => (is_builtin_type_name(n@) || types.contains(n@)) && {
            proof {
                assert(decreases_to!(args => args@));
            }
            types_ok(args@, types)
        },
        Type::NamedPlain(n) => is_builtin_type_name(n@) || types.contains(n@),
        Type::Union(ms) => {
            proof {
                assert(decreases_to!(ms => ms@));
            }
            types_ok(ms@, types)
        },
    }
}

pub open spec fn types_ok(ts: Seq<Type>, types: Set<Seq<char>>) -> bool
    decreases ts,
{
    if ts.len() == 0 {
        true
    } else {
        proof {
            assert(decreases_to!(ts => ts.subrange(0, ts.len() - 1)));
            assert(decreases_to!(ts => ts[ts.len() - 1]));
        }
        types_ok(ts.drop_last(), types) && type_ok(ts.last(), types)
    }
}

/// The fields' types all resolve.
pub open spec fn fields_ok(fs: Seq<Field>, types: Set<Seq<char>>) -> bool {
    forall|k: int| 0 <= k < fs.len() ==> type_ok(#[trigger] fs[k].ty, types)
}

/// A bare name refers to a local, a top-level value, or a type.
pub open spec fn name_ok(n: Seq<char>, scope: Set<Seq<char>>, values: Set<Seq<char>>, types: Set<Seq<char>>) -> bool {
    scope.contains(n) || values.contains(n) || is_builtin_type_name(n) || types.contains(n)
}

/// The name an expression statement uses first: the name itself, or the
/// callee of a call of a name.
pub open spec fn stmt_head_name(st: crate::ast::Stmt) -> Option<Seq<char>> {
    match st.kind {
        StmtKind::Expr(e) => match e {
            Expr::Name(n) => Some(n@),
            Expr::Call(c, _) => match *c {
                Expr::Name(n) => Some(n@),
                _ => None,
            },
            _ => None,
        },
        _ => None,
    }
}

/// Resolving added an error `unknown name 'n'`.
pub open spec fn unknown_reported(before: Seq<ResolveError>, after: Seq<ResolveError>, n: Seq<char>) -> bool {
    exists|k: int| before.len() <= k < after.len() && (#[trigger] after[k]).message@ == "unknown name '"@ + n + "'"@
}

/// A function's statement `j` names `n` first where `n` is unknown: not a
/// parameter, a stdlib name, a name bound earlier in the body, a top-level
/// value or a type.
pub open spec fn unknown_head_in(it: Item, j: int, n: Seq<char>, values: Set<Seq<char>>, types: Set<Seq<char>>) -> bool {
    it matches Item::Func(f) && 0 <= j < f.body.stmts@.len() && stmt_head_name(f.body.stmts@[j]) == Some(n)
        && !name_ok(
        n,
        param_names(f.params@).union(stdlib_scope()).union(declared_names(f.body.stmts@.take(j))),
        values,
        types,
    )
}

proof fn lemma_unknown_grows(before: Seq<ResolveError>, a: Seq<ResolveError>, b: Seq<ResolveError>, n: Seq<char>)
    requires
        unknown_reported(before, a, n),
        a.is_prefix_of(b),
    ensures
        unknown_reported(before, b, n),
{
    let k = choose|k: int| before.len() <= k < a.len() && (#[trigger] a[k]).message@ == "unknown name '"@ + n + "'"@;
    assert(b[k] == a[k]);
}

/// Every name in an expression resolves in `scope`.
pub open spec fn expr_ok(e: Expr, scope: Set<Seq<char>>, values: Set<Seq<char>>, types: Set<Seq<char>>) -> bool
    decreases e,
{
    match e {
        Expr::Name(n) => name_ok(n@, scope, values, types),
        Expr::Call(c, args) => expr_ok(*c, scope, values, types) && {
            proof {
                assert(decreases_to!(args => args@));
            }
            exprs_ok(args@, scope, values, types)
        },
        Expr::Field(b, _) => expr_ok(*b, scope, values, types),
        Expr::Index(b, i) => expr_ok(*b, scope, values, types) && expr_ok(*i, scope, values, types),
        Expr::ListLit(es) => {
            proof {
                assert(decreases_to!(es => es@));
            }
            exprs_ok(es@, scope, values, types)
        },
        Expr::SetLit(es) => {
            proof {
                assert(decreases_to!(es => es@));
            }
            exprs_ok(es@, scope, values, types)
        },
        Expr::MapLit(ps) => {
            proof {
                assert(decreases_to!(ps => ps@));
            }
            pairs_ok(ps@, scope, values, types)
        },
        Expr::Prop(b, _) => expr_ok(*b, scope, values, types),
        Expr::Unary(_, a) => expr_ok(*a, scope, values, types),
        Expr::Binary(_, a, b) => expr_ok(*a, scope, values, types) && expr_ok(*b, scope, values, types),
        Expr::Cast(a, t) => expr_ok(*a, scope, values, types) && type_ok(t, types),
        Expr::Match(s, arms) => expr_ok(*s, scope, values, types) && {
            proof {
                assert(decreases_to!(arms => arms@));
            }
            arms_ok(arms@, scope, values, types)
        },
        Expr::If(ifx) => expr_ok(*ifx.cond, scope, values, types) && block_ok(ifx.then_block, scope, values, types)
            && {
            proof {
                assert(decreases_to!(ifx.elif => ifx.elif@));
            }
            elifs_ok(ifx.elif@, scope, values, types)
        } && match ifx.else_block {
            Some(b) => block_ok(b, scope, values, types),
            None => true,
        },
        Expr::Loop(b) => block_ok(b, scope, values, types),
        Expr::For(n, it, b) => expr_ok(*it, scope, values, types) && block_ok(b, scope.insert(n@), values, types),
        Expr::Await(a) => expr_ok(*a, scope, values, types),
        Expr::Send(c, v) => expr_ok(*c, scope, values, types) && expr_ok(*v, scope, values, types),
        Expr::Recv(ch) => scope.contains(ch@) || values.contains(ch@),
        Expr::Transfer(a) => expr_ok(*a, scope, values, types),
        Expr::OkOf(inner) => match inner {
            Some(v) => expr_ok(*v, scope, values, types),
            None => true,
        },
        Expr::ErrOf(a) => expr_ok(*a, scope, values, types),
        Expr::SomeOf(a) => expr_ok(*a, scope, values, types),
        _ => true,
    }
}

proof fn lemma_exprs_ok_each(es: Seq<Expr>, scope: Set<Seq<char>>, values: Set<Seq<char>>, types: Set<Seq<char>>, k: int)
    requires
        0 <= k < es.len(),
    ensures
        exprs_ok(es, scope, values, types) ==> expr_ok(es[k], scope, values, types),
    decreases es.len(),
{
    if k < es.len() - 1 {
        lemma_exprs_ok_each(es.drop_last(), scope, values, types, k);
    }
}

proof fn lemma_pairs_ok_each(ps: Seq<(Expr, Expr)>, scope: Set<Seq<char>>, values: Set<Seq<char>>, types: Set<Seq<char>>, k: int)
    requires
        0 <= k < ps.len(),
    ensures
        pairs_ok(ps, scope, values, types) ==> expr_ok(ps[k].0, scope, values, types) && expr_ok(ps[k].1, scope, values, types),
    decreases ps.len(),
{
    if k < ps.len() - 1 {
        lemma_pairs_ok_each(ps.drop_last(), scope, values, types, k);
    }
}

proof fn lemma_elifs_ok_each(els: Seq<(Box<Expr>, Block)>, scope: Set<Seq<char>>, values: Set<Seq<char>>, types: Set<Seq<char>>, k: int)
    requires
        0 <= k < els.len(),
    ensures
        elifs_ok(els, scope, values, types) ==> expr_ok(*els[k].0, scope, values, types) && block_ok(els[k].1, scope, values, types),
    decreases els.len(),
{
    if k < els.len() - 1 {
        lemma_elifs_ok_each(els.drop_last(), scope, values, types, k);
    }
}

/// A name resolves exactly when it is a local, a top-level value or a
/// type; an expression resolves only if every part of it does (operands,
/// callee, arguments, elements, conditions and blocks, a `for` body with
/// its variable in scope), and an operator, index or send resolves exactly
/// when both its sides do. So an unknown name anywhere in an expression
/// makes the expression fail to resolve.
pub proof fn law_names_resolve_in_every_part(e: Expr, scope: Set<Seq<char>>, values: Set<Seq<char>>, types: Set<Seq<char>>)
    ensures
        e matches Expr::Name(n) ==> expr_ok(e, scope, values, types) == (scope.contains(n@) || values.contains(n@)
            || is_builtin_type_name(n@) || types.contains(n@)),
        e matches Expr::Binary(_, a, b) ==> expr_ok(e, scope, values, types) == (expr_ok(*a, scope, values, types)
            && expr_ok(*b, scope, values, types)),
        e matches Expr::Index(a, b) ==> expr_ok(e, scope, values, types) == (expr_ok(*a, scope, values, types)
            && expr_ok(*b, scope, values, types)),
        e matches Expr::Send(a, b) ==> expr_ok(e, scope, values, types) == (expr_ok(*a, scope, values, types)
            && expr_ok(*b, scope, values, types)),
        expr_ok(e, scope, values, types) ==> {
            &&& (e matches Expr::Call(c, args) ==> expr_ok(*c, scope, values, types) && forall|k: int|
                0 <= k < args@.len() ==> expr_ok(#[trigger] args@[k], scope, values, types))
            &&& (e matches Expr::Field(a, _) ==> expr_ok(*a, scope, values, types))
            &&& (e matches Expr::Prop(a, _) ==> expr_ok(*a, scope, values, types))
            &&& (e matches Expr::Unary(_, a) ==> expr_ok(*a, scope, values, types))
            &&& (e matches Expr::Cast(a, _) ==> expr_ok(*a, scope, values, types))
            &&& (e matches Expr::Await(a) ==> expr_ok(*a, scope, values, types))
            &&& (e matches Expr::Transfer(a) ==> expr_ok(*a, scope, values, types))
            &&& (e matches Expr::ErrOf(a) ==> expr_ok(*a, scope, values, types))
            &&& (e matches Expr::SomeOf(a) ==> expr_ok(*a, scope, values, types))
            &&& (e matches Expr::OkOf(inner) ==> (inner matches Some(a) ==> expr_ok(*a, scope, values, types)))
            &&& (e matches Expr::ListLit(es) ==> forall|k: int| 0 <= k < es@.len() ==> expr_ok(
                #[trigger] es@[k],
                scope,
                values,
                types,
            ))
            &&& (e matches Expr::SetLit(es) ==> forall|k: int| 0 <= k < es@.len() ==> expr_ok(
                #[trigger] es@[k],
                scope,
                values,
                types,
            ))
            &&& (e matches Expr::MapLit(ps) ==> forall|k: int| 0 <= k < ps@.len() ==> expr_ok(
                (#[trigger] ps@[k]).0,
                scope,
                values,
                types,
            ) && expr_ok(ps@[k].1, scope, values, types))
            &&& (e matches Expr::Match(sub, _) ==> expr_ok(*sub, scope, values, types))
            &&& (e matches Expr::If(ifx) ==> {
                &&& expr_ok(*ifx.cond, scope, values, types)
                &&& block_ok(ifx.then_block, scope, values, types)
                &&& forall|k: int| 0 <= k < ifx.elif@.len() ==> expr_ok(
                    *(#[trigger] ifx.elif@[k]).0,
                    scope,
                    values,
                    types,
                ) && block_ok(ifx.elif@[k].1, scope, values, types)
                &&& (ifx.else_block matches Some(b) ==> block_ok(b, scope, values, types))
            })
            &&& (e matches Expr::Loop(b) ==> block_ok(b, scope, values, types))
            &&& (e matches Expr::For(n, it, b) ==> expr_ok(*it, scope, values, types) && block_ok(
                b,
                scope.insert(n@),
                values,
                types,
            ))
        },
{
    if expr_ok(e, scope, values, types) {
        match e {
            Expr::Call(c, args) => {
                assert forall|k: int| 0 <= k < args@.len() implies expr_ok(#[trigger] args@[k], scope, values, types) by {
                    lemma_exprs_ok_each(args@, scope, values, types, k);
                }
            },
            Expr::ListLit(es) => {
                assert forall|k: int| 0 <= k < es@.len() implies expr_ok(#[trigger] es@[k], scope, values, types) by {
                    lemma_exprs_ok_each(es@, scope, values, types, k);
                }
            },
            Expr::SetLit(es) => {
                assert forall|k: int| 0 <= k < es@.len() implies expr_ok(#[trigger] es@[k], scope, values, types) by {
                    lemma_exprs_ok_each(es@, scope, values, types, k);
                }
            },
            Expr::MapLit(ps) => {
                assert forall|k: int| 0 <= k < ps@.len() implies expr_ok((#[trigger] ps@[k]).0, scope, values, types)
                    && expr_ok(ps@[k].1, scope, values, types) by {
                    lemma_pairs_ok_each(ps@, scope, values, types, k);
                }
            },
            Expr::If(ifx) => {
                assert forall|k: int| 0 <= k < ifx.elif@.len() implies expr_ok(*(#[trigger] ifx.elif@[k]).0, scope, values, types)
                    && block_ok(ifx.elif@[k].1, scope, values, types) by {
                    lemma_elifs_ok_each(ifx.elif@, scope, values, types, k);
                }
            },
            _ => {},
        }
    }
}

proof fn lemma_stmts_ok_each(ss: Seq<crate::ast::Stmt>, scope: Set<Seq<char>>, values: Set<Seq<char>>, types: Set<Seq<char>>, k: int)
    requires
        0 <= k < ss.len(),
    ensures
        stmts_ok(ss, scope, values, types) ==> stmt_ok(ss[k], scope.union(declared_names(ss.take(k))), values, types),
    decreases ss.len(),
{
    if k < ss.len() - 1 {
        lemma_stmts_ok_each(ss.drop_last(), scope, values, types, k);
        assert(ss.drop_last().take(k) == ss.take(k));
    } else {
        assert(ss.take(k) == ss.drop_last());
    }
}

/// A block resolves only if each of its statements does, each in the scope
/// the block was given plus the names bound by the statements before it; an
/// expression statement, an assigned value or an initializer must resolve
/// there.
pub proof fn law_block_names_resolve_statement_by_statement(
    b: Block,
    scope: Set<Seq<char>>,
    values: Set<Seq<char>>,
    types: Set<Seq<char>>,
    k: int,
)
    requires
        0 <= k < b.stmts@.len(),
        block_ok(b, scope, values, types),
    ensures
        b.stmts@[k].kind matches StmtKind::Expr(e) ==> expr_ok(e, scope.union(declared_names(b.stmts@.take(k))), values, types),
        b.stmts@[k].kind matches StmtKind::Assign(a) ==> expr_ok(*a.value, scope.union(declared_names(b.stmts@.take(k))), values, types),
        b.stmts@[k].kind matches StmtKind::Decl(dc) ==> (dc.init matches Some(e) ==> expr_ok(
            *e,
            scope.union(declared_names(b.stmts@.take(k))),
            values,
            types,
        )),
{
    lemma_stmts_ok_each(b.stmts@, scope, values, types, k);
}

pub open spec fn exprs_ok(es: Seq<Expr>, scope: Set<Seq<char>>, values: Set<Seq<char>>, types: Set<Seq<char>>) -> bool
    decreases es,
{
    if es.len() == 0 {
        true
    } else {
        proof {
            assert(decreases_to!(es => es.subrange(0, es.len() - 1)));
            assert(decreases_to!(es => es[es.len() - 1]));
        }
        exprs_ok(es.drop_last(), scope, values, types) && expr_ok(es.last(), scope, values, types)
    }
}

pub open spec fn pairs_ok(ps: Seq<(Expr, Expr)>, scope: Set<Seq<char>>, values: Set<Seq<char>>, types: Set<Seq<char>>) -> bool
    decreases ps,
{
    if ps.len() == 0 {
        true
    } else {
        proof {
            assert(decreases_to!(ps => ps.subrange(0, ps.len() - 1)));
            assert(decreases_to!(ps => ps[ps.len() - 1]));
            assert(decreases_to!(ps[ps.len() - 1] => ps[ps.len() - 1].0));
            assert(decreases_to!(ps[ps.len() - 1] => ps[ps.len() - 1].1));
        }
        pairs_ok(ps.drop_last(), scope, values, types) && expr_ok(ps.last().0, scope, values, types)
            && expr_ok(ps.last().1, scope, values, types)
    }
}

/// Each arm's body resolves with the pattern's names added.
pub open spec fn arms_ok(arms: Seq<(Pattern, Box<Expr>)>, scope: Set<Seq<char>>, values: Set<Seq<char>>, types: Set<Seq<char>>) -> bool
    decreases arms,
{
    if arms.len() == 0 {
        true
    } else {
        proof {
            assert(decreases_to!(arms => arms.subrange(0, arms.len() - 1)));
            assert(decreases_to!(arms => arms[arms.len() - 1]));
            assert(decreases_to!(arms[arms.len() - 1] => arms[arms.len() - 1].1));
        }
        arms_ok(arms.drop_last(), scope, values, types) && expr_ok(
            *arms.last().1,
            scope.union(pattern_names(arms.last().0)),
            values,
            types,
        )
    }
}

pub open spec fn elifs_ok(els: Seq<(Box<Expr>, Block)>, scope: Set<Seq<char>>, values: Set<Seq<char>>, types: Set<Seq<char>>) -> bool
    decreases els,
{
    if els.len() == 0 {
        true
    } else {
        proof {
            assert(decreases_to!(els => els.subrange(0, els.len() - 1)));
            assert(decreases_to!(els => els[els.len() - 1]));
            assert(decreases_to!(els[els.len() - 1] => els[els.len() - 1].0));
            assert(decreases_to!(els[els.len() - 1] => els[els.len() - 1].1));
        }
        elifs_ok(els.drop_last(), scope, values, types) && expr_ok(*els.last().0, scope, values, types)
            && block_ok(els.last().1, scope, values, types)
    }
}

/// A block resolves statement by statement, each declaration adding its
/// name for the statements after it.
pub open spec fn block_ok(b: Block, scope: Set<Seq<char>>, values: Set<Seq<char>>, types: Set<Seq<char>>) -> bool
    decreases b,
{
    proof {
        assert(decreases_to!(b => b.stmts));
        assert(decreases_to!(b.stmts => b.stmts@));
    }
    stmts_ok(b.stmts@, scope, values, types)
}

/// The names the declarations among `ss` add.
pub open spec fn declared_names(ss: Seq<crate::ast::Stmt>) -> Set<Seq<char>>
    decreases ss.len(),
{
    if ss.len() == 0 {
        Set::empty()
    } else {
        declared_names(ss.drop_last()).union(match ss.last().kind {
            StmtKind::Decl(d) => set![d.name@],
            _ => Set::empty(),
        })
    }
}

pub open spec fn stmts_ok(ss: Seq<crate::ast::Stmt>, scope: Set<Seq<char>>, values: Set<Seq<char>>, types: Set<Seq<char>>) -> bool
    decreases ss,
{
    if ss.len() == 0 {
        true
    } else {
        proof {
            assert(decreases_to!(ss => ss.subrange(0, ss.len() - 1)));
            assert(decreases_to!(ss => ss[ss.len() - 1]));
        }
        stmts_ok(ss.drop_last(), scope, values, types) && stmt_ok(
            ss.last(),
            scope.union(declared_names(ss.drop_last())),
            values,
            types,
        )
    }
}

pub open spec fn stmt_ok(s: crate::ast::Stmt, scope: Set<Seq<char>>, values: Set<Seq<char>>, types: Set<Seq<char>>) -> bool
    decreases s,
{
    proof {
        assert(decreases_to!(s => s.kind));
    }
    match s.kind {
        StmtKind::Decl(d) => (match d.init {
            Some(e) => expr_ok(*e, scope, values, types),
            None => true,
        }) && (d.recv ==> match d.chan {
            Some(ch) => scope.contains(ch@) || values.contains(ch@),
            None => true,
        }),
        StmtKind::Assign(a) => (match a.target {
            AssignTarget::Name(n) => scope.contains(n@),
            AssignTarget::Field(b, _) => expr_ok(*b, scope, values, types),
        }) && expr_ok(*a.value, scope, values, types),
        StmtKind::Expr(e) => expr_ok(e, scope, values, types),
        _ => true,
    }
}


/// The names of a function's parameters.
pub open spec fn param_names(ps: Seq<crate::ast::Param>) -> Set<Seq<char>>
    decreases ps.len(),
{
    if ps.len() == 0 {
        Set::empty()
    } else {
        param_names(ps.drop_last()).insert(ps.last().name@)
    }
}

/// The stdlib functions, methods and constants a body may name.
pub open spec fn stdlib_functions() -> Set<Seq<char>> {
    Set::<Seq<char>>::empty().insert("print"@).insert("to_str"@).insert("len"@).insert("is_empty"@).insert(
        "to_upper"@,
    ).insert("to_lower"@).insert("at"@).insert("to_bytes"@).insert("abs"@).insert("is_some"@).insert(
        "is_none"@,
    ).insert("approx_sqrt"@).insert("PI"@).insert("E"@)
}

/// Every name a body starts with: the stdlib functions and the error
/// record constructors.
pub open spec fn stdlib_scope() -> Set<Seq<char>> {
    stdlib_functions().union(error_type_names().to_set())
}

/// A contract resolves in the function's scope; a postcondition may also
/// name `result`.
pub open spec fn contract_ok(c: Contract, scope: Set<Seq<char>>, values: Set<Seq<char>>, types: Set<Seq<char>>) -> bool {
    match c {
        Contract::Pre(e) => expr_ok(e, scope, values, types),
        Contract::Post(e) => expr_ok(e, scope.insert("result"@), values, types),
        Contract::Invariant(e) => expr_ok(e, scope, values, types),
    }
}

/// An item's names resolve: a function's contracts and body (with its
/// parameters and the stdlib in scope), a task's body, record and variant
/// field types, a channel's payload, an extern's signature.
pub open spec fn item_ok(it: Item, values: Set<Seq<char>>, types: Set<Seq<char>>) -> bool {
    match it {
        Item::Func(f) => {
            let sc = param_names(f.params@).union(stdlib_scope());
            (forall|k: int| 0 <= k < f.contracts@.len() ==> contract_ok(#[trigger] f.contracts@[k], sc, values, types))
                && block_ok(f.body, sc, values, types)
        },
        Item::Task(t) => block_ok(t.body, stdlib_scope(), values, types),
        Item::Record(r) => fields_ok(r.fields@, types),
        Item::Enum(en) => forall|q: int| 0 <= q < en.variants@.len() ==> fields_ok(#[trigger] en.variants@[q].fields@, types),
        Item::Chan(c) => type_ok(c.payload, types),
        Item::Extern(e) => (forall|q: int| 0 <= q < e.params@.len() ==> type_ok(#[trigger] e.params@[q].ty, types))
            && match e.ret {
            Some(t) => type_ok(t, types),
            None => true,
        },
    }
}

pub open spec fn items_ok(items: Seq<Item>, values: Set<Seq<char>>, types: Set<Seq<char>>) -> bool {
    forall|k: int| 0 <= k < items.len() ==> item_ok(#[trigger] items[k], values, types)
}

} // verus!
