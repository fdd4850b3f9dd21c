//! Package and interface tooling: the rules a `.xzint` interface file obeys,
//! registry URLs and file names for `pkg add`, and the check a fetched
//! interface must pass before it is written.
use vstd::prelude::*;
use crate::ast::{ExternDecl, InterfaceKind, Item, Program, Type};
use crate::lexer::lex;
use crate::parser::{bare_interface_tokens, parse};
use crate::keywords::keyword_of;
use crate::lexer::{lemma_plain_tokens_bounds, lexes_plainly, plain_text, plain_token_is, plain_tokens};
use crate::token::Token;
use crate::resolve::resolve;
use crate::text::{chars_of, concat3, push_decimal, push_str, str_eq, string_of};
use crate::typecheck::typecheck;
use crate::format::at;

verus! {

/// An item an interface file may hold: an `extern func` or a `@cstruct record`.
pub open spec fn interface_item(it: Item) -> bool {
    it is Extern || (it matches Item::Record(r) && r.cstruct)
}

/// The keyword of a declaration an interface file may not hold.
pub open spec fn item_word(it: Item) -> Seq<char> {
    match it {
        Item::Record(_) => "record"@,
        Item::Func(_) => "func"@,
        Item::Task(_) => "task"@,
        Item::Chan(_) => "chan"@,
        Item::Enum(_) => "enum"@,
        Item::Extern(_) => "extern func"@,
    }
}

/// The refusal of a declaration an interface file may not hold.
pub open spec fn foreign_item_message(it: Item) -> Seq<char> {
    "'.xzint' interface files may only declare 'extern func' and '@cstruct record'; found "@ + item_word(it) + " '"@
        + crate::symbols::item_name(it) + "'"@
}

pub open spec fn type_named(ty: Type, n: Seq<char>) -> bool {
    match ty {
        Type::NamedPlain(m) => m@ == n,
        Type::Named(m, _) => m@ == n,
        Type::Union(_) => false,
    }
}

/// A release symbol takes one borrowed `Ptr` and returns `Unit` (or nothing).
pub open spec fn ptr_to_unit(f: ExternDecl) -> bool {
    &&& f.params@.len() == 1
    &&& !f.transfer_ret
    &&& !f.params@[0].mutable
    &&& !f.params@[0].transfer
    &&& type_named(f.params@[0].ty, "Ptr"@)
    &&& match f.ret {
        None => true,
        Some(t) => type_named(t, "Unit"@),
    }
}

/// An extern of an `@interface export` file: nothing may be handed over.
pub open spec fn export_extern_ok(e: ExternDecl) -> bool {
    &&& forall|k: int| 0 <= k < e.params@.len() ==> !(#[trigger] e.params@[k]).transfer
    &&& !e.transfer_ret
    &&& e.release is None
}

/// The externs of a list of items, in order.
pub open spec fn externs_of(items: Seq<Item>) -> Seq<ExternDecl>
    decreases items.len(),
{
    if items.len() == 0 {
        Seq::empty()
    } else {
        let rest = externs_of(items.drop_last());
        match items.last() {
            Item::Extern(e) => rest.push(e),
            _ => rest,
        }
    }
}

/// The first extern named `n`, if any.
pub open spec fn first_named(es: Seq<ExternDecl>, n: Seq<char>) -> Option<ExternDecl>
    decreases es.len(),
{
    if es.len() == 0 {
        None
    } else if es[0].name@ == n {
        Some(es[0])
    } else {
        first_named(es.drop_first(), n)
    }
}

/// An extern of an `@interface foreign` file: a `transfer` return names its
/// deallocator with `release`, which must be another extern of the file
/// taking one borrowed `Ptr`; only a `transfer` return may name one.
pub open spec fn foreign_extern_ok(e: ExternDecl, es: Seq<ExternDecl>) -> bool {
    if !e.transfer_ret {
        e.release is None
    } else {
        match e.release {
            None => false,
            Some(sym) => sym@ != e.name@ && match first_named(es, sym@) {
                None => false,
                Some(r) => ptr_to_unit(r),
            },
        }
    }
}

/// Whether a program is a valid interface file.
pub open spec fn interface_valid(p: Program) -> bool {
    &&& p.interface_kind is Some
    &&& forall|k: int| 0 <= k < p.items@.len() ==> interface_item(#[trigger] p.items@[k])
    &&& match p.interface_kind {
        Some(InterfaceKind::Export) => forall|k: int|
            0 <= k < externs_of(p.items@).len() ==> export_extern_ok(#[trigger] externs_of(p.items@)[k]),
        _ => forall|k: int|
            0 <= k < externs_of(p.items@).len() ==> foreign_extern_ok(
                #[trigger] externs_of(p.items@)[k],
                externs_of(p.items@),
            ),
    }
}

pub open spec fn missing_marker_message() -> Seq<char> {
    "'.xzint' interface files must open with exactly one '@interface export' or '@interface foreign' marker"@
}

pub fn is_ptr(ty: &Type) -> (r: bool)
    ensures
        r == type_named(*ty, "Ptr"@),
{
    match ty {
        Type::NamedPlain(n) => str_eq(n.as_str(), "Ptr"),
        Type::Named(n, _) => str_eq(n.as_str(), "Ptr"),
        Type::Union(_) => false,
    }
}

pub fn is_unit(ty: &Type) -> (r: bool)
    ensures
        r == type_named(*ty, "Unit"@),
{
    match ty {
        Type::NamedPlain(n) => str_eq(n.as_str(), "Unit"),
        Type::Named(n, _) => str_eq(n.as_str(), "Unit"),
        Type::Union(_) => false,
    }
}

/// Whether an extern can serve as a release symbol.
pub fn is_ptr_to_unit(func: &ExternDecl) -> (r: bool)
    ensures
        r == ptr_to_unit(*func),
{
    if func.params.len() != 1 || func.transfer_ret {
        return false;
    }
    let p = &func.params[0];
    if p.mutable || p.transfer || !is_ptr(&p.ty) {
        return false;
    }
    match &func.ret {
        None => true,
        Some(ty) => is_unit(ty),
    }
}

proof fn lemma_externs_step(items: Seq<Item>, k: int)
    requires
        0 <= k < items.len(),
    ensures
        externs_of(items.take(k + 1)) == match items[k] {
            Item::Extern(e) => externs_of(items.take(k)).push(e),
            _ => externs_of(items.take(k)),
        },
{
    assert(items.take(k + 1).drop_last() == items.take(k));
}

proof fn lemma_first_named_found(es: Seq<ExternDecl>, n: Seq<char>, i: int)
    requires
        0 <= i < es.len(),
        es[i].name@ == n,
        forall|j: int| 0 <= j < i ==> (#[trigger] es[j]).name@ != n,
    ensures
        first_named(es, n) == Some(es[i]),
    decreases i,
{
    if i > 0 {
        lemma_first_named_found(es.drop_first(), n, i - 1);
    }
}

proof fn lemma_first_named_absent(es: Seq<ExternDecl>, n: Seq<char>)
    requires
        forall|j: int| 0 <= j < es.len() ==> (#[trigger] es[j]).name@ != n,
    ensures
        first_named(es, n) is None,
    decreases es.len(),
{
    if es.len() > 0 {
        lemma_first_named_absent(es.drop_first(), n);
    }
}

/// The externs of a program, in order.
fn collect_externs(program: &Program) -> (r: Vec<&ExternDecl>)
    ensures
        r@.len() == externs_of(program.items@).len(),
        forall|k: int| 0 <= k < r@.len() ==> *(#[trigger] r@[k]) == externs_of(program.items@)[k],
{
    let mut v: Vec<&ExternDecl> = Vec::new();
    let mut i: usize = 0;
    while i < program.items.len()
        invariant
            i <= program.items.len(),
            v@.len() == externs_of(program.items@.take(i as int)).len(),
            forall|k: int| 0 <= k < v@.len() ==> *(#[trigger] v@[k]) == externs_of(program.items@.take(i as int))[k],
        decreases program.items.len() - i,
    {
        proof {
            lemma_externs_step(program.items@, i as int);
        }
        match &program.items[i] {
            Item::Extern(e) => v.push(e),
            _ => {}
        }
        i += 1;
    }
    proof {
        assert(program.items@.take(program.items.len() as int) == program.items@);
    }
    v
}

fn find_extern<'a>(externs: &Vec<&'a ExternDecl>, sym: &str) -> (r: Option<&'a ExternDecl>)
    ensures
        match r {
            Some(e) => first_named(externs@.map_values(|x: &ExternDecl| *x), sym@) == Some(*e),
            None => first_named(externs@.map_values(|x: &ExternDecl| *x), sym@) is None,
        },
{
    let ghost es = externs@.map_values(|x: &ExternDecl| *x);
    let mut i: usize = 0;
    while i < externs.len()
        invariant
            i <= externs.len(),
            es == externs@.map_values(|x: &ExternDecl| *x),
            forall|j: int| 0 <= j < i ==> (#[trigger] es[j]).name@ != sym@,
        decreases externs.len() - i,
    {
        if str_eq(externs[i].name.as_str(), sym) {
            proof {
                lemma_first_named_found(es, sym@, i as int);
            }
            return Some(externs[i]);
        }
        i += 1;
    }
    proof {
        lemma_first_named_absent(es, sym@);
    }
    None
}

/// An extern of an export interface hands nothing over.
fn check_export_extern(e: &ExternDecl) -> (r: Result<(), String>)
    ensures
        r is Ok <==> export_extern_ok(*e),
{
    let mut j: usize = 0;
    while j < e.params.len()
        invariant
            j <= e.params.len(),
            forall|q: int| 0 <= q < j ==> !(#[trigger] e.params@[q]).transfer,
        decreases e.params.len() - j,
    {
        if e.params[j].transfer {
            let mut m = concat3("extern func '", e.name.as_str(), "' parameter '");
            push_str(&mut m, e.params[j].name.as_str());
            push_str(
                &mut m,
                "': 'transfer' cannot cross an Xz '@export' boundary; declare it only in an '@interface foreign'",
            );
            return Err(m);
        }
        j += 1;
    }
    if e.transfer_ret {
        let m = concat3(
            "extern func '",
            e.name.as_str(),
            "' return: 'transfer' cannot cross an Xz '@export' boundary; declare it only in an '@interface foreign'",
        );
        return Err(m);
    }
    if e.release.is_some() {
        let m = concat3(
            "extern func '",
            e.name.as_str(),
            "' return: 'release' names a deallocator for a 'transfer' return, which an '@interface export' cannot declare",
        );
        return Err(m);
    }
    Ok(())
}

/// Checks that a program is a valid interface file: it opens with an
/// `@interface export|foreign` marker and holds only `extern func` and
/// `@cstruct record` declarations; an export interface hands nothing over
/// with `transfer`; in a foreign one, each `transfer` return names a valid
/// release symbol and nothing else names one. The error names the first
/// violation.
pub fn validate_interface(program: &Program) -> (r: Result<(), String>)
    ensures
        r is Ok <==> interface_valid(*program),
        program.interface_kind is Some && (exists|k: int| 0 <= k < program.items@.len() && !interface_item(
            #[trigger] program.items@[k],
        )) ==> (r matches Err(m) && exists|k: int| 0 <= k < program.items@.len() && !interface_item(
            #[trigger] program.items@[k],
        ) && (forall|j: int| 0 <= j < k ==> interface_item(#[trigger] program.items@[j])) && m@
            == foreign_item_message(program.items@[k])),
        program.interface_kind is None ==> (r matches Err(m) && m@ == missing_marker_message()),
{
    let kind = match program.interface_kind {
        Some(k) => k,
        None => {
            return Err(
                "'.xzint' interface files must open with exactly one '@interface export' or '@interface foreign' marker".to_string(),
            );
        }
    };
    let mut i: usize = 0;
    while i < program.items.len()
        invariant
            i <= program.items.len(),
            program.interface_kind == Some(kind),
            forall|k: int| 0 <= k < i ==> interface_item(#[trigger] program.items@[k]),
        decreases program.items.len() - i,
    {
        let (what, name) = match &program.items[i] {
            Item::Extern(_) => {
                i += 1;
                continue;
            }
            Item::Record(r) => {
                if r.cstruct {
                    i += 1;
                    continue;
                }
                ("record", r.name.as_str())
            }
            Item::Func(f) => ("func", f.name.as_str()),
            Item::Task(t) => ("task", t.name.as_str()),
            Item::Chan(c) => ("chan", c.name.as_str()),
            Item::Enum(e) => ("enum", e.name.as_str()),
        };
        let mut m = concat3("'.xzint' interface files may only declare 'extern func' and '@cstruct record'; found ", what, " '");
        push_str(&mut m, name);
        push_str(&mut m, "'");
        proof {
            assert(!interface_item(program.items@[i as int]));
            assert(m@ == foreign_item_message(program.items@[i as int]));
        }
        return Err(m);
    }
    let externs = collect_externs(program);
    let ghost es = externs_of(program.items@);
    if kind == InterfaceKind::Export {
        let mut k: usize = 0;
        while k < externs.len()
            invariant
                k <= externs.len(),
                program.interface_kind == Some(kind),
                kind == InterfaceKind::Export,
                forall|q: int| 0 <= q < program.items@.len() ==> interface_item(#[trigger] program.items@[q]),
                externs@.len() == es.len(),
                es == externs_of(program.items@),
                forall|q: int| 0 <= q < externs@.len() ==> *(#[trigger] externs@[q]) == es[q],
                forall|q: int| 0 <= q < k ==> export_extern_ok(#[trigger] es[q]),
            decreases externs.len() - k,
        {
            match check_export_extern(externs[k]) {
                Ok(()) => {}
                Err(m) => return Err(m),
            }
            k += 1;
        }
        return Ok(());
    }
    proof {
        assert(externs@.map_values(|x: &ExternDecl| *x) =~= es);
    }
    let mut k: usize = 0;
    while k < externs.len()
        invariant
            k <= externs.len(),
            kind == InterfaceKind::Foreign,
            program.interface_kind == Some(kind),
            forall|q: int| 0 <= q < program.items@.len() ==> interface_item(#[trigger] program.items@[q]),
            externs@.len() == es.len(),
            es == externs_of(program.items@),
            externs@.map_values(|x: &ExternDecl| *x) == es,
            forall|q: int| 0 <= q < externs@.len() ==> *(#[trigger] externs@[q]) == es[q],
            forall|q: int| 0 <= q < k ==> foreign_extern_ok(#[trigger] es[q], es),
        decreases externs.len() - k,
    {
        let e = externs[k];
        if !e.transfer_ret {
            if e.release.is_some() {
                let m = concat3(
                    "extern func '",
                    e.name.as_str(),
                    "' return: 'release' names a deallocator for a 'transfer' return, but this return is not 'transfer'",
                );
                return Err(m);
            }
            k += 1;
            continue;
        }
        let sym = match &e.release {
            Some(s) => s,
            None => {
                let m = concat3(
                    "extern func '",
                    e.name.as_str(),
                    "' return: a 'transfer' return must declare its deallocator with 'release <symbol>'",
                );
                return Err(m);
            }
        };
        if str_eq(sym.as_str(), e.name.as_str()) {
            let m = concat3("extern func '", e.name.as_str(), "' return: a function cannot release its own returned buffer");
            return Err(m);
        }
        let release = match find_extern(&externs, sym.as_str()) {
            Some(r) => r,
            None => {
                let mut m = concat3("extern func '", e.name.as_str(), "' return: 'release' names '");
                push_str(&mut m, sym.as_str());
                push_str(&mut m, "', which is not an 'extern func' declared in this interface");
                return Err(m);
            }
        };
        if !is_ptr_to_unit(release) {
            let mut m = concat3("extern func '", e.name.as_str(), "' return: release symbol '");
            push_str(&mut m, sym.as_str());
            push_str(
                &mut m,
                "' must be declared as 'func(ptr: Ptr) -> Unit' with one borrowed pointer parameter",
            );
            return Err(m);
        }
        k += 1;
    }
    Ok(())
}

/// `s` without trailing `/` characters.
pub open spec fn strip_slashes(s: Seq<char>) -> Seq<char>
    decreases s.len(),
{
    if s.len() > 0 && s.last() == '/' {
        strip_slashes(s.drop_last())
    } else {
        s
    }
}

fn strip_trailing_slashes(s: &str) -> (r: String)
    ensures
        r@ == strip_slashes(s@),
{
    let cs = chars_of(s);
    let mut n: usize = cs.len();
    assert(cs@.take(n as int) == cs@);
    while n > 0 && cs[n - 1] == '/'
        invariant
            n <= cs.len(),
            strip_slashes(cs@) == strip_slashes(cs@.take(n as int)),
        decreases n,
    {
        assert(cs@.take(n as int).drop_last() == cs@.take(n - 1));
        n -= 1;
    }
    let mut out: Vec<char> = Vec::new();
    let mut i: usize = 0;
    while i < n
        invariant
            i <= n <= cs.len(),
            out@ == cs@.take(i as int),
        decreases n - i,
    {
        out.push(cs[i]);
        i += 1;
    }
    string_of(&out)
}

/// The URL of interface `name` under `base`: `<base>/<name>.xzint`, with
/// the base's trailing slashes dropped.
pub fn interface_url(base: &str, name: &str) -> (r: String)
    ensures
        r@ == strip_slashes(base@) + "/"@ + name@ + ".xzint"@,
{
    let mut s = strip_trailing_slashes(base);
    push_str(&mut s, "/");
    push_str(&mut s, name);
    push_str(&mut s, ".xzint");
    s
}

/// The file `pkg add` writes: `<name>.xzint`.
pub fn interface_file(name: &str) -> (r: String)
    ensures
        r@ == name@ + ".xzint"@,
{
    let mut s = String::new();
    push_str(&mut s, name);
    push_str(&mut s, ".xzint");
    s
}

pub open spec fn is_ascii_alnum(c: char) -> bool {
    ('a' <= c && c <= 'z') || ('A' <= c && c <= 'Z') || ('0' <= c && c <= '9')
}

/// An interface name: a letter, digit or `_`, then letters, digits, `.`,
/// `_` or `-`; so it can neither leave the registry path nor read as a flag.
pub open spec fn valid_name(n: Seq<char>) -> bool {
    &&& n.len() > 0
    &&& (is_ascii_alnum(n[0]) || n[0] == '_')
    &&& forall|i: int| 1 <= i < n.len() ==> is_ascii_alnum(#[trigger] n[i]) || n[i] == '.' || n[i] == '_' || n[i] == '-'
}

fn ascii_alnum(c: char) -> (r: bool)
    ensures
        r == is_ascii_alnum(c),
{
    ('a' <= c && c <= 'z') || ('A' <= c && c <= 'Z') || ('0' <= c && c <= '9')
}

/// Accepts a plain interface name, and rejects anything else with a
/// message naming it.
pub fn validate_name(name: &str) -> (r: Result<(), String>)
    ensures
        r is Ok <==> valid_name(name@),
        r matches Err(m) ==> m@ == "invalid interface name '"@ + name@
            + "': use letters, digits, '.', '_', '-' (not starting with '.' or '-')"@,
{
    let cs = chars_of(name);
    let first_ok = cs.len() > 0 && (ascii_alnum(cs[0]) || cs[0] == '_');
    let mut rest_ok = true;
    let mut i: usize = 1;
    while i < cs.len()
        invariant
            1 <= i <= cs.len() || cs.len() == 0,
            cs@ == name@,
            rest_ok == forall|j: int| 1 <= j < i ==> is_ascii_alnum(#[trigger] cs@[j]) || cs@[j] == '.'
                || cs@[j] == '_' || cs@[j] == '-',
        decreases cs.len() - i,
    {
        let c = cs[i];
        if !(ascii_alnum(c) || c == '.' || c == '_' || c == '-') {
            rest_ok = false;
        }
        i += 1;
    }
    if first_ok && rest_ok {
        Ok(())
    } else {
        Err(concat3(
            "invalid interface name '",
            name,
            "': use letters, digits, '.', '_', '-' (not starting with '.' or '-')",
        ))
    }
}

pub open spec fn blank(s: Seq<char>) -> bool {
    crate::chars::trimmed(s).len() == 0
}

/// The registry base for `pkg add`: an explicit, non-blank one wins, then a
/// non-blank value from the environment; trailing slashes are dropped. With
/// neither there is no registry: the caller must not guess a host.
pub fn choose_registry_base(explicit: Option<&str>, from_env: Option<&str>) -> (r: Result<String, String>)
    ensures
        match (explicit, from_env) {
            (Some(b), _) if !blank(b@) => r matches Ok(s) && s@ == strip_slashes(b@),
            (_, Some(b)) if !blank(b@) => r matches Ok(s) && s@ == strip_slashes(b@),
            _ => r is Err,
        },
{
    match explicit {
        Some(b) => {
            if crate::chars::trim(&chars_of(b)).len() > 0 {
                return Ok(strip_trailing_slashes(b));
            }
        }
        None => {}
    }
    match from_env {
        Some(b) => {
            if crate::chars::trim(&chars_of(b)).len() > 0 {
                return Ok(strip_trailing_slashes(b));
            }
        }
        None => {}
    }
    Err("no registry configured: pass --registry <url> or set XZ_REGISTRY".to_string())
}

/// The name of the first parameter handed over with `transfer`.
pub open spec fn first_transfer_param(ps: Seq<crate::ast::Param>) -> Option<Seq<char>>
    decreases ps.len(),
{
    if ps.len() == 0 {
        None
    } else {
        match first_transfer_param(ps.drop_last()) {
            Some(n) => Some(n),
            None => if ps.last().transfer {
                Some(ps.last().name@)
            } else {
                None
            },
        }
    }
}

/// Why a generated Python wrapper cannot bind an extern, if it cannot: the
/// wrapper copies buffers, so it can neither hand over a `transfer`
/// parameter nor take over a `transfer` return.
pub open spec fn extern_unbindable(e: ExternDecl) -> Option<Seq<char>> {
    match first_transfer_param(e.params@) {
        Some(p) => Some("extern func '"@ + e.name@ + "' parameter '"@ + p
            + "': 'transfer' is not supported by the generated Python wrapper; it copies the buffer and cannot hand off ownership"@),
        None => if e.transfer_ret {
            Some("extern func '"@ + e.name@
                + "' return: 'transfer' is not supported by the generated Python wrapper; it copies the returned buffer and cannot take ownership"@)
        } else {
            None
        },
    }
}

/// The first extern of `items` a Python wrapper cannot bind, as its error.
pub open spec fn first_unbindable(items: Seq<Item>) -> Option<Seq<char>>
    decreases items.len(),
{
    if items.len() == 0 {
        None
    } else {
        match first_unbindable(items.drop_last()) {
            Some(m) => Some(m),
            None => match items.last() {
                Item::Extern(e) => extern_unbindable(e),
                _ => None,
            },
        }
    }
}

/// Whether a Python `ctypes` wrapper can be generated for an interface (the
/// checks `pkg gen --lang python` makes before generating): it must be a
/// valid interface, and no extern may move ownership across it. The error
/// is the interface's, or names the first extern and its `transfer`.
pub fn check_python_bindable(program: &Program) -> (r: Result<(), String>)
    ensures
        !interface_valid(*program) ==> r is Err,
        program.interface_kind is None ==> (r matches Err(m) && m@ == missing_marker_message()),
        interface_valid(*program) ==> match first_unbindable(program.items@) {
            Some(m) => r matches Err(x) && x@ == m,
            None => r is Ok,
        },
{
    match validate_interface(program) {
        Ok(()) => {}
        Err(m) => return Err(m),
    }
    let ghost items = program.items@;
    let mut i: usize = 0;
    while i < program.items.len()
        invariant
            i <= program.items.len(),
            items == program.items@,
            first_unbindable(items.take(i as int)) is None,
            interface_valid(*program),
        decreases program.items.len() - i,
    {
        proof {
            assert(items.take(i + 1).drop_last() == items.take(i as int));
            assert(items.take(i + 1).last() == items[i as int]);
        }
        match &program.items[i] {
            Item::Extern(e) => {
                let ghost ps = e.params@;
                let mut j: usize = 0;
                while j < e.params.len()
                    invariant
                        j <= e.params.len(),
                        ps == e.params@,
                        first_transfer_param(ps.take(j as int)) is None,
                        i < items.len(),
                        items == program.items@,
                        items[i as int] == Item::Extern(*e),
                        first_unbindable(items.take(i as int)) is None,
                        items.take(i + 1).drop_last() == items.take(i as int),
                        items.take(i + 1).last() == items[i as int],
                        interface_valid(*program),
                    decreases e.params.len() - j,
                {
                    proof {
                        assert(ps.take(j + 1).drop_last() == ps.take(j as int));
                        assert(ps.take(j + 1).last() == ps[j as int]);
                    }
                    if e.params[j].transfer {
                        let mut m = concat3("extern func '", e.name.as_str(), "' parameter '");
                        push_str(&mut m, e.params[j].name.as_str());
                        push_str(
                            &mut m,
                            "': 'transfer' is not supported by the generated Python wrapper; it copies the buffer and cannot hand off ownership",
                        );
                        proof {
                            assert(first_transfer_param(ps.take(j + 1)) == Some(ps[j as int].name@));
                            lemma_first_transfer_prefix(ps, j as int + 1);
                            assert(first_unbindable(items.take(i + 1)) == extern_unbindable(*e));
                            lemma_first_unbindable_prefix(items, i as int + 1);
                        }
                        return Err(m);
                    }
                    j += 1;
                }
                proof {
                    assert(ps.take(ps.len() as int) == ps);
                }
                if e.transfer_ret {
                    let m = concat3(
                        "extern func '",
                        e.name.as_str(),
                        "' return: 'transfer' is not supported by the generated Python wrapper; it copies the returned buffer and cannot take ownership",
                    );
                    proof {
                        assert(first_unbindable(items.take(i + 1)) == extern_unbindable(*e));
                        lemma_first_unbindable_prefix(items, i as int + 1);
                    }
                    return Err(m);
                }
            }
            _ => {}
        }
        i += 1;
    }
    proof {
        assert(items.take(items.len() as int) == items);
    }
    Ok(())
}

/// Once a prefix has a transfer parameter, the whole list has the same first
/// one.
proof fn lemma_first_transfer_prefix(ps: Seq<crate::ast::Param>, k: int)
    requires
        0 <= k <= ps.len(),
        first_transfer_param(ps.take(k)) is Some,
    ensures
        first_transfer_param(ps) == first_transfer_param(ps.take(k)),
    decreases ps.len() - k,
{
    if k < ps.len() {
        assert(ps.take(k + 1).drop_last() == ps.take(k));
        lemma_first_transfer_prefix(ps, k + 1);
    } else {
        assert(ps.take(k) == ps);
    }
}

/// Once a prefix has an unbindable extern, the whole program has the same
/// first one.
proof fn lemma_first_unbindable_prefix(items: Seq<Item>, k: int)
    requires
        0 <= k <= items.len(),
        first_unbindable(items.take(k)) is Some,
    ensures
        first_unbindable(items) == first_unbindable(items.take(k)),
    decreases items.len() - k,
{
    if k < items.len() {
        assert(items.take(k + 1).drop_last() == items.take(k));
        lemma_first_unbindable_prefix(items, k + 1);
    } else {
        assert(items.take(k) == items);
    }
}

/// The programs an interface is fetched with, tried in this order: no HTTP
/// client is linked in, the host's `curl` or `wget` does the transfer.
#[derive(Clone, Copy, Debug, PartialEq, Eq, Structural)]
pub enum Fetcher {
    Curl,
    Wget,
}

/// What running one fetcher came to.
pub enum FetchRun {
    /// The program is not installed.
    Missing,
    /// It ran and succeeded: the body, or `None` when it is not UTF-8.
    Fetched(Option<String>),
    /// It ran and failed, printing this on its error stream.
    Failed(String),
}

/// What to do next while fetching.
pub enum FetchStep {
    /// Run this fetcher (see `fetcher_command`).
    Run(Fetcher),
    /// Stop with this result.
    Done(Result<String, String>),
}

/// A fetcher's program name.
pub open spec fn fetcher_name(f: Fetcher) -> Seq<char> {
    match f {
        Fetcher::Curl => "curl"@,
        Fetcher::Wget => "wget"@,
    }
}

/// The command line that fetches `url` quietly to standard output, failing
/// on an HTTP error.
pub open spec fn fetcher_args(f: Fetcher, url: Seq<char>) -> Seq<Seq<char>> {
    match f {
        Fetcher::Curl => seq!["-fsSL"@, "--"@, url],
        Fetcher::Wget => seq!["-qO-"@, url],
    }
}

/// The program and arguments that run fetcher `f` on `url`.
pub fn fetcher_command(f: Fetcher, url: &str) -> (r: (String, Vec<String>))
    ensures
        r.0@ == fetcher_name(f),
        r.1@.map_values(|a: String| a@) == fetcher_args(f, url@),
{
    let mut args: Vec<String> = Vec::new();
    match f {
        Fetcher::Curl => {
            args.push("-fsSL".to_string());
            args.push("--".to_string());
            args.push(url.to_string());
            assert(args@.map_values(|a: String| a@) =~= fetcher_args(f, url@));
            ("curl".to_string(), args)
        }
        Fetcher::Wget => {
            args.push("-qO-".to_string());
            args.push(url.to_string());
            assert(args@.map_values(|a: String| a@) =~= fetcher_args(f, url@));
            ("wget".to_string(), args)
        }
    }
}

/// The message for a fetcher that ran and failed: its name, and what it
/// printed when that is not blank.
pub open spec fn fetch_failure_text(f: Fetcher, stderr: Seq<char>) -> Seq<char> {
    let detail = crate::chars::trimmed(stderr);
    if detail.len() == 0 {
        fetcher_name(f) + " failed to fetch"@
    } else {
        fetcher_name(f) + " failed to fetch: "@ + detail
    }
}

/// The message when neither fetcher is installed.
pub open spec fn no_fetcher_text(url: Seq<char>) -> Seq<char> {
    "no fetcher available: install 'curl' or 'wget' to fetch "@ + url
}

/// The step after running fetcher `f` on `url`: a body or a failure ends
/// the fetch (a body that is not UTF-8 is a failure); a missing `curl`
/// moves on to `wget`, a missing `wget` ends with no fetcher available.
pub fn fetch_next(url: &str, f: Fetcher, run: FetchRun) -> (r: FetchStep)
    ensures
        run matches FetchRun::Fetched(Some(b)) ==> (r matches FetchStep::Done(Ok(body)) && body@ == b@),
        run matches FetchRun::Fetched(None) ==> (r matches FetchStep::Done(Err(m))
            && m@ == "the fetched interface is not valid UTF-8"@),
        run matches FetchRun::Failed(e) ==> (r matches FetchStep::Done(Err(m)) && m@ == fetch_failure_text(f, e@)),
        run is Missing && f == Fetcher::Curl ==> r == FetchStep::Run(Fetcher::Wget),
        run is Missing && f == Fetcher::Wget ==> (r matches FetchStep::Done(Err(m)) && m@ == no_fetcher_text(url@)),
{
    match run {
        FetchRun::Fetched(Some(b)) => FetchStep::Done(Ok(b)),
        FetchRun::Fetched(None) => FetchStep::Done(Err("the fetched interface is not valid UTF-8".to_string())),
        FetchRun::Failed(e) => {
            let detail = crate::chars::trim(&chars_of(e.as_str()));
            let name = match f {
                Fetcher::Curl => "curl",
                Fetcher::Wget => "wget",
            };
            let mut m = String::new();
            push_str(&mut m, name);
            if detail.len() == 0 {
                push_str(&mut m, " failed to fetch");
            } else {
                push_str(&mut m, " failed to fetch: ");
                let d = string_of(&detail);
                push_str(&mut m, d.as_str());
            }
            FetchStep::Done(Err(m))
        }
        FetchRun::Missing => match f {
            Fetcher::Curl => FetchStep::Run(Fetcher::Wget),
            Fetcher::Wget => {
                let m = concat3("no fetcher available: install 'curl' or 'wget' to fetch ", url, "");
                proof {
                    reveal_strlit("");
                }
                FetchStep::Done(Err(m))
            }
        },
    }
}

/// A text that is the interface marker alone, `@interface export` or
/// `@interface foreign`, with blanks around its words.
pub open spec fn bare_interface_text(s: Seq<char>) -> bool {
    let es = plain_tokens(s, 0);
    &&& plain_text(s)
    &&& es.len() == 2
    &&& es[0].2 is None && s.subrange(es[0].0, es[0].1) == "@interface"@
    &&& es[1].2 is None && (s.subrange(es[1].0, es[1].1) == "export"@ || s.subrange(es[1].0, es[1].1) == "foreign"@)
}

/// Neither interface kind is a reserved word.
proof fn lemma_kinds_not_keywords()
    ensures
        keyword_of("export"@) is None,
        keyword_of("foreign"@) is None,
{
    reveal_strlit("export");
    reveal_strlit("foreign");
    reveal_strlit("and");
    reveal_strlit("as");
    reveal_strlit("async");
    reveal_strlit("await");
    reveal_strlit("break");
    reveal_strlit("chan");
    reveal_strlit("continue");
    reveal_strlit("elif");
    reveal_strlit("else");
    reveal_strlit("enum");
    reveal_strlit("err");
    reveal_strlit("extern");
    reveal_strlit("false");
    reveal_strlit("for");
    reveal_strlit("func");
    reveal_strlit("if");
    reveal_strlit("implies");
    reveal_strlit("in");
    reveal_strlit("invariant");
    reveal_strlit("is");
    reveal_strlit("let");
    reveal_strlit("loop");
    reveal_strlit("match");
    reveal_strlit("mut");
    reveal_strlit("none");
    reveal_strlit("not");
    reveal_strlit("ok");
    reveal_strlit("or");
    reveal_strlit("post");
    reveal_strlit("pre");
    reveal_strlit("recv");
    reveal_strlit("record");
    reveal_strlit("send");
    reveal_strlit("some");
    reveal_strlit("task");
    reveal_strlit("transfer");
    reveal_strlit("true");
    assert("export"@.len() != "and"@.len());
    assert("export"@.len() != "as"@.len());
    assert("export"@.len() != "async"@.len());
    assert("export"@.len() != "await"@.len());
    assert("export"@.len() != "break"@.len());
    assert("export"@.len() != "chan"@.len());
    assert("export"@.len() != "continue"@.len());
    assert("export"@.len() != "elif"@.len());
    assert("export"@.len() != "else"@.len());
    assert("export"@.len() != "enum"@.len());
    assert("export"@.len() != "err"@.len());
    assert("export"@[2] != "extern"@[2]);
    assert("export"@.len() != "false"@.len());
    assert("export"@.len() != "for"@.len());
    assert("export"@.len() != "func"@.len());
    assert("export"@.len() != "if"@.len());
    assert("export"@.len() != "implies"@.len());
    assert("export"@.len() != "in"@.len());
    assert("export"@.len() != "invariant"@.len());
    assert("export"@.len() != "is"@.len());
    assert("export"@.len() != "let"@.len());
    assert("export"@.len() != "loop"@.len());
    assert("export"@.len() != "match"@.len());
    assert("export"@.len() != "mut"@.len());
    assert("export"@.len() != "none"@.len());
    assert("export"@.len() != "not"@.len());
    assert("export"@.len() != "ok"@.len());
    assert("export"@.len() != "or"@.len());
    assert("export"@.len() != "post"@.len());
    assert("export"@.len() != "pre"@.len());
    assert("export"@.len() != "recv"@.len());
    assert("export"@[0] != "record"@[0]);
    assert("export"@.len() != "send"@.len());
    assert("export"@.len() != "some"@.len());
    assert("export"@.len() != "task"@.len());
    assert("export"@.len() != "transfer"@.len());
    assert("export"@.len() != "true"@.len());
    assert("foreign"@.len() != "and"@.len());
    assert("foreign"@.len() != "as"@.len());
    assert("foreign"@.len() != "async"@.len());
    assert("foreign"@.len() != "await"@.len());
    assert("foreign"@.len() != "break"@.len());
    assert("foreign"@.len() != "chan"@.len());
    assert("foreign"@.len() != "continue"@.len());
    assert("foreign"@.len() != "elif"@.len());
    assert("foreign"@.len() != "else"@.len());
    assert("foreign"@.len() != "enum"@.len());
    assert("foreign"@.len() != "err"@.len());
    assert("foreign"@.len() != "extern"@.len());
    assert("foreign"@.len() != "false"@.len());
    assert("foreign"@.len() != "for"@.len());
    assert("foreign"@.len() != "func"@.len());
    assert("foreign"@.len() != "if"@.len());
    assert("foreign"@[0] != "implies"@[0]);
    assert("foreign"@.len() != "in"@.len());
    assert("foreign"@.len() != "invariant"@.len());
    assert("foreign"@.len() != "is"@.len());
    assert("foreign"@.len() != "let"@.len());
    assert("foreign"@.len() != "loop"@.len());
    assert("foreign"@.len() != "match"@.len());
    assert("foreign"@.len() != "mut"@.len());
    assert("foreign"@.len() != "none"@.len());
    assert("foreign"@.len() != "not"@.len());
    assert("foreign"@.len() != "ok"@.len());
    assert("foreign"@.len() != "or"@.len());
    assert("foreign"@.len() != "post"@.len());
    assert("foreign"@.len() != "pre"@.len());
    assert("foreign"@.len() != "recv"@.len());
    assert("foreign"@.len() != "record"@.len());
    assert("foreign"@.len() != "send"@.len());
    assert("foreign"@.len() != "some"@.len());
    assert("foreign"@.len() != "task"@.len());
    assert("foreign"@.len() != "transfer"@.len());
    assert("foreign"@.len() != "true"@.len());
}

/// Such a text lexes to the tokens of an interface that declares nothing.
proof fn lemma_bare_interface(ts: Seq<Token>, s: Seq<char>)
    requires
        lexes_plainly(ts, s),
        bare_interface_text(s),
    ensures
        bare_interface_tokens(ts),
{
    let es = plain_tokens(s, 0);
    lemma_kinds_not_keywords();
    reveal_strlit("@interface");
    reveal_strlit("interface");
    reveal_strlit("cstruct");
    reveal_strlit("export");
    reveal_strlit("foreign");
    lemma_plain_tokens_bounds(s, 0);
    assert(plain_token_is(ts[0], s, es[0]));
    assert(plain_token_is(ts[1], s, es[1]));
    assert(s.subrange(es[0].0, es[0].1)[0] == s[es[0].0]);
    assert(s.subrange(es[0].0 + 1, es[0].1) =~= s.subrange(es[0].0, es[0].1).drop_first());
    assert(s.subrange(es[1].0, es[1].1)[0] == s[es[1].0]);
}

/// Lexes, parses and checks interface source: the same pipeline `pkg gen`
/// runs, applied to fetched text before it is written, so a malformed or
/// hostile interface never lands. What it accepts is a valid interface whose
/// names all resolve and which the type checker does not reject; a blank
/// text, which declares no interface, is refused.
pub fn verify_interface_source(source: &str, path: &str) -> (r: Result<Program, String>)
    requires
        source@.len() < usize::MAX,
    ensures
        r matches Ok(p) ==> interface_valid(p),
        r matches Ok(p) ==> crate::resolve::duplicate_count(p.items@) == 0 && crate::resolve::items_ok(
            p.items@,
            crate::resolve::value_symbols(p.items@).to_set(),
            crate::resolve::error_type_names().to_set() + crate::resolve::type_symbols(p.items@).to_set(),
        ),
        r matches Ok(p) ==> forall|i: int| 0 <= i < p.items@.len() ==> !crate::typecheck::item_has_rejected_stmt(#[trigger] p.items@[i])
            && !crate::typecheck::bad_export(p.items@[i]) && !crate::typecheck::bad_cstruct(p.items@[i]),
        crate::lexer::blank_text(source@) ==> r is Err,
        bare_interface_text(source@) ==> (r matches Ok(p) && p.items@.len() == 0),
{
    let tokens = match lex(source.to_string(), path.to_string()) {
        Ok(t) => t,
        Err(e) => return Err(at(e.message.as_str(), &e.span)),
    };
    proof {
        if bare_interface_text(source@) {
            lemma_bare_interface(tokens@, source@);
        }
    }
    let program = match parse(tokens) {
        Ok(p) => p,
        Err(e) => return Err(at(e.message.as_str(), &e.span)),
    };
    match validate_interface(&program) {
        Ok(()) => {}
        Err(m) => return Err(m),
    }
    match resolve(&program) {
        Ok(()) => {}
        Err(errors) => {
            let mut m = String::new();
            push_decimal(&mut m, errors.len() as u64);
            push_str(&mut m, " resolution error(s): ");
            push_str(&mut m, errors[0].message.as_str());
            return Err(m);
        }
    }
    match typecheck(&program) {
        Ok(()) => {}
        Err(errors) => {
            let mut m = String::new();
            push_decimal(&mut m, errors.len() as u64);
            push_str(&mut m, " type error(s): ");
            push_str(&mut m, errors[0].message.as_str());
            return Err(m);
        }
    }
    Ok(program)
}

} // verus!
