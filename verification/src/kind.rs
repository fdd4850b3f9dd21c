//! The checker's types ("kinds"), their mathematical view, their printed
//! form, and the rules that relate them: acceptance, casts, `?`
//! propagation, map keys, methods, and generic instantiation.
use vstd::prelude::*;
use crate::text::{decimal, push_decimal, push_str, str_eq};

verus! {

/// A type as the checker sees it.
#[derive(Debug)]
pub enum Kind {
    Bool,
    Int,
    Usize,
    Float,
    Char,
    Str,
    Bytes,
    Unit,
    Ptr,
    OptionOf(Box<Kind>),
    ResultOf(Box<Kind>, Box<Kind>),
    ListOf(Box<Kind>),
    MapOf(Box<Kind>, Box<Kind>),
    SetOf(Box<Kind>),
    ChanOf(Box<Kind>),
    Record(String),
    Enum(String),
    /// The root error type: accepts every narrower error.
    ErrRoot,
    /// An error union `E1 | E2`.
    ErrUnion(Vec<Kind>),
    TypeVar(usize),
    Unknown,
    Never,
}

/// The mathematical value of a `Kind`: names as character sequences.
pub enum KindV {
    Bool,
    Int,
    Usize,
    Float,
    Char,
    Str,
    Bytes,
    Unit,
    Ptr,
    OptionOf(Box<KindV>),
    ResultOf(Box<KindV>, Box<KindV>),
    ListOf(Box<KindV>),
    MapOf(Box<KindV>, Box<KindV>),
    SetOf(Box<KindV>),
    ChanOf(Box<KindV>),
    Record(Seq<char>),
    Enum(Seq<char>),
    ErrRoot,
    ErrUnion(Seq<KindV>),
    TypeVar(nat),
    Unknown,
    Never,
}

pub open spec fn kind_view(k: Kind) -> KindV
    decreases k,
{
    match k {
        Kind::Bool => KindV::Bool,
        Kind::Int => KindV::Int,
        Kind::Usize => KindV::Usize,
        Kind::Float => KindV::Float,
        Kind::Char => KindV::Char,
        Kind::Str => KindV::Str,
        Kind::Bytes => KindV::Bytes,
        Kind::Unit => KindV::Unit,
        Kind::Ptr => KindV::Ptr,
        Kind::OptionOf(a) => KindV::OptionOf(Box::new(kind_view(*a))),
        Kind::ResultOf(a, b) => KindV::ResultOf(Box::new(kind_view(*a)), Box::new(kind_view(*b))),
        Kind::ListOf(a) => KindV::ListOf(Box::new(kind_view(*a))),
        Kind::MapOf(a, b) => KindV::MapOf(Box::new(kind_view(*a)), Box::new(kind_view(*b))),
        Kind::SetOf(a) => KindV::SetOf(Box::new(kind_view(*a))),
        Kind::ChanOf(a) => KindV::ChanOf(Box::new(kind_view(*a))),
        Kind::Record(n) => KindV::Record(n@),
        Kind::Enum(n) => KindV::Enum(n@),
        Kind::ErrRoot => KindV::ErrRoot,
        Kind::ErrUnion(ms) => KindV::ErrUnion(Seq::new(ms.len() as nat, |i: int|
            if 0 <= i < ms.len() {
                proof {
                    assert(decreases_to!(ms => ms[i]));
                }
                kind_view(ms[i])
            } else {
                KindV::Unknown
            })),
        Kind::TypeVar(i) => KindV::TypeVar(i as nat),
        Kind::Unknown => KindV::Unknown,
        Kind::Never => KindV::Never,
    }
}

impl View for Kind {
    type V = KindV;

    open spec fn view(&self) -> KindV {
        kind_view(*self)
    }
}

impl Clone for Kind {
    fn clone(&self) -> (r: Kind)
        ensures
            r@ == self@,
        decreases self,
    {
        match self {
            Kind::Bool => Kind::Bool,
            Kind::Int => Kind::Int,
            Kind::Usize => Kind::Usize,
            Kind::Float => Kind::Float,
            Kind::Char => Kind::Char,
            Kind::Str => Kind::Str,
            Kind::Bytes => Kind::Bytes,
            Kind::Unit => Kind::Unit,
            Kind::Ptr => Kind::Ptr,
            Kind::OptionOf(a) => Kind::OptionOf(Box::new((**a).clone())),
            Kind::ResultOf(a, b) => Kind::ResultOf(Box::new((**a).clone()), Box::new((**b).clone())),
            Kind::ListOf(a) => Kind::ListOf(Box::new((**a).clone())),
            Kind::MapOf(a, b) => Kind::MapOf(Box::new((**a).clone()), Box::new((**b).clone())),
            Kind::SetOf(a) => Kind::SetOf(Box::new((**a).clone())),
            Kind::ChanOf(a) => Kind::ChanOf(Box::new((**a).clone())),
            Kind::Record(n) => Kind::Record(n.clone()),
            Kind::Enum(n) => Kind::Enum(n.clone()),
            Kind::ErrRoot => Kind::ErrRoot,
            Kind::ErrUnion(ms) => {
                let mut out: Vec<Kind> = Vec::new();
                let mut i: usize = 0;
                while i < ms.len()
                    invariant
                        i <= ms.len(),
                        *self == Kind::ErrUnion(*ms),
                        out@.len() == i,
                        forall|j: int| 0 <= j < i ==> (#[trigger] out@[j])@ == ms@[j]@,
                    decreases ms.len() - i,
                {
                    proof {
                        assert(decreases_to!(*self => (*self)->ErrUnion_0));
                        assert(decreases_to!(*ms => ms[i as int]));
                    }
                    out.push(ms[i].clone());
                    i += 1;
                }
                let r = Kind::ErrUnion(out);
                proof {
                    assert(r@->ErrUnion_0 =~= self@->ErrUnion_0);
                }
                r
            }
            Kind::TypeVar(i) => Kind::TypeVar(*i),
            Kind::Unknown => Kind::Unknown,
            Kind::Never => Kind::Never,
        }
    }
}

/// Whether two kinds are the same type.
pub fn kind_eq(a: &Kind, b: &Kind) -> (r: bool)
    ensures
        r == (a@ == b@),
    decreases a,
{
    match (a, b) {
        (Kind::Bool, Kind::Bool) => true,
        (Kind::Int, Kind::Int) => true,
        (Kind::Usize, Kind::Usize) => true,
        (Kind::Float, Kind::Float) => true,
        (Kind::Char, Kind::Char) => true,
        (Kind::Str, Kind::Str) => true,
        (Kind::Bytes, Kind::Bytes) => true,
        (Kind::Unit, Kind::Unit) => true,
        (Kind::Ptr, Kind::Ptr) => true,
        (Kind::OptionOf(x), Kind::OptionOf(y)) => kind_eq(x, y),
        (Kind::ResultOf(x1, x2), Kind::ResultOf(y1, y2)) => kind_eq(x1, y1) && kind_eq(x2, y2),
        (Kind::ListOf(x), Kind::ListOf(y)) => kind_eq(x, y),
        (Kind::MapOf(x1, x2), Kind::MapOf(y1, y2)) => kind_eq(x1, y1) && kind_eq(x2, y2),
        (Kind::SetOf(x), Kind::SetOf(y)) => kind_eq(x, y),
        (Kind::ChanOf(x), Kind::ChanOf(y)) => kind_eq(x, y),
        (Kind::Record(x), Kind::Record(y)) => str_eq(x.as_str(), y.as_str()),
        (Kind::Enum(x), Kind::Enum(y)) => str_eq(x.as_str(), y.as_str()),
        (Kind::ErrRoot, Kind::ErrRoot) => true,
        (Kind::ErrUnion(xs), Kind::ErrUnion(ys)) => {
            if xs.len() != ys.len() {
                proof {
                    assert(a@->ErrUnion_0.len() != b@->ErrUnion_0.len());
                }
                return false;
            }
            let mut i: usize = 0;
            while i < xs.len()
                invariant
                    i <= xs.len(),
                    xs.len() == ys.len(),
                    *a == Kind::ErrUnion(*xs),
                    *b == Kind::ErrUnion(*ys),
                    forall|j: int| 0 <= j < i ==> (#[trigger] xs@[j])@ == ys@[j]@,
                decreases xs.len() - i,
            {
                proof {
                    assert(decreases_to!(*a => (*a)->ErrUnion_0));
                    assert(decreases_to!(*xs => xs[i as int]));
                }
                if !kind_eq(&xs[i], &ys[i]) {
                    proof {
                        assert(a@->ErrUnion_0[i as int] == xs@[i as int]@);
                        assert(b@->ErrUnion_0[i as int] == ys@[i as int]@);
                    }
                    return false;
                }
                i += 1;
            }
            proof {
                assert(a@->ErrUnion_0 =~= b@->ErrUnion_0);
            }
            true
        }
        (Kind::TypeVar(x), Kind::TypeVar(y)) => *x == *y,
        (Kind::Unknown, Kind::Unknown) => true,
        (Kind::Never, Kind::Never) => true,
        _ => false,
    }
}

/// Whether `k` is `Unknown`.
pub fn is_unknown(k: &Kind) -> (r: bool)
    ensures
        r == (k@ is Unknown),
{
    match k {
        Kind::Unknown => true,
        _ => false,
    }
}

// ---- printed form ----

/// How a kind is printed in messages (the derived debug form of the type).
pub open spec fn kind_text(k: KindV) -> Seq<char>
    decreases k,
{
    match k {
        KindV::Bool => "Bool"@,
        KindV::Int => "Int"@,
        KindV::Usize => "Usize"@,
        KindV::Float => "Float"@,
        KindV::Char => "Char"@,
        KindV::Str => "Str"@,
        KindV::Bytes => "Bytes"@,
        KindV::Unit => "Unit"@,
        KindV::Ptr => "Ptr"@,
        KindV::OptionOf(a) => "Option("@ + kind_text(*a) + ")"@,
        KindV::ResultOf(a, b) => "Result("@ + kind_text(*a) + ", "@ + kind_text(*b) + ")"@,
        KindV::ListOf(a) => "List("@ + kind_text(*a) + ")"@,
        KindV::MapOf(a, b) => "Map("@ + kind_text(*a) + ", "@ + kind_text(*b) + ")"@,
        KindV::SetOf(a) => "Set("@ + kind_text(*a) + ")"@,
        KindV::ChanOf(a) => "Chan("@ + kind_text(*a) + ")"@,
        KindV::Record(n) => "Record(\""@ + n + "\")"@,
        KindV::Enum(n) => "Enum(\""@ + n + "\")"@,
        KindV::ErrRoot => "Err"@,
        KindV::ErrUnion(ms) => "ErrUnion(["@ + kinds_text(ms) + "])"@,
        KindV::TypeVar(i) => "TypeVar("@ + decimal(i) + ")"@,
        KindV::Unknown => "Unknown"@,
        KindV::Never => "Never"@,
    }
}

/// A list of kinds printed with `, ` between them.
pub open spec fn kinds_text(ms: Seq<KindV>) -> Seq<char>
    decreases ms,
{
    if ms.len() == 0 {
        Seq::empty()
    } else if ms.len() == 1 {
        kind_text(ms[0])
    } else {
        proof {
            assert(decreases_to!(ms => ms.subrange(0, ms.len() - 1)));
        }
        kinds_text(ms.drop_last()) + ", "@ + kind_text(ms.last())
    }
}

/// Appends the printed form of `k` to `s`.
pub fn push_kind(s: &mut String, k: &Kind)
    ensures
        final(s)@ == old(s)@ + kind_text(k@),
    decreases k,
{
    match k {
        Kind::Bool => push_str(s, "Bool"),
        Kind::Int => push_str(s, "Int"),
        Kind::Usize => push_str(s, "Usize"),
        Kind::Float => push_str(s, "Float"),
        Kind::Char => push_str(s, "Char"),
        Kind::Str => push_str(s, "Str"),
        Kind::Bytes => push_str(s, "Bytes"),
        Kind::Unit => push_str(s, "Unit"),
        Kind::Ptr => push_str(s, "Ptr"),
        Kind::OptionOf(a) => {
            push_str(s, "Option(");
            push_kind(s, a);
            push_str(s, ")");
        }
        Kind::ResultOf(a, b) => {
            push_str(s, "Result(");
            push_kind(s, a);
            push_str(s, ", ");
            push_kind(s, b);
            push_str(s, ")");
        }
        Kind::ListOf(a) => {
            push_str(s, "List(");
            push_kind(s, a);
            push_str(s, ")");
        }
        Kind::MapOf(a, b) => {
            push_str(s, "Map(");
            push_kind(s, a);
            push_str(s, ", ");
            push_kind(s, b);
            push_str(s, ")");
        }
        Kind::SetOf(a) => {
            push_str(s, "Set(");
            push_kind(s, a);
            push_str(s, ")");
        }
        Kind::ChanOf(a) => {
            push_str(s, "Chan(");
            push_kind(s, a);
            push_str(s, ")");
        }
        Kind::Record(n) => {
            push_str(s, "Record(\"");
            push_str(s, n.as_str());
            push_str(s, "\")");
        }
        Kind::Enum(n) => {
            push_str(s, "Enum(\"");
            push_str(s, n.as_str());
            push_str(s, "\")");
        }
        Kind::ErrRoot => push_str(s, "Err"),
        Kind::ErrUnion(ms) => {
            push_str(s, "ErrUnion([");
            let ghost start = s@;
            let ghost mv = k@->ErrUnion_0;
            let mut i: usize = 0;
            while i < ms.len()
                invariant
                    i <= ms.len(),
                    *k == Kind::ErrUnion(*ms),
                    mv == k@->ErrUnion_0,
                    mv.len() == ms.len(),
                    forall|j: int| 0 <= j < ms.len() ==> #[trigger] mv[j] == ms@[j]@,
                    s@ == start + kinds_text(mv.take(i as int)),
                decreases ms.len() - i,
            {
                proof {
                    assert(decreases_to!(*k => (*k)->ErrUnion_0));
                    assert(decreases_to!(*ms => ms[i as int]));
                    assert(mv.take(i + 1).drop_last() == mv.take(i as int));
                    assert(mv.take(i + 1).last() == mv[i as int]);
                }
                if i > 0 {
                    push_str(s, ", ");
                }
                push_kind(s, &ms[i]);
                proof {
                    if i == 0 {
                        assert(mv.take(1)[0] == mv[0]);
                        assert(mv.take(0).len() == 0);
                    }
                }
                i += 1;
            }
            proof {
                assert(mv.take(ms.len() as int) == mv);
            }
            push_str(s, "])");
        }
        Kind::TypeVar(i) => {
            push_str(s, "TypeVar(");
            push_decimal(s, *i as u64);
            push_str(s, ")");
        }
        Kind::Unknown => push_str(s, "Unknown"),
        Kind::Never => push_str(s, "Never"),
    }
}

/// The printed form of `k`.
pub fn kind_string(k: &Kind) -> (s: String)
    ensures
        s@ == kind_text(k@),
{
    let mut s = String::new();
    push_kind(&mut s, k);
    s
}

// ---- the rules ----

/// Whether a value of kind `v` may be bound where `t` is expected.
pub open spec fn accepts_spec(v: KindV, t: KindV) -> bool {
    ||| v == t
    ||| t is ErrRoot
    ||| (v is ResultOf && t is ResultOf)
    ||| (v matches KindV::OptionOf(a) && *a is Unknown && t is OptionOf)
    ||| (v matches KindV::ListOf(a) && *a is Unknown && t is ListOf)
    ||| (v matches KindV::MapOf(a, b) && *a is Unknown && *b is Unknown && (t is MapOf || t is SetOf))
    ||| (v matches KindV::SetOf(a) && *a is Unknown && t is SetOf)
}

/// The casts `as` allows: identity, Int<->usize, Int<->Float, Str<->Bytes.
pub open spec fn accepts_cast_spec(v: KindV, t: KindV) -> bool {
    ||| v == t
    ||| (v is Int && t is Usize)
    ||| (v is Usize && t is Int)
    ||| (v is Int && t is Float)
    ||| (v is Float && t is Int)
    ||| (v is Str && t is Bytes)
    ||| (v is Bytes && t is Str)
}

/// The `?` acceptance rule: the caller's error channel accepts the callee's
/// error when it is the root error, the same error, or a union holding it.
pub open spec fn accepts_error_spec(callee: KindV, caller: KindV) -> bool {
    ||| caller is ErrRoot
    ||| callee == caller
    ||| (caller matches KindV::ErrUnion(ms) && ms.contains(callee))
}

/// The kinds a `Map` key or `Set` element may have: those with decidable
/// equality (`Float` is excluded because of NaN).
pub open spec fn map_key_spec(k: KindV) -> bool {
    k is Int || k is Usize || k is Bool || k is Char || k is Str
}

pub fn accepts_kind(value: &Kind, target: &Kind) -> (r: bool)
    ensures
        r == accepts_spec(value@, target@),
{
    if kind_eq(value, target) {
        return true;
    }
    match (value, target) {
        (_, Kind::ErrRoot) => true,
        (Kind::ResultOf(_, _), Kind::ResultOf(_, _)) => true,
        (Kind::OptionOf(inner), Kind::OptionOf(_)) => is_unknown(inner),
        (Kind::ListOf(inner), Kind::ListOf(_)) => is_unknown(inner),
        (Kind::MapOf(ku, vu), Kind::MapOf(_, _)) => is_unknown(ku) && is_unknown(vu),
        (Kind::MapOf(ku, vu), Kind::SetOf(_)) => is_unknown(ku) && is_unknown(vu),
        (Kind::SetOf(inner), Kind::SetOf(_)) => is_unknown(inner),
        _ => false,
    }
}

pub fn accepts_cast_kind(value: &Kind, target: &Kind) -> (r: bool)
    ensures
        r == accepts_cast_spec(value@, target@),
{
    if kind_eq(value, target) {
        return true;
    }
    match (value, target) {
        (Kind::Int, Kind::Usize) => true,
        (Kind::Usize, Kind::Int) => true,
        (Kind::Int, Kind::Float) => true,
        (Kind::Float, Kind::Int) => true,
        (Kind::Str, Kind::Bytes) => true,
        (Kind::Bytes, Kind::Str) => true,
        _ => false,
    }
}

pub fn accepts_error_kind(callee_e: &Kind, caller_e: &Kind) -> (r: bool)
    ensures
        r == accepts_error_spec(callee_e@, caller_e@),
{
    // the root error accepts any narrower error type
    if let Kind::ErrRoot = caller_e {
        return true;
    }
    if kind_eq(callee_e, caller_e) {
        return true;
    }
    match caller_e {
        Kind::ErrUnion(members) => {
            let ghost mv = caller_e@->ErrUnion_0;
            let mut i: usize = 0;
            while i < members.len()
                invariant
                    i <= members.len(),
                    *caller_e == Kind::ErrUnion(*members),
                    mv == caller_e@->ErrUnion_0,
                    mv.len() == members.len(),
                    forall|j: int| 0 <= j < members.len() ==> #[trigger] mv[j] == members@[j]@,
                    forall|j: int| 0 <= j < i ==> mv[j] != callee_e@,
                decreases members.len() - i,
            {
                if kind_eq(callee_e, &members[i]) {
                    proof {
                        assert(mv[i as int] == callee_e@);
                    }
                    return true;
                }
                i += 1;
            }
            false
        }
        _ => false,
    }
}

/// Whether a type may be a `Map` key or a `Set` element.
pub fn map_key_ok(k: &Kind) -> (r: bool)
    ensures
        r == map_key_spec(k@),
{
    match k {
        Kind::Int | Kind::Usize | Kind::Bool | Kind::Char | Kind::Str => true,
        _ => false,
    }
}

pub fn is_typevar(k: &Kind) -> (r: bool)
    ensures
        r == (k@ is TypeVar),
{
    match k {
        Kind::TypeVar(_) => true,
        _ => false,
    }
}

pub fn typevar_index(k: &Kind) -> (r: Option<usize>)
    ensures
        k@ is TypeVar <==> r is Some,
        r matches Some(i) ==> k@ == KindV::TypeVar(i as nat),
{
    match k {
        Kind::TypeVar(i) => Some(*i),
        _ => None,
    }
}

/// What a method returns on a receiver of kind `r`, if the method exists.
pub open spec fn method_spec(r: KindV, m: Seq<char>) -> Option<KindV> {
    if m == "to_str"@ {
        Some(KindV::Str)
    } else {
        match r {
            KindV::Str => if m == "len"@ {
                Some(KindV::Int)
            } else if m == "is_empty"@ {
                Some(KindV::Bool)
            } else if m == "to_upper"@ || m == "to_lower"@ {
                Some(KindV::Str)
            } else if m == "at"@ {
                Some(KindV::ResultOf(Box::new(KindV::Char), Box::new(KindV::ErrRoot)))
            } else if m == "to_bytes"@ {
                Some(KindV::Bytes)
            } else {
                None
            },
            KindV::Int => if m == "len"@ || m == "abs"@ {
                Some(KindV::Int)
            } else {
                None
            },
            KindV::ListOf(t) => if m == "len"@ {
                Some(KindV::Int)
            } else if m == "is_empty"@ {
                Some(KindV::Bool)
            } else if m == "append"@ {
                Some(KindV::ListOf(t))
            } else {
                None
            },
            KindV::MapOf(k, v) => if m == "len"@ {
                Some(KindV::Int)
            } else if m == "is_empty"@ {
                Some(KindV::Bool)
            } else if m == "get"@ {
                Some(KindV::OptionOf(v))
            } else if m == "insert"@ {
                Some(KindV::MapOf(k, v))
            } else if m == "keys"@ {
                Some(KindV::ListOf(k))
            } else if m == "values"@ {
                Some(KindV::ListOf(v))
            } else {
                None
            },
            KindV::SetOf(t) => if m == "len"@ {
                Some(KindV::Int)
            } else if m == "is_empty"@ || m == "contains"@ {
                Some(KindV::Bool)
            } else if m == "insert"@ {
                Some(KindV::SetOf(t))
            } else {
                None
            },
            KindV::Float => if m == "abs"@ {
                Some(KindV::Float)
            } else {
                None
            },
            KindV::Bytes => if m == "len"@ {
                Some(KindV::Int)
            } else {
                None
            },
            _ => None,
        }
    }
}

/// On a map, `get` gives an optional value of the kind the map's `values`
/// lists (its value kind, whatever the key kind is), and `keys` lists the
/// key kind; on a list, `append` keeps the list's kind.
pub proof fn law_map_get_yields_the_value_kind(k: KindV, v: KindV)
    ensures
        method_spec(KindV::MapOf(Box::new(k), Box::new(v)), "values"@) matches Some(KindV::ListOf(x)) && method_spec(
            KindV::MapOf(Box::new(k), Box::new(v)),
            "get"@,
        ) == Some(KindV::OptionOf(x)) && *x == v,
        method_spec(KindV::MapOf(Box::new(k), Box::new(v)), "keys"@) matches Some(KindV::ListOf(y)) && *y == k,
        method_spec(KindV::ListOf(Box::new(v)), "append"@) == Some(KindV::ListOf(Box::new(v))),
{
    reveal_strlit("to_str");
    reveal_strlit("len");
    reveal_strlit("is_empty");
    reveal_strlit("get");
    reveal_strlit("insert");
    reveal_strlit("keys");
    reveal_strlit("values");
    reveal_strlit("append");
    assert("values"@[0] != "to_str"@[0]);
    assert("values"@.len() != "len"@.len());
    assert("values"@.len() != "is_empty"@.len());
    assert("values"@.len() != "get"@.len());
    assert("values"@[0] != "insert"@[0]);
    assert("values"@.len() != "keys"@.len());
    assert("get"@.len() != "to_str"@.len());
    assert("get"@[0] != "len"@[0]);
    assert("get"@.len() != "is_empty"@.len());
    assert("keys"@.len() != "to_str"@.len());
    assert("keys"@.len() != "len"@.len());
    assert("keys"@.len() != "is_empty"@.len());
    assert("keys"@.len() != "get"@.len());
    assert("keys"@.len() != "insert"@.len());
    assert("append"@[0] != "to_str"@[0]);
    assert("append"@.len() != "len"@.len());
    assert("append"@.len() != "is_empty"@.len());
}

/// Collections keep their element kinds through their methods: a set's
/// `insert` keeps the set's kind and `contains` asks a `Bool`; every sized
/// collection and string has an `Int` length; a string's `at` gives a
/// character or an error and `to_upper` a string; `abs` keeps a number's
/// kind.
pub proof fn law_collection_methods_keep_element_kinds(t: KindV)
    ensures
        method_spec(KindV::SetOf(Box::new(t)), "insert"@) == Some(KindV::SetOf(Box::new(t))),
        method_spec(KindV::SetOf(Box::new(t)), "contains"@) == Some(KindV::Bool),
        method_spec(KindV::SetOf(Box::new(t)), "len"@) == Some(KindV::Int),
        method_spec(KindV::ListOf(Box::new(t)), "len"@) == Some(KindV::Int),
        method_spec(KindV::Str, "len"@) == Some(KindV::Int),
        method_spec(KindV::Str, "at"@) == Some(KindV::ResultOf(Box::new(KindV::Char), Box::new(KindV::ErrRoot))),
        method_spec(KindV::Str, "to_upper"@) == Some(KindV::Str),
        method_spec(KindV::Int, "abs"@) == Some(KindV::Int),
        method_spec(KindV::Float, "abs"@) == Some(KindV::Float),
{
    reveal_strlit("to_str");
    reveal_strlit("len");
    reveal_strlit("is_empty");
    reveal_strlit("contains");
    reveal_strlit("insert");
    reveal_strlit("at");
    reveal_strlit("to_upper");
    reveal_strlit("abs");
    assert("len"@.len() != "to_str"@.len());
    assert("contains"@.len() != "to_str"@.len());
    assert("contains"@.len() != "len"@.len());
    assert("contains"@[0] != "is_empty"@[0]);
    assert("insert"@[0] != "to_str"@[0]);
    assert("insert"@.len() != "len"@.len());
    assert("insert"@.len() != "is_empty"@.len());
    assert("insert"@.len() != "contains"@.len());
    assert("at"@.len() != "to_str"@.len());
    assert("at"@.len() != "len"@.len());
    assert("at"@.len() != "is_empty"@.len());
    reveal_strlit("to_lower");
    assert("at"@.len() != "to_upper"@.len());
    assert("at"@.len() != "to_lower"@.len());
    assert("to_upper"@.len() != "to_str"@.len());
    assert("to_upper"@.len() != "len"@.len());
    assert("to_upper"@[0] != "is_empty"@[0]);
    assert("abs"@.len() != "to_str"@.len());
    assert("abs"@[0] != "len"@[0]);
}

fn some_of(k: Kind) -> (r: Option<Kind>)
    ensures
        r matches Some(x) && x@ == k@,
{
    Some(k)
}

pub fn method_type(receiver: &Kind, method: &str) -> (r: Option<Kind>)
    ensures
        r is Some == method_spec(receiver@, method@) is Some,
        r matches Some(k) ==> method_spec(receiver@, method@) == Some(k@),
{
    if str_eq(method, "to_str") {
        return some_of(Kind::Str);
    }
    match receiver {
        Kind::Str => {
            if str_eq(method, "len") {
                some_of(Kind::Int)
            } else if str_eq(method, "is_empty") {
                some_of(Kind::Bool)
            } else if str_eq(method, "to_upper") || str_eq(method, "to_lower") {
                some_of(Kind::Str)
            } else if str_eq(method, "at") {
                let k = Kind::ResultOf(Box::new(Kind::Char), Box::new(Kind::ErrRoot));
                assert(k@ == KindV::ResultOf(Box::new(KindV::Char), Box::new(KindV::ErrRoot))) by {
                    reveal_with_fuel(kind_view, 2);
                }
                some_of(k)
            } else if str_eq(method, "to_bytes") {
                some_of(Kind::Bytes)
            } else {
                None
            }
        }
        Kind::Int => {
            if str_eq(method, "len") || str_eq(method, "abs") {
                some_of(Kind::Int)
            } else {
                None
            }
        }
        Kind::ListOf(t) => {
            if str_eq(method, "len") {
                some_of(Kind::Int)
            } else if str_eq(method, "is_empty") {
                some_of(Kind::Bool)
            } else if str_eq(method, "append") {
                some_of(Kind::ListOf(Box::new((**t).clone())))
            } else {
                None
            }
        }
        Kind::MapOf(k, v) => {
            if str_eq(method, "len") {
                some_of(Kind::Int)
            } else if str_eq(method, "is_empty") {
                some_of(Kind::Bool)
            } else if str_eq(method, "get") {
                some_of(Kind::OptionOf(Box::new((**v).clone())))
            } else if str_eq(method, "insert") {
                some_of(Kind::MapOf(Box::new((**k).clone()), Box::new((**v).clone())))
            } else if str_eq(method, "keys") {
                some_of(Kind::ListOf(Box::new((**k).clone())))
            } else if str_eq(method, "values") {
                some_of(Kind::ListOf(Box::new((**v).clone())))
            } else {
                None
            }
        }
        Kind::SetOf(t) => {
            if str_eq(method, "len") {
                some_of(Kind::Int)
            } else if str_eq(method, "is_empty") || str_eq(method, "contains") {
                some_of(Kind::Bool)
            } else if str_eq(method, "insert") {
                some_of(Kind::SetOf(Box::new((**t).clone())))
            } else {
                None
            }
        }
        Kind::Float => {
            if str_eq(method, "abs") {
                some_of(Kind::Float)
            } else {
                None
            }
        }
        Kind::Bytes => {
            if str_eq(method, "len") {
                some_of(Kind::Int)
            } else {
                None
            }
        }
        _ => None,
    }
}

/// The kind with each type variable that has a binding replaced by it
/// (generic instantiation); an unbound variable stays as it is.
pub open spec fn subst_spec(k: KindV, b: Seq<Option<KindV>>) -> KindV
    decreases k,
{
    match k {
        KindV::TypeVar(i) => if i < b.len() && b[i as int] is Some {
            b[i as int]->0
        } else {
            k
        },
        KindV::OptionOf(a) => KindV::OptionOf(Box::new(subst_spec(*a, b))),
        KindV::ResultOf(x, y) => KindV::ResultOf(Box::new(subst_spec(*x, b)), Box::new(subst_spec(*y, b))),
        KindV::ListOf(a) => KindV::ListOf(Box::new(subst_spec(*a, b))),
        KindV::MapOf(x, y) => KindV::MapOf(Box::new(subst_spec(*x, b)), Box::new(subst_spec(*y, b))),
        KindV::SetOf(a) => KindV::SetOf(Box::new(subst_spec(*a, b))),
        KindV::ChanOf(a) => KindV::ChanOf(Box::new(subst_spec(*a, b))),
        KindV::ErrUnion(ms) => KindV::ErrUnion(Seq::new(ms.len(), |i: int|
            if 0 <= i < ms.len() {
                proof {
                    assert(decreases_to!(ms => ms[i]));
                }
                subst_spec(ms[i], b)
            } else {
                KindV::Unknown
            })),
        _ => k,
    }
}

/// The views of optional bindings.
pub open spec fn bindings_view(b: Seq<Option<Kind>>) -> Seq<Option<KindV>> {
    b.map_values(|o: Option<Kind>| match o {
        Some(k) => Some(k@),
        None => None,
    })
}

pub fn subst(ty: &Kind, bindings: &Vec<Option<Kind>>) -> (r: Kind)
    ensures
        r@ == subst_spec(ty@, bindings_view(bindings@)),
    decreases ty,
{
    let ghost bv = bindings_view(bindings@);
    match ty {
        Kind::TypeVar(i) => {
            if *i < bindings.len() {
                match &bindings[*i] {
                    Some(t) => return t.clone(),
                    None => {}
                }
            }
            Kind::TypeVar(*i)
        }
        Kind::OptionOf(inner) => Kind::OptionOf(Box::new(subst(inner, bindings))),
        Kind::ResultOf(t, e) => Kind::ResultOf(Box::new(subst(t, bindings)), Box::new(subst(e, bindings))),
        Kind::ListOf(inner) => Kind::ListOf(Box::new(subst(inner, bindings))),
        Kind::MapOf(k, v) => Kind::MapOf(Box::new(subst(k, bindings)), Box::new(subst(v, bindings))),
        Kind::SetOf(inner) => Kind::SetOf(Box::new(subst(inner, bindings))),
        Kind::ChanOf(inner) => Kind::ChanOf(Box::new(subst(inner, bindings))),
        Kind::ErrUnion(members) => {
            let mut ms: Vec<Kind> = Vec::new();
            let mut i: usize = 0;
            while i < members.len()
                invariant
                    i <= members.len(),
                    *ty == Kind::ErrUnion(*members),
                    bv == bindings_view(bindings@),
                    ms@.len() == i,
                    forall|j: int| 0 <= j < i ==> (#[trigger] ms@[j])@ == subst_spec(members@[j]@, bv),
                decreases members.len() - i,
            {
                proof {
                    assert(decreases_to!(*ty => (*ty)->ErrUnion_0));
                    assert(decreases_to!(*members => members[i as int]));
                }
                ms.push(subst(&members[i], bindings));
                i += 1;
            }
            let r = Kind::ErrUnion(ms);
            proof {
                assert(r@->ErrUnion_0 =~= subst_spec(ty@, bv)->ErrUnion_0);
            }
            r
        }
        _ => ty.clone(),
    }
}

// ---- specialization names ----

/// A short tag naming a kind in a generic specialization's symbol: one
/// letter per scalar, a letter and the payload's tag for the containers (a
/// result by its value kind), `r`/`E` and the name for records and enums,
/// `x` for everything else.
pub open spec fn mangle_spec(k: KindV) -> Seq<char>
    decreases k,
{
    match k {
        KindV::Bool => seq!['b'],
        KindV::Int => seq!['i'],
        KindV::Usize => seq!['u'],
        KindV::Float => seq!['f'],
        KindV::Char => seq!['c'],
        KindV::Str => seq!['s'],
        KindV::Bytes => seq!['y'],
        KindV::Unit => seq!['v'],
        KindV::Ptr => seq!['p'],
        KindV::OptionOf(t) => seq!['O'] + mangle_spec(*t),
        KindV::ResultOf(t, _) => seq!['R'] + mangle_spec(*t),
        KindV::ListOf(t) => seq!['L'] + mangle_spec(*t),
        KindV::SetOf(t) => seq!['S'] + mangle_spec(*t),
        KindV::ErrRoot => seq!['e'],
        KindV::Record(n) => seq!['r'] + n,
        KindV::Enum(n) => seq!['E'] + n,
        _ => seq!['x'],
    }
}

pub fn mangle_type_tag(k: &Kind) -> (s: String)
    ensures
        s@ == mangle_spec(k@),
    decreases k,
{
    let mut s = String::new();
    match k {
        Kind::Bool => crate::text::push_char(&mut s, 'b'),
        Kind::Int => crate::text::push_char(&mut s, 'i'),
        Kind::Usize => crate::text::push_char(&mut s, 'u'),
        Kind::Float => crate::text::push_char(&mut s, 'f'),
        Kind::Char => crate::text::push_char(&mut s, 'c'),
        Kind::Str => crate::text::push_char(&mut s, 's'),
        Kind::Bytes => crate::text::push_char(&mut s, 'y'),
        Kind::Unit => crate::text::push_char(&mut s, 'v'),
        Kind::Ptr => crate::text::push_char(&mut s, 'p'),
        Kind::OptionOf(t) => {
            crate::text::push_char(&mut s, 'O');
            push_str(&mut s, mangle_type_tag(t).as_str());
        }
        Kind::ResultOf(t, _) => {
            crate::text::push_char(&mut s, 'R');
            push_str(&mut s, mangle_type_tag(t).as_str());
        }
        Kind::ListOf(t) => {
            crate::text::push_char(&mut s, 'L');
            push_str(&mut s, mangle_type_tag(t).as_str());
        }
        Kind::SetOf(t) => {
            crate::text::push_char(&mut s, 'S');
            push_str(&mut s, mangle_type_tag(t).as_str());
        }
        Kind::ErrRoot => crate::text::push_char(&mut s, 'e'),
        Kind::Record(n) => {
            crate::text::push_char(&mut s, 'r');
            push_str(&mut s, n.as_str());
        }
        Kind::Enum(n) => {
            crate::text::push_char(&mut s, 'E');
            push_str(&mut s, n.as_str());
        }
        _ => crate::text::push_char(&mut s, 'x'),
    }
    assert(s@ =~= mangle_spec(k@));
    s
}

// ---- laws ----

/// Every kind accepts itself, and the root error accepts every kind.
pub proof fn law_accepts_reflexive_and_root(k: KindV)
    ensures
        accepts_spec(k, k),
        accepts_spec(k, KindV::ErrRoot),
        accepts_cast_spec(k, k),
        accepts_error_spec(k, k),
        accepts_error_spec(k, KindV::ErrRoot),
{
}

/// A member of an error union may be propagated into that union.
pub proof fn law_union_accepts_members(ms: Seq<KindV>, i: int)
    requires
        0 <= i < ms.len(),
    ensures
        accepts_error_spec(ms[i], KindV::ErrUnion(ms)),
{
    assert(ms.contains(ms[i]));
}

/// Casts go both ways: every allowed cast can be undone by a cast.
pub proof fn law_casts_are_symmetric(v: KindV, t: KindV)
    ensures
        accepts_cast_spec(v, t) == accepts_cast_spec(t, v),
{
}

/// Instantiating with no bindings changes nothing.
pub proof fn law_subst_without_bindings(k: KindV)
    ensures
        subst_spec(k, Seq::empty()) == k,
    decreases k,
{
    match k {
        KindV::OptionOf(a) => law_subst_without_bindings(*a),
        KindV::ResultOf(x, y) => {
            law_subst_without_bindings(*x);
            law_subst_without_bindings(*y);
        }
        KindV::ListOf(a) => law_subst_without_bindings(*a),
        KindV::MapOf(x, y) => {
            law_subst_without_bindings(*x);
            law_subst_without_bindings(*y);
        }
        KindV::SetOf(a) => law_subst_without_bindings(*a),
        KindV::ChanOf(a) => law_subst_without_bindings(*a),
        KindV::ErrUnion(ms) => {
            assert forall|i: int| 0 <= i < ms.len() implies subst_spec(ms[i], Seq::empty()) == ms[i] by {
                assert(decreases_to!(k => k->ErrUnion_0));
                assert(decreases_to!(ms => ms[i]));
                law_subst_without_bindings(ms[i]);
            }
            assert(subst_spec(k, Seq::empty())->ErrUnion_0 =~= ms);
        }
        _ => {}
    }
}

/// `to_str` exists on every receiver and gives `Str`.
pub proof fn law_to_str_everywhere(r: KindV)
    ensures
        method_spec(r, "to_str"@) == Some(KindV::Str),
{
}

} // verus!
