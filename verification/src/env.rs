//! The checker's scope: each name's kind, and which names are `mut`
//! bindings; plus the flow-typing narrowing of `is some/none/ok/err` tests.
use vstd::prelude::*;
use crate::ast::{BinOp, Expr};
use crate::kind::{Kind, KindV};
use crate::names::{NameMap, NameSet};

verus! {

/// Scope map from name to kind, plus whether the binding is `mut`: mutation
/// requires an explicit `mut` binding.
pub struct Env {
    types: NameMap<Kind>,
    mutables: NameSet,
}

impl Env {
    /// The kind bound to each name.
    pub closed spec fn kinds(&self) -> Map<Seq<char>, KindV> {
        self.types@.map_values(|k: Kind| k@)
    }

    /// The names bound mutably.
    pub closed spec fn muts(&self) -> Set<Seq<char>> {
        self.mutables@
    }

    pub fn new() -> (e: Env)
        ensures
            e.kinds() == Map::<Seq<char>, KindV>::empty(),
            e.muts() == Set::<Seq<char>>::empty(),
    {
        let e = Env { types: NameMap::new(), mutables: NameSet::new() };
        assert(e.kinds() =~= Map::<Seq<char>, KindV>::empty());
        e
    }

    pub fn get(&self, n: &str) -> (r: Option<&Kind>)
        ensures
            r matches Some(k) ==> self.kinds().dom().contains(n@) && k@ == self.kinds()[n@],
            r is None ==> !self.kinds().dom().contains(n@),
    {
        self.types.get(n)
    }

    /// Binds `n` to `ty`, keeping whether it is `mut`.
    pub fn insert(&mut self, n: String, ty: Kind)
        ensures
            final(self).kinds() == old(self).kinds().insert(n@, ty@),
            final(self).muts() == old(self).muts(),
    {
        let ghost key = n@;
        let ghost v = ty@;
        self.types.insert(n, ty);
        assert(self.kinds() =~= old(self).kinds().insert(key, v));
    }

    /// Binds `n` to `ty` as a `mut` binding or not.
    pub fn insert_binding(&mut self, n: String, ty: Kind, mutable: bool)
        ensures
            final(self).kinds() == old(self).kinds().insert(n@, ty@),
            final(self).muts() == if mutable { old(self).muts().insert(n@) } else { old(self).muts().remove(n@) },
    {
        if mutable {
            let _ = self.mutables.insert(n.clone());
        } else {
            self.mutables.remove(n.as_str());
        }
        self.insert(n, ty);
    }

    pub fn is_mut(&self, n: &str) -> (r: bool)
        ensures
            r == self.muts().contains(n@),
    {
        self.mutables.contains(n)
    }

    /// An independent scope with the same bindings.
    pub fn copy(&self) -> (r: Env)
        ensures
            r.kinds() == self.kinds(),
            r.muts() == self.muts(),
    {
        let r = Env { types: self.types.copy(), mutables: self.mutables.copy() };
        assert(r.kinds() =~= self.kinds());
        r
    }
}

/// What a positive `is` test narrows to, for flow typing inside `if`/`elif`.
#[derive(Clone, Copy, Debug, PartialEq, Eq, Structural)]
pub enum NarrowKind {
    /// `x is some`: `Option[T]` narrows to `T`.
    SomeCase,
    /// `x is none`: the else branch has the value.
    NoneCase,
    /// `x is ok`: `Result[T, E]` narrows to `T`.
    OkCase,
    /// `x is err`: the else branch has the value.
    ErrCase,
}

/// The narrowing a condition states: `NAME is some|none|ok|err`.
pub open spec fn narrowing_of(cond: Expr) -> Option<(Seq<char>, NarrowKind)> {
    match cond {
        Expr::Binary(op, a, _) => match *a {
            Expr::Name(n) => match op {
                BinOp::IsSome => Some((n@, NarrowKind::SomeCase)),
                BinOp::IsNone => Some((n@, NarrowKind::NoneCase)),
                BinOp::IsOk => Some((n@, NarrowKind::OkCase)),
                BinOp::IsErr => Some((n@, NarrowKind::ErrCase)),
                _ => None,
            },
            _ => None,
        },
        _ => None,
    }
}

pub open spec fn narrow_view(n: Option<(String, NarrowKind)>) -> Option<(Seq<char>, NarrowKind)> {
    match n {
        Some((s, k)) => Some((s@, k)),
        None => None,
    }
}

/// If `cond` is `NAME is some|none|ok|err`, the name and the test.
pub fn extract_narrowing(cond: &Expr) -> (r: Option<(String, NarrowKind)>)
    ensures
        narrow_view(r) == narrowing_of(*cond),
{
    match cond {
        Expr::Binary(op, a, _) => {
            match &**a {
                Expr::Name(n) => {
                    match op {
                        BinOp::IsSome => Some((n.clone(), NarrowKind::SomeCase)),
                        BinOp::IsNone => Some((n.clone(), NarrowKind::NoneCase)),
                        BinOp::IsOk => Some((n.clone(), NarrowKind::OkCase)),
                        BinOp::IsErr => Some((n.clone(), NarrowKind::ErrCase)),
                        _ => None,
                    }
                }
                _ => None,
            }
        }
        _ => None,
    }
}

/// The scope of a branch whose condition held: `x is some` binds `x` to the
/// option's payload, `x is ok` to the result's value; anything else leaves
/// the scope as it was.
pub open spec fn narrowed(kinds: Map<Seq<char>, KindV>, n: Option<(Seq<char>, NarrowKind)>) -> Map<Seq<char>, KindV> {
    match n {
        Some((name, k)) => if kinds.dom().contains(name) {
            match (k, kinds[name]) {
                (NarrowKind::SomeCase, KindV::OptionOf(inner)) => kinds.insert(name, *inner),
                (NarrowKind::OkCase, KindV::ResultOf(t, _)) => kinds.insert(name, *t),
                _ => kinds,
            }
        } else {
            kinds
        },
        None => kinds,
    }
}

/// The scope of the else branch: after `x is none` or `x is err` failed, `x`
/// holds a value, so an option or result narrows to its payload.
pub open spec fn complemented(kinds: Map<Seq<char>, KindV>, n: Option<(Seq<char>, NarrowKind)>) -> Map<Seq<char>, KindV> {
    match n {
        Some((name, k)) => if kinds.dom().contains(name) && (k is NoneCase || k is ErrCase) {
            match kinds[name] {
                KindV::OptionOf(inner) => kinds.insert(name, *inner),
                KindV::ResultOf(t, _) => kinds.insert(name, *t),
                _ => kinds,
            }
        } else {
            kinds
        },
        None => kinds,
    }
}

/// Applies a positive narrowing to `env`.
pub fn apply_narrowing(env: &mut Env, narrow: &Option<(String, NarrowKind)>)
    ensures
        final(env).kinds() == narrowed(old(env).kinds(), narrow_view(*narrow)),
        final(env).muts() == old(env).muts(),
{
    match narrow {
        Some((name, kind)) => {
            let found = match env.get(name.as_str()) {
                Some(ty) => match (kind, ty) {
                    (NarrowKind::SomeCase, Kind::OptionOf(inner)) => Some((**inner).clone()),
                    (NarrowKind::OkCase, Kind::ResultOf(t, _)) => Some((**t).clone()),
                    _ => None,
                },
                None => None,
            };
            match found {
                Some(k) => env.insert(name.clone(), k),
                None => {}
            }
        }
        None => {}
    }
}

/// Applies the complement of a narrowing to `env` (for the else branch).
pub fn apply_complement(env: &mut Env, narrow: &Option<(String, NarrowKind)>)
    ensures
        final(env).kinds() == complemented(old(env).kinds(), narrow_view(*narrow)),
        final(env).muts() == old(env).muts(),
{
    match narrow {
        Some((name, kind)) => {
            let negative = match kind {
                NarrowKind::NoneCase | NarrowKind::ErrCase => true,
                _ => false,
            };
            if negative {
                let found = match env.get(name.as_str()) {
                    Some(ty) => match ty {
                        Kind::OptionOf(inner) => Some((**inner).clone()),
                        Kind::ResultOf(t, _) => Some((**t).clone()),
                        _ => None,
                    },
                    None => None,
                };
                match found {
                    Some(k) => env.insert(name.clone(), k),
                    None => {}
                }
            }
        }
        None => {}
    }
}

/// A binding made after a narrowing test: only the tested name changes.
pub proof fn law_narrowing_touches_only_the_tested_name(
    kinds: Map<Seq<char>, KindV>,
    n: Option<(Seq<char>, NarrowKind)>,
    other: Seq<char>,
)
    requires
        n matches Some((name, _)) ==> name != other,
    ensures
        narrowed(kinds, n).dom() == kinds.dom(),
        complemented(kinds, n).dom() == kinds.dom(),
        kinds.dom().contains(other) ==> narrowed(kinds, n)[other] == kinds[other],
        kinds.dom().contains(other) ==> complemented(kinds, n)[other] == kinds[other],
{
    match n {
        Some((name, k)) => {
            if kinds.dom().contains(name) {
                assert(kinds.insert(name, kinds[name]).dom() =~= kinds.dom());
                match kinds[name] {
                    KindV::OptionOf(inner) => {
                        assert(kinds.insert(name, *inner).dom() =~= kinds.dom());
                    }
                    KindV::ResultOf(t, _) => {
                        assert(kinds.insert(name, *t).dom() =~= kinds.dom());
                    }
                    _ => {}
                }
            }
        }
        None => {}
    }
}

/// The then branch of `x is some` sees the payload, and so does the else
/// branch of `x is none`: the two tests narrow an option the same way.
pub proof fn law_some_and_not_none_agree(kinds: Map<Seq<char>, KindV>, name: Seq<char>)
    requires
        kinds.dom().contains(name),
        kinds[name] is OptionOf,
    ensures
        narrowed(kinds, Some((name, NarrowKind::SomeCase))) == complemented(kinds, Some((name, NarrowKind::NoneCase))),
{
}

} // verus!
