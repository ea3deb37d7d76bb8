use vstd::prelude::*;

use crate::idents::ConvertMode;
use crate::params::default_rule;
use crate::params::idents_view;
use crate::params::kind_mode;
use crate::params::rule_lookup;
use crate::params::MacroParameters;

verus! {

/// One rendition to produce: its direction, whether its body is converted (it is not when
/// the rendition is disabled), and its configuration.
#[derive(Debug)]
pub struct RenditionPlan {
    pub mode: ConvertMode,
    pub convert: bool,
    pub params: MacroParameters,
}

/// The renditions of an annotated declaration, in declaration order; none when the
/// configuration is disabled, in which case the declaration stays as it is.
pub fn maybe(params: MacroParameters) -> (r: Option<Vec<RenditionPlan>>)
    ensures
        params.disable ==> r.is_none(),
        !params.disable ==> {
            &&& r is Some
            &&& r->Some_0@.len() == params.actions@.len()
            &&& forall|j: int| 0 <= j < params.actions@.len() ==> {
                &&& (#[trigger] r->Some_0@[j]).mode == kind_mode(params.actions@[j].kind)
                &&& r->Some_0@[j].convert == !params.actions@[j].params.disable
                &&& r->Some_0@[j].params == params.actions@[j].params
            }
        },
{
    if params.disable {
        return None;
    }
    let ghost olds = params.actions@;
    let mut rest = params.actions;
    let total = rest.len();
    let mut out: Vec<RenditionPlan> = Vec::new();
    while rest.len() > 0
        invariant
            out@.len() + rest@.len() == olds.len(),
            olds.len() == total,
            rest@ == olds.subrange(out@.len() as int, olds.len() as int),
            forall|j: int| 0 <= j < out@.len() ==> {
                &&& (#[trigger] out@[j]).mode == kind_mode(olds[j].kind)
                &&& out@[j].convert == !olds[j].params.disable
                &&& out@[j].params == olds[j].params
            },
        decreases rest@.len(),
    {
        let action = rest.remove(0);
        let mode = action.kind.mode();
        let convert = !action.params.disable;
        out.push(RenditionPlan { mode, convert, params: action.params });
        assert(rest@ =~= olds.subrange(out@.len() as int, olds.len() as int));
    }
    Some(out)
}

/// The kind of an annotated declaration.
#[derive(Debug, Clone, Copy, PartialEq, Eq, Structural)]
pub enum ItemKind {
    Impl,
    Struct,
    Enum,
    Trait,
    Fn,
    Use,
    Mod,
    Other,
}

/// Why a declaration cannot be converted.
#[derive(Debug, Clone, Copy, PartialEq, Eq, Structural)]
pub enum ConvertError {
    /// Only impl, struct, enum, trait, fn, use and mod items are accepted.
    UnsupportedItem,
}

/// Whether the declaration's own name is renamed function-style (`_sync`) or type-style (`Sync`).
pub open spec fn self_fn_mode(kind: ItemKind) -> bool {
    kind == ItemKind::Fn || kind == ItemKind::Mod
}

/// Prepares one rendition of a declaration of `kind` named `self_name` (for an impl, the last
/// segment of its self type): unless `keep_self` is set, the name gets a default rule (an
/// explicit rule for it is kept), so that the rendition carries its own name.
pub fn convert(params: &mut MacroParameters, kind: ItemKind, self_name: Option<&str>) -> (r: Result<(), ConvertError>)
    ensures
        kind == ItemKind::Other <==> r is Err,
        final(params).actions == old(params).actions,
        final(params).key == old(params).key,
        r is Ok ==> match self_name {
            Some(n) => if old(params).keep_self || rule_lookup(idents_view(old(params).idents@), n@).is_some() {
                final(params).idents@ == old(params).idents@
            } else {
                idents_view(final(params).idents@) == idents_view(old(params).idents@).push((n@, default_rule(self_fn_mode(kind))))
            },
            None => final(params).idents@ == old(params).idents@,
        },
{
    match kind {
        ItemKind::Other => Err(ConvertError::UnsupportedItem),
        _ => {
            if let Some(n) = self_name {
                if !params.keep_self {
                    let fn_mode = kind == ItemKind::Fn || kind == ItemKind::Mod;
                    params.idents_add(n, fn_mode);
                }
            }
            Ok(())
        },
    }
}

/// Whether the `async` marker of a function or method signature is removed: towards the
/// synchronous flavour only.
pub fn remove_asyncness(mode: ConvertMode) -> (r: bool)
    ensures
        r == (mode == ConvertMode::IntoSync),
{
    mode == ConvertMode::IntoSync
}

} // verus!
