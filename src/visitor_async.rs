use vstd::prelude::*;

use crate::idents::renamed;
use crate::idents::ConvertMode;
use crate::idents::IdentMode;
use crate::meta::features_replaced;
use crate::meta::path_ident;
use crate::meta::replace_features_meta;
use crate::meta::Lit;
use crate::meta::Meta;
use crate::meta::MetaPath;
use crate::meta::NestedMeta;
use crate::idents::pairs_view;
use crate::params::idents_view;
use crate::params::opt_view;
use crate::params::rule_lookup;
use crate::params::self_prefix;
use crate::params::strings_view;
use crate::params::MacroParameters;
use crate::strs::str_eq;

verus! {

/// An attribute attached to a node: its style, its path, and its parenthesized arguments
/// when they read as a list of meta items.
#[derive(Debug)]
pub struct Attr {
    /// Where the attribute came from, for the caller; carried through unchanged.
    pub origin: usize,
    pub outer: bool,
    pub path: MetaPath,
    pub args: Option<Vec<NestedMeta>>,
}

/// Why a conditional marker could not be resolved.
#[derive(Debug, Clone, Copy, PartialEq, Eq, Structural)]
pub enum AttrError {
    /// The arguments do not read as a list of meta items.
    BadArguments,
    /// The marker has no argument.
    ExpectedIdent,
    /// The marker has more than one argument.
    TooManyArguments,
    /// The argument is neither a name, a string, nor `key = "..."`.
    WrongIdent,
}

/// The name after the crate prefix of an attribute of this crate, such as `only_if` in
/// `#[maybe_async_cfg::only_if(...)]`; any two-segment outer path counts when no prefix is set.
pub open spec fn our_attr_name(p: MacroParameters, a: Attr) -> Option<Seq<char>> {
    if a.outer && !a.path.leading_colon && a.path.segments@.len() == 2 {
        match p.prefix {
            Some(pre) => if a.path.segments@[0]@ == pre@ {
                Some(a.path.segments@[1]@)
            } else {
                None
            },
            None => Some(a.path.segments@[1]@),
        }
    } else {
        None
    }
}

impl MacroParameters {
    pub fn is_our_attr(&self, attr: &Attr) -> (r: Option<String>)
        ensures
            match r {
                Some(n) => our_attr_name(*self, *attr) == Some(n@),
                None => our_attr_name(*self, *attr).is_none(),
            },
    {
        if attr.outer && !attr.path.leading_colon && attr.path.segments.len() == 2 {
            let first = &attr.path.segments[0];
            let last = &attr.path.segments[1];
            match &self.prefix {
                Some(prefix) => {
                    if str_eq(first.as_str(), prefix.as_str()) {
                        Some(last.clone())
                    } else {
                        None
                    }
                },
                None => Some(last.clone()),
            }
        } else {
            None
        }
    }
}

/// The rendition key that a conditional marker names.
pub open spec fn marker_key(args: Option<Vec<NestedMeta>>) -> Result<Seq<char>, AttrError> {
    match args {
        None => Err(AttrError::BadArguments),
        Some(list) => if list@.len() == 0 {
            Err(AttrError::ExpectedIdent)
        } else if list@.len() > 1 {
            Err(AttrError::TooManyArguments)
        } else {
            match list@[0] {
                NestedMeta::Lit(Lit::Str(s)) => Ok(s@),
                NestedMeta::Meta(Meta::Path(p)) => match path_ident(p) {
                    Some(n) => Ok(n),
                    None => Err(AttrError::WrongIdent),
                },
                NestedMeta::Meta(Meta::NameValue(p, Lit::Str(v))) => if path_ident(p) == Some("key"@) {
                    Ok(v@)
                } else {
                    Err(AttrError::WrongIdent)
                },
                _ => Err(AttrError::WrongIdent),
            }
        },
    }
}

/// Whether content marked `only_if(target)` (`remove` false) or `remove_if(target)` (`remove`
/// true) stays in the rendition with key `key`. Without a key nothing stays.
pub open spec fn conditional_keeps(key: Option<Seq<char>>, target: Seq<char>, remove: bool) -> bool {
    match key {
        Some(k) => (k == target) != remove,
        None => false,
    }
}

/// `r` is `a` with a conditional marker rewritten to the terminal marker `prefix::noop` (keep)
/// or `prefix::remove` (delete); any other attribute is left as it is.
pub open spec fn cond_resolved(p: MacroParameters, a: Attr, r: Attr) -> bool {
    match our_attr_name(p, a) {
        Some(n) => if n == "only_if"@ || n == "remove_if"@ {
            match marker_key(a.args) {
                Ok(k) => {
                    &&& r.origin == a.origin
                    &&& r.outer == a.outer
                    &&& r.args == a.args
                    &&& !r.path.leading_colon
                    &&& r.path.segments@.len() == 2
                    &&& r.path.segments@[0]@ == self_prefix(p)
                    &&& r.path.segments@[1]@ == if conditional_keeps(opt_view(p.key), k, n == "remove_if"@) {
                        "noop"@
                    } else {
                        "remove"@
                    }
                },
                Err(_) => false,
            }
        } else {
            r == a
        },
        None => r == a,
    }
}

/// The error that resolving the marker `a` gives, if any.
pub open spec fn cond_error(p: MacroParameters, a: Attr) -> Option<AttrError> {
    match our_attr_name(p, a) {
        Some(n) => if n == "only_if"@ || n == "remove_if"@ {
            match marker_key(a.args) {
                Ok(_) => None,
                Err(e) => Some(e),
            }
        } else {
            None
        },
        None => None,
    }
}

/// The first error among the markers of `s`.
pub open spec fn first_cond_error(p: MacroParameters, s: Seq<Attr>) -> Option<AttrError>
    decreases s.len(),
{
    if s.len() == 0 {
        None
    } else {
        match first_cond_error(p, s.drop_last()) {
            Some(e) => Some(e),
            None => cond_error(p, s.last()),
        }
    }
}

/// Whether an attribute is dropped: its path is a single name listed in `drop_attrs`.
pub open spec fn dropped(p: MacroParameters, a: Attr) -> bool {
    match path_ident(a.path) {
        Some(n) => strings_view(p.drop_attrs@).contains(n),
        None => false,
    }
}

/// The attributes of `s` that are not dropped, in order.
pub open spec fn kept(p: MacroParameters, s: Seq<Attr>) -> Seq<Attr>
    decreases s.len(),
{
    if s.len() == 0 {
        s
    } else if dropped(p, s.last()) {
        kept(p, s.drop_last())
    } else {
        kept(p, s.drop_last()).push(s.last())
    }
}

/// `r` is `a` with the feature substitutions applied inside a `cfg(...)` condition.
pub open spec fn cfg_replaced(p: MacroParameters, a: Attr, r: Attr) -> bool {
    if path_ident(a.path) == Some("cfg"@) && a.args is Some {
        &&& r.origin == a.origin
        &&& r.outer == a.outer
        &&& r.args is Some
        &&& features_replaced(Meta::List(a.path, a.args->Some_0), Meta::List(r.path, r.args->Some_0), pairs_view(p.replace_features@))
    } else {
        r == a
    }
}

/// What happens to an import-tree node.
#[derive(Debug)]
pub enum UseNode {
    /// `name::...`
    Path(String),
    /// a final `name`
    Name(String),
    Other,
}

/// The rewrite of an import-tree node.
#[derive(Debug)]
pub enum UseAction {
    Keep,
    /// Replace the name in place.
    Replace(String),
    /// Keep the name and add `as new_name`.
    Rename(String),
}

/// The kind of an expression, as far as suspension erasure cares.
#[derive(Debug, Clone, Copy, PartialEq, Eq, Structural)]
pub enum ExprKind {
    /// `base.await`
    Await,
    /// `async { ... }` with the given number of statements.
    Async(usize),
    Other,
}

/// The rewrite of an expression.
#[derive(Debug, Clone, Copy, PartialEq, Eq, Structural)]
pub enum ExprRewrite {
    Unchanged,
    /// Replace `base.await` by `base`.
    ToBase,
    /// Replace a one-statement `async` block by that statement.
    ToStatement,
    /// Replace an `async` block by a plain block.
    ToBlock,
}

/// A bound of a generic parameter: a trait bound with the last name of its path and, when its
/// first generic argument is `Output = Type` with a path type, the index of that type's first
/// segment in the caller's table of segments.
#[derive(Debug)]
pub enum BoundModel {
    Trait(String, Option<usize>),
    Other,
}

/// A generic parameter of a function.
#[derive(Debug)]
pub enum GenericParamModel {
    Type(String, Vec<BoundModel>),
    Other,
}

/// A predicate of a `where` clause: a bounded path type (named by its first segment) or
/// anything else.
#[derive(Debug)]
pub enum WherePredModel {
    Type(Option<String>, Vec<BoundModel>),
    Other,
}

/// The output type that a future-like bound declares.
pub open spec fn future_output(b: BoundModel) -> Option<usize> {
    match b {
        BoundModel::Trait(last, out) => if last@ == "Future"@ {
            out
        } else {
            None
        },
        BoundModel::Other => None,
    }
}

/// The erasure entries that the bounds of the parameter `name` give, in order.
pub open spec fn bound_entries(name: Seq<char>, bounds: Seq<BoundModel>) -> Seq<(Seq<char>, usize)>
    decreases bounds.len(),
{
    if bounds.len() == 0 {
        Seq::empty()
    } else {
        match future_output(bounds.last()) {
            Some(o) => bound_entries(name, bounds.drop_last()).push((name, o)),
            None => bound_entries(name, bounds.drop_last()),
        }
    }
}

pub open spec fn param_entries(ps: Seq<GenericParamModel>) -> Seq<(Seq<char>, usize)>
    decreases ps.len(),
{
    if ps.len() == 0 {
        Seq::empty()
    } else {
        match ps.last() {
            GenericParamModel::Type(n, b) => param_entries(ps.drop_last()) + bound_entries(n@, b@),
            GenericParamModel::Other => param_entries(ps.drop_last()),
        }
    }
}

pub open spec fn pred_entries(ws: Seq<WherePredModel>) -> Seq<(Seq<char>, usize)>
    decreases ws.len(),
{
    if ws.len() == 0 {
        Seq::empty()
    } else {
        match ws.last() {
            WherePredModel::Type(Some(n), b) => pred_entries(ws.drop_last()) + bound_entries(n@, b@),
            _ => pred_entries(ws.drop_last()),
        }
    }
}

/// The entry for `name` in one scope (the last one wins).
pub open spec fn frame_lookup(frame: Seq<(Seq<char>, usize)>, name: Seq<char>) -> Option<usize>
    decreases frame.len(),
{
    if frame.len() == 0 {
        None
    } else if frame.last().0 == name {
        Some(frame.last().1)
    } else {
        frame_lookup(frame.drop_last(), name)
    }
}

/// The entry for `name` in the innermost scope that has one.
pub open spec fn stack_lookup(frames: Seq<Seq<(Seq<char>, usize)>>, name: Seq<char>) -> Option<usize>
    decreases frames.len(),
{
    if frames.len() == 0 {
        None
    } else if frame_lookup(frames.last(), name).is_some() {
        frame_lookup(frames.last(), name)
    } else {
        stack_lookup(frames.drop_last(), name)
    }
}

pub open spec fn frame_view(f: Seq<(String, usize)>) -> Seq<(Seq<char>, usize)> {
    f.map_values(|e: (String, usize)| (e.0@, e.1))
}

pub open spec fn frames_view(fs: Seq<Vec<(String, usize)>>) -> Seq<Seq<(Seq<char>, usize)>> {
    fs.map_values(|f: Vec<(String, usize)>| frame_view(f@))
}

/// Whether a generic parameter stays in the signature under the erasure scopes `frames`.
pub open spec fn param_stays(frames: Seq<Seq<(Seq<char>, usize)>>, p: GenericParamModel) -> bool {
    match p {
        GenericParamModel::Type(n, _) => stack_lookup(frames, n@).is_none(),
        GenericParamModel::Other => true,
    }
}

/// Whether a `where` predicate stays in the signature under the erasure scopes `frames`.
pub open spec fn pred_stays(frames: Seq<Seq<(Seq<char>, usize)>>, w: WherePredModel) -> bool {
    match w {
        WherePredModel::Type(Some(n), _) => stack_lookup(frames, n@).is_none(),
        _ => true,
    }
}

/// Rewrites one rendition of a declaration: renaming, marker resolution, suspension and
/// generic-future erasure.
pub struct AsyncAwaitVisitor {
    pub convert_mode: ConvertMode,
    pub params: MacroParameters,
    /// Erasure scopes, innermost last: generic name and the index of its output type.
    pub generics: Vec<Vec<(String, usize)>>,
}

/// The name an identifier gets in the rendition that `v` produces, if it has a rule.
pub open spec fn ident_result(v: AsyncAwaitVisitor, ident: Seq<char>) -> Option<Seq<char>> {
    match rule_lookup(idents_view(v.params.idents@), ident) {
        Some(rule) => Some(renamed(rule, ident, v.convert_mode, opt_view(v.params.key))),
        None => None,
    }
}

fn frame_get(frame: &Vec<(String, usize)>, key: &str) -> (r: Option<usize>)
    ensures
        r == frame_lookup(frame_view(frame@), key@),
{
    let mut i: usize = frame.len();
    assert(frame_view(frame@.subrange(0, i as int)) =~= frame_view(frame@));
    while i > 0
        invariant
            i <= frame@.len(),
            frame_lookup(frame_view(frame@), key@) == frame_lookup(frame_view(frame@.subrange(0, i as int)), key@),
        decreases i,
    {
        assert(frame_view(frame@.subrange(0, i as int)).drop_last() =~= frame_view(frame@.subrange(0, i - 1)));
        if str_eq(frame[i - 1].0.as_str(), key) {
            return Some(frame[i - 1].1);
        }
        i = i - 1;
    }
    assert(frame_view(frame@.subrange(0, 0)).len() == 0);
    None
}

/// Appends the erasure entries of `bounds` for the parameter `name`.
fn push_bound_entries(frame: &mut Vec<(String, usize)>, name: &String, bounds: &Vec<BoundModel>)
    ensures
        frame_view(final(frame)@) == frame_view(old(frame)@) + bound_entries(name@, bounds@),
{
    let mut i: usize = 0;
    while i < bounds.len()
        invariant
            i <= bounds@.len(),
            frame_view(frame@) =~= frame_view(old(frame)@) + bound_entries(name@, bounds@.subrange(0, i as int)),
        decreases bounds@.len() - i,
    {
        let ghost prev = frame@;
        assert(bounds@.subrange(0, i + 1).drop_last() =~= bounds@.subrange(0, i as int));
        match search_future_trait_bound(&bounds[i]) {
            Some(o) => {
                frame.push((name.clone(), o));
                assert(frame_view(frame@) =~= frame_view(prev).push((name@, o)));
            },
            None => {},
        }
        i = i + 1;
    }
    assert(bounds@.subrange(0, i as int) =~= bounds@);
}

/// The output type of a future-like bound `Future<Output = Type>`, if `b` is one.
pub fn search_future_trait_bound(b: &BoundModel) -> (r: Option<usize>)
    ensures
        r == future_output(*b),
{
    match b {
        BoundModel::Trait(last, out) => {
            if str_eq(last.as_str(), "Future") {
                *out
            } else {
                None
            }
        },
        BoundModel::Other => None,
    }
}

impl AsyncAwaitVisitor {
    pub fn new(params: MacroParameters, convert_mode: ConvertMode) -> (r: Self)
        ensures
            r.params == params,
            r.convert_mode == convert_mode,
            r.generics@.len() == 0,
    {
        AsyncAwaitVisitor { convert_mode, params, generics: Vec::new() }
    }

    /// The output type recorded for the generic name `key`, innermost scope first.
    pub fn generics_get(&self, key: &str) -> (r: Option<usize>)
        ensures
            r == stack_lookup(frames_view(self.generics@), key@),
    {
        let mut i: usize = self.generics.len();
        assert(frames_view(self.generics@.subrange(0, i as int)) =~= frames_view(self.generics@));
        while i > 0
            invariant
                i <= self.generics@.len(),
                stack_lookup(frames_view(self.generics@), key@) == stack_lookup(frames_view(self.generics@.subrange(0, i as int)), key@),
            decreases i,
        {
            assert(frames_view(self.generics@.subrange(0, i as int)).drop_last() =~= frames_view(self.generics@.subrange(0, i - 1)));
            assert(frames_view(self.generics@.subrange(0, i as int)).last() == frame_view(self.generics@[i - 1]@));
            let found = frame_get(&self.generics[i - 1], key);
            if found.is_some() {
                return found;
            }
            i = i - 1;
        }
        assert(frames_view(self.generics@.subrange(0, 0)).len() == 0);
        None
    }

    /// The new name of an identifier occurrence; `None` leaves it as it is.
    pub fn process_ident(&self, ident: &str, mode: IdentMode) -> (r: Option<String>)
        ensures
            mode == IdentMode::Use ==> r.is_none(),
            mode != IdentMode::Use ==> match ident_result(*self, ident@) {
                Some(n) => r is Some && r->Some_0@ == n,
                None => r.is_none(),
            },
    {
        if mode == IdentMode::Use {
            return None;
        }
        match self.params.idents_get(ident) {
            Some(ir) => Some(ir.ident_add_suffix(ident, self.convert_mode, self.key_str())),
            None => None,
        }
    }

    fn key_str(&self) -> (r: Option<&str>)
        ensures
            crate::idents::opt_view(r) == opt_view(self.params.key),
    {
        match &self.params.key {
            Some(k) => Some(k.as_str()),
            None => None,
        }
    }

    /// The new name of a generic type parameter; `None` leaves it as it is.
    pub fn process_type_param(&self, ident: &str) -> (r: Option<String>)
        ensures
            match ident_result(*self, ident@) {
                Some(n) => r is Some && r->Some_0@ == n,
                None => r.is_none(),
            },
    {
        self.process_ident(ident, IdentMode::Other)
    }

    /// The rewrite of an import-tree node: a path segment is renamed in place unless its rule
    /// is import-style; a final name is renamed in place, or kept and aliased (`name as new`)
    /// when its rule is import-style.
    pub fn process_use_tree(&self, node: &UseNode) -> (r: UseAction)
        ensures
            match node {
                UseNode::Path(n) => match rule_lookup(idents_view(self.params.idents@), n@) {
                    Some(rule) => if rule.use_mode {
                        r is Keep
                    } else {
                        r is Replace && r->Replace_0@ == ident_result(*self, n@)->Some_0
                    },
                    None => r is Keep,
                },
                UseNode::Name(n) => match rule_lookup(idents_view(self.params.idents@), n@) {
                    Some(rule) => if rule.use_mode {
                        r is Rename && r->Rename_0@ == ident_result(*self, n@)->Some_0
                    } else {
                        r is Replace && r->Replace_0@ == ident_result(*self, n@)->Some_0
                    },
                    None => r is Keep,
                },
                UseNode::Other => r is Keep,
            },
    {
        match node {
            UseNode::Path(n) => match self.params.idents_get(n.as_str()) {
                Some(ir) => if ir.use_mode {
                    UseAction::Keep
                } else {
                    UseAction::Replace(ir.ident_add_suffix(n.as_str(), self.convert_mode, self.key_str()))
                },
                None => UseAction::Keep,
            },
            UseNode::Name(n) => match self.params.idents_get(n.as_str()) {
                Some(ir) => if ir.use_mode {
                    UseAction::Rename(ir.ident_add_suffix(n.as_str(), self.convert_mode, self.key_str()))
                } else {
                    UseAction::Replace(ir.ident_add_suffix(n.as_str(), self.convert_mode, self.key_str()))
                },
                None => UseAction::Keep,
            },
            UseNode::Other => UseAction::Keep,
        }
    }

    /// Suspension erasure: towards the synchronous flavour `x.await` becomes `x`, and an
    /// `async` block becomes its one statement or a plain block; the asynchronous flavour
    /// keeps both.
    pub fn process_expr(&self, kind: ExprKind) -> (r: ExprRewrite)
        ensures
            r == match (self.convert_mode, kind) {
                (ConvertMode::IntoSync, ExprKind::Await) => ExprRewrite::ToBase,
                (ConvertMode::IntoSync, ExprKind::Async(n)) => if n == 1 {
                    ExprRewrite::ToStatement
                } else {
                    ExprRewrite::ToBlock
                },
                _ => ExprRewrite::Unchanged,
            },
    {
        match (self.convert_mode, kind) {
            (ConvertMode::IntoSync, ExprKind::Await) => ExprRewrite::ToBase,
            (ConvertMode::IntoSync, ExprKind::Async(n)) => if n == 1 {
                ExprRewrite::ToStatement
            } else {
                ExprRewrite::ToBlock
            },
            _ => ExprRewrite::Unchanged,
        }
    }

    /// The replacement of a generic name in a path segment: the recorded output type.
    pub fn process_path_segment(&self, name: &str) -> (r: Option<usize>)
        ensures
            r == stack_lookup(frames_view(self.generics@), name@),
    {
        self.generics_get(name)
    }

    /// Entering a function: towards the synchronous flavour, records a scope with each generic
    /// parameter bounded by `Future<Output = R>` and returns which parameters and `where`
    /// predicates stay; towards the asynchronous flavour everything stays.
    pub fn process_item(&mut self, params: &Vec<GenericParamModel>, preds: &Vec<WherePredModel>) -> (r: (Vec<bool>, Vec<bool>))
        ensures
            final(self).convert_mode == old(self).convert_mode,
            final(self).params == old(self).params,
            r.0@.len() == params@.len(),
            r.1@.len() == preds@.len(),
            old(self).convert_mode == ConvertMode::IntoSync ==> {
                &&& frames_view(final(self).generics@) == frames_view(old(self).generics@).push(param_entries(params@) + pred_entries(preds@))
                &&& forall|i: int| 0 <= i < params@.len() ==> r.0@[i] == param_stays(frames_view(final(self).generics@), #[trigger] params@[i])
                &&& forall|i: int| 0 <= i < preds@.len() ==> r.1@[i] == pred_stays(frames_view(final(self).generics@), #[trigger] preds@[i])
            },
            old(self).convert_mode == ConvertMode::IntoAsync ==> {
                &&& final(self).generics == old(self).generics
                &&& forall|i: int| 0 <= i < params@.len() ==> r.0@[i]
                &&& forall|i: int| 0 <= i < preds@.len() ==> r.1@[i]
            },
    {
        let mut keep_params: Vec<bool> = Vec::new();
        let mut keep_preds: Vec<bool> = Vec::new();
        if self.convert_mode == ConvertMode::IntoAsync {
            let mut i: usize = 0;
            while i < params.len()
                invariant
                    i <= params@.len(),
                    keep_params@.len() == i,
                    forall|j: int| 0 <= j < i ==> keep_params@[j],
                decreases params@.len() - i,
            {
                keep_params.push(true);
                i = i + 1;
            }
            let mut i: usize = 0;
            while i < preds.len()
                invariant
                    i <= preds@.len(),
                    keep_preds@.len() == i,
                    forall|j: int| 0 <= j < i ==> keep_preds@[j],
                decreases preds@.len() - i,
            {
                keep_preds.push(true);
                i = i + 1;
            }
            return (keep_params, keep_preds);
        }
        let mut frame: Vec<(String, usize)> = Vec::new();
        let mut i: usize = 0;
        assert(frame_view(frame@) =~= param_entries(params@.subrange(0, 0)));
        while i < params.len()
            invariant
                i <= params@.len(),
                frame_view(frame@) == param_entries(params@.subrange(0, i as int)),
            decreases params@.len() - i,
        {
            assert(params@.subrange(0, i + 1).drop_last() =~= params@.subrange(0, i as int));
            match &params[i] {
                GenericParamModel::Type(name, bounds) => push_bound_entries(&mut frame, name, bounds),
                GenericParamModel::Other => {},
            }
            i = i + 1;
        }
        assert(params@.subrange(0, i as int) =~= params@);
        let ghost pe = frame_view(frame@);
        let mut i: usize = 0;
        assert(frame_view(frame@) =~= pe + pred_entries(preds@.subrange(0, 0)));
        while i < preds.len()
            invariant
                i <= preds@.len(),
                frame_view(frame@) == pe + pred_entries(preds@.subrange(0, i as int)),
            decreases preds@.len() - i,
        {
            assert(preds@.subrange(0, i + 1).drop_last() =~= preds@.subrange(0, i as int));
            match &preds[i] {
                WherePredModel::Type(Some(name), bounds) => {
                    let ghost before = frame_view(frame@);
                    push_bound_entries(&mut frame, name, bounds);
                    assert(frame_view(frame@) =~= pe + pred_entries(preds@.subrange(0, i + 1)));
                },
                _ => {},
            }
            i = i + 1;
        }
        assert(preds@.subrange(0, i as int) =~= preds@);
        let ghost old_gens = self.generics@;
        self.generics.push(frame);
        assert(frames_view(self.generics@) =~= frames_view(old_gens).push(param_entries(params@) + pred_entries(preds@)));
        let mut i: usize = 0;
        while i < params.len()
            invariant
                i <= params@.len(),
                keep_params@.len() == i,
                forall|j: int| 0 <= j < i ==> keep_params@[j] == param_stays(frames_view(self.generics@), #[trigger] params@[j]),
            decreases params@.len() - i,
        {
            let stays = match &params[i] {
                GenericParamModel::Type(name, _) => self.generics_get(name.as_str()).is_none(),
                GenericParamModel::Other => true,
            };
            keep_params.push(stays);
            i = i + 1;
        }
        let mut i: usize = 0;
        while i < preds.len()
            invariant
                i <= preds@.len(),
                keep_preds@.len() == i,
                forall|j: int| 0 <= j < i ==> keep_preds@[j] == pred_stays(frames_view(self.generics@), #[trigger] preds@[j]),
            decreases preds@.len() - i,
        {
            let stays = match &preds[i] {
                WherePredModel::Type(Some(name), _) => self.generics_get(name.as_str()).is_none(),
                _ => true,
            };
            keep_preds.push(stays);
            i = i + 1;
        }
        (keep_params, keep_preds)
    }

    /// Leaving a function: towards the synchronous flavour, drops its erasure scope.
    pub fn after_process_item(&mut self)
        ensures
            final(self).convert_mode == old(self).convert_mode,
            final(self).params == old(self).params,
            old(self).convert_mode == ConvertMode::IntoSync && old(self).generics@.len() > 0 ==> final(self).generics@ == old(self).generics@.drop_last(),
            old(self).generics@.len() == 0 ==> final(self).generics == old(self).generics,
            old(self).convert_mode == ConvertMode::IntoAsync ==> final(self).generics == old(self).generics,
    {
        if self.convert_mode == ConvertMode::IntoSync && self.generics.len() > 0 {
            self.generics.pop();
        }
    }
}

/// The key named by the arguments of a conditional marker.
fn marker_key_of(args: &Option<Vec<NestedMeta>>) -> (r: Result<String, AttrError>)
    ensures
        match marker_key(*args) {
            Ok(k) => r is Ok && r->Ok_0@ == k,
            Err(e) => r == Err::<String, AttrError>(e),
        },
{
    match args {
        None => Err(AttrError::BadArguments),
        Some(list) => {
            if list.len() == 0 {
                Err(AttrError::ExpectedIdent)
            } else if list.len() > 1 {
                Err(AttrError::TooManyArguments)
            } else {
                match &list[0] {
                    NestedMeta::Lit(Lit::Str(s)) => Ok(s.clone()),
                    NestedMeta::Meta(Meta::Path(p)) => match p.get_ident() {
                        Some(n) => Ok(n.clone()),
                        None => Err(AttrError::WrongIdent),
                    },
                    NestedMeta::Meta(Meta::NameValue(p, Lit::Str(v))) => {
                        if p.is_ident("key") {
                            Ok(v.clone())
                        } else {
                            Err(AttrError::WrongIdent)
                        }
                    },
                    _ => Err(AttrError::WrongIdent),
                }
            }
        },
    }
}

/// Once a marker fails, markers after it do not change the error.
proof fn lemma_cond_err(p: MacroParameters, s: Seq<Attr>, n: int)
    requires
        0 <= n <= s.len(),
        first_cond_error(p, s.subrange(0, n)) is Some,
    ensures
        first_cond_error(p, s) == first_cond_error(p, s.subrange(0, n)),
    decreases s.len() - n,
{
    if n < s.len() {
        assert(s.subrange(0, n + 1).drop_last() =~= s.subrange(0, n));
        lemma_cond_err(p, s, n + 1);
    } else {
        assert(s.subrange(0, n) =~= s);
    }
}

impl AsyncAwaitVisitor {
    /// Resolves a conditional marker against the rendition key: it becomes `prefix::noop`
    /// when the content stays (`only_if` with the key, `remove_if` with another key) and
    /// `prefix::remove` otherwise.
    pub fn process_attribute_if(&self, attr: Attr, not: bool) -> (r: Result<Attr, AttrError>)
        ensures
            match marker_key(attr.args) {
                Ok(k) => {
                    &&& r is Ok
                    &&& r->Ok_0.origin == attr.origin
                    &&& r->Ok_0.outer == attr.outer
                    &&& r->Ok_0.args == attr.args
                    &&& !r->Ok_0.path.leading_colon
                    &&& r->Ok_0.path.segments@.len() == 2
                    &&& r->Ok_0.path.segments@[0]@ == self_prefix(self.params)
                    &&& r->Ok_0.path.segments@[1]@ == if conditional_keeps(opt_view(self.params.key), k, not) {
                        "noop"@
                    } else {
                        "remove"@
                    }
                },
                Err(e) => r == Err::<Attr, AttrError>(e),
            },
    {
        let key = marker_key_of(&attr.args)?;
        let success = match &self.params.key {
            Some(current) => str_eq(current.as_str(), key.as_str()) != not,
            None => false,
        };
        let new_name = if success { "noop" } else { "remove" };
        let path = self.params.make_self_path(new_name);
        Ok(Attr { origin: attr.origin, outer: attr.outer, path, args: attr.args })
    }

    /// Processes the attributes of one node: resolves conditional markers (the first failing
    /// marker is the error), drops the attributes named in `drop_attrs`, and substitutes
    /// feature names inside `cfg(...)`.
    pub fn process_attrs(&self, attrs: Vec<Attr>) -> (r: Result<Vec<Attr>, AttrError>)
        ensures
            match first_cond_error(self.params, attrs@) {
                Some(e) => r == Err::<Vec<Attr>, AttrError>(e),
                None => r is Ok && exists|mid: Seq<Attr>| {
                    &&& mid.len() == attrs@.len()
                    &&& (forall|i: int| 0 <= i < mid.len() ==> cond_resolved(self.params, attrs@[i], #[trigger] mid[i]))
                    &&& r->Ok_0@.len() == kept(self.params, mid).len()
                    &&& forall|i: int| 0 <= i < r->Ok_0@.len() ==> cfg_replaced(self.params, kept(self.params, mid)[i], #[trigger] r->Ok_0@[i])
                },
            },
    {
        let ghost items = attrs@;
        let mut rest = attrs;
        let total = rest.len();
        let mut mid: Vec<Attr> = Vec::new();
        while rest.len() > 0
            invariant
                mid@.len() + rest@.len() == items.len(),
                items.len() == total,
                items == attrs@,
                rest@ == items.subrange(mid@.len() as int, items.len() as int),
                first_cond_error(self.params, items.subrange(0, mid@.len() as int)).is_none(),
                forall|i: int| 0 <= i < mid@.len() ==> cond_resolved(self.params, items[i], #[trigger] mid@[i]),
            decreases rest@.len(),
        {
            let ghost k = mid@.len() as int;
            let attr = rest.remove(0);
            assert(items.subrange(0, k + 1).drop_last() =~= items.subrange(0, k));
            assert(items.subrange(0, k + 1).last() == attr);
            let resolved = match self.params.is_our_attr(&attr) {
                Some(name) => {
                    if str_eq(name.as_str(), "only_if") {
                        proof {
                            reveal_strlit("only_if");
                            reveal_strlit("remove_if");
                            assert("only_if"@[0] != "remove_if"@[0]);
                            assert("only_if"@ != "remove_if"@);
                        }
                        self.process_attribute_if(attr, false)
                    } else if str_eq(name.as_str(), "remove_if") {
                        self.process_attribute_if(attr, true)
                    } else {
                        Ok(attr)
                    }
                },
                None => Ok(attr),
            };
            match resolved {
                Ok(a) => mid.push(a),
                Err(e) => {
                    proof { lemma_cond_err(self.params, items, k + 1); }
                    return Err(e);
                },
            }
            assert(rest@ =~= items.subrange(mid@.len() as int, items.len() as int));
        }
        assert(items.subrange(0, mid@.len() as int) =~= items);
        let ghost mids = mid@;
        let mut rest = mid;
        let total = rest.len();
        let mut k: usize = 0;
        let mut kept_attrs: Vec<Attr> = Vec::new();
        assert(mids.subrange(0, 0).len() == 0);
        while rest.len() > 0
            invariant
                k + rest@.len() == mids.len(),
                mids.len() == total,
                rest@ == mids.subrange(k as int, mids.len() as int),
                kept_attrs@ == kept(self.params, mids.subrange(0, k as int)),
            decreases rest@.len(),
        {
            let attr = rest.remove(0);
            assert(mids.subrange(0, k + 1).drop_last() =~= mids.subrange(0, k as int));
            assert(mids.subrange(0, k + 1).last() == attr);
            let drop = match attr.path.get_ident() {
                Some(n) => self.params.drop_attrs_contains(n),
                None => false,
            };
            if !drop {
                kept_attrs.push(attr);
            }
            k = k + 1;
            assert(rest@ =~= mids.subrange(k as int, mids.len() as int));
        }
        assert(mids.subrange(0, k as int) =~= mids);
        let ghost ks = kept_attrs@;
        let mut rest = kept_attrs;
        let total = rest.len();
        let mut out: Vec<Attr> = Vec::new();
        while rest.len() > 0
            invariant
                out@.len() + rest@.len() == ks.len(),
                ks.len() == total,
                ks == kept(self.params, mids),
                rest@ == ks.subrange(out@.len() as int, ks.len() as int),
                forall|i: int| 0 <= i < out@.len() ==> cfg_replaced(self.params, ks[i], #[trigger] out@[i]),
            decreases rest@.len(),
        {
            let ghost k = out@.len() as int;
            let attr = rest.remove(0);
            assert(attr == ks[k]);
            let is_cfg = attr.path.is_ident("cfg");
            if is_cfg && attr.args.is_some() {
                let Attr { origin, outer, path, args } = attr;
                let list = match args {
                    Some(l) => l,
                    None => Vec::new(),
                };
                let (m, _changed) = replace_features_meta(Meta::List(path, list), &self.params.replace_features);
                match m {
                    Meta::List(p, news) => out.push(Attr { origin, outer, path: p, args: Some(news) }),
                    _ => {
                        // A list stays a list (see `features_replaced`).
                        assert(false);
                    },
                }
            } else {
                out.push(attr);
            }
            assert(rest@ =~= ks.subrange(out@.len() as int, ks.len() as int));
        }
        Ok(out)
    }
}

} // verus!
