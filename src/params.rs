use vstd::prelude::*;

use crate::idents::pair_lookup;
use crate::idents::pairs_view;
use crate::idents::ConvertMode;
use crate::idents::IdentRecord;
use crate::idents::IdentRule;
use crate::meta::path_ident;
use crate::meta::Lit;
use crate::meta::Meta;
use crate::meta::MetaPath;
use crate::meta::NestedMeta;
use crate::strs::str_eq;

verus! {

/// The kind of a declared rendition.
#[derive(Debug, Clone, Copy, PartialEq, Eq, Structural)]
pub enum MacroParameterActionKind {
    Sync,
    Async,
}

/// The default key of a rendition of the given kind.
pub open spec fn kind_name(k: MacroParameterActionKind) -> Seq<char> {
    match k {
        MacroParameterActionKind::Sync => "sync"@,
        MacroParameterActionKind::Async => "async"@,
    }
}

/// The rendition kind that a list name declares, if any.
pub open spec fn kind_of_name(s: Seq<char>) -> Option<MacroParameterActionKind> {
    if s == "sync"@ {
        Some(MacroParameterActionKind::Sync)
    } else if s == "async"@ {
        Some(MacroParameterActionKind::Async)
    } else {
        None
    }
}

/// The conversion direction of a rendition kind.
pub open spec fn kind_mode(k: MacroParameterActionKind) -> ConvertMode {
    match k {
        MacroParameterActionKind::Sync => ConvertMode::IntoSync,
        MacroParameterActionKind::Async => ConvertMode::IntoAsync,
    }
}

impl MacroParameterActionKind {
    pub fn from_str(s: &str) -> (r: Option<Self>)
        ensures
            r == kind_of_name(s@),
    {
        if str_eq(s, "sync") {
            Some(MacroParameterActionKind::Sync)
        } else if str_eq(s, "async") {
            Some(MacroParameterActionKind::Async)
        } else {
            None
        }
    }

    pub fn to_str(&self) -> (r: &'static str)
        ensures
            r@ == kind_name(*self),
    {
        match self {
            MacroParameterActionKind::Sync => "sync",
            MacroParameterActionKind::Async => "async",
        }
    }

    pub fn mode(&self) -> (r: ConvertMode)
        ensures
            r == kind_mode(*self),
    {
        match self {
            MacroParameterActionKind::Sync => ConvertMode::IntoSync,
            MacroParameterActionKind::Async => ConvertMode::IntoAsync,
        }
    }
}

/// Why a list of macro arguments was refused.
#[derive(Debug, Clone, Copy, PartialEq, Eq, Structural)]
pub enum ParamError {
    /// A name was expected where a complex path stands.
    ExpectedName,
    /// A string literal was expected.
    ExpectedStringLiteral,
    /// A name-value pair has a name other than `key`, `prefix`, `send` or `feature`.
    WrongNameValue,
    /// `cfg(...)` does not hold exactly one condition.
    ExpectedCondition,
    /// An identifier was expected where a complex path stands.
    ExpectedIdent,
    /// An identifier option other than `fn`, `use`, `keep`, `sync`, `async`.
    ExpectedIdentOption,
    /// An identifier option that is neither a name nor a name with a string value.
    ExpectedIdentOptionValue,
    /// An entry of `idents(...)` that is neither a name nor a name with options.
    ExpectedIdentEntry,
    /// An entry of `drop_attrs(...)` that is not a name.
    ExpectedListOfIdents,
    /// `replace_feature(...)` does not hold exactly two string literals.
    ExpectedTwoStrings,
    /// `send` holds a value other than `Send`, `?Send`, `true`, `false` or the empty string.
    WrongSend,
}

impl ParamError {
    /// A human-readable description of the error.
    pub fn message(&self) -> (r: &'static str) {
        match self {
            ParamError::ExpectedName => "Expected name",
            ParamError::ExpectedStringLiteral => "Expected string literal",
            ParamError::WrongNameValue => "Wrong name for name-value pair",
            ParamError::ExpectedCondition => "Expected condition",
            ParamError::ExpectedIdent => "Expected ident, but not complex path",
            ParamError::ExpectedIdentOption => "Expected fn, use, keep, sync, async",
            ParamError::ExpectedIdentOptionValue => "Expected fn, sync = \"ident\", or async = \"ident\"",
            ParamError::ExpectedIdentEntry => "Expected name = \"value\" pair",
            ParamError::ExpectedListOfIdents => "Expected list of idents",
            ParamError::ExpectedTwoStrings => "Expected two string literals",
            ParamError::WrongSend => "Only accepts `Send` or `?Send`",
        }
    }
}

/// The identifier rule that the last entry for `name` gives, if any.
pub open spec fn rule_lookup(ids: Seq<(Seq<char>, IdentRule)>, name: Seq<char>) -> Option<IdentRule>
    decreases ids.len(),
{
    if ids.len() == 0 {
        None
    } else if ids.last().0 == name {
        Some(ids.last().1)
    } else {
        rule_lookup(ids.drop_last(), name)
    }
}

pub open spec fn idents_view(ids: Seq<(String, IdentRecord)>) -> Seq<(Seq<char>, IdentRule)> {
    ids.map_values(|p: (String, IdentRecord)| (p.0@, p.1@))
}

pub open spec fn strings_view(v: Seq<String>) -> Seq<Seq<char>> {
    v.map_values(|s: String| s@)
}

pub open spec fn opt_view(o: Option<String>) -> Option<Seq<char>> {
    match o {
        Some(s) => Some(s@),
        None => None,
    }
}

/// The rule an identifier entry has when no option is given.
pub open spec fn default_rule(fn_mode: bool) -> IdentRule {
    IdentRule {
        fn_mode,
        use_mode: false,
        keep: false,
        ident_sync: None,
        ident_async: None,
        idents: None,
    }
}

/// Applies one option of an identifier entry `ident(option, ...)` to its rule.
pub open spec fn ident_option(ident: Seq<char>, r: IdentRule, opt: NestedMeta) -> Result<IdentRule, ParamError> {
    match opt {
        NestedMeta::Meta(Meta::Path(q)) => match path_ident(q) {
            None => Err(ParamError::ExpectedIdent),
            Some(n) => if n == "fn"@ {
                Ok(IdentRule { fn_mode: true, ..r })
            } else if n == "use"@ {
                Ok(IdentRule { use_mode: true, ..r })
            } else if n == "keep"@ {
                Ok(IdentRule { keep: true, ..r })
            } else if n == "sync"@ {
                Ok(IdentRule { ident_sync: Some(ident), ..r })
            } else if n == "async"@ {
                Ok(IdentRule { ident_async: Some(ident), ..r })
            } else {
                Err(ParamError::ExpectedIdentOption)
            },
        },
        NestedMeta::Meta(Meta::NameValue(q, Lit::Str(v))) => match path_ident(q) {
            None => Err(ParamError::ExpectedIdent),
            Some(n) => if n == "sync"@ {
                Ok(IdentRule { ident_sync: Some(v@), ..r })
            } else if n == "async"@ {
                Ok(IdentRule { ident_async: Some(v@), ..r })
            } else {
                Ok(IdentRule {
                    idents: Some(
                        match r.idents {
                            Some(p) => p,
                            None => Seq::empty(),
                        }.push((n, v@)),
                    ),
                    ..r
                })
            },
        },
        _ => Err(ParamError::ExpectedIdentOptionValue),
    }
}

/// Applies the options of an identifier entry in order, starting from the default rule.
pub open spec fn ident_options(ident: Seq<char>, opts: Seq<NestedMeta>) -> Result<IdentRule, ParamError>
    decreases opts.len(),
{
    if opts.len() == 0 {
        Ok(default_rule(false))
    } else {
        match ident_options(ident, opts.drop_last()) {
            Err(e) => Err(e),
            Ok(r) => ident_option(ident, r, opts.last()),
        }
    }
}

/// The entry that one element of `idents(...)` adds.
pub open spec fn ident_entry(entry: NestedMeta) -> Result<(Seq<char>, IdentRule), ParamError> {
    match entry {
        NestedMeta::Meta(Meta::Path(p)) => match path_ident(p) {
            None => Err(ParamError::ExpectedIdent),
            Some(n) => Ok((n, default_rule(false))),
        },
        NestedMeta::Meta(Meta::List(p, opts)) => match path_ident(p) {
            None => Err(ParamError::ExpectedIdent),
            Some(n) => match ident_options(n, opts@) {
                Err(e) => Err(e),
                Ok(r) => Ok((n, r)),
            },
        },
        _ => Err(ParamError::ExpectedIdentEntry),
    }
}

/// The identifier rules after the entries of `idents(...)` are added to `ids` in order.
pub open spec fn ident_entries(ids: Seq<(Seq<char>, IdentRule)>, list: Seq<NestedMeta>) -> Result<Seq<(Seq<char>, IdentRule)>, ParamError>
    decreases list.len(),
{
    if list.len() == 0 {
        Ok(ids)
    } else {
        match ident_entries(ids, list.drop_last()) {
            Err(e) => Err(e),
            Ok(s) => match ident_entry(list.last()) {
                Err(e) => Err(e),
                Ok(x) => Ok(s.push(x)),
            },
        }
    }
}

/// Once the options of an entry fail, options after them do not change the error.
proof fn lemma_options_err(ident: Seq<char>, opts: Seq<NestedMeta>, n: int)
    requires
        0 <= n <= opts.len(),
        ident_options(ident, opts.subrange(0, n)) is Err,
    ensures
        ident_options(ident, opts) == ident_options(ident, opts.subrange(0, n)),
    decreases opts.len() - n,
{
    if n < opts.len() {
        assert(opts.subrange(0, n + 1).drop_last() =~= opts.subrange(0, n));
        lemma_options_err(ident, opts, n + 1);
    } else {
        assert(opts.subrange(0, n) =~= opts);
    }
}

/// Once the entries of `idents(...)` fail, entries after them do not change the error.
proof fn lemma_entries_err(ids: Seq<(Seq<char>, IdentRule)>, list: Seq<NestedMeta>, n: int)
    requires
        0 <= n <= list.len(),
        ident_entries(ids, list.subrange(0, n)) is Err,
    ensures
        ident_entries(ids, list) == ident_entries(ids, list.subrange(0, n)),
    decreases list.len() - n,
{
    if n < list.len() {
        assert(list.subrange(0, n + 1).drop_last() =~= list.subrange(0, n));
        lemma_entries_err(ids, list, n + 1);
    } else {
        assert(list.subrange(0, n) =~= list);
    }
}

/// One parsed identifier rule, built from an entry of `idents(...)`.
fn parse_ident_option(ident: &String, r: &mut IdentRecord, opt: NestedMeta) -> (res: Result<(), ParamError>)
    ensures
        match ident_option(ident@, old(r)@, opt) {
            Ok(x) => res is Ok && final(r)@ == x,
            Err(e) => res == Err::<(), ParamError>(e),
        },
{
    match opt {
        NestedMeta::Meta(Meta::Path(q)) => {
            let n = match q.get_ident() {
                None => return Err(ParamError::ExpectedIdent),
                Some(n) => n,
            };
            if str_eq(n.as_str(), "fn") {
                r.fn_mode = true;
            } else if str_eq(n.as_str(), "use") {
                r.use_mode = true;
            } else if str_eq(n.as_str(), "keep") {
                r.keep = true;
            } else if str_eq(n.as_str(), "sync") {
                r.ident_sync = Some(ident.clone());
            } else if str_eq(n.as_str(), "async") {
                r.ident_async = Some(ident.clone());
            } else {
                return Err(ParamError::ExpectedIdentOption);
            }
            Ok(())
        },
        NestedMeta::Meta(Meta::NameValue(q, Lit::Str(v))) => {
            let n = match q.get_ident() {
                None => return Err(ParamError::ExpectedIdent),
                Some(n) => n,
            };
            if str_eq(n.as_str(), "sync") {
                r.ident_sync = Some(v);
            } else if str_eq(n.as_str(), "async") {
                r.ident_async = Some(v);
            } else {
                let mut pairs = match r.idents.take() {
                    Some(p) => p,
                    None => Vec::new(),
                };
                let ghost before = pairs@;
                assert(pairs_view(before) =~= match old(r)@.idents {
                    Some(p) => p,
                    None => Seq::empty(),
                });
                pairs.push((n.clone(), v));
                assert(pairs_view(pairs@) =~= pairs_view(before).push((n@, v@)));
                r.idents = Some(pairs);
            }
            Ok(())
        },
        _ => Err(ParamError::ExpectedIdentOptionValue),
    }
}

/// Adds the entries of `idents(...)` to a list of identifier rules.
fn parse_idents(ids: &mut Vec<(String, IdentRecord)>, list: Vec<NestedMeta>) -> (res: Result<(), ParamError>)
    ensures
        match ident_entries(idents_view(old(ids)@), list@) {
            Ok(x) => res is Ok && idents_view(final(ids)@) == x,
            Err(e) => res == Err::<(), ParamError>(e),
        },
{
    let ghost items = list@;
    let ghost start = idents_view(ids@);
    let mut rest = list;
    let total = rest.len();
    let mut k: usize = 0;
    while rest.len() > 0
        invariant
            k + rest@.len() == items.len(),
            items.len() == total,
            start == idents_view(old(ids)@),
            items == list@,
            rest@ == items.subrange(k as int, items.len() as int),
            ident_entries(start, items.subrange(0, k as int)) == Ok::<Seq<(Seq<char>, IdentRule)>, ParamError>(idents_view(ids@)),
        decreases rest@.len(),
    {
        let entry = rest.remove(0);
        assert(items.subrange(0, k + 1).drop_last() =~= items.subrange(0, k as int));
        assert(items.subrange(0, k + 1).last() == entry);
        let ghost before = ids@;
        match entry {
            NestedMeta::Meta(Meta::Path(p)) => {
                let n = match p.get_ident() {
                    None => {
                        proof {
                            let pre = items.subrange(0, k + 1);
                            assert(ident_entry(pre.last()) is Err);
                            assert(ident_entries(start, pre) is Err);
                            lemma_entries_err(start, items, k + 1);
                        }
                        return Err(ParamError::ExpectedIdent);
                    },
                    Some(n) => n.clone(),
                };
                ids.push((n, IdentRecord::new()));
            },
            NestedMeta::Meta(Meta::List(p, opts)) => {
                let n = match p.get_ident() {
                    None => {
                        proof { lemma_entries_err(start, items, k + 1); }
                        return Err(ParamError::ExpectedIdent);
                    },
                    Some(n) => n.clone(),
                };
                let ghost all_opts = opts@;
                let mut r = IdentRecord::new();
                let mut orest = opts;
                let ototal = orest.len();
                let mut j: usize = 0;
                assert(r@ == default_rule(false));
                while orest.len() > 0
                    invariant
                        j + orest@.len() == all_opts.len(),
                        all_opts.len() == ototal,
                        k < items.len(),
                        items.subrange(0, k + 1).last() == NestedMeta::Meta(Meta::List(p, opts)),
                        items.subrange(0, k + 1).drop_last() =~= items.subrange(0, k as int),
                        ident_entries(start, items.subrange(0, k as int)) == Ok::<Seq<(Seq<char>, IdentRule)>, ParamError>(idents_view(ids@)),
                        path_ident(p) == Some(n@),
                        all_opts == opts@,
                        start == idents_view(old(ids)@),
                        items == list@,
                        orest@ == all_opts.subrange(j as int, all_opts.len() as int),
                        ident_options(n@, all_opts.subrange(0, j as int)) == Ok::<IdentRule, ParamError>(r@),
                    decreases orest@.len(),
                {
                    let opt = orest.remove(0);
                    assert(all_opts.subrange(0, j + 1).drop_last() =~= all_opts.subrange(0, j as int));
                    assert(all_opts.subrange(0, j + 1).last() == opt);
                    match parse_ident_option(&n, &mut r, opt) {
                        Err(e) => {
                            proof {
                                lemma_options_err(n@, all_opts, j + 1);
                                lemma_entries_err(start, items, k + 1);
                            }
                            return Err(e);
                        },
                        Ok(()) => {},
                    }
                    j = j + 1;
                    assert(orest@ =~= all_opts.subrange(j as int, all_opts.len() as int));
                }
                assert(all_opts.subrange(0, j as int) =~= all_opts);
                ids.push((n, r));
            },
            _ => {
                proof { lemma_entries_err(start, items, k + 1); }
                return Err(ParamError::ExpectedIdentEntry);
            },
        }
        assert(idents_view(ids@) =~= idents_view(before).push((ids@.last().0@, ids@.last().1@)));
        k = k + 1;
        assert(rest@ =~= items.subrange(k as int, items.len() as int));
    }
    assert(items.subrange(0, k as int) =~= items);
    Ok(())
}

/// What a list of macro arguments sets, with each declared rendition as the kind and the
/// arguments it was declared with.
pub struct ParamsView {
    pub disable: bool,
    pub key: Option<Seq<char>>,
    pub prefix: Option<Seq<char>>,
    pub idents: Seq<(Seq<char>, IdentRule)>,
    pub send: Option<bool>,
    pub keep_self: bool,
    pub cfg: Option<Meta>,
    pub outer_attrs: Seq<NestedMeta>,
    pub inner_attrs: Seq<NestedMeta>,
    pub drop_attrs: Seq<Seq<char>>,
    pub replace_features: Seq<(Seq<char>, Seq<char>)>,
    pub actions: Seq<(MacroParameterActionKind, Seq<NestedMeta>)>,
}

/// The settings of an empty argument list.
pub open spec fn empty_view() -> ParamsView {
    ParamsView {
        disable: false,
        key: None,
        prefix: None,
        idents: Seq::empty(),
        send: None,
        keep_self: false,
        cfg: None,
        outer_attrs: Seq::empty(),
        inner_attrs: Seq::empty(),
        drop_attrs: Seq::empty(),
        replace_features: Seq::empty(),
        actions: Seq::empty(),
    }
}

/// The value of `send = "..."`, if the text is accepted.
pub open spec fn send_value(s: Seq<char>) -> Option<bool> {
    if s == ""@ || s == "Send"@ || s == "true"@ {
        Some(true)
    } else if s == "?Send"@ || s == "false"@ {
        Some(false)
    } else {
        None
    }
}

/// The names of `drop_attrs(...)`, in order.
pub open spec fn drop_names(list: Seq<NestedMeta>) -> Result<Seq<Seq<char>>, ParamError>
    decreases list.len(),
{
    if list.len() == 0 {
        Ok(Seq::empty())
    } else {
        match drop_names(list.drop_last()) {
            Err(e) => Err(e),
            Ok(s) => match list.last() {
                NestedMeta::Meta(Meta::Path(p)) => match path_ident(p) {
                    Some(n) => Ok(s.push(n)),
                    None => Err(ParamError::ExpectedName),
                },
                _ => Err(ParamError::ExpectedListOfIdents),
            },
        }
    }
}

/// The feature substitution of `replace_feature("old", "new")`.
pub open spec fn feature_pair(list: Seq<NestedMeta>) -> Result<(Seq<char>, Seq<char>), ParamError> {
    if list.len() != 2 {
        Err(ParamError::ExpectedTwoStrings)
    } else {
        match (list[0], list[1]) {
            (NestedMeta::Lit(Lit::Str(a)), NestedMeta::Lit(Lit::Str(b))) => Ok((a@, b@)),
            _ => Err(ParamError::ExpectedStringLiteral),
        }
    }
}

/// The settings after one more argument.
pub open spec fn parse_arg(f: ParamsView, arg: NestedMeta) -> Result<ParamsView, ParamError>
    decreases arg,
{
    match arg {
        NestedMeta::Meta(Meta::NameValue(path, lit)) => match path_ident(path) {
            None => Err(ParamError::ExpectedName),
            Some(name) => if name == "key"@ {
                match lit {
                    Lit::Str(s) => Ok(ParamsView { key: Some(s@), ..f }),
                    _ => Err(ParamError::ExpectedStringLiteral),
                }
            } else if name == "prefix"@ {
                match lit {
                    Lit::Str(s) => Ok(ParamsView { prefix: Some(s@), ..f }),
                    _ => Err(ParamError::ExpectedStringLiteral),
                }
            } else if name == "send"@ {
                match lit {
                    Lit::Str(s) => match send_value(s@) {
                        Some(b) => Ok(ParamsView { send: Some(b), ..f }),
                        None => Err(ParamError::WrongSend),
                    },
                    _ => Err(ParamError::ExpectedStringLiteral),
                }
            } else if name == "feature"@ {
                match lit {
                    Lit::Str(_) => Ok(ParamsView { cfg: Some(Meta::NameValue(path, lit)), ..f }),
                    _ => Err(ParamError::ExpectedStringLiteral),
                }
            } else {
                Err(ParamError::WrongNameValue)
            },
        },
        NestedMeta::Meta(Meta::List(path, nested)) => match path_ident(path) {
            None => Err(ParamError::ExpectedName),
            Some(name) => if name == "cfg"@ {
                if nested@.len() == 1 && nested@[0] is Meta {
                    Ok(ParamsView { cfg: Some(nested@[0]->Meta_0), ..f })
                } else {
                    Err(ParamError::ExpectedCondition)
                }
            } else if name == "idents"@ {
                match ident_entries(f.idents, nested@) {
                    Ok(ids) => Ok(ParamsView { idents: ids, ..f }),
                    Err(e) => Err(e),
                }
            } else if name == "any"@ || name == "all"@ || name == "not"@ {
                Ok(ParamsView { cfg: Some(Meta::List(path, nested)), ..f })
            } else if name == "outer"@ {
                Ok(ParamsView { outer_attrs: f.outer_attrs + nested@, ..f })
            } else if name == "inner"@ {
                Ok(ParamsView { inner_attrs: f.inner_attrs + nested@, ..f })
            } else if name == "replace_feature"@ {
                match feature_pair(nested@) {
                    Ok(pair) => Ok(ParamsView { replace_features: f.replace_features.push(pair), ..f }),
                    Err(e) => Err(e),
                }
            } else if name == "drop_attrs"@ {
                match drop_names(nested@) {
                    Ok(names) => Ok(ParamsView { drop_attrs: f.drop_attrs + names, ..f }),
                    Err(e) => Err(e),
                }
            } else if kind_of_name(name).is_some() {
                match parse_fold(nested@) {
                    Ok(_) => Ok(ParamsView { actions: f.actions.push((kind_of_name(name).unwrap(), nested@)), ..f }),
                    Err(e) => Err(e),
                }
            } else {
                Ok(ParamsView { inner_attrs: f.inner_attrs.push(arg), ..f })
            },
        },
        NestedMeta::Meta(Meta::Path(path)) => if path_ident(path) == Some("disable"@) {
            Ok(ParamsView { disable: true, ..f })
        } else if path_ident(path) == Some("keep_self"@) {
            Ok(ParamsView { keep_self: true, ..f })
        } else {
            Ok(ParamsView { inner_attrs: f.inner_attrs.push(arg), ..f })
        },
        NestedMeta::Lit(Lit::Str(_)) => Ok(ParamsView { inner_attrs: f.inner_attrs.push(arg), ..f }),
        NestedMeta::Lit(_) => Err(ParamError::ExpectedStringLiteral),
    }
}

/// The settings of a list of arguments, taken in order; the first refused argument decides
/// the error.
pub open spec fn parse_fold(args: Seq<NestedMeta>) -> Result<ParamsView, ParamError>
    decreases args,
{
    if args.len() == 0 {
        Ok(empty_view())
    } else {
        match parse_fold(args.subrange(0, args.len() - 1)) {
            Err(e) => Err(e),
            Ok(f) => parse_arg(f, args[args.len() - 1]),
        }
    }
}

/// A parsed configuration: settings, and the renditions it declares.
#[derive(Debug)]
pub struct MacroParameters {
    pub disable: bool,
    pub key: Option<String>,
    pub prefix: Option<String>,
    /// Identifier rules; a later entry for a name overrides an earlier one.
    pub idents: Vec<(String, IdentRecord)>,
    pub send: Option<bool>,
    pub keep_self: bool,
    pub cfg: Option<Meta>,
    pub outer_attrs: Vec<NestedMeta>,
    pub inner_attrs: Vec<NestedMeta>,
    pub drop_attrs: Vec<String>,
    /// Feature substitutions; a later pair for a name overrides an earlier one.
    pub replace_features: Vec<(String, String)>,
    pub actions: Vec<MacroParameterAction>,
}

/// A declared rendition with its own configuration.
#[derive(Debug)]
pub struct MacroParameterAction {
    pub kind: MacroParameterActionKind,
    pub params: MacroParameters,
}

/// The settings of a configuration, without its renditions.
pub open spec fn settings(p: MacroParameters) -> ParamsView {
    ParamsView {
        disable: p.disable,
        key: opt_view(p.key),
        prefix: opt_view(p.prefix),
        idents: idents_view(p.idents@),
        send: p.send,
        keep_self: p.keep_self,
        cfg: p.cfg,
        outer_attrs: p.outer_attrs@,
        inner_attrs: p.inner_attrs@,
        drop_attrs: strings_view(p.drop_attrs@),
        replace_features: pairs_view(p.replace_features@),
        actions: Seq::empty(),
    }
}

/// The same settings without the declared renditions.
pub open spec fn strip(f: ParamsView) -> ParamsView {
    ParamsView { actions: Seq::empty(), ..f }
}

/// A child configuration after its parent's settings are passed down: the flags are joined,
/// the parent's identifier rules and feature substitutions come after the child's (so that
/// the parent's entry for a name wins), and the parent's dropped attributes come first.
pub open spec fn inherit(c: ParamsView, p: ParamsView) -> ParamsView {
    ParamsView {
        disable: c.disable || p.disable,
        keep_self: c.keep_self || p.keep_self,
        idents: c.idents + p.idents,
        drop_attrs: p.drop_attrs + c.drop_attrs,
        replace_features: c.replace_features + p.replace_features,
        ..c
    }
}

/// A rendition's settings once built: inherited from its parent, with its key defaulted to
/// the kind's name.
pub open spec fn merged(c: ParamsView, p: ParamsView, k: MacroParameterActionKind) -> ParamsView {
    ParamsView {
        key: if c.key.is_some() { c.key } else { Some(kind_name(k)) },
        ..inherit(c, p)
    }
}

/// `p` is what parsing `args` gives, as a rendition of `parent` if there is one.
pub open spec fn built(p: MacroParameters, args: Seq<NestedMeta>, parent: Option<(ParamsView, MacroParameterActionKind)>) -> bool
    decreases p,
{
    match parse_fold(args) {
        Err(_) => false,
        Ok(f) => {
            &&& settings(p) == strip(match parent {
                None => f,
                Some(pk) => merged(f, pk.0, pk.1),
            })
            &&& p.actions@.len() == f.actions.len()
            &&& forall|j: int| 0 <= j < f.actions.len() ==> {
                &&& (#[trigger] p.actions@[j]).kind == f.actions[j].0
                &&& built(p.actions@[j].params, f.actions[j].1, Some((f, f.actions[j].0)))
            }
        },
    }
}

/// The partial state of a configuration after some of its arguments: settings as `f` says,
/// and each rendition parsed from its arguments but not yet built.
pub open spec fn partial(p: MacroParameters, f: ParamsView) -> bool {
    &&& settings(p) == strip(f)
    &&& p.actions@.len() == f.actions.len()
    &&& forall|j: int| 0 <= j < f.actions.len() ==> {
        &&& (#[trigger] p.actions@[j]).kind == f.actions[j].0
        &&& built(p.actions@[j].params, f.actions[j].1, None)
    }
}

fn clone_strings(v: &Vec<String>) -> (r: Vec<String>)
    ensures
        strings_view(r@) == strings_view(v@),
{
    let mut r: Vec<String> = Vec::new();
    let mut i: usize = 0;
    while i < v.len()
        invariant
            i <= v@.len(),
            strings_view(r@) =~= strings_view(v@.subrange(0, i as int)),
        decreases v@.len() - i,
    {
        let ghost prev = r@;
        r.push(v[i].clone());
        assert(strings_view(r@) =~= strings_view(prev).push(v@[i as int]@));
        assert(v@.subrange(0, i + 1) =~= v@.subrange(0, i as int).push(v@[i as int]));
        i = i + 1;
    }
    assert(v@.subrange(0, i as int) =~= v@);
    r
}

/// Appends copies of the entries of `src` to `dst`.
fn append_idents(dst: &mut Vec<(String, IdentRecord)>, src: &Vec<(String, IdentRecord)>)
    ensures
        idents_view(final(dst)@) == idents_view(old(dst)@) + idents_view(src@),
{
    let ghost start = idents_view(dst@);
    let mut i: usize = 0;
    while i < src.len()
        invariant
            i <= src@.len(),
            start == idents_view(old(dst)@),
            idents_view(dst@) =~= start + idents_view(src@.subrange(0, i as int)),
        decreases src@.len() - i,
    {
        let ghost prev = dst@;
        let name = src[i].0.clone();
        let rec = src[i].1.clone();
        dst.push((name, rec));
        assert(idents_view(dst@) =~= idents_view(prev).push((src@[i as int].0@, src@[i as int].1@)));
        assert(src@.subrange(0, i + 1) =~= src@.subrange(0, i as int).push(src@[i as int]));
        i = i + 1;
    }
    assert(src@.subrange(0, i as int) =~= src@);
}

/// Appends copies of the pairs of `src` to `dst`.
fn append_pairs(dst: &mut Vec<(String, String)>, src: &Vec<(String, String)>)
    ensures
        pairs_view(final(dst)@) == pairs_view(old(dst)@) + pairs_view(src@),
{
    let ghost start = pairs_view(dst@);
    let mut i: usize = 0;
    while i < src.len()
        invariant
            i <= src@.len(),
            start == pairs_view(old(dst)@),
            pairs_view(dst@) =~= start + pairs_view(src@.subrange(0, i as int)),
        decreases src@.len() - i,
    {
        let ghost prev = dst@;
        let a = src[i].0.clone();
        let b = src[i].1.clone();
        dst.push((a, b));
        assert(pairs_view(dst@) =~= pairs_view(prev).push((src@[i as int].0@, src@[i as int].1@)));
        assert(src@.subrange(0, i + 1) =~= src@.subrange(0, i as int).push(src@[i as int]));
        i = i + 1;
    }
    assert(src@.subrange(0, i as int) =~= src@);
}

impl MacroParameters {
    /// Passes the settings of `parent` down to `child` (see `inherit`).
    pub fn apply_parent(child: &mut MacroParameters, parent: &MacroParameters) -> (r: Result<(), ParamError>)
        ensures
            r is Ok,
            settings(*final(child)) == inherit(settings(*old(child)), settings(*parent)),
            final(child).actions == old(child).actions,
    {
        if parent.disable {
            child.disable = true;
        }
        if parent.keep_self {
            child.keep_self = true;
        }
        append_idents(&mut child.idents, &parent.idents);
        let mut new_drop_attrs = clone_strings(&parent.drop_attrs);
        let ghost pd = strings_view(new_drop_attrs@);
        let mut i: usize = 0;
        while i < child.drop_attrs.len()
            invariant
                i <= child.drop_attrs@.len(),
                strings_view(new_drop_attrs@) =~= pd + strings_view(child.drop_attrs@.subrange(0, i as int)),
            decreases child.drop_attrs@.len() - i,
        {
            let ghost prev = new_drop_attrs@;
            new_drop_attrs.push(child.drop_attrs[i].clone());
            assert(strings_view(new_drop_attrs@) =~= strings_view(prev).push(child.drop_attrs@[i as int]@));
            assert(child.drop_attrs@.subrange(0, i + 1) =~= child.drop_attrs@.subrange(0, i as int).push(child.drop_attrs@[i as int]));
            i = i + 1;
        }
        assert(child.drop_attrs@.subrange(0, i as int) =~= child.drop_attrs@);
        child.drop_attrs = new_drop_attrs;
        append_pairs(&mut child.replace_features, &parent.replace_features);
        assert(settings(*child) =~= inherit(settings(*old(child)), settings(*parent)));
        Ok(())
    }
}

/// Collects settings and renditions while arguments are read.
#[derive(Debug)]
pub struct MacroParametersBuilder {
    pub params: MacroParameters,
}

/// Once the arguments fail, arguments after them do not change the error.
proof fn lemma_fold_err(args: Seq<NestedMeta>, n: int)
    requires
        0 <= n <= args.len(),
        parse_fold(args.subrange(0, n)) is Err,
    ensures
        parse_fold(args) == parse_fold(args.subrange(0, n)),
    decreases args.len() - n,
{
    if n < args.len() {
        assert(args.subrange(0, n + 1).subrange(0, n) =~= args.subrange(0, n));
        lemma_fold_err(args, n + 1);
    } else {
        assert(args.subrange(0, n) =~= args);
    }
}

/// Once the names of `drop_attrs(...)` fail, names after them do not change the error.
proof fn lemma_drop_err(list: Seq<NestedMeta>, n: int)
    requires
        0 <= n <= list.len(),
        drop_names(list.subrange(0, n)) is Err,
    ensures
        drop_names(list) == drop_names(list.subrange(0, n)),
    decreases list.len() - n,
{
    if n < list.len() {
        assert(list.subrange(0, n + 1).drop_last() =~= list.subrange(0, n));
        lemma_drop_err(list, n + 1);
    } else {
        assert(list.subrange(0, n) =~= list);
    }
}

/// The two configurations declare the same renditions.
pub open spec fn same_actions(a: MacroParameters, b: MacroParameters) -> bool {
    a.actions == b.actions
}

impl MacroParametersBuilder {
    pub fn new() -> (r: Self)
        ensures
            settings(r.params) == empty_view(),
            r.params.actions@.len() == 0,
    {
        let r = MacroParametersBuilder {
            params: MacroParameters {
                disable: false,
                key: None,
                prefix: None,
                idents: Vec::new(),
                send: None,
                keep_self: false,
                cfg: None,
                outer_attrs: Vec::new(),
                inner_attrs: Vec::new(),
                drop_attrs: Vec::new(),
                replace_features: Vec::new(),
                actions: Vec::new(),
            },
        };
        assert(idents_view(r.params.idents@) =~= Seq::empty());
        assert(strings_view(r.params.drop_attrs@) =~= Seq::empty());
        assert(pairs_view(r.params.replace_features@) =~= Seq::empty());
        assert(settings(r.params) =~= empty_view());
        r
    }

    pub fn key(&mut self, key: String) -> (r: Result<(), ParamError>)
        ensures
            r is Ok,
            settings(final(self).params) == (ParamsView { key: Some(key@), ..settings(old(self).params) }),
            same_actions(final(self).params, old(self).params),
    {
        self.params.key = Some(key);
        Ok(())
    }

    pub fn disable(&mut self)
        ensures
            settings(final(self).params) == (ParamsView { disable: true, ..settings(old(self).params) }),
            same_actions(final(self).params, old(self).params),
    {
        self.params.disable = true;
    }

    pub fn keep_self(&mut self)
        ensures
            settings(final(self).params) == (ParamsView { keep_self: true, ..settings(old(self).params) }),
            same_actions(final(self).params, old(self).params),
    {
        self.params.keep_self = true;
    }

    pub fn prefix(&mut self, prefix: String) -> (r: Result<(), ParamError>)
        ensures
            r is Ok,
            settings(final(self).params) == (ParamsView { prefix: Some(prefix@), ..settings(old(self).params) }),
            same_actions(final(self).params, old(self).params),
    {
        self.params.prefix = Some(prefix);
        Ok(())
    }

    /// Adds the entries of `idents(...)` to a list of identifier rules.
    pub fn idents(idents: &mut Vec<(String, IdentRecord)>, list: Vec<NestedMeta>) -> (res: Result<(), ParamError>)
        ensures
            match ident_entries(idents_view(old(idents)@), list@) {
                Ok(x) => res is Ok && idents_view(final(idents)@) == x,
                Err(e) => res == Err::<(), ParamError>(e),
            },
    {
        parse_idents(idents, list)
    }

    pub fn send(&mut self, send: String) -> (r: Result<(), ParamError>)
        ensures
            match send_value(send@) {
                Some(b) => r is Ok && settings(final(self).params) == (ParamsView { send: Some(b), ..settings(old(self).params) }),
                None => r == Err::<(), ParamError>(ParamError::WrongSend) && settings(final(self).params) == settings(old(self).params),
            },
            same_actions(final(self).params, old(self).params),
    {
        let s = send.as_str();
        let b = if str_eq(s, "") || str_eq(s, "Send") || str_eq(s, "true") {
            true
        } else if str_eq(s, "?Send") || str_eq(s, "false") {
            false
        } else {
            return Err(ParamError::WrongSend);
        };
        self.params.send = Some(b);
        Ok(())
    }

    pub fn feature(&mut self, meta: Meta) -> (r: Result<(), ParamError>)
        ensures
            r is Ok,
            settings(final(self).params) == (ParamsView { cfg: Some(meta), ..settings(old(self).params) }),
            same_actions(final(self).params, old(self).params),
    {
        self.cfg(meta)
    }

    pub fn cfg(&mut self, meta: Meta) -> (r: Result<(), ParamError>)
        ensures
            r is Ok,
            settings(final(self).params) == (ParamsView { cfg: Some(meta), ..settings(old(self).params) }),
            same_actions(final(self).params, old(self).params),
    {
        self.params.cfg = Some(meta);
        Ok(())
    }

    pub fn outer_attrs(&mut self, list: Vec<NestedMeta>) -> (r: Result<(), ParamError>)
        ensures
            r is Ok,
            settings(final(self).params) == (ParamsView {
                outer_attrs: settings(old(self).params).outer_attrs + list@,
                ..settings(old(self).params)
            }),
            same_actions(final(self).params, old(self).params),
    {
        let mut list = list;
        self.params.outer_attrs.append(&mut list);
        Ok(())
    }

    pub fn inner_attr_str(&mut self, lit: Lit) -> (r: Result<(), ParamError>)
        ensures
            r is Ok,
            settings(final(self).params) == (ParamsView {
                inner_attrs: settings(old(self).params).inner_attrs.push(NestedMeta::Lit(lit)),
                ..settings(old(self).params)
            }),
            same_actions(final(self).params, old(self).params),
    {
        self.params.inner_attrs.push(NestedMeta::Lit(lit));
        Ok(())
    }

    pub fn inner_attr(&mut self, meta: Meta) -> (r: Result<(), ParamError>)
        ensures
            r is Ok,
            settings(final(self).params) == (ParamsView {
                inner_attrs: settings(old(self).params).inner_attrs.push(NestedMeta::Meta(meta)),
                ..settings(old(self).params)
            }),
            same_actions(final(self).params, old(self).params),
    {
        self.params.inner_attrs.push(NestedMeta::Meta(meta));
        Ok(())
    }

    pub fn inner_attrs(&mut self, list: Vec<NestedMeta>) -> (r: Result<(), ParamError>)
        ensures
            r is Ok,
            settings(final(self).params) == (ParamsView {
                inner_attrs: settings(old(self).params).inner_attrs + list@,
                ..settings(old(self).params)
            }),
            same_actions(final(self).params, old(self).params),
    {
        let mut list = list;
        self.params.inner_attrs.append(&mut list);
        Ok(())
    }

    /// Declares a rendition of `kind` with the arguments `list`.
    pub fn action(&mut self, kind: MacroParameterActionKind, list: Vec<NestedMeta>) -> (r: Result<(), ParamError>)
        ensures
            settings(final(self).params) == settings(old(self).params),
            match parse_fold(list@) {
                Ok(_) => {
                    &&& r is Ok
                    &&& final(self).params.actions@.len() == old(self).params.actions@.len() + 1
                    &&& final(self).params.actions@.drop_last() == old(self).params.actions@
                    &&& final(self).params.actions@.last().kind == kind
                    &&& built(final(self).params.actions@.last().params, list@, None)
                },
                Err(e) => r == Err::<(), ParamError>(e) && same_actions(final(self).params, old(self).params),
            },
        decreases list@, 1nat,
    {
        let inner = MacroParameters::from_args(list)?;
        self.params.actions.push(MacroParameterAction { kind, params: inner });
        Ok(())
    }

    /// Declares a rendition if `name` is a rendition kind; keeps the list as an inner
    /// attribute otherwise.
    pub fn action_or_inner_attr(&mut self, name: &str, path: MetaPath, list: Vec<NestedMeta>) -> (r: Result<(), ParamError>)
        ensures
            match kind_of_name(name@) {
                Some(kind) => match parse_fold(list@) {
                    Ok(_) => {
                        &&& r is Ok
                        &&& settings(final(self).params) == settings(old(self).params)
                        &&& final(self).params.actions@.drop_last() == old(self).params.actions@
                        &&& final(self).params.actions@.len() == old(self).params.actions@.len() + 1
                        &&& final(self).params.actions@.last().kind == kind
                        &&& built(final(self).params.actions@.last().params, list@, None)
                    },
                    Err(e) => r == Err::<(), ParamError>(e) && settings(final(self).params) == settings(old(self).params)
                        && same_actions(final(self).params, old(self).params),
                },
                None => {
                    &&& r is Ok
                    &&& settings(final(self).params) == (ParamsView {
                        inner_attrs: settings(old(self).params).inner_attrs.push(NestedMeta::Meta(Meta::List(path, list))),
                        ..settings(old(self).params)
                    })
                    &&& same_actions(final(self).params, old(self).params)
                },
            },
        decreases list@, 2nat,
    {
        match MacroParameterActionKind::from_str(name) {
            Some(kind) => self.action(kind, list),
            None => self.inner_attr(Meta::List(path, list)),
        }
    }

    pub fn drop_attrs(&mut self, list: Vec<NestedMeta>) -> (r: Result<(), ParamError>)
        ensures
            match drop_names(list@) {
                Ok(names) => r is Ok && settings(final(self).params) == (ParamsView {
                    drop_attrs: settings(old(self).params).drop_attrs + names,
                    ..settings(old(self).params)
                }),
                Err(e) => r == Err::<(), ParamError>(e),
            },
            same_actions(final(self).params, old(self).params),
    {
        let ghost items = list@;
        let ghost start = settings(self.params);
        let mut rest = list;
        let total = rest.len();
        let mut k: usize = 0;
        while rest.len() > 0
            invariant
                k + rest@.len() == items.len(),
                items.len() == total,
                items == list@,
                start == settings(old(self).params),
                rest@ == items.subrange(k as int, items.len() as int),
                same_actions(self.params, old(self).params),
                match drop_names(items.subrange(0, k as int)) {
                    Ok(names) => settings(self.params) == (ParamsView { drop_attrs: start.drop_attrs + names, ..start }),
                    Err(_) => false,
                },
            decreases rest@.len(),
        {
            let nm = rest.remove(0);
            let ghost pre = items.subrange(0, k + 1);
            assert(pre.drop_last() =~= items.subrange(0, k as int));
            assert(pre.last() == nm);
            match nm {
                NestedMeta::Meta(Meta::Path(path)) => {
                    let name = match path.get_ident() {
                        Some(n) => n.clone(),
                        None => {
                            proof { lemma_drop_err(items, k + 1); }
                            return Err(ParamError::ExpectedName);
                        },
                    };
                    let ghost before = self.params.drop_attrs@;
                    self.params.drop_attrs.push(name);
                    assert(strings_view(self.params.drop_attrs@) =~= strings_view(before).push(name@));
                },
                _ => {
                    proof { lemma_drop_err(items, k + 1); }
                    return Err(ParamError::ExpectedListOfIdents);
                },
            }
            k = k + 1;
            assert(rest@ =~= items.subrange(k as int, items.len() as int));
            assert(settings(self.params) =~= ParamsView { drop_attrs: start.drop_attrs + drop_names(items.subrange(0, k as int))->Ok_0, ..start });
        }
        assert(items.subrange(0, k as int) =~= items);
        Ok(())
    }

    pub fn replace_feature(&mut self, list: Vec<NestedMeta>) -> (r: Result<(), ParamError>)
        ensures
            match feature_pair(list@) {
                Ok(pair) => r is Ok && settings(final(self).params) == (ParamsView {
                    replace_features: settings(old(self).params).replace_features.push(pair),
                    ..settings(old(self).params)
                }),
                Err(e) => r == Err::<(), ParamError>(e) && settings(final(self).params) == settings(old(self).params),
            },
            same_actions(final(self).params, old(self).params),
    {
        if list.len() != 2 {
            return Err(ParamError::ExpectedTwoStrings);
        }
        let ghost items = list@;
        let mut list = list;
        let second = list.pop().unwrap();
        let first = list.pop().unwrap();
        assert(first == items[0] && second == items[1]);
        match (first, second) {
            (NestedMeta::Lit(Lit::Str(a)), NestedMeta::Lit(Lit::Str(b))) => {
                let ghost before = self.params.replace_features@;
                self.params.replace_features.push((a, b));
                assert(pairs_view(self.params.replace_features@) =~= pairs_view(before).push((a@, b@)));
                assert(settings(self.params) =~= ParamsView {
                    replace_features: settings(old(self).params).replace_features.push((a@, b@)),
                    ..settings(old(self).params)
                });
                Ok(())
            },
            _ => Err(ParamError::ExpectedStringLiteral),
        }
    }

    /// Finishes the configuration: each rendition inherits the settings (see `merged`).
    pub fn build(self) -> (r: Result<MacroParameters, ParamError>)
        ensures
            r is Ok,
            settings(r->Ok_0) == settings(self.params),
            r->Ok_0.actions@.len() == self.params.actions@.len(),
            forall|j: int| 0 <= j < self.params.actions@.len() ==> {
                &&& (#[trigger] r->Ok_0.actions@[j]).kind == self.params.actions@[j].kind
                &&& r->Ok_0.actions@[j].params.actions == self.params.actions@[j].params.actions
                &&& settings(r->Ok_0.actions@[j].params) == merged(
                    settings(self.params.actions@[j].params),
                    settings(self.params),
                    self.params.actions@[j].kind,
                )
            },
    {
        let mut this = self;
        let ghost olds = this.params.actions@;
        let mut actions: Vec<MacroParameterAction> = Vec::new();
        std::mem::swap(&mut actions, &mut this.params.actions);
        let ghost parent = this.params;
        assert(settings(parent) == settings(self.params));
        let mut rest = actions;
        let mut done: Vec<MacroParameterAction> = Vec::new();
        let total = rest.len();
        while rest.len() > 0
            invariant
                done@.len() + rest@.len() == olds.len(),
                olds.len() == total,
                rest@ == olds.subrange(done@.len() as int, olds.len() as int),
                settings(this.params) == settings(self.params),
                olds == self.params.actions@,
                forall|j: int| 0 <= j < done@.len() ==> {
                    &&& (#[trigger] done@[j]).kind == olds[j].kind
                    &&& done@[j].params.actions == olds[j].params.actions
                    &&& settings(done@[j].params) == merged(settings(olds[j].params), settings(self.params), olds[j].kind)
                },
            decreases rest@.len(),
        {
            let mut action = rest.remove(0);
            let ghost before = action;
            let _ = MacroParameters::apply_parent(&mut action.params, &this.params);
            if action.params.key.is_none() {
                action.params.key = Some(String::from_str(action.kind.to_str()));
            }
            assert(settings(action.params) =~= merged(settings(before.params), settings(self.params), before.kind));
            done.push(action);
            assert(rest@ =~= olds.subrange(done@.len() as int, olds.len() as int));
        }
        this.params.actions = done;
        assert(settings(this.params) =~= settings(self.params));
        Ok(this.params)
    }
}

impl MacroParameters {
    #[verifier::rlimit(50)]
    fn apply_arg(builder: &mut MacroParametersBuilder, arg: NestedMeta, Ghost(f): Ghost<ParamsView>) -> (r: Result<(), ParamError>)
        requires
            partial(old(builder).params, f),
        ensures
            match parse_arg(f, arg) {
                Ok(g) => r is Ok && partial(final(builder).params, g),
                Err(e) => r == Err::<(), ParamError>(e),
            },
        decreases arg, 3nat,
    {
        let ghost a = arg;
        match arg {
            NestedMeta::Meta(Meta::NameValue(path, lit)) => {
                let name = match path.get_ident() {
                    Some(n) => n.clone(),
                    None => return Err(ParamError::ExpectedName),
                };
                if str_eq(name.as_str(), "key") {
                    match lit {
                        Lit::Str(s) => builder.key(s),
                        _ => Err(ParamError::ExpectedStringLiteral),
                    }
                } else if str_eq(name.as_str(), "prefix") {
                    match lit {
                        Lit::Str(s) => builder.prefix(s),
                        _ => Err(ParamError::ExpectedStringLiteral),
                    }
                } else if str_eq(name.as_str(), "send") {
                    match lit {
                        Lit::Str(s) => builder.send(s),
                        _ => Err(ParamError::ExpectedStringLiteral),
                    }
                } else if str_eq(name.as_str(), "feature") {
                    match lit {
                        Lit::Str(s) => builder.feature(Meta::NameValue(path, Lit::Str(s))),
                        _ => Err(ParamError::ExpectedStringLiteral),
                    }
                } else {
                    Err(ParamError::WrongNameValue)
                }
            },
            NestedMeta::Meta(Meta::List(path, nested)) => {
                let name = match path.get_ident() {
                    Some(n) => n.clone(),
                    None => return Err(ParamError::ExpectedName),
                };
                let n = name.as_str();
                if str_eq(n, "cfg") {
                    let mut nested = nested;
                    if nested.len() == 1 {
                        match nested.pop().unwrap() {
                            NestedMeta::Meta(m) => builder.cfg(m),
                            _ => Err(ParamError::ExpectedCondition),
                        }
                    } else {
                        Err(ParamError::ExpectedCondition)
                    }
                } else if str_eq(n, "idents") {
                    MacroParametersBuilder::idents(&mut builder.params.idents, nested)
                } else if str_eq(n, "any") || str_eq(n, "all") || str_eq(n, "not") {
                    builder.cfg(Meta::List(path, nested))
                } else if str_eq(n, "outer") {
                    builder.outer_attrs(nested)
                } else if str_eq(n, "inner") {
                    builder.inner_attrs(nested)
                } else if str_eq(n, "replace_feature") {
                    builder.replace_feature(nested)
                } else if str_eq(n, "drop_attrs") {
                    builder.drop_attrs(nested)
                } else {
                    assert(decreases_to!(a => a->Meta_0));
                    assert(decreases_to!(a->Meta_0 => a->Meta_0->List_1));
                    assert(decreases_to!(a->Meta_0->List_1 => nested@));
                    let r = builder.action_or_inner_attr(n, path, nested);
                    proof {
                        if r is Ok && kind_of_name(name@).is_some() {
                            let g = parse_arg(f, a)->Ok_0;
                            let p = builder.params;
                            assert forall|j: int| 0 <= j < g.actions.len() implies {
                                &&& (#[trigger] p.actions@[j]).kind == g.actions[j].0
                                &&& built(p.actions@[j].params, g.actions[j].1, None)
                            } by {
                                if j < f.actions.len() {
                                    assert(p.actions@[j] == old(builder).params.actions@[j]);
                                }
                            }
                        }
                    }
                    r
                }
            },
            NestedMeta::Meta(Meta::Path(path)) => {
                if path.is_ident("disable") {
                    builder.disable();
                    Ok(())
                } else if path.is_ident("keep_self") {
                    builder.keep_self();
                    Ok(())
                } else {
                    builder.inner_attr(Meta::Path(path))
                }
            },
            NestedMeta::Lit(Lit::Str(s)) => builder.inner_attr_str(Lit::Str(s)),
            NestedMeta::Lit(_) => Err(ParamError::ExpectedStringLiteral),
        }
    }

    /// Parses a list of macro arguments (see `parse_fold` and `built`).
    pub fn from_args(args: Vec<NestedMeta>) -> (r: Result<Self, ParamError>)
        ensures
            match parse_fold(args@) {
                Ok(_) => r is Ok && built(r->Ok_0, args@, None),
                Err(e) => r == Err::<Self, ParamError>(e),
            },
        decreases args@, 0nat,
    {
        let ghost items = args@;
        let mut builder = MacroParametersBuilder::new();
        let ghost mut f = empty_view();
        assert(items.subrange(0, 0) =~= Seq::<NestedMeta>::empty());
        let mut rest = args;
        let total = rest.len();
        let mut k: usize = 0;
        while rest.len() > 0
            invariant
                k + rest@.len() == items.len(),
                items.len() == total,
                items == args@,
                rest@ == items.subrange(k as int, items.len() as int),
                parse_fold(items.subrange(0, k as int)) == Ok::<ParamsView, ParamError>(f),
                partial(builder.params, f),
            decreases rest@.len(),
        {
            let arg = rest.remove(0);
            let ghost pre = items.subrange(0, k + 1);
            assert(pre.subrange(0, k as int) =~= items.subrange(0, k as int));
            assert(pre[k as int] == arg);
            assert(decreases_to!(items => items[k as int]));
            match MacroParameters::apply_arg(&mut builder, arg, Ghost(f)) {
                Ok(()) => {},
                Err(e) => {
                    proof { lemma_fold_err(items, k + 1); }
                    return Err(e);
                },
            }
            proof { f = parse_fold(pre)->Ok_0; }
            k = k + 1;
            assert(rest@ =~= items.subrange(k as int, items.len() as int));
        }
        assert(items.subrange(0, k as int) =~= items);
        let ghost before = builder.params;
        let r = builder.build();
        proof {
            let p = r->Ok_0;
            assert forall|j: int| 0 <= j < f.actions.len() implies {
                &&& (#[trigger] p.actions@[j]).kind == f.actions[j].0
                &&& built(p.actions@[j].params, f.actions[j].1, Some((f, f.actions[j].0)))
            } by {
                let c = before.actions@[j].params;
                let g = parse_fold(f.actions[j].1)->Ok_0;
                assert(built(c, f.actions[j].1, None));
                assert(settings(p.actions@[j].params) =~= strip(merged(g, f, f.actions[j].0)));
            }
        }
        r
    }
}

/// The name of this crate, used as the path prefix of its attributes when none is set.
pub const DEFAULT_CRATE_NAME: &'static str = "maybe_async_cfg";

/// The rule for `name` that a list of identifier rules gives (the last entry wins).
pub fn idents_lookup<'a>(ids: &'a Vec<(String, IdentRecord)>, name: &str) -> (r: Option<&'a IdentRecord>)
    ensures
        match r {
            Some(x) => rule_lookup(idents_view(ids@), name@) == Some(x@),
            None => rule_lookup(idents_view(ids@), name@).is_none(),
        },
{
    let mut i: usize = ids.len();
    assert(idents_view(ids@.subrange(0, i as int)) =~= idents_view(ids@));
    while i > 0
        invariant
            i <= ids@.len(),
            rule_lookup(idents_view(ids@), name@) == rule_lookup(idents_view(ids@.subrange(0, i as int)), name@),
        decreases i,
    {
        let ghost s = idents_view(ids@.subrange(0, i as int));
        assert(s.drop_last() =~= idents_view(ids@.subrange(0, i - 1)));
        if str_eq(ids[i - 1].0.as_str(), name) {
            return Some(&ids[i - 1].1);
        }
        i = i - 1;
    }
    assert(idents_view(ids@.subrange(0, 0)).len() == 0);
    None
}

impl MacroParameters {
    /// An empty configuration.
    pub fn new() -> (r: Self)
        ensures
            settings(r) == empty_view(),
            r.actions@.len() == 0,
    {
        MacroParametersBuilder::new().build().unwrap()
    }

    pub fn disable_get(&self) -> (r: bool)
        ensures
            r == self.disable,
    {
        self.disable
    }

    pub fn keep_self_get(&self) -> (r: bool)
        ensures
            r == self.keep_self,
    {
        self.keep_self
    }

    pub fn default_ident_record(&self, fn_mode: bool) -> (r: IdentRecord)
        ensures
            r@ == default_rule(fn_mode),
    {
        IdentRecord::with_fn_mode(fn_mode)
    }

    /// Adds a default rule for `name` unless it already has one.
    pub fn idents_add(&mut self, name: &str, fn_mode: bool)
        ensures
            match rule_lookup(idents_view(old(self).idents@), name@) {
                Some(_) => final(self).idents@ == old(self).idents@,
                None => idents_view(final(self).idents@) == idents_view(old(self).idents@).push((name@, default_rule(fn_mode))),
            },
            final(self).actions == old(self).actions,
            final(self).key == old(self).key,
    {
        if idents_lookup(&self.idents, name).is_none() {
            let ir = self.default_ident_record(fn_mode);
            let ghost before = self.idents@;
            self.idents.push((String::from_str(name), ir));
            assert(idents_view(self.idents@) =~= idents_view(before).push((name@, default_rule(fn_mode))));
        }
    }

    pub fn key_get<'a>(&'a self) -> (r: Option<&'a String>)
        ensures
            match r {
                Some(k) => self.key == Some(*k),
                None => self.key.is_none(),
            },
    {
        self.key.as_ref()
    }

    pub fn prefix_set(&mut self, prefix: String)
        ensures
            final(self).prefix == Some(prefix),
            settings(*final(self)) == (ParamsView { prefix: Some(prefix@), ..settings(*old(self)) }),
            final(self).actions == old(self).actions,
    {
        self.prefix = Some(prefix);
    }

    /// The crate path prefix of this crate's attributes.
    pub fn prefix_get<'a>(&'a self) -> (r: &'a str)
        ensures
            match self.prefix {
                Some(p) => r@ == p@,
                None => r@ == DEFAULT_CRATE_NAME@,
            },
    {
        match &self.prefix {
            Some(p) => p.as_str(),
            None => DEFAULT_CRATE_NAME,
        }
    }

    pub fn send_get(&self) -> (r: Option<bool>)
        ensures
            r == self.send,
    {
        self.send
    }

    pub fn idents_get<'a>(&'a self, name: &str) -> (r: Option<&'a IdentRecord>)
        ensures
            match r {
                Some(x) => rule_lookup(idents_view(self.idents@), name@) == Some(x@),
                None => rule_lookup(idents_view(self.idents@), name@).is_none(),
            },
    {
        idents_lookup(&self.idents, name)
    }

    pub fn replace_features_is_empty(&self) -> (r: bool)
        ensures
            r == (self.replace_features@.len() == 0),
    {
        self.replace_features.len() == 0
    }

    pub fn replace_features_get(&self, name: &str) -> (r: Option<String>)
        ensures
            match r {
                Some(v) => pair_lookup(pairs_view(self.replace_features@), name@) == Some(v@),
                None => pair_lookup(pairs_view(self.replace_features@), name@).is_none(),
            },
    {
        crate::idents::pairs_get(&self.replace_features, name)
    }

    pub fn drop_attrs_is_empty(&self) -> (r: bool)
        ensures
            r == (self.drop_attrs@.len() == 0),
    {
        self.drop_attrs.len() == 0
    }

    pub fn drop_attrs_contains(&self, name: &String) -> (r: bool)
        ensures
            r == strings_view(self.drop_attrs@).contains(name@),
    {
        let mut i: usize = 0;
        while i < self.drop_attrs.len()
            invariant
                i <= self.drop_attrs@.len(),
                forall|j: int| 0 <= j < i ==> self.drop_attrs@[j]@ != name@,
            decreases self.drop_attrs@.len() - i,
        {
            if str_eq(self.drop_attrs[i].as_str(), name.as_str()) {
                assert(strings_view(self.drop_attrs@)[i as int] == name@);
                return true;
            }
            i = i + 1;
        }
        assert forall|j: int| 0 <= j < strings_view(self.drop_attrs@).len() implies strings_view(self.drop_attrs@)[j] != name@ by {}
        false
    }

    /// The path `prefix::name`, with this configuration's prefix.
    pub fn make_self_path(&self, name: &str) -> (r: MetaPath)
        ensures
            !r.leading_colon,
            r.segments@.len() == 2,
            r.segments@[0]@ == self_prefix(*self),
            r.segments@[1]@ == name@,
    {
        let mut segments: Vec<String> = Vec::new();
        segments.push(String::from_str(self.prefix_get()));
        segments.push(String::from_str(name));
        MetaPath { leading_colon: false, segments }
    }

    /// The names of the standard macros whose arguments are expressions to convert.
    pub fn standard_macros(&self) -> (r: Vec<&'static str>)
        ensures
            r@.map_values(|x: &str| x@) == seq!["dbg"@, "print"@, "println"@, "assert"@, "assert_eq"@, "assert_ne"@],
    {
        let mut r: Vec<&'static str> = Vec::new();
        r.push("dbg");
        r.push("print");
        r.push("println");
        r.push("assert");
        r.push("assert_eq");
        r.push("assert_ne");
        assert(r@.map_values(|x: &str| x@) =~= seq!["dbg"@, "print"@, "println"@, "assert"@, "assert_eq"@, "assert_ne"@]);
        r
    }
}

/// The prefix that attribute paths of this crate carry under a configuration.
pub open spec fn self_prefix(p: MacroParameters) -> Seq<char> {
    match p.prefix {
        Some(s) => s@,
        None => DEFAULT_CRATE_NAME@,
    }
}

/// Every identifier rule of `p` and of its renditions, at any depth, can be printed and
/// parsed back.
pub open spec fn printable_all(p: MacroParameters) -> bool
    decreases p,
{
    &&& crate::visitor_content::printable_params(p)
    &&& forall|j: int| 0 <= j < p.actions@.len() ==> printable_all(#[trigger] p.actions@[j].params)
}

/// `args` read back as `p`: the same settings, and for each rendition its kind and arguments
/// that read back as its configuration.
pub open spec fn emitted(p: MacroParameters, args: Seq<NestedMeta>) -> bool
    decreases p,
{
    match parse_fold(args) {
        Err(_) => false,
        Ok(f) => {
            &&& strip(f) == settings(p)
            &&& f.actions.len() == p.actions@.len()
            &&& forall|j: int| 0 <= j < f.actions.len() ==> {
                &&& (#[trigger] p.actions@[j]).kind == f.actions[j].0
                &&& emitted(p.actions@[j].params, f.actions[j].1)
            }
        },
    }
}

/// A rendition kind's name reads back as that kind and is none of the other list names.
proof fn lemma_kind_names(k: MacroParameterActionKind)
    ensures
        kind_of_name(kind_name(k)) == Some(k),
        kind_name(k) != "cfg"@ && kind_name(k) != "idents"@ && kind_name(k) != "any"@ && kind_name(k) != "all"@,
        kind_name(k) != "not"@ && kind_name(k) != "outer"@ && kind_name(k) != "inner"@,
        kind_name(k) != "replace_feature"@ && kind_name(k) != "drop_attrs"@,
{
    reveal_strlit("sync");
    reveal_strlit("async");
    reveal_strlit("outer");
    reveal_strlit("inner");
    crate::visitor_content::lemma_arg_names();
    assert("sync"@.len() == 4 && "async"@.len() == 5);
    assert("async"@[0] != "outer"@[0] && "async"@[0] != "inner"@[0]);
}

/// The text of a `send` setting.
pub open spec fn send_text(b: bool) -> Seq<char> {
    if b { "Send"@ } else { "?Send"@ }
}

/// The arguments that declare the plain settings of a configuration.
fn settings_args(
    disable: bool,
    keep_self: bool,
    key: Option<String>,
    prefix: Option<String>,
    send: Option<bool>,
    cfg: Option<Meta>,
    outer_attrs: Vec<NestedMeta>,
    inner_attrs: Vec<NestedMeta>,
) -> (r: Vec<NestedMeta>)
    ensures
        parse_fold(r@) == Ok::<ParamsView, ParamError>(ParamsView {
            disable,
            keep_self,
            key: opt_view(key),
            prefix: opt_view(prefix),
            send,
            cfg,
            outer_attrs: outer_attrs@,
            inner_attrs: inner_attrs@,
            ..empty_view()
        }),
{
    proof {
        crate::visitor_content::lemma_arg_names();
        reveal_strlit("key");
        reveal_strlit("prefix");
        reveal_strlit("send");
        reveal_strlit("Send");
        reveal_strlit("?Send");
        reveal_strlit("true");
        reveal_strlit("");
        reveal_strlit("feature");
        reveal_strlit("outer");
        reveal_strlit("inner");
        assert("key"@.len() == 3 && "prefix"@.len() == 6 && "send"@.len() == 4 && "feature"@.len() == 7);
        assert("Send"@.len() == 4 && "?Send"@.len() == 5 && ""@.len() == 0 && "true"@.len() == 4);
        assert("Send"@[0] != "true"@[0]);
        assert("inner"@[0] != "outer"@[0]);
    }
        let ghost s0 = ParamsView {
            disable,
            keep_self,
            key: opt_view(key),
            prefix: opt_view(prefix),
            send,
            cfg,
            outer_attrs: outer_attrs@,
            inner_attrs: inner_attrs@,
            ..empty_view()
        };
        let mut args: Vec<NestedMeta> = Vec::new();
        let ghost mut f = empty_view();
        if disable {
            let x = crate::visitor_content::name_item("disable");
            proof { crate::visitor_content::lemma_fold_push(args@, x); }
            args.push(x);
            proof { f = ParamsView { disable: true, ..f }; }
        }
        if keep_self {
            let x = crate::visitor_content::name_item("keep_self");
            proof { crate::visitor_content::lemma_fold_push(args@, x); }
            args.push(x);
            proof { f = ParamsView { keep_self: true, ..f }; }
        }
        if let Some(k) = key {
            let ghost kv = k@;
            let x = crate::visitor_content::value_item("key", k);
            proof { crate::visitor_content::lemma_fold_push(args@, x); }
            args.push(x);
            proof { f = ParamsView { key: Some(kv), ..f }; }
        }
        if let Some(pre) = prefix {
            let ghost pv = pre@;
            let x = crate::visitor_content::value_item("prefix", pre);
            proof { crate::visitor_content::lemma_fold_push(args@, x); }
            args.push(x);
            proof { f = ParamsView { prefix: Some(pv), ..f }; }
        }
        if let Some(b) = send {
            let text = if b { String::from_str("Send") } else { String::from_str("?Send") };
            let x = crate::visitor_content::value_item("send", text);
            proof { crate::visitor_content::lemma_fold_push(args@, x); }
            args.push(x);
            proof { f = ParamsView { send: Some(b), ..f }; }
        }
        assert(parse_fold(args@) == Ok::<ParamsView, ParamError>(f));
        if let Some(c) = cfg {
            let ghost cv = c;
            let mut inner: Vec<NestedMeta> = Vec::new();
            inner.push(NestedMeta::Meta(c));
            let x = NestedMeta::Meta(Meta::List(MetaPath::from_name("cfg"), inner));
            proof { crate::visitor_content::lemma_fold_push(args@, x); }
            args.push(x);
            proof { f = ParamsView { cfg: Some(cv), ..f }; }
        }
        assert(parse_fold(args@) == Ok::<ParamsView, ParamError>(f));
        if outer_attrs.len() > 0 {
            let ghost ov = outer_attrs@;
            let x = NestedMeta::Meta(Meta::List(MetaPath::from_name("outer"), outer_attrs));
            proof { crate::visitor_content::lemma_fold_push(args@, x); }
            args.push(x);
            proof { f = ParamsView { outer_attrs: f.outer_attrs + ov, ..f }; }
        } else {
            proof { assert(f.outer_attrs + outer_attrs@ =~= f.outer_attrs); }
        }
        if inner_attrs.len() > 0 {
            let ghost iv = inner_attrs@;
            let x = NestedMeta::Meta(Meta::List(MetaPath::from_name("inner"), inner_attrs));
            proof { crate::visitor_content::lemma_fold_push(args@, x); }
            args.push(x);
            proof { f = ParamsView { inner_attrs: f.inner_attrs + iv, ..f }; }
        } else {
            proof { assert(f.inner_attrs + inner_attrs@ =~= f.inner_attrs); }
        }
        assert(parse_fold(args@) == Ok::<ParamsView, ParamError>(f));
        assert(f =~= s0);
        args
}

impl MacroParameters {
    /// The arguments that declare this configuration: they parse back to the same settings and
    /// renditions (see `emitted`).
    pub fn to_nestedmeta(self) -> (r: Vec<NestedMeta>)
        requires
            printable_all(self),
        ensures
            emitted(self, r@),
        decreases self,
    {
        let ghost me = self;
        let ghost s0 = settings(self);
        let MacroParameters {
            disable, key, prefix, idents, send, keep_self, cfg, outer_attrs, inner_attrs, drop_attrs,
            replace_features, actions,
        } = self;
        let mut args = settings_args(disable, keep_self, key, prefix, send, cfg, outer_attrs, inner_attrs);
        let ghost f = parse_fold(args@)->Ok_0;
        let tmp = MacroParameters {
            disable: false,
            key: None,
            prefix: None,
            idents,
            send: None,
            keep_self: false,
            cfg: None,
            outer_attrs: Vec::new(),
            inner_attrs: Vec::new(),
            drop_attrs,
            replace_features,
            actions: Vec::new(),
        };
        let v = crate::visitor_content::ContentVisitor { params: tmp };
        let mut all = v.defaults_before();
        let mut post = v.defaults_after();
        let ghost pre_s = all@;
        let ghost a_s = args@;
        let ghost post_s = post@;
        all.append(&mut args);
        all.append(&mut post);
        let ghost g = crate::laws::after_post(crate::laws::after_pre(parse_fold(pre_s)->Ok_0, f), settings(v.params));
        proof {
            crate::laws::lemma_fold_from(pre_s);
            crate::laws::lemma_fold_from(a_s);
            crate::laws::lemma_from_concat(empty_view(), pre_s, a_s);
            crate::laws::lemma_from_concat(empty_view(), pre_s + a_s, post_s);
            crate::laws::lemma_from_after_pre(parse_fold(pre_s)->Ok_0, a_s);
            crate::laws::lemma_from_post(crate::laws::after_pre(parse_fold(pre_s)->Ok_0, f), v.params, post_s);
            assert(all@ =~= pre_s + a_s + post_s);
            assert(crate::laws::parse_from(empty_view(), all@) == Ok::<ParamsView, ParamError>(g));
            assert(strip(g) =~= s0);
            assert(g.actions.len() == 0);
        }
        let ghost kinds = actions@;
        let mut rest = actions;
        let total = rest.len();
        let mut k: usize = 0;
        let ghost mut acts: Seq<(MacroParameterActionKind, Seq<NestedMeta>)> = Seq::empty();
        let ghost base = all@;
        while rest.len() > 0
            invariant
                k + rest@.len() == kinds.len(),
                kinds.len() == total,
                kinds == me.actions@,
                rest@ == kinds.subrange(k as int, kinds.len() as int),
                acts.len() == k,
                all@.len() == base.len() + k,
                crate::laws::parse_from(empty_view(), all@) == Ok::<ParamsView, ParamError>(ParamsView { actions: acts, ..g }),
                forall|j: int| 0 <= j < k ==> {
                    &&& (#[trigger] kinds[j]).kind == acts[j].0
                    &&& emitted(kinds[j].params, acts[j].1)
                },
                printable_all(me),
                me == self,
                strip(g) == s0,
                g.actions.len() == 0,
            decreases rest@.len(),
        {
            let a = rest.remove(0);
            assert(a == kinds[k as int]);
            assert(printable_all(a.params));
            assert(decreases_to!(me => me.actions));
            assert(decreases_to!(me.actions => me.actions@));
            assert(decreases_to!(me.actions@ => me.actions@[k as int]));
            assert(decreases_to!(me.actions@[k as int] => me.actions@[k as int].params));
            let kind = a.kind;
            let ghost child = a.params;
            let nested = a.params.to_nestedmeta();
            let ghost nv = nested@;
            let x = NestedMeta::Meta(Meta::List(MetaPath::from_name(kind.to_str()), nested));
            let ghost prev = all@;
            all.push(x);
            proof {
                lemma_kind_names(kind);
                crate::visitor_content::lemma_arg_names();
                assert(all@.drop_last() =~= prev);
                assert(all@.last() == x);
                assert(parse_fold(nv) is Ok);
                acts = acts.push((kind, nv));
            }
            k = k + 1;
        }
        proof {
            crate::laws::lemma_fold_from(all@);
            assert(strip(ParamsView { actions: acts, ..g }) =~= strip(g));
        }
        all
    }
}

impl MacroParameters {
    /// The tokens of the arguments that declare this configuration.
    pub fn to_tokens(self) -> (r: Vec<crate::visitor_content::TokenTree>)
        requires
            printable_all(self),
        ensures
            exists|args: Seq<NestedMeta>| emitted(self, args) && crate::visitor_content::list_printed(args, r@),
    {
        let ghost me = self;
        let args = self.to_nestedmeta();
        let ghost a = args@;
        let r = crate::visitor_content::list_to_tokens(args);
        assert(emitted(me, a) && crate::visitor_content::list_printed(a, r@));
        r
    }
}

} // verus!
