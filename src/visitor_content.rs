use vstd::prelude::*;

use crate::idents::pairs_view;
use crate::idents::IdentRecord;
use crate::idents::IdentRule;
use crate::meta::path_ident;
use crate::params::empty_view;
use crate::params::feature_pair;
use crate::params::ident_entries;
use crate::params::ident_entry;
use crate::params::ident_options;
use crate::params::idents_view;
use crate::params::parse_fold;
use crate::params::strings_view;
use crate::params::ParamsView;
use crate::params::default_rule;
use crate::meta::Lit;
use crate::meta::Meta;
use crate::meta::MetaPath;
use crate::meta::NestedMeta;
use crate::params::MacroParameters;
use crate::params::DEFAULT_CRATE_NAME;
use crate::strs::str_eq;
use crate::visitor_async::Attr;

verus! {

/// The delimiter of a token group.
#[derive(Debug, Clone, Copy, PartialEq, Eq, Structural)]
pub enum Delimiter {
    Parenthesis,
    Brace,
    Bracket,
    NoDelim,
}

/// A token tree: a delimited group, an identifier, a punctuation character (joined to the
/// next one or not), or a literal.
#[derive(Debug)]
pub enum TokenTree {
    Group(Delimiter, Vec<TokenTree>),
    Ident(String),
    Punct(char, bool),
    Literal(Lit),
}

/// The state of the scan after token `t` in state `s`: `#`, `[`, the crate name, `:`, `:`,
/// `maybe` and the argument group are matched in turn; anything else starts over.
pub open spec fn scan_step(s: u8, t: TokenTree) -> u8 {
    match (s, t) {
        (0, TokenTree::Punct(c, _)) => if c == '#' { 1 } else { 0 },
        (2, TokenTree::Ident(n)) => if n@ == DEFAULT_CRATE_NAME@ { 3 } else { 0 },
        (3, TokenTree::Punct(c, _)) => if c == ':' { 4 } else { 0 },
        (4, TokenTree::Punct(c, _)) => if c == ':' { 5 } else { 0 },
        (5, TokenTree::Ident(n)) => if n@ == "maybe"@ { 6 } else { 0 },
        _ => 0,
    }
}

/// The state of the scan before token `i` of `ts`, starting in `s`.
pub open spec fn scan_state(ts: Seq<TokenTree>, s: u8, i: int) -> u8
    decreases i,
{
    if i <= 0 {
        s
    } else {
        scan_step(scan_state(ts, s, i - 1), ts[i - 1])
    }
}

/// The state in which the content of group `t`, met in state `s`, is scanned: a group met
/// at the top is scanned from the top, the bracket group after `#` as an attribute, and the
/// parenthesized group after `maybe_async_cfg::maybe` as an argument list; any other group is
/// copied as it is.
pub open spec fn inner_state(s: u8, t: TokenTree) -> Option<u8> {
    match t {
        TokenTree::Group(d, _) => if s == 0 {
            Some(0u8)
        } else if s == 1 && d == Delimiter::Bracket {
            Some(2u8)
        } else if s == 6 && d == Delimiter::Parenthesis {
            Some(7u8)
        } else {
            None
        },
        _ => None,
    }
}

/// The tokens of a path: `::` before it when it has a leading colon, and between segments.
pub open spec fn path_tokens(p: MetaPath) -> Seq<TokenTree> {
    seg_tokens(p.segments@, p.leading_colon)
}

pub open spec fn seg_tokens(segs: Seq<String>, leading: bool) -> Seq<TokenTree>
    decreases segs.len(),
{
    if segs.len() == 0 {
        Seq::empty()
    } else if segs.len() == 1 {
        (if leading { seq![TokenTree::Punct(':', true), TokenTree::Punct(':', false)] } else { Seq::empty() })
            .push(TokenTree::Ident(segs[0]))
    } else {
        seg_tokens(segs.drop_last(), leading)
            .push(TokenTree::Punct(':', true))
            .push(TokenTree::Punct(':', false))
            .push(TokenTree::Ident(segs.last()))
    }
}

/// `out` are the tokens of the argument `m`.
pub open spec fn nested_printed(m: NestedMeta, out: Seq<TokenTree>) -> bool
    decreases m, 0nat,
{
    match m {
        NestedMeta::Lit(l) => out == seq![TokenTree::Literal(l)],
        NestedMeta::Meta(Meta::Path(p)) => out == path_tokens(p),
        NestedMeta::Meta(Meta::NameValue(p, l)) => out == path_tokens(p).push(TokenTree::Punct('=', false)).push(TokenTree::Literal(l)),
        NestedMeta::Meta(Meta::List(p, items)) => {
            &&& out.len() == path_tokens(p).len() + 1
            &&& out.subrange(0, out.len() - 1) == path_tokens(p)
            &&& match out.last() {
                TokenTree::Group(d, v) => d == Delimiter::Parenthesis && list_printed(items@, v@),
                _ => false,
            }
        },
    }
}

/// `out` are the tokens of the argument list `items`, each argument followed by a comma.
pub open spec fn list_printed(items: Seq<NestedMeta>, out: Seq<TokenTree>) -> bool
    decreases items, 1nat,
{
    exists|b: Seq<int>| {
        &&& b.len() == items.len() + 1
        &&& b[0] == 0
        &&& b[items.len() as int] == out.len()
        &&& forall|i: int| 0 <= i < items.len() ==> {
            &&& b[i] < #[trigger] b[i + 1]
            &&& nested_printed(items[i], out.subrange(b[i], b[i + 1] - 1))
            &&& out[b[i + 1] - 1] == TokenTree::Punct(',', false)
        }
    }
}

fn path_to_tokens(p: &MetaPath, out: &mut Vec<TokenTree>)
    ensures
        final(out)@ == old(out)@ + path_tokens(*p),
{
    let mut i: usize = 0;
    let ghost start = out@;
    while i < p.segments.len()
        invariant
            i <= p.segments@.len(),
            start == old(out)@,
            out@ == start + seg_tokens(p.segments@.subrange(0, i as int), p.leading_colon),
        decreases p.segments@.len() - i,
    {
        let ghost sub = p.segments@.subrange(0, i + 1);
        assert(sub.drop_last() =~= p.segments@.subrange(0, i as int));
        if i > 0 || p.leading_colon {
            out.push(TokenTree::Punct(':', true));
            out.push(TokenTree::Punct(':', false));
        }
        out.push(TokenTree::Ident(p.segments[i].clone()));
        if i == 0 {
            assert(seg_tokens(sub, p.leading_colon) =~= (if p.leading_colon {
                seq![TokenTree::Punct(':', true), TokenTree::Punct(':', false)]
            } else {
                Seq::empty()
            }).push(TokenTree::Ident(p.segments@[0])));
            assert(seg_tokens(p.segments@.subrange(0, 0), p.leading_colon) == Seq::<TokenTree>::empty());
        }
        i = i + 1;
        assert(out@ =~= start + seg_tokens(p.segments@.subrange(0, i as int), p.leading_colon));
    }
    assert(p.segments@.subrange(0, i as int) =~= p.segments@);
}

/// Appends the tokens of one argument.
pub fn nested_to_tokens(m: NestedMeta, out: &mut Vec<TokenTree>)
    ensures
        final(out)@.len() >= old(out)@.len(),
        final(out)@.subrange(0, old(out)@.len() as int) == old(out)@,
        nested_printed(m, final(out)@.subrange(old(out)@.len() as int, final(out)@.len() as int)),
    decreases m,
{
    let ghost start = out@;
    let ghost mm = m;
    match m {
        NestedMeta::Lit(l) => {
            out.push(TokenTree::Literal(l));
            assert(out@.subrange(start.len() as int, out@.len() as int) =~= seq![TokenTree::Literal(l)]);
        },
        NestedMeta::Meta(Meta::Path(p)) => {
            path_to_tokens(&p, out);
            assert(out@.subrange(start.len() as int, out@.len() as int) =~= path_tokens(p));
        },
        NestedMeta::Meta(Meta::NameValue(p, l)) => {
            path_to_tokens(&p, out);
            out.push(TokenTree::Punct('=', false));
            out.push(TokenTree::Literal(l));
            assert(out@.subrange(start.len() as int, out@.len() as int) =~= path_tokens(p).push(TokenTree::Punct('=', false)).push(TokenTree::Literal(l)));
        },
        NestedMeta::Meta(Meta::List(p, items)) => {
            path_to_tokens(&p, out);
            let ghost mid = out@;
            assert(decreases_to!(mm => mm->Meta_0));
            assert(decreases_to!(mm->Meta_0 => mm->Meta_0->List_1));
            let inner = list_to_tokens(items);
            out.push(TokenTree::Group(Delimiter::Parenthesis, inner));
            let ghost o = out@.subrange(start.len() as int, out@.len() as int);
            assert(o.subrange(0, o.len() - 1) =~= path_tokens(p));
        },
    }
    assert(out@.subrange(0, start.len() as int) =~= start);
}

/// The tokens of an argument list, each argument followed by a comma.
pub fn list_to_tokens(items: Vec<NestedMeta>) -> (r: Vec<TokenTree>)
    ensures
        list_printed(items@, r@),
    decreases items,
{
    let ghost all = items@;
    let ghost whole = items;
    let mut rest = items;
    let total = rest.len();
    let mut out: Vec<TokenTree> = Vec::new();
    let mut k: usize = 0;
    let ghost mut b: Seq<int> = seq![0int];
    while rest.len() > 0
        invariant
            k + rest@.len() == all.len(),
            all.len() == total,
            all == whole@,
            whole == items,
            rest@ == all.subrange(k as int, all.len() as int),
            b.len() == k + 1,
            b[0] == 0,
            b[k as int] == out@.len(),
            forall|i: int, j: int| 0 <= i <= j <= k ==> b[i] <= b[j],
            forall|i: int| 0 <= i < k ==> {
                &&& b[i] < #[trigger] b[i + 1]
                &&& nested_printed(all[i], out@.subrange(b[i], b[i + 1] - 1))
                &&& out@[b[i + 1] - 1] == TokenTree::Punct(',', false)
            },
        decreases rest@.len(),
    {
        let item = rest.remove(0);
        assert(item == all[k as int]);
        assert(decreases_to!(whole => whole@));
        assert(decreases_to!(whole@ => whole@[k as int]));
        let ghost before = out@;
        nested_to_tokens(item, &mut out);
        let ghost after = out@;
        out.push(TokenTree::Punct(',', false));
        proof {
            assert(after.subrange(0, before.len() as int) == before);
            assert(after.len() >= before.len());
            assert forall|j: int| 0 <= j < before.len() implies out@[j] == before[j] by {
                assert(after.subrange(0, before.len() as int)[j] == after[j]);
                assert(out@[j] == after[j]);
            }
            assert(nested_printed(all[k as int], after.subrange(before.len() as int, after.len() as int)));
            assert(out@.subrange(before.len() as int, out@.len() - 1) =~= after.subrange(before.len() as int, after.len() as int));
            let nb = b.push(out@.len() as int);
            assert forall|i: int| 0 <= i < k + 1 implies {
                &&& nb[i] < #[trigger] nb[i + 1]
                &&& nested_printed(all[i], out@.subrange(nb[i], nb[i + 1] - 1))
                &&& out@[nb[i + 1] - 1] == TokenTree::Punct(',', false)
            } by {
                if i < k {
                    assert(nb[i] == b[i] && nb[i + 1] == b[i + 1]);
                    assert(b[i + 1] <= b[k as int]);
                    assert(out@.subrange(b[i], b[i + 1] - 1) =~= before.subrange(b[i], b[i + 1] - 1));
                    assert(out@[b[i + 1] - 1] == before[b[i + 1] - 1]);
                } else {
                    assert(nb[i] == before.len());
                }
            }
            assert(out@.subrange(before.len() as int, out@.len() - 1) =~= out@.subrange(0, out@.len() - 1).subrange(before.len() as int, out@.len() - 1));
            b = nb;
            assert forall|i: int, j: int| 0 <= i <= j <= k + 1 implies b[i] <= b[j] by {
                if j == k + 1 && i <= k {
                    assert(nb[i] <= nb[k as int]);
                }
            }
        }
        k = k + 1;
        assert(rest@ =~= all.subrange(k as int, all.len() as int));
    }
    assert(all.subrange(k as int, all.len() as int).len() == 0);
    out
}

/// A rule that printing as `name(options)` and parsing again gives back: its list of names
/// per key is absent or not empty, and no key is `sync` or `async`.
pub open spec fn printable_rule(r: IdentRule) -> bool {
    match r.idents {
        Some(pairs) => pairs.len() > 0 && forall|i: int| 0 <= i < pairs.len() ==> {
            &&& (#[trigger] pairs[i]).0 != "sync"@
            &&& pairs[i].0 != "async"@
        },
        None => true,
    }
}

pub fn name_item(name: &str) -> (r: NestedMeta)
    ensures
        r is Meta,
        r->Meta_0 is Path,
        path_ident(r->Meta_0->Path_0) == Some(name@),
{
    NestedMeta::Meta(Meta::Path(MetaPath::from_name(name)))
}

pub fn value_item(name: &str, value: String) -> (r: NestedMeta)
    ensures
        r == NestedMeta::Meta(Meta::NameValue(r->Meta_0->NameValue_0, Lit::Str(value))),
        path_ident(r->Meta_0->NameValue_0) == Some(name@),
{
    NestedMeta::Meta(Meta::NameValue(MetaPath::from_name(name), Lit::Str(value)))
}

proof fn lemma_options_push(ident: Seq<char>, opts: Seq<NestedMeta>, x: NestedMeta)
    ensures
        ident_options(ident, opts.push(x)) == match ident_options(ident, opts) {
            Err(e) => Err(e),
            Ok(r) => crate::params::ident_option(ident, r, x),
        },
{
    assert(opts.push(x).drop_last() =~= opts);
}

/// The argument `name(options)` that declares the rule `rec` for `name`.
pub fn rule_to_meta(name: &String, rec: &IdentRecord) -> (r: NestedMeta)
    requires
        printable_rule(rec@),
    ensures
        ident_entry(r) == Ok::<(Seq<char>, IdentRule), crate::params::ParamError>((name@, rec@)),
{
    proof {
        reveal_strlit("fn");
        reveal_strlit("use");
        reveal_strlit("keep");
        reveal_strlit("sync");
        reveal_strlit("async");
        assert("fn"@.len() == 2 && "use"@.len() == 3 && "keep"@.len() == 4);
        assert("sync"@.len() == 4 && "async"@.len() == 5);
        assert("use"@ != "fn"@);
        assert("keep"@ != "fn"@ && "keep"@ != "use"@);
        assert("sync"@[0] != "async"@[0]);
        assert("async"@ != "sync"@);
    }
    let mut opts: Vec<NestedMeta> = Vec::new();
    let ghost mut cur = default_rule(false);
    assert(ident_options(name@, opts@) == Ok::<IdentRule, crate::params::ParamError>(cur));
    if rec.fn_mode {
        let x = name_item("fn");
        proof { lemma_options_push(name@, opts@, x); }
        opts.push(x);
        proof { cur = IdentRule { fn_mode: true, ..cur }; }
        assert(ident_options(name@, opts@) == Ok::<IdentRule, crate::params::ParamError>(cur));
    }
    if rec.use_mode {
        let x = name_item("use");
        proof { lemma_options_push(name@, opts@, x); }
        opts.push(x);
        proof { cur = IdentRule { use_mode: true, ..cur }; }
        assert(ident_options(name@, opts@) == Ok::<IdentRule, crate::params::ParamError>(cur));
    }
    if rec.keep {
        let x = name_item("keep");
        proof { lemma_options_push(name@, opts@, x); }
        opts.push(x);
        proof { cur = IdentRule { keep: true, ..cur }; }
        assert(ident_options(name@, opts@) == Ok::<IdentRule, crate::params::ParamError>(cur));
    }
    if let Some(v) = &rec.ident_sync {
        let x = value_item("sync", v.clone());
        proof { lemma_options_push(name@, opts@, x); }
        opts.push(x);
        proof { cur = IdentRule { ident_sync: Some(v@), ..cur }; }
        assert(ident_options(name@, opts@) == Ok::<IdentRule, crate::params::ParamError>(cur));
    }
    if let Some(v) = &rec.ident_async {
        let x = value_item("async", v.clone());
        proof { lemma_options_push(name@, opts@, x); }
        opts.push(x);
        proof { cur = IdentRule { ident_async: Some(v@), ..cur }; }
        assert(ident_options(name@, opts@) == Ok::<IdentRule, crate::params::ParamError>(cur));
    }
    assert(cur == (IdentRule { idents: None, ..rec@ }));
    if let Some(pairs) = &rec.idents {
        let ghost pv = crate::idents::pairs_view(pairs@);
        let mut i: usize = 0;
        while i < pairs.len()
            invariant
                i <= pairs@.len(),
                pv == crate::idents::pairs_view(pairs@),
                rec@.idents == Some(pv),
                printable_rule(rec@),
                ident_options(name@, opts@) == Ok::<IdentRule, crate::params::ParamError>(cur),
                i == 0 ==> cur == (IdentRule { idents: None, ..rec@ }),
                i > 0 ==> cur == (IdentRule { idents: Some(pv.subrange(0, i as int)), ..rec@ }),
            decreases pairs@.len() - i,
        {
            let x = value_item(pairs[i].0.as_str(), pairs[i].1.clone());
            assert(pv[i as int].0 != "sync"@ && pv[i as int].0 != "async"@);
            proof { lemma_options_push(name@, opts@, x); }
            opts.push(x);
            proof {
                let before = match cur.idents {
                    Some(p) => p,
                    None => Seq::empty(),
                };
                assert(before.push(pv[i as int]) =~= pv.subrange(0, i + 1));
                cur = IdentRule { idents: Some(pv.subrange(0, i + 1)), ..rec@ };
            }
            i = i + 1;
        }
        assert(pv.subrange(0, i as int) =~= pv);
    }
    assert(cur == rec@);
    NestedMeta::Meta(Meta::List(MetaPath::from_name(name.as_str()), opts))
}

/// The ambient settings that the arguments `pre`, placed before an invocation's own arguments,
/// pass on: the two flags and the dropped attributes.
pub open spec fn pre_defaults(p: MacroParameters, pre: Seq<NestedMeta>) -> bool {
    parse_fold(pre) == Ok::<ParamsView, crate::params::ParamError>(ParamsView {
        disable: p.disable,
        keep_self: p.keep_self,
        drop_attrs: strings_view(p.drop_attrs@),
        ..empty_view()
    })
}

/// The ambient settings that the arguments `post`, placed after an invocation's own arguments,
/// pass on: `idents(...)` with the identifier rules (when there are any), then one
/// `replace_feature(...)` per feature substitution.
pub open spec fn post_defaults(p: MacroParameters, post: Seq<NestedMeta>) -> bool {
    let n: int = if p.idents@.len() > 0 { 1 } else { 0 };
    &&& post.len() == n + p.replace_features@.len()
    &&& p.idents@.len() > 0 ==> match post[0] {
        NestedMeta::Meta(Meta::List(path, list)) => path_ident(path) == Some("idents"@)
            && ident_entries(Seq::empty(), list@) == Ok::<Seq<(Seq<char>, IdentRule)>, crate::params::ParamError>(idents_view(p.idents@)),
        _ => false,
    }
    &&& forall|j: int| n <= j < post.len() ==> match #[trigger] post[j] {
        NestedMeta::Meta(Meta::List(path, list)) => path_ident(path) == Some("replace_feature"@)
            && feature_pair(list@) == Ok::<(Seq<char>, Seq<char>), crate::params::ParamError>(pairs_view(p.replace_features@)[j - n]),
        _ => false,
    }
}

/// Every identifier rule of `p` can be printed and parsed back.
pub open spec fn printable_params(p: MacroParameters) -> bool {
    forall|i: int| 0 <= i < p.idents@.len() ==> printable_rule((#[trigger] p.idents@[i]).1@)
}

/// Whether every identifier rule of `p` can be passed on as arguments.
pub fn printable_defaults(p: &MacroParameters) -> (r: bool)
    ensures
        r == printable_params(*p),
{
    let mut i: usize = 0;
    while i < p.idents.len()
        invariant
            i <= p.idents@.len(),
            forall|j: int| 0 <= j < i ==> printable_rule((#[trigger] p.idents@[j]).1@),
        decreases p.idents@.len() - i,
    {
        let rec = &p.idents[i].1;
        let ok = match &rec.idents {
            None => true,
            Some(pairs) => {
                let mut good = pairs.len() > 0;
                let mut j: usize = 0;
                while j < pairs.len()
                    invariant
                        j <= pairs@.len(),
                        rec.idents == Some(*pairs),
                        good == (pairs@.len() > 0 && forall|k: int| 0 <= k < j ==> {
                            &&& (#[trigger] pairs@[k]).0@ != "sync"@
                            &&& pairs@[k].0@ != "async"@
                        }),
                    decreases pairs@.len() - j,
                {
                    if str_eq(pairs[j].0.as_str(), "sync") || str_eq(pairs[j].0.as_str(), "async") {
                        good = false;
                    }
                    j = j + 1;
                }
                proof {
                    let pv = crate::idents::pairs_view(pairs@);
                    assert(good == (pv.len() > 0 && forall|k: int| 0 <= k < pv.len() ==> {
                        &&& (#[trigger] pv[k]).0 != "sync"@
                        &&& pv[k].0 != "async"@
                    })) by {
                        if !good && pairs@.len() > 0 {
                            let k = choose|k: int| 0 <= k < pairs@.len() && !({
                                &&& (#[trigger] pairs@[k]).0@ != "sync"@
                                &&& pairs@[k].0@ != "async"@
                            });
                            assert(pv[k].0 == pairs@[k].0@);
                        }
                        if good {
                            assert forall|k: int| 0 <= k < pv.len() implies {
                                &&& (#[trigger] pv[k]).0 != "sync"@
                                &&& pv[k].0 != "async"@
                            } by {
                                assert(pv[k].0 == pairs@[k].0@);
                            }
                        }
                    }
                }
                good
            },
        };
        if !ok {
            return false;
        }
        i = i + 1;
    }
    true
}

proof fn lemma_entries_push(ids: Seq<(Seq<char>, IdentRule)>, list: Seq<NestedMeta>, x: NestedMeta)
    ensures
        ident_entries(ids, list.push(x)) == match ident_entries(ids, list) {
            Err(e) => Err(e),
            Ok(s) => match ident_entry(x) {
                Err(e) => Err(e),
                Ok(y) => Ok(s.push(y)),
            },
        },
{
    assert(list.push(x).drop_last() =~= list);
}

pub proof fn lemma_fold_push(args: Seq<NestedMeta>, x: NestedMeta)
    ensures
        parse_fold(args.push(x)) == match parse_fold(args) {
            Err(e) => Err(e),
            Ok(f) => crate::params::parse_arg(f, x),
        },
{
    assert(args.push(x).subrange(0, args.len() as int) =~= args);
}

/// The names that the argument parser tells apart are distinct.
pub proof fn lemma_arg_names()
    ensures
        "drop_attrs"@.len() == 10,
        "cfg"@.len() == 3,
        "idents"@.len() == 6,
        "any"@.len() == 3,
        "all"@.len() == 3,
        "not"@.len() == 3,
        "outer"@.len() == 5,
        "inner"@.len() == 5,
        "replace_feature"@.len() == 15,
        "disable"@.len() == 7,
        "keep_self"@.len() == 9,
{
    reveal_strlit("drop_attrs");
    reveal_strlit("cfg");
    reveal_strlit("idents");
    reveal_strlit("any");
    reveal_strlit("all");
    reveal_strlit("not");
    reveal_strlit("outer");
    reveal_strlit("inner");
    reveal_strlit("replace_feature");
    reveal_strlit("disable");
    reveal_strlit("keep_self");
}

/// Rewrites a block: takes its ambient defaults and passes them on to every invocation of
/// `maybe` inside it.
pub struct ContentVisitor {
    pub params: MacroParameters,
}

/// The crate prefix of an inner `#![prefix::default(...)]` attribute, if `a` is one.
pub open spec fn default_attr_prefix(a: Attr) -> Option<Seq<char>> {
    if !a.outer && !a.path.leading_colon && a.path.segments@.len() == 2 && a.path.segments@[1]@ == "default"@ {
        Some(a.path.segments@[0]@)
    } else {
        None
    }
}

/// The attributes of `s` that are not `default` attributes, in order.
pub open spec fn non_default(s: Seq<Attr>) -> Seq<Attr>
    decreases s.len(),
{
    if s.len() == 0 {
        s
    } else if default_attr_prefix(s.last()) is Some {
        non_default(s.drop_last())
    } else {
        non_default(s.drop_last()).push(s.last())
    }
}

/// The arguments of an attribute, or none.
pub open spec fn args_or_empty(args: Option<Vec<NestedMeta>>) -> Seq<NestedMeta> {
    match args {
        Some(a) => a@,
        None => Seq::empty(),
    }
}

pub fn is_default_attr(attr: &Attr) -> (r: Option<String>)
    ensures
        match r {
            Some(p) => default_attr_prefix(*attr) == Some(p@),
            None => default_attr_prefix(*attr).is_none(),
        },
{
    if !attr.outer && !attr.path.leading_colon && attr.path.segments.len() == 2 {
        if str_eq(attr.path.segments[1].as_str(), "default") {
            return Some(attr.path.segments[0].clone());
        }
    }
    None
}

impl ContentVisitor {
    pub fn new() -> (r: Self)
        ensures
            crate::params::settings(r.params) == empty_view(),
            r.params.actions@.len() == 0,
    {
        ContentVisitor { params: MacroParameters::new() }
    }

    /// The arguments placed before an invocation's own.
    pub fn defaults_before(&self) -> (r: Vec<NestedMeta>)
        ensures
            pre_defaults(self.params, r@),
    {
        let mut r: Vec<NestedMeta> = Vec::new();
        let ghost mut f = empty_view();
        proof {
            lemma_arg_names();
        }
        if self.params.disable {
            let x = name_item("disable");
            proof { lemma_fold_push(r@, x); }
            r.push(x);
            proof { f = ParamsView { disable: true, ..f }; }
        }
        assert(parse_fold(r@) == Ok::<ParamsView, crate::params::ParamError>(f));
        if self.params.keep_self {
            let x = name_item("keep_self");
            proof { lemma_fold_push(r@, x); }
            r.push(x);
            proof { f = ParamsView { keep_self: true, ..f }; }
        }
        assert(parse_fold(r@) == Ok::<ParamsView, crate::params::ParamError>(f));
        if self.params.drop_attrs.len() > 0 {
            let mut names: Vec<NestedMeta> = Vec::new();
            let mut i: usize = 0;
            assert(strings_view(self.params.drop_attrs@.subrange(0, 0)) =~= Seq::<Seq<char>>::empty());
            while i < self.params.drop_attrs.len()
                invariant
                    i <= self.params.drop_attrs@.len(),
                    crate::params::drop_names(names@) == Ok::<Seq<Seq<char>>, crate::params::ParamError>(strings_view(self.params.drop_attrs@.subrange(0, i as int))),
                decreases self.params.drop_attrs@.len() - i,
            {
                let x = name_item(self.params.drop_attrs[i].as_str());
                assert(names@.push(x).drop_last() =~= names@);
                names.push(x);
                assert(strings_view(self.params.drop_attrs@.subrange(0, i + 1)) =~= strings_view(self.params.drop_attrs@.subrange(0, i as int)).push(self.params.drop_attrs@[i as int]@));
                i = i + 1;
            }
            assert(self.params.drop_attrs@.subrange(0, i as int) =~= self.params.drop_attrs@);
            let x = NestedMeta::Meta(Meta::List(MetaPath::from_name("drop_attrs"), names));
            proof { lemma_fold_push(r@, x); }
            r.push(x);
            proof {
                assert(f.drop_attrs + strings_view(self.params.drop_attrs@) =~= strings_view(self.params.drop_attrs@));
                f = ParamsView { drop_attrs: strings_view(self.params.drop_attrs@), ..f };
            }
        } else {
            assert(strings_view(self.params.drop_attrs@) =~= Seq::<Seq<char>>::empty());
        }
        assert(f =~= (ParamsView {
            disable: self.params.disable,
            keep_self: self.params.keep_self,
            drop_attrs: strings_view(self.params.drop_attrs@),
            ..empty_view()
        }));
        r
    }

    /// The arguments placed after an invocation's own.
    pub fn defaults_after(&self) -> (r: Vec<NestedMeta>)
        requires
            printable_params(self.params),
        ensures
            post_defaults(self.params, r@),
    {
        let mut r: Vec<NestedMeta> = Vec::new();
        if self.params.idents.len() > 0 {
            let mut entries: Vec<NestedMeta> = Vec::new();
            let mut i: usize = 0;
            assert(idents_view(self.params.idents@.subrange(0, 0)) =~= Seq::<(Seq<char>, IdentRule)>::empty());
            while i < self.params.idents.len()
                invariant
                    i <= self.params.idents@.len(),
                    printable_params(self.params),
                    ident_entries(Seq::empty(), entries@) == Ok::<Seq<(Seq<char>, IdentRule)>, crate::params::ParamError>(idents_view(self.params.idents@.subrange(0, i as int))),
                decreases self.params.idents@.len() - i,
            {
                assert(printable_rule(self.params.idents@[i as int].1@));
                let x = rule_to_meta(&self.params.idents[i].0, &self.params.idents[i].1);
                proof { lemma_entries_push(Seq::empty(), entries@, x); }
                entries.push(x);
                assert(idents_view(self.params.idents@.subrange(0, i + 1)) =~= idents_view(self.params.idents@.subrange(0, i as int)).push((self.params.idents@[i as int].0@, self.params.idents@[i as int].1@)));
                i = i + 1;
            }
            assert(self.params.idents@.subrange(0, i as int) =~= self.params.idents@);
            r.push(NestedMeta::Meta(Meta::List(MetaPath::from_name("idents"), entries)));
        }
        let ghost n: int = if self.params.idents@.len() > 0 { 1 } else { 0 };
        let mut i: usize = 0;
        while i < self.params.replace_features.len()
            invariant
                i <= self.params.replace_features@.len(),
                n == (if self.params.idents@.len() > 0 { 1int } else { 0int }),
                r@.len() == n + i,
                self.params.idents@.len() > 0 ==> match r@[0] {
                    NestedMeta::Meta(Meta::List(path, list)) => path_ident(path) == Some("idents"@)
                        && ident_entries(Seq::empty(), list@) == Ok::<Seq<(Seq<char>, IdentRule)>, crate::params::ParamError>(idents_view(self.params.idents@)),
                    _ => false,
                },
                forall|j: int| n <= j < r@.len() ==> match #[trigger] r@[j] {
                    NestedMeta::Meta(Meta::List(path, list)) => path_ident(path) == Some("replace_feature"@)
                        && feature_pair(list@) == Ok::<(Seq<char>, Seq<char>), crate::params::ParamError>(pairs_view(self.params.replace_features@)[j - n]),
                    _ => false,
                },
            decreases self.params.replace_features@.len() - i,
        {
            let mut list: Vec<NestedMeta> = Vec::new();
            list.push(NestedMeta::Lit(Lit::Str(self.params.replace_features[i].0.clone())));
            list.push(NestedMeta::Lit(Lit::Str(self.params.replace_features[i].1.clone())));
            let x = NestedMeta::Meta(Meta::List(MetaPath::from_name("replace_feature"), list));
            let ghost before = r@;
            r.push(x);
            assert forall|j: int| n <= j < r@.len() implies match #[trigger] r@[j] {
                NestedMeta::Meta(Meta::List(path, list)) => path_ident(path) == Some("replace_feature"@)
                    && feature_pair(list@) == Ok::<(Seq<char>, Seq<char>), crate::params::ParamError>(pairs_view(self.params.replace_features@)[j - n]),
                _ => false,
            } by {
                if j < r@.len() - 1 {
                    assert(r@[j] == before[j]);
                }
            }
            i = i + 1;
        }
        r
    }

    /// Merges the ambient defaults into the arguments of an invocation of `maybe`:
    /// `defaults_before`, then the invocation's own arguments, then `defaults_after`.
    pub fn process_attribute(&self, attr: Attr) -> (r: Attr)
        requires
            printable_params(self.params),
        ensures
            match (crate::visitor_async::our_attr_name(self.params, attr), attr.args) {
                (Some(n), Some(args)) => if n == "maybe"@ {
                    &&& r.origin == attr.origin
                    &&& r.outer == attr.outer
                    &&& r.path == attr.path
                    &&& r.args is Some
                    &&& exists|pre: Seq<NestedMeta>, post: Seq<NestedMeta>| {
                        &&& pre_defaults(self.params, pre)
                        &&& post_defaults(self.params, post)
                        &&& r.args->Some_0@ == pre + args@ + post
                    }
                } else {
                    r == attr
                },
                _ => r == attr,
            },
    {
        let is_maybe = match self.params.is_our_attr(&attr) {
            Some(n) => str_eq(n.as_str(), "maybe"),
            None => false,
        };
        if is_maybe && attr.args.is_some() {
            let Attr { origin, outer, path, args } = attr;
            let mut own = match args {
                Some(a) => a,
                None => Vec::new(),
            };
            let mut all = self.defaults_before();
            let post = self.defaults_after();
            let ghost pre_s = all@;
            let ghost own_s = own@;
            let ghost post_s = post@;
            all.append(&mut own);
            let mut post = post;
            all.append(&mut post);
            assert(all@ =~= pre_s + own_s + post_s);
            Attr { origin, outer, path, args: Some(all) }
        } else {
            attr
        }
    }

    /// Takes the ambient defaults out of a block's inner attributes: each
    /// `#![prefix::default(...)]` is removed and its arguments, with its prefix, become the
    /// defaults (a later one replaces an earlier one).
    pub fn process_file(&mut self, attrs: Vec<Attr>) -> (r: Result<Vec<Attr>, crate::params::ParamError>)
        ensures
            r is Ok ==> r->Ok_0@ == non_default(attrs@),
            r is Err ==> exists|i: int| 0 <= i < attrs@.len() && default_attr_prefix(#[trigger] attrs@[i]) is Some
                && parse_fold(args_or_empty(attrs@[i].args)) == Err::<ParamsView, crate::params::ParamError>(r->Err_0),
            (forall|i: int| 0 <= i < attrs@.len() ==> default_attr_prefix(#[trigger] attrs@[i]) is None) ==> final(self).params == old(self).params,
    {
        let ghost all = attrs@;
        let mut rest = attrs;
        let total = rest.len();
        let mut k: usize = 0;
        let mut out: Vec<Attr> = Vec::new();
        assert(all.subrange(0, 0).len() == 0);
        while rest.len() > 0
            invariant
                k + rest@.len() == all.len(),
                all.len() == total,
                all == attrs@,
                rest@ == all.subrange(k as int, all.len() as int),
                out@ == non_default(all.subrange(0, k as int)),
                (forall|i: int| 0 <= i < k ==> default_attr_prefix(#[trigger] all[i]) is None) ==> self.params == old(self).params,
            decreases rest@.len(),
        {
            let attr = rest.remove(0);
            assert(all.subrange(0, k + 1).drop_last() =~= all.subrange(0, k as int));
            assert(all.subrange(0, k + 1).last() == attr);
            match is_default_attr(&attr) {
                Some(prefix) => {
                    let ghost a = attr.args;
                    let args = match attr.args {
                        Some(a) => a,
                        None => Vec::new(),
                    };
                    let mut params = match MacroParameters::from_args(args) {
                        Ok(p) => p,
                        Err(e) => {
                            assert(default_attr_prefix(all[k as int]) is Some);
                            return Err(e);
                        },
                    };
                    params.prefix_set(prefix);
                    self.params = params;
                },
                None => out.push(attr),
            }
            k = k + 1;
            assert(rest@ =~= all.subrange(k as int, all.len() as int));
        }
        assert(all.subrange(0, k as int) =~= all);
        Ok(out)
    }
}

/// The separator between an argument list and what follows it: a comma, unless the list
/// is empty or already ends with one.
pub open spec fn separator(ts: Seq<TokenTree>) -> Seq<TokenTree> {
    if ts.len() == 0 || ts.last() == TokenTree::Punct(',', false) {
        Seq::empty()
    } else {
        seq![TokenTree::Punct(',', false)]
    }
}

/// `out` is the argument list `ts` of a nested invocation with the ambient defaults of `p`
/// merged in.
pub open spec fn merged_args(p: MacroParameters, ts: Seq<TokenTree>, out: Seq<TokenTree>) -> bool {
    exists|pre: Seq<NestedMeta>, post: Seq<NestedMeta>, pre_t: Seq<TokenTree>, post_t: Seq<TokenTree>| {
        &&& pre_defaults(p, pre)
        &&& post_defaults(p, post)
        &&& list_printed(pre, pre_t)
        &&& list_printed(post, post_t)
        &&& out == pre_t + ts + separator(ts) + post_t
    }
}

/// `out` is `ts` scanned from state `s`: each token is kept, except that a group whose content
/// is scanned (see `inner_state`) gets its content scanned from that state; in state 7 the
/// whole list is an argument list that gets the defaults merged in.
pub open spec fn scanned(p: MacroParameters, ts: Seq<TokenTree>, s: u8, out: Seq<TokenTree>) -> bool
    decreases ts, 0nat,
{
    if s == 7 {
        merged_args(p, ts, out)
    } else {
        &&& out.len() == ts.len()
        &&& forall|i: int| 0 <= i < ts.len() ==> token_scanned(p, scan_state(ts, s, i), #[trigger] ts[i], out[i])
    }
}

pub open spec fn token_scanned(p: MacroParameters, s: u8, t: TokenTree, o: TokenTree) -> bool
    decreases t, 1nat,
{
    match inner_state(s, t) {
        Some(s2) => match (t, o) {
            (TokenTree::Group(d, v), TokenTree::Group(d2, w)) => d2 == d && scanned(p, v@, s2, w@),
            _ => false,
        },
        None => o == t,
    }
}

impl ContentVisitor {
    /// Scans a token list for invocations `#[maybe_async_cfg::maybe(...)]` at any depth of
    /// groups (as in the body of a `macro_rules!` definition) and merges the ambient defaults
    /// into their arguments.
    pub fn search_maybe_in_tokenstream(&self, ts: Vec<TokenTree>, initial_state: u8) -> (r: Vec<TokenTree>)
        requires
            printable_params(self.params),
            initial_state == 0 || initial_state == 2 || initial_state == 7,
        ensures
            scanned(self.params, ts@, initial_state, r@),
        decreases ts@,
    {
        if initial_state == 7 {
            let pre = self.defaults_before();
            let post = self.defaults_after();
            let ghost pre_s = pre@;
            let ghost post_s = post@;
            let mut result = list_to_tokens(pre);
            let ghost pre_t = result@;
            let ghost own = ts@;
            let needs_sep = ts.len() > 0 && match &ts[ts.len() - 1] {
                TokenTree::Punct(c, j) => !(*c == ',' && !*j),
                _ => true,
            };
            let mut ts = ts;
            result.append(&mut ts);
            if needs_sep {
                result.push(TokenTree::Punct(',', false));
            }
            let ghost mid = result@;
            let mut tail = list_to_tokens(post);
            let ghost post_t = tail@;
            result.append(&mut tail);
            proof {
                assert(mid =~= pre_t + own + separator(own));
                assert(result@ =~= pre_t + own + separator(own) + post_t);
            }
            return result;
        }
        let ghost all = ts@;
        let mut rest = ts;
        let total = rest.len();
        let mut state: u8 = initial_state;
        let mut result: Vec<TokenTree> = Vec::new();
        while rest.len() > 0
            invariant
                result@.len() + rest@.len() == all.len(),
                all.len() == total,
                all == ts@,
                rest@ == all.subrange(result@.len() as int, all.len() as int),
                state == scan_state(all, initial_state, result@.len() as int),
                state <= 6,
                initial_state == 0 || initial_state == 2,
                printable_params(self.params),
                forall|i: int| 0 <= i < result@.len() ==> token_scanned(self.params, scan_state(all, initial_state, i), #[trigger] all[i], result@[i]),
            decreases rest@.len(),
        {
            let ghost k = result@.len() as int;
            let tt = rest.remove(0);
            assert(tt == all[k]);
            let ghost t0 = tt;
            let next: u8 = match tt {
                TokenTree::Group(d, v) => {
                    let sub: u8 = if state == 0 {
                        0
                    } else if state == 1 && d == Delimiter::Bracket {
                        2
                    } else if state == 6 && d == Delimiter::Parenthesis {
                        7
                    } else {
                        8
                    };
                    if sub == 8 {
                        result.push(TokenTree::Group(d, v));
                    } else {
                        assert(decreases_to!(all => all[k]));
                        assert(decreases_to!(t0 => t0->Group_1));
                        assert(decreases_to!(t0->Group_1 => v@));
                        let inner = self.search_maybe_in_tokenstream(v, sub);
                        result.push(TokenTree::Group(d, inner));
                    }
                    0
                },
                TokenTree::Punct(c, j) => {
                    let n: u8 = if state == 0 && c == '#' {
                        1
                    } else if state == 3 && c == ':' {
                        4
                    } else if state == 4 && c == ':' {
                        5
                    } else {
                        0
                    };
                    result.push(TokenTree::Punct(c, j));
                    n
                },
                TokenTree::Ident(name) => {
                    let n: u8 = if state == 2 && str_eq(name.as_str(), DEFAULT_CRATE_NAME) {
                        3
                    } else if state == 5 && str_eq(name.as_str(), "maybe") {
                        6
                    } else {
                        0
                    };
                    result.push(TokenTree::Ident(name));
                    n
                },
                TokenTree::Literal(l) => {
                    result.push(TokenTree::Literal(l));
                    0
                },
            };
            assert(scan_state(all, initial_state, k + 1) == scan_step(scan_state(all, initial_state, k), all[k]));
            state = next;
            assert(rest@ =~= all.subrange(result@.len() as int, all.len() as int));
        }
        result
    }
}

} // verus!
