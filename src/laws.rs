use vstd::prelude::*;

use crate::idents::default_suffix;
use crate::idents::ConvertMode;
use crate::meta::mentions_replaced_feature;
use crate::meta::Meta;
use crate::meta::NestedMeta;
use crate::params::built;
use crate::params::empty_view;
use crate::params::ident_entries;
use crate::params::inherit;
use crate::params::parse_arg;
use crate::params::parse_fold;
use crate::params::settings;
use crate::params::strip;
use crate::params::idents_view as rules_view;
use crate::idents::pairs_view;
use crate::meta::path_ident;
use crate::visitor_content::lemma_arg_names;
use crate::visitor_content::post_defaults;
use crate::visitor_content::pre_defaults;
use crate::params::idents_view;
use crate::params::opt_view;
use crate::params::rule_lookup;
use crate::params::MacroParameterActionKind;
use crate::params::MacroParameters;
use crate::params::ParamsView;
use crate::visitor_async::bound_entries;
use crate::visitor_async::conditional_keeps;
use crate::visitor_async::frame_lookup;
use crate::visitor_async::future_output;
use crate::visitor_async::ident_result;
use crate::visitor_async::param_entries;
use crate::visitor_async::param_stays;
use crate::visitor_async::pred_entries;
use crate::visitor_async::stack_lookup;
use crate::visitor_async::AsyncAwaitVisitor;
use crate::visitor_async::BoundModel;
use crate::visitor_async::GenericParamModel;
use crate::visitor_async::WherePredModel;

verus! {

/// An identifier whose rule is marked `keep` keeps its name in every rendition.
pub proof fn lemma_keep_in_every_rendition(v: AsyncAwaitVisitor, ident: Seq<char>)
    requires
        rule_lookup(idents_view(v.params.idents@), ident) is Some,
        rule_lookup(idents_view(v.params.idents@), ident)->Some_0.keep,
    ensures
        ident_result(v, ident) == Some(ident),
{
}

/// An identifier with a rule but no explicit name for the rendition's key or direction gets
/// the default suffix: `_sync` / `_async` when function-style, `Sync` / `Async` otherwise.
pub proof fn lemma_default_suffixing(v: AsyncAwaitVisitor, ident: Seq<char>)
    requires
        rule_lookup(idents_view(v.params.idents@), ident) is Some,
        !rule_lookup(idents_view(v.params.idents@), ident)->Some_0.keep,
        crate::idents::key_name(rule_lookup(idents_view(v.params.idents@), ident)->Some_0, opt_view(v.params.key)).is_none(),
        crate::idents::direction_name(rule_lookup(idents_view(v.params.idents@), ident)->Some_0, v.convert_mode).is_none(),
    ensures
        ident_result(v, ident) == Some(ident + default_suffix(rule_lookup(idents_view(v.params.idents@), ident)->Some_0.fn_mode, v.convert_mode)),
        default_suffix(true, ConvertMode::IntoSync) == "_sync"@,
        default_suffix(true, ConvertMode::IntoAsync) == "_async"@,
        default_suffix(false, ConvertMode::IntoSync) == "Sync"@,
        default_suffix(false, ConvertMode::IntoAsync) == "Async"@,
{
}

/// Every built rendition has a key: the one given, or the name of its kind.
pub proof fn lemma_rendition_has_key(p: MacroParameters, args: Seq<NestedMeta>, parent: ParamsView, k: MacroParameterActionKind)
    requires
        built(p, args, Some((parent, k))),
    ensures
        p.key is Some,
{
    let f = crate::params::parse_fold(args)->Ok_0;
    assert(crate::params::settings(p).key == crate::params::merged(f, parent, k).key);
}

/// `only_if(t)` content stays exactly in the rendition whose key is `t`; `remove_if(t)`
/// content stays exactly in the others.
pub proof fn lemma_conditional_content(key: Seq<char>, target: Seq<char>)
    ensures
        conditional_keeps(Some(key), target, false) <==> key == target,
        conditional_keeps(Some(key), target, true) <==> !conditional_keeps(Some(key), target, false),
{
}

proof fn lemma_frame_append(a: Seq<(Seq<char>, usize)>, b: Seq<(Seq<char>, usize)>, n: Seq<char>)
    requires
        frame_lookup(a, n) is Some || frame_lookup(b, n) is Some,
    ensures
        frame_lookup(a + b, n) is Some,
    decreases b.len(),
{
    if b.len() == 0 {
        assert(a + b =~= a);
    } else {
        assert((a + b).drop_last() =~= a + b.drop_last());
        if b.last().0 != n {
            lemma_frame_append(a, b.drop_last(), n);
        }
    }
}

proof fn lemma_bound_entries(n: Seq<char>, bounds: Seq<BoundModel>, j: int)
    requires
        0 <= j < bounds.len(),
        future_output(bounds[j]) is Some,
    ensures
        frame_lookup(bound_entries(n, bounds), n) is Some,
    decreases bounds.len(),
{
    if j < bounds.len() - 1 {
        assert(bounds.drop_last()[j] == bounds[j]);
        lemma_bound_entries(n, bounds.drop_last(), j);
        if future_output(bounds.last()) is Some {
            lemma_frame_append(bound_entries(n, bounds.drop_last()), seq![(n, future_output(bounds.last())->Some_0)], n);
            assert(bound_entries(n, bounds.drop_last()).push((n, future_output(bounds.last())->Some_0))
                =~= bound_entries(n, bounds.drop_last()) + seq![(n, future_output(bounds.last())->Some_0)]);
        }
    }
}

proof fn lemma_param_entries(ps: Seq<GenericParamModel>, i: int, n: Seq<char>, bounds: Seq<BoundModel>, j: int)
    requires
        0 <= i < ps.len(),
        ps[i] is Type,
        ps[i]->Type_0@ == n,
        ps[i]->Type_1@ == bounds,
        0 <= j < bounds.len(),
        future_output(bounds[j]) is Some,
    ensures
        frame_lookup(param_entries(ps), n) is Some,
    decreases ps.len(),
{
    if i < ps.len() - 1 {
        assert(ps.drop_last()[i] == ps[i]);
        lemma_param_entries(ps.drop_last(), i, n, bounds, j);
        match ps.last() {
            GenericParamModel::Type(m, b) => {
                lemma_frame_append(param_entries(ps.drop_last()), bound_entries(m@, b@), n);
            },
            GenericParamModel::Other => {},
        }
    } else {
        lemma_bound_entries(n, bounds, j);
        lemma_frame_append(param_entries(ps.drop_last()), bound_entries(n, bounds), n);
    }
}

/// Generic erasure: in the scope that entering a function pushes (towards the synchronous
/// flavour), a type parameter `T` bounded by `Future<Output = R>` leaves the signature, and
/// every occurrence of `T` maps to an output type (`R`, or the last such bound's output).
pub proof fn lemma_future_param_erased(
    frames: Seq<Seq<(Seq<char>, usize)>>,
    ps: Seq<GenericParamModel>,
    ws: Seq<WherePredModel>,
    i: int,
    j: int,
)
    requires
        0 <= i < ps.len(),
        ps[i] is Type,
        0 <= j < ps[i]->Type_1@.len(),
        future_output(ps[i]->Type_1@[j]) is Some,
    ensures
        !param_stays(frames.push(param_entries(ps) + pred_entries(ws)), ps[i]),
        stack_lookup(frames.push(param_entries(ps) + pred_entries(ws)), ps[i]->Type_0@)
            == frame_lookup(param_entries(ps) + pred_entries(ws), ps[i]->Type_0@),
        stack_lookup(frames.push(param_entries(ps) + pred_entries(ws)), ps[i]->Type_0@) is Some,
{
    let n = ps[i]->Type_0@;
    lemma_param_entries(ps, i, n, ps[i]->Type_1@, j);
    lemma_frame_append(param_entries(ps), pred_entries(ws), n);
    let nf = frames.push(param_entries(ps) + pred_entries(ws));
    assert(nf.last() == param_entries(ps) + pred_entries(ws));
}

/// A rendition without feature substitutions replaces no feature.
pub proof fn lemma_no_substitution(m: Meta)
    ensures
        !mentions_replaced_feature(m, Seq::empty()),
    decreases m,
{
    match m {
        Meta::List(_, items) => {
            assert forall|i: int| 0 <= i < items@.len() implies !(match #[trigger] items@[i] {
                NestedMeta::Meta(a) => mentions_replaced_feature(a, Seq::empty()),
                NestedMeta::Lit(_) => false,
            }) by {
                match items@[i] {
                    NestedMeta::Meta(a) => {
                        assert(decreases_to!(m => items));
                        lemma_no_substitution(a);
                    },
                    NestedMeta::Lit(_) => {},
                }
            }
        },
        _ => {},
    }
}

/// The settings after `args`, starting from `f`.
pub open spec fn parse_from(f: ParamsView, args: Seq<NestedMeta>) -> Result<ParamsView, crate::params::ParamError>
    decreases args.len(),
{
    if args.len() == 0 {
        Ok(f)
    } else {
        match parse_from(f, args.drop_last()) {
            Err(e) => Err(e),
            Ok(g) => parse_arg(g, args.last()),
        }
    }
}

pub proof fn lemma_fold_from(args: Seq<NestedMeta>)
    ensures
        parse_fold(args) == parse_from(empty_view(), args),
    decreases args.len(),
{
    if args.len() > 0 {
        assert(args.subrange(0, args.len() - 1) =~= args.drop_last());
        lemma_fold_from(args.drop_last());
    }
}

pub proof fn lemma_from_concat(f: ParamsView, a: Seq<NestedMeta>, b: Seq<NestedMeta>)
    ensures
        parse_from(f, a + b) == match parse_from(f, a) {
            Err(e) => Err(e),
            Ok(g) => parse_from(g, b),
        },
    decreases b.len(),
{
    if b.len() == 0 {
        assert(a + b =~= a);
    } else {
        assert((a + b).drop_last() =~= a + b.drop_last());
        assert((a + b).last() == b.last());
        lemma_from_concat(f, a, b.drop_last());
    }
}

/// The settings `g` after the ambient flags and dropped attributes of `f0` were read first.
pub open spec fn after_pre(f0: ParamsView, g: ParamsView) -> ParamsView {
    ParamsView {
        disable: f0.disable || g.disable,
        keep_self: f0.keep_self || g.keep_self,
        drop_attrs: f0.drop_attrs + g.drop_attrs,
        ..g
    }
}

/// Reading one argument commutes with having read the ambient flags and dropped attributes first.
proof fn lemma_arg_after_pre(f0: ParamsView, g: ParamsView, x: NestedMeta)
    ensures
        parse_arg(after_pre(f0, g), x) == match parse_arg(g, x) {
            Err(e) => Err(e),
            Ok(h) => Ok(after_pre(f0, h)),
        },
{
    match parse_arg(g, x) {
        Ok(h) => {
            let l = parse_arg(after_pre(f0, g), x);
            assert(l is Ok);
            let a = l->Ok_0;
            let b = after_pre(f0, h);
            assert(a.drop_attrs =~= b.drop_attrs);
            assert(a.disable == b.disable);
            assert(a.keep_self == b.keep_self);
            assert(a.idents == b.idents);
            assert(a.outer_attrs == b.outer_attrs);
            assert(a.inner_attrs == b.inner_attrs);
            assert(a.actions == b.actions);
            assert(a.replace_features == b.replace_features);
            assert(a.cfg == b.cfg);
            assert(a.key == b.key && a.prefix == b.prefix && a.send == b.send);
            assert(a == b);
        },
        Err(_) => {},
    }
}

pub proof fn lemma_from_after_pre(f0: ParamsView, args: Seq<NestedMeta>)
    requires
        f0 == (ParamsView { disable: f0.disable, keep_self: f0.keep_self, drop_attrs: f0.drop_attrs, ..empty_view() }),
    ensures
        parse_from(f0, args) == match parse_from(empty_view(), args) {
            Err(e) => Err(e),
            Ok(h) => Ok(after_pre(f0, h)),
        },
    decreases args.len(),
{
    if args.len() == 0 {
        assert(after_pre(f0, empty_view()) =~= f0);
    } else {
        lemma_from_after_pre(f0, args.drop_last());
        match parse_from(empty_view(), args.drop_last()) {
            Ok(g) => lemma_arg_after_pre(f0, g, args.last()),
            Err(_) => {},
        }
    }
}

proof fn lemma_entries_from(ids: Seq<(Seq<char>, crate::idents::IdentRule)>, list: Seq<NestedMeta>)
    ensures
        ident_entries(ids, list) == match ident_entries(Seq::empty(), list) {
            Err(e) => Err(e),
            Ok(y) => Ok(ids + y),
        },
    decreases list.len(),
{
    if list.len() == 0 {
        assert(ids + Seq::<(Seq<char>, crate::idents::IdentRule)>::empty() =~= ids);
    } else {
        lemma_entries_from(ids, list.drop_last());
        match ident_entries(Seq::empty(), list.drop_last()) {
            Ok(y) => {
                match crate::params::ident_entry(list.last()) {
                    Ok(z) => assert((ids + y).push(z) =~= ids + y.push(z)),
                    Err(_) => {},
                }
            },
            Err(_) => {},
        }
    }
}

/// The settings `g` after the ambient identifier rules and feature substitutions of `p`.
pub open spec fn after_post(g: ParamsView, p: ParamsView) -> ParamsView {
    ParamsView {
        idents: g.idents + p.idents,
        replace_features: g.replace_features + p.replace_features,
        ..g
    }
}

proof fn lemma_post_prefix(g: ParamsView, g1: ParamsView, p: MacroParameters, post: Seq<NestedMeta>, n: int, i: int)
    requires
        post_defaults(p, post),
        n == (if p.idents@.len() > 0 { 1int } else { 0int }),
        0 <= i <= p.replace_features@.len(),
        parse_from(g, post.subrange(0, n)) == Ok::<ParamsView, crate::params::ParamError>(g1),
    ensures
        parse_from(g, post.subrange(0, n + i)) == Ok::<ParamsView, crate::params::ParamError>(
            ParamsView { replace_features: g1.replace_features + pairs_view(p.replace_features@).subrange(0, i), ..g1 },
        ),
    decreases i,
{
    let rf = pairs_view(p.replace_features@);
    lemma_arg_names();
    if i == 0 {
        assert(g1.replace_features + rf.subrange(0, 0) =~= g1.replace_features);
        assert(g1 == (ParamsView { replace_features: g1.replace_features + rf.subrange(0, 0), ..g1 }));
    } else {
        let j = i - 1;
        lemma_post_prefix(g, g1, p, post, n, j);
        let k = n + j;
        let x = post[k];
        assert(k - n == j);
        assert(post.subrange(0, n + i).drop_last() =~= post.subrange(0, k));
        assert(post.subrange(0, n + i).last() == x);
        match x {
            NestedMeta::Meta(Meta::List(path, list)) => {
                assert(path_ident(path) == Some("replace_feature"@));
            },
            _ => {},
        }
        assert(rf.subrange(0, i) =~= rf.subrange(0, i - 1).push(rf[i - 1]));
        assert(g1.replace_features + rf.subrange(0, i) =~= (g1.replace_features + rf.subrange(0, i - 1)).push(rf[i - 1]));
    }
}

pub proof fn lemma_from_post(g: ParamsView, p: MacroParameters, post: Seq<NestedMeta>)
    requires
        post_defaults(p, post),
    ensures
        parse_from(g, post) == Ok::<ParamsView, crate::params::ParamError>(after_post(g, settings(p))),
{
    lemma_arg_names();
    let n: int = if p.idents@.len() > 0 { 1 } else { 0 };
    let g1 = ParamsView { idents: g.idents + rules_view(p.idents@), ..g };
    if n == 1 {
        match post[0] {
            NestedMeta::Meta(Meta::List(path, list)) => {
                lemma_entries_from(g.idents, list@);
                assert(post.subrange(0, 1).drop_last() =~= Seq::<NestedMeta>::empty());
                assert(post.subrange(0, 1).last() == post[0]);
                assert(parse_from(g, Seq::<NestedMeta>::empty()) == Ok::<ParamsView, crate::params::ParamError>(g));
                assert(parse_arg(g, post[0]) == Ok::<ParamsView, crate::params::ParamError>(g1));
            },
            _ => {},
        }
        assert(parse_from(g, post.subrange(0, 1)) == Ok::<ParamsView, crate::params::ParamError>(g1));
    } else {
        assert(rules_view(p.idents@) =~= Seq::<(Seq<char>, crate::idents::IdentRule)>::empty());
        assert(g.idents + rules_view(p.idents@) =~= g.idents);
        assert(g1 =~= g);
        assert(post.subrange(0, 0).len() == 0);
    }
    let rf = pairs_view(p.replace_features@);
    lemma_post_prefix(g, g1, p, post, n, rf.len() as int);
    let i = rf.len() as int;
    assert(post.subrange(0, n + i) =~= post);
    assert(rf.subrange(0, i) =~= rf);
    assert(after_post(g, settings(p)) =~= (ParamsView { replace_features: g1.replace_features + rf, ..g1 }));
}

/// Passing a block's ambient defaults `p` on as arguments before (`pre`) and after (`post`)
/// an invocation's own arguments `args` gives the invocation's own settings with `p`'s
/// inherited: flags joined, `p`'s dropped attributes first, `p`'s identifier rules and feature
/// substitutions last (so that `p` wins for a name given on both sides).
pub proof fn lemma_defaults_inherited(p: MacroParameters, pre: Seq<NestedMeta>, args: Seq<NestedMeta>, post: Seq<NestedMeta>)
    requires
        pre_defaults(p, pre),
        post_defaults(p, post),
        parse_fold(args) is Ok,
    ensures
        parse_fold(pre + args + post) == Ok::<ParamsView, crate::params::ParamError>(inherit(parse_fold(args)->Ok_0, settings(p))),
{
    let f = parse_fold(args)->Ok_0;
    let f0 = parse_fold(pre)->Ok_0;
    lemma_fold_from(pre);
    lemma_fold_from(args);
    lemma_fold_from(pre + args + post);
    lemma_from_concat(empty_view(), pre + args, post);
    lemma_from_concat(empty_view(), pre, args);
    assert(f0 == (ParamsView { disable: f0.disable, keep_self: f0.keep_self, drop_attrs: f0.drop_attrs, ..empty_view() }));
    lemma_from_after_pre(f0, args);
    lemma_from_post(after_pre(f0, f), p, post);
    assert(after_post(after_pre(f0, f), settings(p)) =~= inherit(f, settings(p)));
}

/// After a rendition inherits its parent's settings, the parent's rule for a name wins over
/// the rendition's own; a name that only the rendition has keeps the rendition's rule.
pub proof fn lemma_parent_rule_wins(c: ParamsView, p: ParamsView, name: Seq<char>)
    ensures
        rule_lookup(inherit(c, p).idents, name) == match rule_lookup(p.idents, name) {
            Some(r) => Some(r),
            None => rule_lookup(c.idents, name),
        },
{
    lemma_lookup_concat(c.idents, p.idents, name);
}

proof fn lemma_lookup_concat(a: Seq<(Seq<char>, crate::idents::IdentRule)>, b: Seq<(Seq<char>, crate::idents::IdentRule)>, name: Seq<char>)
    ensures
        rule_lookup(a + b, name) == match rule_lookup(b, name) {
            Some(r) => Some(r),
            None => rule_lookup(a, name),
        },
    decreases b.len(),
{
    if b.len() == 0 {
        assert(a + b =~= a);
    } else {
        assert((a + b).drop_last() =~= a + b.drop_last());
        assert((a + b).last() == b.last());
        lemma_lookup_concat(a, b.drop_last(), name);
    }
}

} // verus!
