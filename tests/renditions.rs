use maybe_async_cfg::idents::{ConvertMode, IdentMode, IdentRecord};
use maybe_async_cfg::macros::{convert, maybe, remove_asyncness, ItemKind};
use maybe_async_cfg::meta::{Lit, Meta, MetaPath, NestedMeta};
use maybe_async_cfg::params::{MacroParameterActionKind, MacroParameters, ParamError};
use maybe_async_cfg::visitor_async::{
    AsyncAwaitVisitor, Attr, AttrError, BoundModel, ExprKind, ExprRewrite, GenericParamModel,
    UseAction, UseNode, WherePredModel,
};
use maybe_async_cfg::visitor_content::{ContentVisitor, Delimiter, TokenTree};

fn path(name: &str) -> MetaPath {
    MetaPath { leading_colon: false, segments: vec![name.to_string()] }
}

fn word(name: &str) -> NestedMeta {
    NestedMeta::Meta(Meta::Path(path(name)))
}

fn nv(name: &str, value: &str) -> NestedMeta {
    NestedMeta::Meta(Meta::NameValue(path(name), Lit::Str(value.to_string())))
}

fn list(name: &str, items: Vec<NestedMeta>) -> NestedMeta {
    NestedMeta::Meta(Meta::List(path(name), items))
}

fn s(value: &str) -> NestedMeta {
    NestedMeta::Lit(Lit::Str(value.to_string()))
}

fn parse(args: Vec<NestedMeta>) -> MacroParameters {
    MacroParameters::from_args(args).expect("arguments parse")
}

fn rendition(params: MacroParameters, i: usize) -> (ConvertMode, MacroParameters) {
    let mut plans = maybe(params).expect("not disabled");
    let plan = plans.remove(i);
    (plan.mode, plan.params)
}

fn attr(segments: &[&str], args: Option<Vec<NestedMeta>>) -> Attr {
    Attr {
        origin: 0,
        outer: true,
        path: MetaPath { leading_colon: false, segments: segments.iter().map(|x| x.to_string()).collect() },
        args,
    }
}

fn feature_of(a: &Attr) -> String {
    match a.args.as_ref().map(|v| &v[0]) {
        Some(NestedMeta::Meta(Meta::NameValue(_, Lit::Str(v)))) => v.clone(),
        other => panic!("unexpected cfg arguments: {:?}", other),
    }
}

#[test]
fn default_suffixes_follow_style_and_direction() {
    let f = IdentRecord::with_fn_mode(true);
    let t = IdentRecord::new();
    assert_eq!(f.ident_add_suffix("foo", ConvertMode::IntoSync, None), "foo_sync");
    assert_eq!(f.ident_add_suffix("foo", ConvertMode::IntoAsync, None), "foo_async");
    assert_eq!(t.ident_add_suffix("Foo", ConvertMode::IntoSync, None), "FooSync");
    assert_eq!(t.ident_add_suffix("Foo", ConvertMode::IntoAsync, Some("async")), "FooAsync");
}

#[test]
fn keep_leaves_the_name_in_every_rendition() {
    let params = parse(vec![
        list("idents", vec![list("Foo", vec![word("keep"), nv("async", "Other")])]),
        list("sync", vec![]),
        list("async", vec![]),
    ]);
    let plans = maybe(params).unwrap();
    assert_eq!(plans.len(), 2);
    for plan in plans {
        let v = AsyncAwaitVisitor::new(plan.params, plan.mode);
        assert_eq!(v.process_ident("Foo", IdentMode::Other), Some("Foo".to_string()));
    }
}

#[test]
fn explicit_async_name_and_default_sync_name() {
    let params = parse(vec![
        list("idents", vec![list("Foo", vec![nv("async", "AsyncFoo")])]),
        list("sync", vec![]),
        list("async", vec![]),
    ]);
    let plans = maybe(params).unwrap();
    let mut names = vec![];
    for plan in plans {
        let v = AsyncAwaitVisitor::new(plan.params, plan.mode);
        names.push(v.process_ident("Foo", IdentMode::Other).unwrap());
    }
    assert_eq!(names, vec!["FooSync".to_string(), "AsyncFoo".to_string()]);
}

#[test]
fn per_key_name_wins_over_direction_name() {
    let params = parse(vec![
        list("idents", vec![list("Foo", vec![nv("sync", "Blocking"), nv("tokio", "TokioFoo")])]),
        list("sync", vec![]),
        list("async", vec![nv("key", "tokio")]),
    ]);
    let plans = maybe(params).unwrap();
    let mut names = vec![];
    for plan in plans {
        let v = AsyncAwaitVisitor::new(plan.params, plan.mode);
        names.push(v.process_ident("Foo", IdentMode::Other).unwrap());
    }
    assert_eq!(names, vec!["Blocking".to_string(), "TokioFoo".to_string()]);
}

#[test]
fn scenario_two_gated_renditions_of_a_function() {
    let params = parse(vec![
        list("sync", vec![nv("feature", "s")]),
        list("async", vec![nv("feature", "a")]),
    ]);
    let plans = maybe(params).unwrap();
    assert_eq!(plans.len(), 2);
    let expected = [("s", ConvertMode::IntoSync, "foo_sync", ExprRewrite::ToBase), ("a", ConvertMode::IntoAsync, "foo_async", ExprRewrite::Unchanged)];
    for (plan, (feat, mode, name, rewrite)) in plans.into_iter().zip(expected.iter()) {
        assert_eq!(plan.mode, *mode);
        assert!(plan.convert);
        match &plan.params.cfg {
            Some(Meta::NameValue(p, Lit::Str(v))) => {
                assert_eq!(p.segments, vec!["feature".to_string()]);
                assert_eq!(v, feat);
            }
            other => panic!("unexpected gate {:?}", other),
        }
        let mut p = plan.params;
        convert(&mut p, ItemKind::Fn, Some("foo")).unwrap();
        let v = AsyncAwaitVisitor::new(p, plan.mode);
        assert_eq!(v.process_ident("foo", IdentMode::Other).as_deref(), Some(*name));
        assert_eq!(v.process_expr(ExprKind::Await), *rewrite);
        assert_eq!(remove_asyncness(plan.mode), *mode == ConvertMode::IntoSync);
    }
}

#[test]
fn scenario_feature_replaced_only_in_sync_rendition() {
    let params = parse(vec![
        list("sync", vec![nv("feature", "s"), list("replace_feature", vec![s("x"), s("y")])]),
        list("async", vec![nv("feature", "a")]),
    ]);
    let plans = maybe(params).unwrap();
    let mut seen = vec![];
    for plan in plans {
        let v = AsyncAwaitVisitor::new(plan.params, plan.mode);
        let out = v.process_attrs(vec![attr(&["cfg"], Some(vec![nv("feature", "x")]))]).unwrap();
        seen.push(feature_of(&out[0]));
    }
    assert_eq!(seen, vec!["y".to_string(), "x".to_string()]);
}

#[test]
fn replace_feature_reaches_nested_conditions() {
    let params = parse(vec![list("sync", vec![list("replace_feature", vec![s("x"), s("y")])])]);
    let (mode, p) = rendition(params, 0);
    let v = AsyncAwaitVisitor::new(p, mode);
    let cond = list("any", vec![nv("feature", "x"), list("not", vec![nv("feature", "x")]), nv("feature", "z")]);
    let out = v.process_attrs(vec![attr(&["cfg"], Some(vec![cond]))]).unwrap();
    let text = format!("{:?}", out[0].args);
    assert_eq!(text.matches("\"y\"").count(), 2);
    assert_eq!(text.matches("\"x\"").count(), 0);
    assert_eq!(text.matches("\"z\"").count(), 1);
}

fn marker_target(v: &AsyncAwaitVisitor, marker: &str, arg: NestedMeta) -> String {
    let out = v.process_attrs(vec![attr(&["maybe_async_cfg", marker], Some(vec![arg]))]).unwrap();
    assert_eq!(out[0].path.segments[0], "maybe_async_cfg");
    out[0].path.segments[1].clone()
}

#[test]
fn only_if_and_remove_if_follow_the_rendition_key() {
    let params = parse(vec![list("sync", vec![]), list("async", vec![])]);
    let plans = maybe(params).unwrap();
    let mut got = vec![];
    for plan in plans {
        let v = AsyncAwaitVisitor::new(plan.params, plan.mode);
        got.push((
            marker_target(&v, "only_if", word("sync")),
            marker_target(&v, "remove_if", word("sync")),
            marker_target(&v, "only_if", nv("key", "async")),
            marker_target(&v, "remove_if", s("async")),
        ));
    }
    assert_eq!(got[0], ("noop".into(), "remove".into(), "remove".into(), "noop".into()));
    assert_eq!(got[1], ("remove".into(), "noop".into(), "noop".into(), "remove".into()));
}

#[test]
fn marker_argument_errors() {
    let (mode, p) = rendition(parse(vec![list("sync", vec![])]), 0);
    let v = AsyncAwaitVisitor::new(p, mode);
    let run = |args: Option<Vec<NestedMeta>>| v.process_attrs(vec![attr(&["maybe_async_cfg", "only_if"], args)]).unwrap_err();
    assert_eq!(run(None), AttrError::BadArguments);
    assert_eq!(run(Some(vec![])), AttrError::ExpectedIdent);
    assert_eq!(run(Some(vec![word("a"), word("b")])), AttrError::TooManyArguments);
    assert_eq!(run(Some(vec![nv("other", "a")])), AttrError::WrongIdent);
}

#[test]
fn drop_attrs_removes_named_attributes() {
    let (mode, p) = rendition(parse(vec![list("drop_attrs", vec![word("test")]), list("sync", vec![])]), 0);
    let v = AsyncAwaitVisitor::new(p, mode);
    let out = v.process_attrs(vec![attr(&["test"], None), attr(&["inline"], None), attr(&["tokio", "test"], None)]).unwrap();
    let names: Vec<Vec<String>> = out.iter().map(|a| a.path.segments.clone()).collect();
    assert_eq!(names, vec![vec!["inline".to_string()], vec!["tokio".to_string(), "test".to_string()]]);
}

#[test]
fn disable_yields_no_renditions() {
    let params = parse(vec![word("disable"), list("sync", vec![]), list("async", vec![])]);
    assert!(params.disable_get());
    assert!(maybe(params).is_none());
}

#[test]
fn disable_inside_a_rendition_keeps_its_body() {
    let params = parse(vec![list("sync", vec![word("disable")]), list("async", vec![])]);
    let plans = maybe(params).unwrap();
    assert_eq!(plans.iter().map(|p| p.convert).collect::<Vec<_>>(), vec![false, true]);
}

fn fn_generics() -> (Vec<GenericParamModel>, Vec<WherePredModel>) {
    let params = vec![
        GenericParamModel::Type("T".to_string(), vec![BoundModel::Trait("Future".to_string(), Some(0))]),
        GenericParamModel::Type("F".to_string(), vec![BoundModel::Trait("FnOnce".to_string(), None)]),
    ];
    let preds = vec![
        WherePredModel::Type(Some("T".to_string()), vec![BoundModel::Trait("Send".to_string(), None)]),
        WherePredModel::Type(Some("F".to_string()), vec![BoundModel::Other]),
    ];
    (params, preds)
}

#[test]
fn future_generic_is_erased_towards_sync() {
    let (mode, p) = rendition(parse(vec![list("sync", vec![])]), 0);
    let mut v = AsyncAwaitVisitor::new(p, mode);
    let (params, preds) = fn_generics();
    let (kp, kw) = v.process_item(&params, &preds);
    assert_eq!(kp, vec![false, true]);
    assert_eq!(kw, vec![false, true]);
    assert_eq!(v.process_path_segment("T"), Some(0));
    assert_eq!(v.process_path_segment("F"), None);
    v.after_process_item();
    assert_eq!(v.process_path_segment("T"), None);
}

#[test]
fn future_generic_is_kept_towards_async() {
    let (mode, p) = rendition(parse(vec![list("async", vec![])]), 0);
    let mut v = AsyncAwaitVisitor::new(p, mode);
    let (params, preds) = fn_generics();
    let (kp, kw) = v.process_item(&params, &preds);
    assert_eq!(kp, vec![true, true]);
    assert_eq!(kw, vec![true, true]);
    assert_eq!(v.process_path_segment("T"), None);
}

#[test]
fn nested_scopes_shadow_outer_ones() {
    let (mode, p) = rendition(parse(vec![list("sync", vec![])]), 0);
    let mut v = AsyncAwaitVisitor::new(p, mode);
    let outer = vec![GenericParamModel::Type("T".to_string(), vec![BoundModel::Trait("Future".to_string(), Some(1))])];
    let inner = vec![GenericParamModel::Type("T".to_string(), vec![BoundModel::Trait("Future".to_string(), Some(2))])];
    v.process_item(&outer, &vec![]);
    v.process_item(&inner, &vec![]);
    assert_eq!(v.process_path_segment("T"), Some(2));
    v.after_process_item();
    assert_eq!(v.process_path_segment("T"), Some(1));
}

#[test]
fn await_and_async_blocks_towards_sync() {
    let (mode, p) = rendition(parse(vec![list("sync", vec![])]), 0);
    let v = AsyncAwaitVisitor::new(p, mode);
    assert_eq!(v.process_expr(ExprKind::Async(1)), ExprRewrite::ToStatement);
    assert_eq!(v.process_expr(ExprKind::Async(3)), ExprRewrite::ToBlock);
    assert_eq!(v.process_expr(ExprKind::Other), ExprRewrite::Unchanged);
}

#[test]
fn import_style_idents_are_aliased() {
    let params = parse(vec![list("idents", vec![list("Client", vec![word("use")]), word("Conn")]), list("async", vec![])]);
    let (mode, p) = rendition(params, 0);
    let v = AsyncAwaitVisitor::new(p, mode);
    assert!(matches!(v.process_use_tree(&UseNode::Name("Client".into())), UseAction::Rename(n) if n == "ClientAsync"));
    assert!(matches!(v.process_use_tree(&UseNode::Name("Conn".into())), UseAction::Replace(n) if n == "ConnAsync"));
    assert!(matches!(v.process_use_tree(&UseNode::Path("Client".into())), UseAction::Keep));
    assert!(matches!(v.process_use_tree(&UseNode::Name("Other".into())), UseAction::Keep));
    assert_eq!(v.process_ident("Conn", IdentMode::Use), None);
}

#[test]
fn parent_rules_win_over_rendition_rules() {
    let params = parse(vec![
        list("idents", vec![list("Foo", vec![nv("sync", "Parent")])]),
        list("sync", vec![list("idents", vec![list("Foo", vec![nv("sync", "Child")])])]),
    ]);
    let (mode, p) = rendition(params, 0);
    assert_eq!(p.key_get().map(|k| k.as_str()), Some("sync"));
    let v = AsyncAwaitVisitor::new(p, mode);
    assert_eq!(v.process_ident("Foo", IdentMode::Other).as_deref(), Some("Parent"));
}

#[test]
fn settings_parse_and_inherit() {
    let params = parse(vec![
        nv("prefix", "mac"),
        nv("send", "?Send"),
        word("keep_self"),
        list("drop_attrs", vec![word("a")]),
        list("outer", vec![word("inline")]),
        list("sync", vec![nv("key", "blocking"), list("drop_attrs", vec![word("b")]), s("doc = \"x\""), word("cold"), list("custom", vec![word("z")])]),
    ]);
    assert_eq!(params.prefix_get(), "mac");
    assert_eq!(params.send_get(), Some(false));
    assert!(params.keep_self_get());
    assert_eq!(params.outer_attrs.len(), 1);
    let (_, p) = rendition(params, 0);
    assert!(p.keep_self_get());
    assert_eq!(p.key_get().map(|k| k.as_str()), Some("blocking"));
    assert_eq!(p.drop_attrs, vec!["a".to_string(), "b".to_string()]);
    assert!(p.drop_attrs_contains(&"b".to_string()));
    assert_eq!(p.inner_attrs.len(), 3);
    assert_eq!(MacroParameters::new().prefix_get(), "maybe_async_cfg");
}

#[test]
fn send_values() {
    for (text, value) in [("", true), ("Send", true), ("true", true), ("?Send", false), ("false", false)] {
        assert_eq!(parse(vec![nv("send", text)]).send_get(), Some(value));
    }
    assert_eq!(MacroParameters::from_args(vec![nv("send", "maybe")]).unwrap_err(), ParamError::WrongSend);
}

#[test]
fn argument_errors() {
    let err = |args: Vec<NestedMeta>| MacroParameters::from_args(args).unwrap_err();
    let two = MetaPath { leading_colon: false, segments: vec!["a".into(), "b".into()] };
    assert_eq!(err(vec![NestedMeta::Meta(Meta::NameValue(two, Lit::Str("x".into())))]), ParamError::ExpectedName);
    assert_eq!(err(vec![NestedMeta::Meta(Meta::NameValue(path("key"), Lit::Other("1".into())))]), ParamError::ExpectedStringLiteral);
    assert_eq!(err(vec![nv("color", "red")]), ParamError::WrongNameValue);
    assert_eq!(err(vec![list("cfg", vec![])]), ParamError::ExpectedCondition);
    assert_eq!(err(vec![list("idents", vec![NestedMeta::Meta(Meta::Path(MetaPath { leading_colon: true, segments: vec!["x".into()] }))])]), ParamError::ExpectedIdent);
    assert_eq!(err(vec![list("idents", vec![list("Foo", vec![word("bogus")])])]), ParamError::ExpectedIdentOption);
    assert_eq!(err(vec![list("idents", vec![list("Foo", vec![s("x")])])]), ParamError::ExpectedIdentOptionValue);
    assert_eq!(err(vec![list("idents", vec![nv("Foo", "x")])]), ParamError::ExpectedIdentEntry);
    assert_eq!(err(vec![list("drop_attrs", vec![s("x")])]), ParamError::ExpectedListOfIdents);
    assert_eq!(err(vec![list("replace_feature", vec![s("x")])]), ParamError::ExpectedTwoStrings);
    assert_eq!(err(vec![list("sync", vec![nv("send", "no")])]), ParamError::WrongSend);
    assert_eq!(err(vec![NestedMeta::Lit(Lit::Other("3".into()))]), ParamError::ExpectedStringLiteral);
    assert_eq!(ParamError::WrongSend.message(), "Only accepts `Send` or `?Send`");
}

#[test]
fn action_kind_names() {
    assert_eq!(MacroParameterActionKind::from_str("sync").map(|k| k.to_str()), Some("sync"));
    assert_eq!(MacroParameterActionKind::from_str("async").map(|k| k.to_str()), Some("async"));
    assert!(MacroParameterActionKind::from_str("other").is_none());
}

#[test]
fn unsupported_item_kind_is_refused() {
    let mut p = MacroParameters::new();
    assert!(convert(&mut p, ItemKind::Other, None).is_err());
    let mut q = parse(vec![word("keep_self")]);
    convert(&mut q, ItemKind::Struct, Some("S")).unwrap();
    assert!(q.idents_get("S").is_none());
    let mut r = MacroParameters::new();
    convert(&mut r, ItemKind::Struct, Some("S")).unwrap();
    assert!(!r.idents_get("S").unwrap().fn_mode);
}

fn ident(n: &str) -> TokenTree {
    TokenTree::Ident(n.to_string())
}

fn punct(c: char, joint: bool) -> TokenTree {
    TokenTree::Punct(c, joint)
}

fn invocation(args: Vec<TokenTree>) -> Vec<TokenTree> {
    vec![
        punct('#', false),
        TokenTree::Group(
            Delimiter::Bracket,
            vec![ident("maybe_async_cfg"), punct(':', true), punct(':', false), ident("maybe"), TokenTree::Group(Delimiter::Parenthesis, args)],
        ),
    ]
}

fn text(ts: &[TokenTree]) -> String {
    let mut out = String::new();
    for t in ts {
        match t {
            TokenTree::Group(d, v) => {
                let (o, c) = match d {
                    Delimiter::Parenthesis => ("(", ")"),
                    Delimiter::Brace => ("{", "}"),
                    Delimiter::Bracket => ("[", "]"),
                    Delimiter::NoDelim => ("", ""),
                };
                out.push_str(o);
                out.push_str(&text(v));
                out.push_str(c);
            }
            TokenTree::Ident(n) => {
                out.push_str(n);
                out.push(' ');
            }
            TokenTree::Punct(c, _) => out.push(*c),
            TokenTree::Literal(Lit::Str(v)) => out.push_str(&format!("{:?}", v)),
            TokenTree::Literal(Lit::Other(v)) => out.push_str(v),
        }
    }
    out
}

fn content_with_defaults(args: Vec<NestedMeta>) -> ContentVisitor {
    let mut c = ContentVisitor::new();
    let default = Attr {
        origin: 0,
        outer: false,
        path: MetaPath { leading_colon: false, segments: vec!["maybe_async_cfg".into(), "default".into()] },
        args: Some(args),
    };
    let rest = c.process_file(vec![default, attr(&["inline"], None)]).unwrap();
    assert_eq!(rest.len(), 1);
    c
}

#[test]
fn scanner_merges_defaults_into_nested_invocations() {
    let c = content_with_defaults(vec![list("idents", vec![word("Foo")]), list("drop_attrs", vec![word("x")])]);
    let own = vec![ident("sync"), TokenTree::Group(Delimiter::Parenthesis, vec![])];
    let body = vec![TokenTree::Group(Delimiter::Brace, invocation(own)), ident("fn")];
    let out = c.search_maybe_in_tokenstream(body, 0);
    assert_eq!(text(&out), "{#[maybe_async_cfg ::maybe (drop_attrs (x ,),sync (),idents (Foo (),),)]}fn ");
}

#[test]
fn scanner_leaves_other_attributes() {
    let c = content_with_defaults(vec![list("idents", vec![word("Foo")])]);
    let body = vec![punct('#', false), TokenTree::Group(Delimiter::Bracket, vec![ident("other"), punct(':', true), punct(':', false), ident("maybe"), TokenTree::Group(Delimiter::Parenthesis, vec![])])];
    let before = text(&body);
    let out = c.search_maybe_in_tokenstream(body, 0);
    assert_eq!(text(&out), before);
}

#[test]
fn direct_invocations_get_the_defaults() {
    let c = content_with_defaults(vec![word("keep_self"), list("replace_feature", vec![s("a"), s("b")])]);
    let a = c.process_attribute(attr(&["maybe_async_cfg", "maybe"], Some(vec![list("sync", vec![])])));
    let merged = MacroParameters::from_args(a.args.unwrap()).unwrap();
    assert!(merged.keep_self_get());
    assert_eq!(merged.replace_features_get("a"), Some("b".to_string()));
    let (_, p) = rendition(merged, 0);
    assert_eq!(p.replace_features_get("a"), Some("b".to_string()));
}

#[test]
fn configuration_round_trips_through_arguments() {
    let params = parse(vec![
        word("keep_self"),
        nv("prefix", "mac"),
        nv("send", "?Send"),
        list("idents", vec![list("Foo", vec![word("fn"), nv("async", "AFoo"), nv("tokio", "TFoo")]), word("Bar")]),
        list("drop_attrs", vec![word("x")]),
        list("replace_feature", vec![s("a"), s("b")]),
        list("outer", vec![word("inline")]),
        list("sync", vec![nv("feature", "s")]),
        list("async", vec![nv("feature", "a"), nv("key", "tokio")]),
    ]);
    let again = MacroParameters::from_args(params.to_nestedmeta()).unwrap();
    assert!(again.keep_self_get());
    assert_eq!(again.prefix_get(), "mac");
    assert_eq!(again.send_get(), Some(false));
    assert_eq!(again.drop_attrs, vec!["x".to_string()]);
    assert_eq!(again.replace_features_get("a"), Some("b".to_string()));
    assert_eq!(again.outer_attrs.len(), 1);
    let plans = maybe(again).unwrap();
    let mut names = vec![];
    for plan in plans {
        let key = plan.params.key_get().cloned();
        let v = AsyncAwaitVisitor::new(plan.params, plan.mode);
        names.push((key, v.process_ident("Foo", IdentMode::Other), v.process_ident("Bar", IdentMode::Other)));
    }
    assert_eq!(names[0], (Some("sync".to_string()), Some("Foo_sync".to_string()), Some("BarSync".to_string())));
    assert_eq!(names[1], (Some("tokio".to_string()), Some("TFoo".to_string()), Some("BarAsync".to_string())));
}

#[test]
fn configuration_tokens_read_as_arguments() {
    let params = parse(vec![word("disable"), list("sync", vec![])]);
    let ts = params.to_tokens();
    // The rendition carries the disable flag it inherited.
    assert_eq!(text(&ts), "disable ,sync (disable ,key =\"sync\",),");
}
