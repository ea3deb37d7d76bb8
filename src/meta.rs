use vstd::prelude::*;

use crate::idents::pair_lookup;
use crate::idents::pairs_get;
use crate::idents::pairs_view;
use crate::strs::str_eq;

verus! {

/// A path such as `a::b::c`, as it stands in an attribute.
#[derive(Debug)]
pub struct MetaPath {
    pub leading_colon: bool,
    pub segments: Vec<String>,
}

/// A literal argument: a string literal with its value, or any other literal with its text.
#[derive(Debug)]
pub enum Lit {
    Str(String),
    Other(String),
}

/// One attribute argument: `path`, `path(list)` or `path = literal`.
#[derive(Debug)]
pub enum Meta {
    Path(MetaPath),
    List(MetaPath, Vec<NestedMeta>),
    NameValue(MetaPath, Lit),
}

/// An entry of an argument list: a meta item or a bare literal.
#[derive(Debug)]
pub enum NestedMeta {
    Meta(Meta),
    Lit(Lit),
}

/// The single identifier that a path consists of, if it is one.
pub open spec fn path_ident(p: MetaPath) -> Option<Seq<char>> {
    if !p.leading_colon && p.segments@.len() == 1 {
        Some(p.segments@[0]@)
    } else {
        None
    }
}

impl MetaPath {
    /// A path of one identifier.
    pub fn from_name(name: &str) -> (r: MetaPath)
        ensures
            path_ident(r) == Some(name@),
            r.segments@.len() == 1,
            !r.leading_colon,
    {
        let mut segments: Vec<String> = Vec::new();
        segments.push(String::from_str(name));
        MetaPath { leading_colon: false, segments }
    }

    /// The single identifier of the path, if it is one.
    pub fn get_ident(&self) -> (r: Option<&String>)
        ensures
            match r {
                Some(s) => path_ident(*self) == Some(s@),
                None => path_ident(*self).is_none(),
            },
    {
        if !self.leading_colon && self.segments.len() == 1 {
            Some(&self.segments[0])
        } else {
            None
        }
    }

    /// Whether the path is exactly the identifier `name`.
    pub fn is_ident(&self, name: &str) -> (r: bool)
        ensures
            r == (path_ident(*self) == Some(name@)),
    {
        match self.get_ident() {
            Some(s) => str_eq(s.as_str(), name),
            None => false,
        }
    }
}

/// `new` is `old` with the value of each `feature = "..."` pair that `subst` maps replaced,
/// at any depth of nested lists.
pub open spec fn features_replaced(old: Meta, new: Meta, subst: Seq<(Seq<char>, Seq<char>)>) -> bool
    decreases old,
{
    match old {
        Meta::NameValue(p, Lit::Str(s)) => {
            if path_ident(p) == Some("feature"@) && pair_lookup(subst, s@).is_some() {
                match new {
                    Meta::NameValue(q, Lit::Str(t)) => q == p && t@ == pair_lookup(subst, s@).unwrap(),
                    _ => false,
                }
            } else {
                new == old
            }
        },
        Meta::List(p, items) => {
            match new {
                Meta::List(q, news) => {
                    &&& q == p
                    &&& news@.len() == items@.len()
                    &&& forall|i: int| 0 <= i < items@.len() ==> {
                        match (#[trigger] items@[i], news@[i]) {
                            (NestedMeta::Meta(a), NestedMeta::Meta(b)) => features_replaced(a, b, subst),
                            (NestedMeta::Meta(_), NestedMeta::Lit(_)) => false,
                            (x, y) => y == x,
                        }
                    }
                },
                _ => false,
            }
        },
        _ => new == old,
    }
}

/// Whether some `feature = "..."` pair inside `m` has a value that `subst` maps.
pub open spec fn mentions_replaced_feature(m: Meta, subst: Seq<(Seq<char>, Seq<char>)>) -> bool
    decreases m,
{
    match m {
        Meta::NameValue(p, Lit::Str(s)) => path_ident(p) == Some("feature"@) && pair_lookup(subst, s@).is_some(),
        Meta::List(_, items) => exists|i: int| 0 <= i < items@.len() && match #[trigger] items@[i] {
            NestedMeta::Meta(a) => mentions_replaced_feature(a, subst),
            NestedMeta::Lit(_) => false,
        },
        _ => false,
    }
}

/// Substitutes feature names inside a condition tree; also says whether anything was replaced.
pub fn replace_features_meta(meta: Meta, subst: &Vec<(String, String)>) -> (r: (Meta, bool))
    ensures
        features_replaced(meta, r.0, pairs_view(subst@)),
        r.1 == mentions_replaced_feature(meta, pairs_view(subst@)),
    decreases meta,
{
    let ghost old_meta = meta;
    match meta {
        Meta::NameValue(path, Lit::Str(s)) => {
            if path.is_ident("feature") {
                match pairs_get(subst, s.as_str()) {
                    Some(new) => (Meta::NameValue(path, Lit::Str(new)), true),
                    None => (Meta::NameValue(path, Lit::Str(s)), false),
                }
            } else {
                (Meta::NameValue(path, Lit::Str(s)), false)
            }
        },
        Meta::List(path, items) => {
            let ghost olds = items@;
            let mut rest = items;
            let mut news: Vec<NestedMeta> = Vec::new();
            let mut changed = false;
            while rest.len() > 0
                invariant
                    news@.len() + rest@.len() == olds.len(),
                    rest@ == olds.subrange(news@.len() as int, olds.len() as int),
                    old_meta == Meta::List(path, items),
                    old_meta == meta,
                    olds == items@,
                    forall|i: int| 0 <= i < news@.len() ==> {
                        match (#[trigger] olds[i], news@[i]) {
                            (NestedMeta::Meta(a), NestedMeta::Meta(b)) => features_replaced(a, b, pairs_view(subst@)),
                            (NestedMeta::Meta(_), NestedMeta::Lit(_)) => false,
                            (x, y) => y == x,
                        }
                    },
                    changed == exists|i: int| 0 <= i < news@.len() && match #[trigger] olds[i] {
                        NestedMeta::Meta(a) => mentions_replaced_feature(a, pairs_view(subst@)),
                        NestedMeta::Lit(_) => false,
                    },
                decreases rest@.len(),
            {
                let ghost k = news@.len() as int;
                let item = rest.remove(0);
                assert(item == olds[k]);
                assert(old_meta->List_1 == items);
                assert(decreases_to!(old_meta => old_meta->List_1));
                assert(decreases_to!(items => items@));
                assert(decreases_to!(items@ => items@[k]));
                match item {
                    NestedMeta::Meta(m) => {
                        assert(olds[k]->Meta_0 == m);
                        assert(decreases_to!(olds[k] => olds[k]->Meta_0));
                        assert(decreases_to!(old_meta => m));
                        let (nm, c) = replace_features_meta(m, subst);
                        changed = changed || c;
                        news.push(NestedMeta::Meta(nm));
                    },
                    NestedMeta::Lit(l) => {
                        news.push(NestedMeta::Lit(l));
                    },
                }
                assert(rest@ == olds.subrange(news@.len() as int, olds.len() as int));
            }
            (Meta::List(path, news), changed)
        },
        other => (other, false),
    }
}

} // verus!
