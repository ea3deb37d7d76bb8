use vstd::prelude::*;

use crate::strs::concat_str;
use crate::strs::str_eq;

verus! {

/// Which flavour of a declaration is being produced.
#[derive(Debug, Clone, Copy, PartialEq, Eq, Structural)]
pub enum ConvertMode {
    IntoSync,
    IntoAsync,
}

/// Where an identifier occurs: inside an import list, or anywhere else.
#[derive(Debug, Clone, Copy, PartialEq, Eq, Structural)]
pub enum IdentMode {
    Use,
    Other,
}

impl IdentMode {
    pub fn default() -> (r: IdentMode)
        ensures
            r == IdentMode::Other,
    {
        IdentMode::Other
    }
}

/// The last value bound to `key` in a list of name pairs (later entries override earlier ones).
pub open spec fn pair_lookup(pairs: Seq<(Seq<char>, Seq<char>)>, key: Seq<char>) -> Option<Seq<char>>
    decreases pairs.len(),
{
    if pairs.len() == 0 {
        None
    } else if pairs.last().0 == key {
        Some(pairs.last().1)
    } else {
        pair_lookup(pairs.drop_last(), key)
    }
}

/// A list of string pairs seen as pairs of character sequences.
pub open spec fn pairs_view(pairs: Seq<(String, String)>) -> Seq<(Seq<char>, Seq<char>)> {
    pairs.map_values(|p: (String, String)| (p.0@, p.1@))
}

/// A copy of a list of string pairs.
pub fn clone_pairs(pairs: &Vec<(String, String)>) -> (r: Vec<(String, String)>)
    ensures
        pairs_view(r@) == pairs_view(pairs@),
{
    let mut r: Vec<(String, String)> = Vec::new();
    let mut i: usize = 0;
    while i < pairs.len()
        invariant
            i <= pairs@.len(),
            pairs_view(r@) =~= pairs_view(pairs@.subrange(0, i as int)),
        decreases pairs@.len() - i,
    {
        let a = pairs[i].0.clone();
        let b = pairs[i].1.clone();
        let ghost prev = r@;
        r.push((a, b));
        assert(r@ == prev.push((a, b)));
        assert(pairs_view(r@) =~= pairs_view(prev).push((pairs@[i as int].0@, pairs@[i as int].1@)));
        assert(pairs@.subrange(0, i + 1) =~= pairs@.subrange(0, i as int).push(pairs@[i as int]));
        i = i + 1;
        assert(pairs_view(r@) =~= pairs_view(pairs@.subrange(0, i as int)));
    }
    assert(pairs@.subrange(0, i as int) =~= pairs@);
    r
}

/// Finds the value bound to `key`, looking from the newest entry backwards.
pub fn pairs_get(pairs: &Vec<(String, String)>, key: &str) -> (r: Option<String>)
    ensures
        match r {
            Some(v) => pair_lookup(pairs_view(pairs@), key@) == Some(v@),
            None => pair_lookup(pairs_view(pairs@), key@).is_none(),
        },
{
    let mut i: usize = pairs.len();
    assert(pairs_view(pairs@.subrange(0, i as int)) =~= pairs_view(pairs@));
    while i > 0
        invariant
            i <= pairs@.len(),
            pair_lookup(pairs_view(pairs@), key@) == pair_lookup(pairs_view(pairs@.subrange(0, i as int)), key@),
        decreases i,
    {
        let ghost s = pairs_view(pairs@.subrange(0, i as int));
        assert(s.drop_last() =~= pairs_view(pairs@.subrange(0, i - 1)));
        if str_eq(pairs[i - 1].0.as_str(), key) {
            return Some(pairs[i - 1].1.clone());
        }
        i = i - 1;
    }
    assert(pairs_view(pairs@.subrange(0, 0)).len() == 0);
    None
}

/// The suffix appended to a renamed identifier by default.
pub open spec fn default_suffix(fn_mode: bool, mode: ConvertMode) -> Seq<char> {
    match (fn_mode, mode) {
        (false, ConvertMode::IntoAsync) => "Async"@,
        (false, ConvertMode::IntoSync) => "Sync"@,
        (true, ConvertMode::IntoAsync) => "_async"@,
        (true, ConvertMode::IntoSync) => "_sync"@,
    }
}

/// How one identifier is renamed in each rendition.
#[derive(Debug)]
pub struct IdentRecord {
    pub fn_mode: bool,
    pub use_mode: bool,
    pub keep: bool,
    pub ident_sync: Option<String>,
    pub ident_async: Option<String>,
    /// Explicit names per rendition key; a later pair overrides an earlier one.
    pub idents: Option<Vec<(String, String)>>,
}

/// What an identifier record says, over character sequences.
pub struct IdentRule {
    pub fn_mode: bool,
    pub use_mode: bool,
    pub keep: bool,
    pub ident_sync: Option<Seq<char>>,
    pub ident_async: Option<Seq<char>>,
    pub idents: Option<Seq<(Seq<char>, Seq<char>)>>,
}

pub open spec fn opt_string_view(o: Option<String>) -> Option<Seq<char>> {
    match o {
        Some(s) => Some(s@),
        None => None,
    }
}

pub fn clone_opt_string(o: &Option<String>) -> (r: Option<String>)
    ensures
        opt_string_view(r) == opt_string_view(*o),
{
    match o {
        Some(s) => Some(s.clone()),
        None => None,
    }
}

impl View for IdentRecord {
    type V = IdentRule;

    open spec fn view(&self) -> IdentRule {
        IdentRule {
            fn_mode: self.fn_mode,
            use_mode: self.use_mode,
            keep: self.keep,
            ident_sync: opt_string_view(self.ident_sync),
            ident_async: opt_string_view(self.ident_async),
            idents: match self.idents {
                Some(p) => Some(pairs_view(p@)),
                None => None,
            },
        }
    }
}

impl Clone for IdentRecord {
    fn clone(&self) -> (r: Self)
        ensures
            r@ == self@,
    {
        IdentRecord {
            fn_mode: self.fn_mode,
            use_mode: self.use_mode,
            keep: self.keep,
            ident_sync: clone_opt_string(&self.ident_sync),
            ident_async: clone_opt_string(&self.ident_async),
            idents: match &self.idents {
                Some(p) => Some(clone_pairs(p)),
                None => None,
            },
        }
    }
}

/// The explicit name given for one direction, if any.
pub open spec fn direction_name(r: IdentRule, mode: ConvertMode) -> Option<Seq<char>> {
    match mode {
        ConvertMode::IntoSync => r.ident_sync,
        ConvertMode::IntoAsync => r.ident_async,
    }
}

/// The explicit name given for a rendition key, if any.
pub open spec fn key_name(r: IdentRule, key: Option<Seq<char>>) -> Option<Seq<char>> {
    match (key, r.idents) {
        (Some(k), Some(pairs)) => pair_lookup(pairs, k),
        _ => None,
    }
}

/// The name an identifier gets under a record: kept as it is; else the name given for the
/// rendition key; else the name given for the direction; else the default suffix.
pub open spec fn renamed(r: IdentRule, ident: Seq<char>, mode: ConvertMode, key: Option<Seq<char>>) -> Seq<char> {
    if r.keep {
        ident
    } else if key_name(r, key).is_some() {
        key_name(r, key).unwrap()
    } else if direction_name(r, mode).is_some() {
        direction_name(r, mode).unwrap()
    } else {
        ident + default_suffix(r.fn_mode, mode)
    }
}

pub open spec fn opt_view(o: Option<&str>) -> Option<Seq<char>> {
    match o {
        Some(s) => Some(s@),
        None => None,
    }
}

impl IdentRecord {
    pub fn new() -> (r: Self)
        ensures
            !r.fn_mode,
            !r.use_mode,
            !r.keep,
            r.ident_sync.is_none(),
            r.ident_async.is_none(),
            r.idents.is_none(),
    {
        IdentRecord {
            fn_mode: false,
            use_mode: false,
            keep: false,
            ident_sync: None,
            ident_async: None,
            idents: None,
        }
    }

    pub fn with_fn_mode(fn_mode: bool) -> (r: Self)
        ensures
            r.fn_mode == fn_mode,
            !r.use_mode,
            !r.keep,
            r.ident_sync.is_none(),
            r.ident_async.is_none(),
            r.idents.is_none(),
    {
        IdentRecord {
            fn_mode,
            use_mode: false,
            keep: false,
            ident_sync: None,
            ident_async: None,
            idents: None,
        }
    }

    /// The name that `ident` takes in the rendition with direction `convert_mode` and key
    /// `version_name`.
    pub fn ident_add_suffix(&self, ident: &str, convert_mode: ConvertMode, version_name: Option<&str>) -> (r: String)
        ensures
            r@ == renamed(self@, ident@, convert_mode, opt_view(version_name)),
    {
        if self.keep {
            return String::from_str(ident);
        }
        if let Some(version_name) = version_name {
            if let Some(idents) = &self.idents {
                if let Some(value) = pairs_get(idents, version_name) {
                    return value;
                }
            }
        }
        match convert_mode {
            ConvertMode::IntoSync => {
                if let Some(name) = &self.ident_sync {
                    return name.clone();
                }
            },
            ConvertMode::IntoAsync => {
                if let Some(name) = &self.ident_async {
                    return name.clone();
                }
            },
        }
        match (self.fn_mode, convert_mode) {
            (false, ConvertMode::IntoAsync) => concat_str(ident, "Async"),
            (false, ConvertMode::IntoSync) => concat_str(ident, "Sync"),
            (true, ConvertMode::IntoAsync) => concat_str(ident, "_async"),
            (true, ConvertMode::IntoSync) => concat_str(ident, "_sync"),
        }
    }
}

} // verus!
