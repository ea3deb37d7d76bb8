use vstd::prelude::*;

use pulldown_cmark::CodeBlockKind;
use pulldown_cmark::Event;
use pulldown_cmark::Tag;
use vstd::string::StringSliceAdditionalSpecFns;
use vstd::utf8::encode_utf8;
use vstd::utf8::encode_utf8_valid_utf8;
use vstd::utf8::is_char_boundary;

use crate::strs::concat_str;
use crate::strs::str_eq;

verus! {

/// Unicode White_Space, as `char::is_whitespace` documents it.
pub open spec fn is_ws(c: char) -> bool {
    ('\u{9}' <= c && c <= '\u{d}') || c == ' ' || c == '\u{85}' || c == '\u{a0}' || c == '\u{1680}'
        || ('\u{2000}' <= c && c <= '\u{200a}') || c == '\u{2028}' || c == '\u{2029}' || c == '\u{202f}'
        || c == '\u{205f}' || c == '\u{3000}'
}

pub fn is_whitespace(c: char) -> (r: bool)
    ensures
        r == is_ws(c),
{
    ('\u{9}' <= c && c <= '\u{d}') || c == ' ' || c == '\u{85}' || c == '\u{a0}' || c == '\u{1680}'
        || ('\u{2000}' <= c && c <= '\u{200a}') || c == '\u{2028}' || c == '\u{2029}' || c == '\u{202f}'
        || c == '\u{205f}' || c == '\u{3000}'
}

/// The number of leading characters of `s` that are whitespace.
pub open spec fn lead_ws(s: Seq<char>) -> nat
    decreases s.len(),
{
    if s.len() > 0 && is_ws(s[0]) {
        1 + lead_ws(s.subrange(1, s.len() as int))
    } else {
        0
    }
}

/// The number of trailing characters of `s` that are whitespace.
pub open spec fn trail_ws(s: Seq<char>) -> nat
    decreases s.len(),
{
    if s.len() > 0 && is_ws(s.last()) {
        1 + trail_ws(s.drop_last())
    } else {
        0
    }
}

/// `s` without leading and trailing whitespace.
pub open spec fn trim(s: Seq<char>) -> Seq<char> {
    let a = lead_ws(s) as int;
    let t = s.subrange(a, s.len() as int);
    t.subrange(0, t.len() - trail_ws(t) as int)
}

proof fn lemma_lead_ws(s: Seq<char>)
    ensures
        lead_ws(s) <= s.len(),
        forall|i: int| 0 <= i < lead_ws(s) ==> is_ws(#[trigger] s[i]),
        lead_ws(s) < s.len() ==> !is_ws(s[lead_ws(s) as int]),
    decreases s.len(),
{
    if s.len() > 0 && is_ws(s[0]) {
        let t = s.subrange(1, s.len() as int);
        lemma_lead_ws(t);
        assert forall|i: int| 0 <= i < lead_ws(s) implies is_ws(#[trigger] s[i]) by {
            if i > 0 {
                assert(s[i] == t[i - 1]);
            }
        }
        if lead_ws(s) < s.len() {
            assert(s[lead_ws(s) as int] == t[lead_ws(t) as int]);
        }
    }
}

proof fn lemma_trail_ws(s: Seq<char>)
    ensures
        trail_ws(s) <= s.len(),
        forall|i: int| s.len() - trail_ws(s) <= i < s.len() ==> is_ws(#[trigger] s[i]),
        trail_ws(s) < s.len() ==> !is_ws(s[s.len() - trail_ws(s) - 1]),
    decreases s.len(),
{
    if s.len() > 0 && is_ws(s.last()) {
        let t = s.drop_last();
        lemma_trail_ws(t);
        assert forall|i: int| s.len() - trail_ws(s) <= i < s.len() implies is_ws(#[trigger] s[i]) by {
            if i < s.len() - 1 {
                assert(s[i] == t[i]);
            }
        }
        if trail_ws(s) < s.len() {
            assert(s[s.len() - trail_ws(s) - 1] == t[t.len() - trail_ws(t) - 1]);
        }
    }
}

/// The number of leading whitespace characters, counted on the string.
fn count_lead_ws(s: &str) -> (r: usize)
    ensures
        r == lead_ws(s@),
{
    proof { lemma_lead_ws(s@); }
    let n = s.unicode_len();
    let mut i: usize = 0;
    while i < n && is_whitespace(s.get_char(i))
        invariant
            n == s@.len(),
            i <= n,
            forall|j: int| 0 <= j < i ==> is_ws(#[trigger] s@[j]),
        decreases n - i,
    {
        i = i + 1;
    }
    proof { lemma_lead_ws_exact(s@, i as int); }
    i
}

proof fn lemma_lead_ws_exact(s: Seq<char>, i: int)
    requires
        0 <= i <= s.len(),
        forall|j: int| 0 <= j < i ==> is_ws(#[trigger] s[j]),
        i < s.len() ==> !is_ws(s[i]),
    ensures
        lead_ws(s) == i,
    decreases i,
{
    if i > 0 {
        let t = s.subrange(1, s.len() as int);
        assert forall|j: int| 0 <= j < i - 1 implies is_ws(#[trigger] t[j]) by {
            assert(t[j] == s[j + 1]);
        }
        if i - 1 < t.len() {
            assert(t[i - 1] == s[i]);
        }
        lemma_lead_ws_exact(t, i - 1);
    }
}

proof fn lemma_trail_ws_exact(s: Seq<char>, i: int)
    requires
        0 <= i <= s.len(),
        forall|j: int| s.len() - i <= j < s.len() ==> is_ws(#[trigger] s[j]),
        i < s.len() ==> !is_ws(s[s.len() - i - 1]),
    ensures
        trail_ws(s) == i,
    decreases i,
{
    if i > 0 {
        let t = s.drop_last();
        assert forall|j: int| t.len() - (i - 1) <= j < t.len() implies is_ws(#[trigger] t[j]) by {
            assert(t[j] == s[j]);
        }
        if i - 1 < t.len() {
            assert(t[t.len() - (i - 1) - 1] == s[s.len() - i - 1]);
        }
        lemma_trail_ws_exact(t, i - 1);
    }
}

/// `s` without leading and trailing whitespace.
pub fn trim_str(s: &str) -> (r: String)
    ensures
        r@ == trim(s@),
{
    let a = count_lead_ws(s);
    proof { lemma_lead_ws(s@); }
    let n = s.unicode_len();
    let t = s.substring_char(a, n);
    let m = t.unicode_len();
    let mut k: usize = 0;
    while k < m && is_whitespace(t.get_char(m - 1 - k))
        invariant
            m == t@.len(),
            k <= m,
            forall|j: int| m - k <= j < m ==> is_ws(#[trigger] t@[j]),
        decreases m - k,
    {
        k = k + 1;
    }
    proof { lemma_trail_ws_exact(t@, k as int); }
    String::from_str(t.substring_char(0, m - k))
}

/// A separator between the tokens of a code block's language string.
pub open spec fn is_sep(c: char) -> bool {
    c == ',' || c == ' ' || c == '\t'
}

/// The pieces of `s` between separators, in order (there is always at least one).
pub open spec fn pieces(s: Seq<char>) -> Seq<Seq<char>>
    decreases s.len(),
{
    if s.len() == 0 {
        seq![Seq::empty()]
    } else if is_sep(s.last()) {
        pieces(s.drop_last()).push(Seq::empty())
    } else {
        let p = pieces(s.drop_last());
        p.update(p.len() - 1, p.last().push(s.last()))
    }
}

proof fn lemma_pieces_nonempty(s: Seq<char>)
    ensures
        pieces(s).len() >= 1,
    decreases s.len(),
{
    if s.len() > 0 {
        lemma_pieces_nonempty(s.drop_last());
    }
}

/// A token trimmed and without one leading `.`.
pub open spec fn clean(t: Seq<char>) -> Seq<char> {
    let u = trim(t);
    if u.len() > 0 && u[0] == '.' {
        u.subrange(1, u.len() as int)
    } else {
        u
    }
}

/// The cleaned pieces that are not empty.
pub open spec fn toks(ps: Seq<Seq<char>>) -> Seq<Seq<char>>
    decreases ps.len(),
{
    if ps.len() == 0 {
        Seq::empty()
    } else if clean(ps.last()).len() > 0 {
        toks(ps.drop_last()).push(clean(ps.last()))
    } else {
        toks(ps.drop_last())
    }
}

/// A language string without one pair of surrounding braces.
pub open spec fn unbrace(s: Seq<char>) -> Seq<char> {
    if s.len() >= 2 && s[0] == '{' && s.last() == '}' {
        s.subrange(1, s.len() - 1)
    } else {
        s
    }
}

/// The tokens of a code block's language string: trimmed, without surrounding braces,
/// split at commas, spaces and tabs, each trimmed and without a leading dot, empty ones left out.
pub open spec fn lang_tokens(s: Seq<char>) -> Seq<Seq<char>> {
    toks(pieces(unbrace(trim(s))))
}

pub open spec fn strings_view(v: Seq<String>) -> Seq<Seq<char>> {
    v.map_values(|x: String| x@)
}

fn clean_str(t: &str) -> (r: String)
    ensures
        r@ == clean(t@),
{
    let u = trim_str(t);
    let n = u.as_str().unicode_len();
    if n > 0 && u.as_str().get_char(0) == '.' {
        String::from_str(u.as_str().substring_char(1, n))
    } else {
        u
    }
}

pub fn as_lang_tokens(string: &str) -> (r: Vec<String>)
    ensures
        strings_view(r@) == lang_tokens(string@),
{
    let t = trim_str(string);
    let ts = t.as_str();
    let n = ts.unicode_len();
    let inner = if n >= 2 && ts.get_char(0) == '{' && ts.get_char(n - 1) == '}' {
        ts.substring_char(1, n - 1)
    } else {
        ts
    };
    assert(inner@ == unbrace(trim(string@)));
    let m = inner.unicode_len();
    let mut out: Vec<String> = Vec::new();
    let mut start: usize = 0;
    let mut i: usize = 0;
    assert(inner@.subrange(0, 0) =~= Seq::<char>::empty());
    assert(inner@.subrange(0, 0) =~= inner@.subrange(0, 0));
    while i < m
        invariant
            m == inner@.len(),
            start <= i <= m,
            pieces(inner@.subrange(0, i as int)).len() >= 1,
            pieces(inner@.subrange(0, i as int)).last() == inner@.subrange(start as int, i as int),
            strings_view(out@) == toks(pieces(inner@.subrange(0, i as int)).drop_last()),
        decreases m - i,
    {
        let c = inner.get_char(i);
        let ghost pre = inner@.subrange(0, i as int);
        let ghost next = inner@.subrange(0, i + 1);
        assert(next.drop_last() =~= pre);
        assert(next.last() == c);
        proof { lemma_pieces_nonempty(pre); }
        if c == ',' || c == ' ' || c == '\t' {
            let piece = clean_str(inner.substring_char(start, i));
            let ghost ps = pieces(pre);
            assert(pieces(next) == ps.push(Seq::<char>::empty()));
            assert(pieces(next).drop_last() == ps);
            assert(toks(ps) == if clean(ps.last()).len() > 0 { toks(ps.drop_last()).push(clean(ps.last())) } else { toks(ps.drop_last()) });
            if piece.as_str().unicode_len() > 0 {
                let ghost before = out@;
                out.push(piece);
                assert(strings_view(out@) =~= strings_view(before).push(clean(ps.last())));
            }
            start = i + 1;
            assert(inner@.subrange(start as int, i + 1) =~= Seq::<char>::empty());
        } else {
            let ghost ps = pieces(pre);
            assert(pieces(next) == ps.update(ps.len() - 1, ps.last().push(c)));
            assert(pieces(next).drop_last() =~= ps.drop_last());
            assert(inner@.subrange(start as int, i + 1) =~= inner@.subrange(start as int, i as int).push(c));
        }
        i = i + 1;
    }
    assert(inner@.subrange(0, m as int) =~= inner@);
    let piece = clean_str(inner.substring_char(start, m));
    let ghost ps = pieces(inner@);
    assert(toks(ps) == if clean(ps.last()).len() > 0 { toks(ps.drop_last()).push(clean(ps.last())) } else { toks(ps.drop_last()) });
    if piece.as_str().unicode_len() > 0 {
        let ghost before = out@;
        out.push(piece);
        assert(strings_view(out@) =~= strings_view(before).push(clean(ps.last())));
    }
    out
}

/// Whether `t` is `only_if(...)`.
pub open spec fn is_marker_token(t: Seq<char>) -> bool {
    t.len() >= 9 && t.subrange(0, 8) == "only_if("@ && t.last() == ')'
}

/// Reads the tokens in order: the key of the last `only_if(key)` token, whether there was
/// one, and the other tokens joined by `, `.
pub open spec fn lang_fold(ts: Seq<Seq<char>>) -> (bool, Seq<char>, Seq<char>)
    decreases ts.len(),
{
    if ts.len() == 0 {
        (false, Seq::empty(), Seq::empty())
    } else {
        let (has, key, rest) = lang_fold(ts.drop_last());
        let t = ts.last();
        if is_marker_token(t) {
            (true, t.subrange(8, t.len() - 1), rest)
        } else if rest.len() == 0 {
            (has, key, t)
        } else {
            (has, key, rest + ", "@ + t)
        }
    }
}

/// The key of an `only_if(key)` marker in a code block's language string, with the language
/// string that remains without it.
pub fn parse_lang(lang: &str) -> (r: Option<(String, String)>)
    ensures
        match r {
            Some((k, l)) => lang_fold(lang_tokens(lang@)).0 && k@ == lang_fold(lang_tokens(lang@)).1 && l@ == lang_fold(lang_tokens(lang@)).2,
            None => !lang_fold(lang_tokens(lang@)).0,
        },
{
    proof { reveal_strlit("only_if("); }
    let tokens = as_lang_tokens(lang);
    let ghost tv = strings_view(tokens@);
    let mut has_our_attr = false;
    let mut key = String::new();
    let mut new_lang = String::new();
    let mut i: usize = 0;
    assert(tv.subrange(0, 0) =~= Seq::<Seq<char>>::empty());
    while i < tokens.len()
        invariant
            i <= tokens@.len(),
            tv == strings_view(tokens@),
            lang_fold(tv.subrange(0, i as int)) == (has_our_attr, key@, new_lang@),
        decreases tokens@.len() - i,
    {
        let t = tokens[i].as_str();
        assert(tv.subrange(0, i + 1).drop_last() =~= tv.subrange(0, i as int));
        assert(tv.subrange(0, i + 1).last() == t@);
        let n = t.unicode_len();
        let marker = n >= 9 && str_eq(t.substring_char(0, 8), "only_if(") && t.get_char(n - 1) == ')';
        if marker {
            has_our_attr = true;
            key = String::from_str(t.substring_char(8, n - 1));
        } else {
            if new_lang.as_str().unicode_len() > 0 {
                new_lang.append(", ");
            }
            new_lang.append(t);
        }
        i = i + 1;
    }
    assert(tv.subrange(0, i as int) =~= tv);
    if has_our_attr {
        Some((key, new_lang))
    } else {
        None
    }
}

/// `s` with each line after the first prefixed by `indent`; a line ending `\r\n` counts as
/// one line ending.
pub open spec fn indented(s: Seq<char>, indent: Seq<char>) -> Seq<char>
    decreases s.len(),
{
    if s.len() == 0 {
        s
    } else if s[0] == '\r' && s.len() > 1 && s[1] == '\n' {
        indented(s.subrange(1, s.len() as int), indent)
    } else if s[0] == '\n' {
        seq!['\n'] + indent + indented(s.subrange(1, s.len() as int), indent)
    } else {
        seq![s[0]] + indented(s.subrange(1, s.len() as int), indent)
    }
}

/// A fenced code block with the given language string and code.
pub open spec fn fenced(new_lang: Seq<char>, code: Seq<char>) -> Seq<char> {
    "\n``` "@ + new_lang + "\n"@ + code + "```"@
}

fn indent_str(s: &str, indent: &str) -> (r: String)
    ensures
        r@ == indented(s@, indent@),
{
    let n = s.unicode_len();
    let mut i: usize = n;
    let mut tail = String::new();
    assert(s@.subrange(n as int, n as int) =~= Seq::<char>::empty());
    while i > 0
        invariant
            n == s@.len(),
            i <= n,
            tail@ == indented(s@.subrange(i as int, n as int), indent@),
        decreases i,
    {
        let c = s.get_char(i - 1);
        let ghost sub = s@.subrange(i - 1, n as int);
        assert(sub.subrange(1, sub.len() as int) =~= s@.subrange(i as int, n as int));
        assert(sub[0] == c);
        if c == '\r' && i < n && s.get_char(i) == '\n' {
            assert(sub[1] == s@[i as int]);
        } else if c == '\n' {
            let head = concat_str("\n", indent);
            tail = head.concat(tail.as_str());
            proof { reveal_strlit("\n"); }
            assert(tail@ =~= seq!['\n'] + indent@ + indented(s@.subrange(i as int, n as int), indent@));
        } else {
            let head = String::from_str(s.substring_char(i - 1, i));
            assert(head@ =~= seq![c]);
            tail = head.concat(tail.as_str());
        }
        i = i - 1;
    }
    assert(s@.subrange(0, n as int) =~= s@);
    tail
}

pub fn paste_code(new_lang: &str, code: &str, indent: Option<&str>) -> (r: String)
    ensures
        match indent {
            Some(ind) => r@ == indented(fenced(new_lang@, code@), ind@),
            None => r@ == fenced(new_lang@, code@),
        },
{
    let mut res = String::from_str("\n``` ");
    res.append(new_lang);
    res.append("\n");
    res.append(code);
    res.append("```");
    match indent {
        Some(ind) => indent_str(res.as_str(), ind),
        None => res,
    }
}

/// Whitespace that `u8::is_ascii_whitespace` accepts, other than a line ending.
pub open spec fn is_indent_char(c: char) -> bool {
    c == ' ' || c == '\t' || c == '\u{c}'
}

fn is_indent(c: char) -> (r: bool)
    ensures
        r == is_indent_char(c),
{
    c == ' ' || c == '\t' || c == '\u{c}'
}

/// The number of indentation characters right before position `end` of `s`.
pub open spec fn indent_before(s: Seq<char>, end: int) -> nat
    decreases end,
{
    if end > 0 && end <= s.len() && is_indent_char(s[end - 1]) {
        1 + indent_before(s, end - 1)
    } else {
        0
    }
}

/// The indentation before the closing fence of a code block, if it ends with one.
pub fn get_indent_from_content(content: &str) -> (r: Option<String>)
    ensures
        match r {
            Some(ind) => {
                &&& content@.len() >= 3
                &&& content@.subrange(content@.len() - 3, content@.len() as int) == seq!['`', '`', '`']
                &&& ind@ == content@.subrange(
                    content@.len() - 3 - indent_before(content@, content@.len() - 3),
                    content@.len() - 3,
                )
            },
            None => !(content@.len() >= 3 && content@.subrange(content@.len() - 3, content@.len() as int) == seq!['`', '`', '`']),
        },
{
    let n = content.unicode_len();
    if n < 3 || content.get_char(n - 1) != '`' || content.get_char(n - 2) != '`' || content.get_char(n - 3) != '`' {
        proof {
            if n >= 3 && content@.subrange(n - 3, n as int) == seq!['`', '`', '`'] {
                assert(content@.subrange(n - 3, n as int)[2] == content@[n - 1]);
                assert(content@.subrange(n - 3, n as int)[1] == content@[n - 2]);
                assert(content@.subrange(n - 3, n as int)[0] == content@[n - 3]);
            }
        }
        return None;
    }
    assert(content@.subrange(n - 3, n as int) =~= seq!['`', '`', '`']);
    let end = n - 3;
    let mut k: usize = 0;
    while k < end && is_indent(content.get_char(end - k - 1))
        invariant
            n == content@.len(),
            end == n - 3,
            k <= end,
            indent_before(content@, end as int) == k + indent_before(content@, end - k),
        decreases end - k,
    {
        k = k + 1;
    }
    Some(String::from_str(content.substring_char(end - k, end)))
}

/// A Markdown event, as far as code blocks care: the start of a code block (with its fence's
/// language string, if fenced) at a byte offset, the end of a code block at a byte offset, a
/// piece of text, or anything else.
#[derive(Debug)]
pub enum DocEvent {
    CodeStart(Option<String>, usize),
    CodeEnd(usize),
    Text(String),
    Other,
}

/// Relies on pulldown_cmark::Parser::into_offset_iter: the events of the Markdown text `doc`,
/// in order, with the start offset of a code block's start and the end offset of its end.
#[verifier::external_body]
fn markdown_events(doc: &str) -> (r: Vec<DocEvent>) {
    pulldown_cmark::Parser::new(doc).into_offset_iter().map(|(e, o)| match e {
        Event::Start(Tag::CodeBlock(CodeBlockKind::Fenced(l))) => DocEvent::CodeStart(Some(l.to_string()), o.start),
        Event::Start(Tag::CodeBlock(CodeBlockKind::Indented)) => DocEvent::CodeStart(None, o.start),
        Event::End(Tag::CodeBlock(_)) => DocEvent::CodeEnd(o.end),
        Event::Text(t) => DocEvent::Text(t.to_string()),
        _ => DocEvent::Other,
    }).collect()
}

/// A code block marked `only_if(key)`: the text before it (since the previous block), the
/// block's own text (from the start of the line of its fence), both with their byte ranges in
/// the document, its language string, key, language string without the marker, and its code.
#[derive(Debug)]
pub struct DocBlock {
    pub before: String,
    pub content: String,
    pub start: usize,
    pub end: usize,
    pub lang: String,
    pub key: String,
    pub new_lang: String,
    pub code: String,
}

/// The text of bytes `a..b` of `s`, when both are character boundaries.
fn slice_bytes(s: &str, a: usize, b: usize) -> (r: Option<String>)
    ensures
        r is Some <==> a <= b <= s.spec_bytes().len() && is_char_boundary(s.spec_bytes(), a as int)
            && is_char_boundary(s.spec_bytes(), b as int),
        r is Some ==> encode_utf8(r->Some_0@) == s.spec_bytes().subrange(a as int, b as int),
{
    proof {
        encode_utf8_valid_utf8(s@);
    }
    let len = s.as_bytes().len();
    if a > b || b > len || !s.is_char_boundary(a) || !s.is_char_boundary(b) {
        return None;
    }
    let (_, tail) = s.split_at(a);
    proof {
        assert(tail.spec_bytes() =~= s.spec_bytes().subrange(a as int, s.spec_bytes().len() as int));
        encode_utf8_valid_utf8(s@);
        encode_utf8_valid_utf8(tail@);
        if b < s.spec_bytes().len() {
            vstd::utf8::is_char_boundary_iff_not_is_continuation_byte(s.spec_bytes(), b as int);
            vstd::utf8::is_char_boundary_iff_not_is_continuation_byte(tail.spec_bytes(), (b - a) as int);
            assert(tail.spec_bytes()[(b - a) as int] == s.spec_bytes()[b as int]);
        } else {
            vstd::utf8::is_char_boundary_start_end_of_seq(tail.spec_bytes());
        }
    }
    let (mid, _) = tail.split_at(b - a);
    assert(mid.spec_bytes() =~= s.spec_bytes().subrange(a as int, b as int));
    Some(String::from_str(mid))
}

/// Where the text before block `i` starts: at the end of the previous block.
pub open spec fn block_prev(blocks: Seq<DocBlock>, i: int) -> int {
    if i == 0 { 0 } else { blocks[i - 1].end as int }
}

/// The blocks cut `bytes` into consecutive pieces: the text before each block, the block,
/// and finally `rest`.
pub open spec fn doc_partition(bytes: Seq<u8>, blocks: Seq<DocBlock>, rest: Seq<char>) -> bool {
    &&& forall|i: int| 0 <= i < blocks.len() ==> {
        &&& block_prev(blocks, i) <= (#[trigger] blocks[i]).start <= blocks[i].end <= bytes.len()
        &&& encode_utf8(blocks[i].before@) == bytes.subrange(block_prev(blocks, i), blocks[i].start as int)
        &&& encode_utf8(blocks[i].content@) == bytes.subrange(blocks[i].start as int, blocks[i].end as int)
    }
    &&& encode_utf8(rest) == bytes.subrange(block_prev(blocks, blocks.len() as int), bytes.len() as int)
}

/// A block's language string carries a marker, and its key and remaining language are the
/// marker's.
pub open spec fn block_lang_ok(b: DocBlock) -> bool {
    &&& lang_fold(lang_tokens(b.lang@)).0
    &&& b.key@ == lang_fold(lang_tokens(b.lang@)).1
    &&& b.new_lang@ == lang_fold(lang_tokens(b.lang@)).2
}

/// Whether byte `b` is ASCII whitespace.
fn is_ascii_ws(b: u8) -> (r: bool)
    ensures
        r == (b == 32 || b == 9 || b == 10 || b == 12 || b == 13),
{
    b == 32 || b == 9 || b == 10 || b == 12 || b == 13
}

/// The block whose text runs from `start` to `end`, after the text from `prev`.
fn close_block(doc: &str, prev: usize, start: usize, end: usize, lang: &String, key: &String, new_lang: &String, code: &String) -> (r: Option<DocBlock>)
    ensures
        r is Some ==> {
            &&& r->Some_0.start == start
            &&& r->Some_0.end == end
            &&& prev <= start <= end <= doc.spec_bytes().len()
            &&& is_char_boundary(doc.spec_bytes(), end as int)
            &&& encode_utf8(r->Some_0.before@) == doc.spec_bytes().subrange(prev as int, start as int)
            &&& encode_utf8(r->Some_0.content@) == doc.spec_bytes().subrange(start as int, end as int)
            &&& r->Some_0.lang@ == lang@
            &&& r->Some_0.key@ == key@
            &&& r->Some_0.new_lang@ == new_lang@
        },
{
    match (slice_bytes(doc, prev, start), slice_bytes(doc, start, end)) {
        (Some(before), Some(content)) => Some(DocBlock {
            before,
            content,
            start,
            end,
            lang: lang.clone(),
            key: key.clone(),
            new_lang: new_lang.clone(),
            code: code.clone(),
        }),
        _ => None,
    }
}

/// Where a block's text starts: at the line break before its fence when only whitespace
/// stands between them (and after `prev`), else at the fence.
fn line_start(bytes: &[u8], prev: usize, start: usize) -> (r: usize)
    requires
        prev <= start <= bytes@.len(),
    ensures
        prev <= r <= start,
{
    let mut new_start = start;
    while prev < new_start
        invariant
            prev <= new_start <= start <= bytes@.len(),
        decreases new_start,
    {
        let b = bytes[new_start - 1];
        if !is_ascii_ws(b) {
            return start;
        }
        if b == 10 {
            return new_start - 1;
        }
        new_start = new_start - 1;
    }
    start
}

/// Finds the code blocks of `events` (from the document `doc`) whose language string holds an
/// `only_if(...)` marker, at the top level; a block's text starts at the beginning of the line
/// of its fence when only whitespace stands before the fence on that line.
#[verifier::rlimit(60)]
pub fn doc_blocks(doc: &str, events: Vec<DocEvent>) -> (r: (Vec<DocBlock>, String))
    ensures
        forall|i: int| 0 <= i < r.0@.len() ==> block_lang_ok(#[trigger] r.0@[i]),
        doc_partition(doc.spec_bytes(), r.0@, r.1@),
{
    let bytes = doc.as_bytes();
    let n = bytes.len();
    let mut blocks: Vec<DocBlock> = Vec::new();
    let mut prev: usize = 0;
    let mut level: usize = 0;
    let mut inside = false;
    let mut block_start: usize = 0;
    let mut lang_s = String::new();
    let mut key_s = String::new();
    let mut new_lang_s = String::new();
    let mut code = String::new();
    let mut rest = events;
    proof {
        encode_utf8_valid_utf8(doc@);
        vstd::utf8::is_char_boundary_start_end_of_seq(doc.spec_bytes());
        assert(block_prev(blocks@, 0) == 0);
    }
    while rest.len() > 0
        invariant
            n == doc.spec_bytes().len(),
            bytes@ == doc.spec_bytes(),
            prev <= n,
            inside ==> prev <= block_start <= n,
            vstd::utf8::valid_utf8(doc.spec_bytes()),
            is_char_boundary(doc.spec_bytes(), prev as int),
            prev == block_prev(blocks@, blocks@.len() as int),
            inside ==> lang_fold(lang_tokens(lang_s@)).0 && key_s@ == lang_fold(lang_tokens(lang_s@)).1
                && new_lang_s@ == lang_fold(lang_tokens(lang_s@)).2,
            forall|i: int| 0 <= i < blocks@.len() ==> block_lang_ok(#[trigger] blocks@[i]),
            forall|i: int| 0 <= i < blocks@.len() ==> {
                &&& block_prev(blocks@, i) <= (#[trigger] blocks@[i]).start <= blocks@[i].end <= n
                &&& encode_utf8(blocks@[i].before@) == doc.spec_bytes().subrange(block_prev(blocks@, i), blocks@[i].start as int)
                &&& encode_utf8(blocks@[i].content@) == doc.spec_bytes().subrange(blocks@[i].start as int, blocks@[i].end as int)
            },
        decreases rest@.len(),
    {
        let ev = rest.remove(0);
        match ev {
            DocEvent::CodeStart(lang, start) => {
                if level < usize::MAX {
                    level = level + 1;
                }
                if level == 1 && prev <= start && start <= n {
                    if let Some(lang) = lang {
                        if let Some((key, new_lang)) = parse_lang(lang.as_str()) {
                            block_start = line_start(bytes, prev, start);
                            lang_s = lang;
                            key_s = key;
                            new_lang_s = new_lang;
                            code = String::new();
                            inside = true;
                        }
                    }
                }
            },
            DocEvent::CodeEnd(end) => {
                if level == 1 && inside {
                    if let Some(block) = close_block(doc, prev, block_start, end, &lang_s, &key_s, &new_lang_s, &code) {
                        let ghost old_blocks = blocks@;
                        blocks.push(block);
                        assert forall|i: int| 0 <= i < old_blocks.len() implies block_prev(blocks@, i) == block_prev(old_blocks, i) by {
                            if i > 0 {
                                assert(blocks@[i - 1] == old_blocks[i - 1]);
                            }
                        }
                        prev = end;
                    }
                    inside = false;
                }
                if level > 0 {
                    level = level - 1;
                }
            },
            DocEvent::Text(t) => {
                if inside {
                    code.append(t.as_str());
                }
            },
            DocEvent::Other => {},
        }
    }
    proof {
        vstd::utf8::is_char_boundary_start_end_of_seq(doc.spec_bytes());
    }
    let tail = match slice_bytes(doc, prev, n) {
        Some(t) => t,
        None => String::new(),
    };
    (blocks, tail)
}

/// Finds the marked code blocks of a Markdown document (see `doc_blocks`).
pub fn find_doc_blocks(doc: &str) -> (r: (Vec<DocBlock>, String))
    ensures
        forall|i: int| 0 <= i < r.0@.len() ==> block_lang_ok(#[trigger] r.0@[i]),
        doc_partition(doc.spec_bytes(), r.0@, r.1@),
{
    let events = markdown_events(doc);
    doc_blocks(doc, events)
}

/// The indentation before a block's closing fence, if it has one.
pub open spec fn indent_of(content: Seq<char>) -> Option<Seq<char>> {
    if content.len() >= 3 && content.subrange(content.len() - 3, content.len() as int) == seq!['`', '`', '`'] {
        Some(content.subrange(content.len() - 3 - indent_before(content, content.len() - 3), content.len() - 3))
    } else {
        None
    }
}

/// What stands in place of a block: the new code in a fence with the block's remaining
/// language and indentation (`Some(Some(code))`), nothing (`Some(None)`), or the block as it
/// was (`None`).
pub open spec fn replacement(b: DocBlock, res: Option<Option<String>>) -> Seq<char> {
    match res {
        Some(Some(code)) => match indent_of(b.content@) {
            Some(ind) => indented(fenced(b.new_lang@, code@), ind),
            None => fenced(b.new_lang@, code@),
        },
        Some(None) => Seq::empty(),
        None => b.content@,
    }
}

/// The document up to the end of the last of `blocks`, each block replaced after `results`.
pub open spec fn assembled(blocks: Seq<DocBlock>, results: Seq<Option<Option<String>>>) -> Seq<char>
    decreases blocks.len(),
{
    if blocks.len() == 0 || results.len() == 0 {
        Seq::empty()
    } else {
        assembled(blocks.drop_last(), results.drop_last()) + blocks.last().before@ + replacement(blocks.last(), results.last())
    }
}

/// Rebuilds a document from its marked blocks and the result for each; `None` when no
/// result asks for a change.
pub fn assemble_doctests(blocks: &Vec<DocBlock>, rest: &String, results: Vec<Option<Option<String>>>) -> (r: Option<String>)
    requires
        results@.len() == blocks@.len(),
    ensures
        r is Some <==> exists|i: int| 0 <= i < results@.len() && (#[trigger] results@[i]) is Some,
        r is Some ==> r->Some_0@ == assembled(blocks@, results@) + rest@,
{
    let mut out = String::new();
    let mut changed = false;
    let mut i: usize = 0;
    assert(blocks@.subrange(0, 0).len() == 0);
    while i < blocks.len()
        invariant
            i <= blocks@.len(),
            results@.len() == blocks@.len(),
            out@ == assembled(blocks@.subrange(0, i as int), results@.subrange(0, i as int)),
            changed <==> exists|j: int| 0 <= j < i && (#[trigger] results@[j]) is Some,
        decreases blocks@.len() - i,
    {
        let b = &blocks[i];
        assert(blocks@.subrange(0, i + 1).drop_last() =~= blocks@.subrange(0, i as int));
        assert(results@.subrange(0, i + 1).drop_last() =~= results@.subrange(0, i as int));
        assert(blocks@.subrange(0, i + 1).last() == blocks@[i as int]);
        assert(results@.subrange(0, i + 1).last() == results@[i as int]);
        out.append(b.before.as_str());
        match &results[i] {
            Some(Some(code)) => {
                let indent = get_indent_from_content(b.content.as_str());
                let pasted = match &indent {
                    Some(ind) => paste_code(b.new_lang.as_str(), code.as_str(), Some(ind.as_str())),
                    None => paste_code(b.new_lang.as_str(), code.as_str(), None),
                };
                out.append(pasted.as_str());
                changed = true;
            },
            Some(None) => {
                changed = true;
            },
            None => {
                out.append(b.content.as_str());
            },
        }
        assert(out@ =~= assembled(blocks@.subrange(0, i as int), results@.subrange(0, i as int)) + blocks@[i as int].before@
            + replacement(blocks@[i as int], results@[i as int]));
        i = i + 1;
    }
    assert(blocks@.subrange(0, i as int) =~= blocks@);
    assert(results@.subrange(0, i as int) =~= results@);
    if changed {
        out.append(rest.as_str());
        Some(out)
    } else {
        None
    }
}

} // verus!
