use maybe_async_cfg::doctests::{
    as_lang_tokens, assemble_doctests, find_doc_blocks, get_indent_from_content, paste_code,
    parse_lang,
};

#[test]
fn lang_tokens_strip_braces_dots_and_separators() {
    assert_eq!(as_lang_tokens("  {.rust, only_if(sync)\tno_run}  "), vec!["rust", "only_if(sync)", "no_run"]);
    assert_eq!(as_lang_tokens("rust,,  ignore"), vec!["rust", "ignore"]);
    assert!(as_lang_tokens("   ").is_empty());
}

#[test]
fn lang_marker_is_found_and_removed() {
    assert_eq!(parse_lang("rust, only_if(sync), no_run"), Some(("sync".to_string(), "rust, no_run".to_string())));
    assert_eq!(parse_lang("only_if(a) only_if(b)"), Some(("b".to_string(), "".to_string())));
    assert_eq!(parse_lang("rust"), None);
    assert_eq!(parse_lang("only_if(x"), None);
}

#[test]
fn pasted_code_is_fenced_and_indented() {
    assert_eq!(paste_code("rust", "let x = 1;\n", None), "\n``` rust\nlet x = 1;\n```");
    assert_eq!(paste_code("rust", "a\r\nb\n", Some("  ")), "\n  ``` rust\n  a\n  b\n  ```");
}

#[test]
fn indentation_before_closing_fence() {
    assert_eq!(get_indent_from_content("```rust\n  x\n \t```"), Some(" \t".to_string()));
    assert_eq!(get_indent_from_content("```\nx\n```"), Some("".to_string()));
    assert_eq!(get_indent_from_content("abc"), None);
    assert_eq!(get_indent_from_content("``"), None);
}

const DOC: &str = "Text\n```rust, only_if(sync)\nlet a = 1;\n```\nMore\n```rust\nplain\n```\n";

#[test]
fn marked_blocks_are_found() {
    let (blocks, rest) = find_doc_blocks(DOC);
    assert_eq!(blocks.len(), 1);
    assert_eq!(blocks[0].key, "sync");
    assert_eq!(blocks[0].new_lang, "rust");
    assert_eq!(blocks[0].code, "let a = 1;\n");
    assert_eq!(blocks[0].before, "Text");
    let whole = format!("{}{}{}", blocks[0].before, blocks[0].content, rest);
    assert_eq!(whole, DOC);
}

#[test]
fn blocks_are_replaced_removed_or_kept() {
    let (blocks, rest) = find_doc_blocks(DOC);
    let replaced = assemble_doctests(&blocks, &rest, vec![Some(Some("let b = 2;\n".to_string()))]).unwrap();
    assert!(replaced.starts_with("Text\n``` rust\nlet b = 2;\n```"));
    assert!(replaced.contains("More\n```rust\nplain\n```"));
    assert!(!replaced.contains("only_if"));
    let removed = assemble_doctests(&blocks, &rest, vec![Some(None)]).unwrap();
    assert!(removed.starts_with("Text"));
    assert!(!removed.contains("let a"));
    assert_eq!(assemble_doctests(&blocks, &rest, vec![None]), None);
}
