use ra_syntax::AtomEdit;
use ra_syntax::File;
use ra_syntax::SyntaxErrorKind;
use ra_syntax::SyntaxKind;
use ra_syntax::TextRange;
use ra_syntax::tokenize;

fn edit(start: usize, end: usize, insert: &[u8]) -> AtomEdit {
    AtomEdit { delete: TextRange { start, end }, insert: insert.to_vec() }
}

#[test]
fn parse_fn_with_empty_body() {
    let f = File::parse(b"f(){}");
    assert_eq!(f.text(), b"f(){}".to_vec());
    assert_eq!(f.errors(), vec![]);
    let root = f.syntax();
    assert_eq!(root.kind, SyntaxKind::Root);
    let items = f.child_nodes(&root);
    assert_eq!(items.len(), 1);
    assert_eq!(items[0].kind, SyntaxKind::FnDef);
    let parts = f.child_nodes(&items[0]);
    assert_eq!(parts.len(), 2);
    assert_eq!(parts[0].kind, SyntaxKind::ParamList);
    assert_eq!(parts[1].kind, SyntaxKind::Block);
    assert_eq!(f.child_nodes(&parts[1]).len(), 0);
}

#[test]
fn parse_unterminated_body() {
    let f = File::parse(b"f(){ 1");
    assert_eq!(f.text(), b"f(){ 1".to_vec());
    let errors = f.errors();
    assert!(errors.len() >= 1);
    // the missing `}` is reported at the end of the text
    assert!(errors.iter().any(|e| e.kind == SyntaxErrorKind::ExpectedRCurly && e.start == 6
        && e.end == 6));
    let missing = errors.iter().find(|e| e.kind == SyntaxErrorKind::ExpectedRCurly).unwrap();
    assert_eq!(missing.message(), "expected `}`");
    // the body node is still there, with the expression inside
    let root = f.syntax();
    let items = f.child_nodes(&root);
    assert_eq!(items.len(), 1);
    let parts = f.child_nodes(&items[0]);
    assert_eq!(parts[1].kind, SyntaxKind::Block);
    let exprs = f.child_nodes(&parts[1]);
    assert_eq!(exprs.len(), 1);
    assert_eq!(exprs[0].kind, SyntaxKind::Expr);
}

#[test]
fn parse_empty_text() {
    let f = File::parse(b"");
    assert_eq!(f.text(), Vec::<u8>::new());
    assert_eq!(f.errors(), vec![]);
    assert_eq!(f.child_nodes(&f.syntax()).len(), 0);
}

#[test]
fn parse_single_delimiter() {
    let f = File::parse(b"{");
    assert_eq!(f.text(), b"{".to_vec());
    assert!(f.errors().len() >= 1);
}

#[test]
fn parse_deeply_nested_unbalanced() {
    let f = File::parse(b"f(){((((1}");
    assert_eq!(f.text(), b"f(){((((1}".to_vec());
    assert!(f.errors().len() >= 1);
}

#[test]
fn parse_malformed_bytes() {
    let f = File::parse(&[0xFF, 0xFE, b'f']);
    assert_eq!(f.text(), vec![0xFF, 0xFE, b'f']);
    let toks = f.tokens();
    assert_eq!(toks[0].kind, SyntaxKind::Error);
    assert_eq!(toks[0].len, 1);
    assert_eq!(toks[1].kind, SyntaxKind::Error);
    assert_eq!(toks[1].len, 1);
    assert_eq!(toks[2].kind, SyntaxKind::Ident);
}

#[test]
fn tokenize_covers_input() {
    let text = b"foo 123 // c\n\"s\" (){}+-*,;@";
    let toks = tokenize(text);
    let total: usize = toks.iter().map(|t| t.len).sum();
    assert_eq!(total, text.len());
    assert!(toks.iter().all(|t| t.len >= 1));
}

#[test]
fn tokenize_empty_is_empty() {
    assert_eq!(tokenize(b"").len(), 0);
}

#[test]
fn tokenize_kinds() {
    let toks = tokenize(b"foo 123 // c\n\"s\"+@");
    let kinds: Vec<SyntaxKind> = toks.iter().map(|t| t.kind).collect();
    assert_eq!(
        kinds,
        vec![
            SyntaxKind::Ident,
            SyntaxKind::Whitespace,
            SyntaxKind::IntNumber,
            SyntaxKind::Whitespace,
            SyntaxKind::Comment,
            SyntaxKind::Whitespace,
            SyntaxKind::Str,
            SyntaxKind::Plus,
            SyntaxKind::Error,
        ]
    );
}

#[test]
fn tokenize_unicode_identifier() {
    // U+00E9, a letter, continues and starts identifiers
    let text = "f\u{e9}e".as_bytes();
    let toks = tokenize(text);
    assert_eq!(toks.len(), 1);
    assert_eq!(toks[0].kind, SyntaxKind::Ident);
    assert_eq!(toks[0].len, text.len());
}

#[test]
fn tokenize_identifier_starting_non_ascii() {
    // U+03BB starts identifiers
    let text = "\u{3bb}x".as_bytes();
    let toks = tokenize(text);
    assert_eq!(toks.len(), 1);
    assert_eq!(toks[0].kind, SyntaxKind::Ident);
    assert_eq!(toks[0].len, 3);
}

#[test]
fn tokenize_non_identifier_code_point() {
    // U+2206 is no identifier character: one error token per code point
    let text = "\u{2206}".as_bytes();
    let toks = tokenize(text);
    assert_eq!(toks.len(), 1);
    assert_eq!(toks[0].kind, SyntaxKind::Error);
    assert_eq!(toks[0].len, 3);
}

#[test]
fn round_trip_various() {
    let cases: Vec<&[u8]> = vec![
        b"",
        b"f(){}",
        b"f(a,b){ a + b * 2; }",
        b"// only a comment",
        b"f(){\"unterminated",
        b"}}}((",
        b"one(){} two(){1}",
        "\u{03bb}(){}".as_bytes(),
    ];
    for case in cases {
        let f = File::parse(case);
        assert_eq!(f.text(), case.to_vec());
    }
}

#[test]
fn errors_sorted_by_start() {
    let f = File::parse(b"@ f(){ \"abc }");
    let errors = f.errors();
    assert!(errors.len() >= 2);
    for w in errors.windows(2) {
        assert!(w[0].start <= w[1].start);
    }
}

#[test]
fn validation_unterminated_string() {
    let f = File::parse(b"f(){\"abc}");
    let errors = f.errors();
    assert!(errors.iter().any(|e| e.kind == SyntaxErrorKind::UnterminatedString && e.start == 4
        && e.end == 9));
}

#[test]
fn validation_terminated_string_ok() {
    let f = File::parse(b"f(){\"a\\\"b\"}");
    let errors = f.errors();
    assert!(!errors.iter().any(|e| e.kind == SyntaxErrorKind::UnterminatedString));
}

#[test]
fn validation_int_too_large() {
    let f = File::parse(b"f(){123456789012345678901}");
    let errors = f.errors();
    assert!(errors.iter().any(|e| e.kind == SyntaxErrorKind::IntTooLarge && e.start == 4
        && e.end == 25));
}

#[test]
fn validation_int_in_range_ok() {
    let f = File::parse(b"f(){12345678901234567890}");
    assert_eq!(f.errors(), vec![]);
}

#[test]
fn parse_error_kinds() {
    // a name with nothing after it
    let f = File::parse(b"f");
    assert!(f.errors().iter().any(|e| e.kind == SyntaxErrorKind::ExpectedParamList));
    // params but no body
    let f = File::parse(b"f()");
    assert!(f.errors().iter().any(|e| e.kind == SyntaxErrorKind::ExpectedBlock));
    // unclosed parameter list
    let f = File::parse(b"f( {}");
    assert!(f.errors().iter().any(|e| e.kind == SyntaxErrorKind::ExpectedRParen));
    // operator without an operand
    let f = File::parse(b"f(){1+}");
    assert!(f.errors().iter().any(|e| e.kind == SyntaxErrorKind::ExpectedExpr));
    // a token no construct can use
    let f = File::parse(b"f(){}@");
    assert!(f.errors().iter().any(|e| e.kind == SyntaxErrorKind::UnexpectedToken));
}

#[test]
fn reparse_insert_inside_body() {
    let old = File::parse(b"f(){1}");
    let e = edit(5, 5, b"+2");
    // the edit stays inside the body, which still re-parses whole:
    // the block-level fast path answers
    assert!(old.incremental_reparse(&e).is_some());
    let new = old.reparse(&e);
    assert_eq!(new.text(), b"f(){1+2}".to_vec());
    let fresh = File::parse(b"f(){1+2}");
    assert_eq!(new.events(), fresh.events());
    assert_eq!(new.errors(), fresh.errors());
    // the old tree is still intact and usable
    assert_eq!(old.text(), b"f(){1}".to_vec());
}

#[test]
fn reparse_delete_opening_delimiter() {
    let old = File::parse(b"f(){1}");
    let e = edit(3, 4, b"");
    // the kinds change, so the fast path must refuse
    assert!(old.incremental_reparse(&e).is_none());
    let new = old.reparse(&e);
    assert_eq!(new.text(), b"f()1}".to_vec());
    let fresh = File::parse(b"f()1}");
    assert_eq!(new.events(), fresh.events());
    assert_eq!(new.errors(), fresh.errors());
}

#[test]
fn reparse_rename_identifier_fast_path() {
    let old = File::parse(b"foo(){1}");
    let e = edit(0, 3, b"barbaz");
    // same token kinds: the token-level fast path applies
    let inc = old.incremental_reparse(&e);
    assert!(inc.is_some());
    let new = inc.unwrap();
    // the token-level path reuses the old event log's storage
    assert!(new.shares_tree_with(&old));
    assert_eq!(new.text(), b"barbaz(){1}".to_vec());
    let fresh = File::parse(b"barbaz(){1}");
    assert_eq!(new.events(), fresh.events());
    assert_eq!(new.errors(), fresh.errors());
}

#[test]
fn reparse_widen_number_fast_path() {
    let old = File::parse(b"f(){1}");
    let e = edit(4, 5, b"42");
    assert!(old.incremental_reparse(&e).is_some());
    let new = old.reparse(&e);
    assert!(new.shares_tree_with(&old));
    assert_eq!(new.text(), b"f(){42}".to_vec());
    assert_eq!(new.events(), File::parse(b"f(){42}").events());
}

#[test]
fn reparse_chain_of_edits() {
    let mut f = File::parse(b"");
    let steps: Vec<(usize, usize, &[u8])> = vec![
        (0, 0, b"f(){}"),
        (4, 4, b"1"),
        (5, 5, b"+2"),
        (0, 1, b"g"),
        (3, 4, b""),
    ];
    let mut text: Vec<u8> = Vec::new();
    for (s, e, ins) in steps {
        let mut next = text[..s].to_vec();
        next.extend_from_slice(ins);
        next.extend_from_slice(&text[e..]);
        f = f.reparse(&edit(s, e, ins));
        assert_eq!(f.text(), next);
        let fresh = File::parse(&next);
        assert_eq!(f.events(), fresh.events());
        assert_eq!(f.errors(), fresh.errors());
        text = next;
    }
}

#[test]
fn parse_paren_expr_and_params() {
    let f = File::parse(b"f(a,b,c){ (1+2)*3; }");
    assert_eq!(f.errors(), vec![]);
    assert_eq!(f.text(), b"f(a,b,c){ (1+2)*3; }".to_vec());
}

#[test]
fn parse_unclosed_paren_expr() {
    let f = File::parse(b"f(){(1}");
    assert!(f.errors().iter().any(|e| e.kind == SyntaxErrorKind::ExpectedRParen));
    assert_eq!(f.text(), b"f(){(1}".to_vec());
}

#[test]
fn reparse_whitespace_fast_path() {
    let old = File::parse(b"f () {}");
    let e = edit(1, 2, b"   ");
    // still a single whitespace token: same kinds, so the fast path applies
    assert!(old.incremental_reparse(&e).is_some());
    let new = old.reparse(&e);
    assert_eq!(new.text(), b"f   () {}".to_vec());
    assert_eq!(new.events(), File::parse(b"f   () {}").events());
}

#[test]
fn reparse_append_at_end() {
    let old = File::parse(b"f(){}");
    let new = old.reparse(&edit(5, 5, b" g(){}"));
    assert_eq!(new.text(), b"f(){} g(){}".to_vec());
    let fresh = File::parse(b"f(){} g(){}");
    assert_eq!(new.events(), fresh.events());
    assert_eq!(new.errors(), fresh.errors());
}

#[test]
fn block_reparse_leaves_siblings_alone() {
    let old = File::parse(b"one(){} two(){1}");
    // insert inside the second body: block-level fast path
    let e = edit(15, 15, b"+2");
    assert!(old.incremental_reparse(&e).is_some());
    let new = old.reparse(&e);
    assert_eq!(new.text(), b"one(){} two(){1+2}".to_vec());
    let fresh = File::parse(b"one(){} two(){1+2}");
    assert_eq!(new.events(), fresh.events());
    // the first item, before the edit, keeps its shape and position
    let old_items = old.child_nodes(&old.syntax());
    let new_items = new.child_nodes(&new.syntax());
    assert_eq!(old_items[0], new_items[0]);
}

#[test]
fn reparse_unbalancing_edit_falls_back() {
    let old = File::parse(b"f(){1}");
    // inserting a stray `}` unbalances the body: no fast path
    let e = edit(4, 4, b"}");
    assert!(old.incremental_reparse(&e).is_none());
    let new = old.reparse(&e);
    assert_eq!(new.text(), b"f(){}1}".to_vec());
    let fresh = File::parse(b"f(){}1}");
    assert_eq!(new.events(), fresh.events());
    assert_eq!(new.errors(), fresh.errors());
}

#[test]
fn node_offsets_and_ranges() {
    let f = File::parse(b"f(){ 1 }");
    let root = f.syntax();
    let root_range = f.node_range(&root);
    assert_eq!(root_range.start, 0);
    assert_eq!(root_range.end, 8);
    let items = f.child_nodes(&root);
    let parts = f.child_nodes(&items[0]);
    let block = parts[1];
    assert_eq!(block.offset, 3);
    let block_range = f.node_range(&block);
    assert_eq!(block_range.start, 3);
    assert_eq!(block_range.end, 8);
}

#[test]
fn parent_of_block_is_fn_def() {
    let f = File::parse(b"f(){ 1 }");
    let root = f.syntax();
    let item = f.child_nodes(&root)[0];
    let block = f.child_nodes(&item)[1];
    assert_eq!(f.parent_node(&block), Some(item));
    assert_eq!(f.parent_node(&item), Some(root));
    assert_eq!(f.parent_node(&root), None);
}

#[test]
fn ast_root_wraps_syntax() {
    let f = File::parse(b"f(){}");
    let ast = f.ast();
    assert_eq!(ast.syntax, f.syntax());
}
