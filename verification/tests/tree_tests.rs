use std::sync::Arc;

use syntax::ast;
use syntax::GreenChild;
use syntax::GreenNode;
use syntax::GreenNodeBuilder;
use syntax::GreenToken;
use syntax::SyntaxElement;
use syntax::SyntaxKind;
use syntax::SyntaxNode;

fn build_module() -> Arc<GreenNode> {
    let mut builder = GreenNodeBuilder::new();
    builder.start_node(SyntaxKind::Module);
    builder.start_node(SyntaxKind::ModuleHeader);
    builder.token(SyntaxKind::ModuleKw, "module");
    builder.token(SyntaxKind::Whitespace, " ");
    builder.start_node(SyntaxKind::ModuleName);
    builder.token(SyntaxKind::Upper, "PureScript");
    builder.token(SyntaxKind::Period, ".");
    builder.token(SyntaxKind::Upper, "Main");
    builder.finish_node();
    builder.token(SyntaxKind::Whitespace, " ");
    builder.start_node(SyntaxKind::ExportList);
    builder.token(SyntaxKind::LeftParenthesis, "(");
    builder.token(SyntaxKind::RightParenthesis, ")");
    builder.finish_node();
    builder.token(SyntaxKind::Whitespace, " ");
    builder.token(SyntaxKind::WhereKw, "where");
    builder.finish_node();
    builder.finish_node();
    builder.finish()
}

#[test]
fn syntax_playground() {
    let purescript_module = SyntaxNode::new_root(build_module());

    println!("{}", purescript_module.text());

    let module_name = purescript_module
        .children()
        .into_iter()
        .next()
        .unwrap()
        .children()
        .into_iter()
        .next()
        .and_then(ast::ModuleName::cast)
        .unwrap();

    let rust_module = SyntaxNode::new_root(
        module_name
            .segments()
            .into_iter()
            .next()
            .unwrap()
            .replace_with(GreenToken::new(SyntaxKind::Upper, "Rust")),
    );

    println!("{}", rust_module.text());
    assert_eq!(rust_module.text(), "module Rust.Main () where");
}

#[test]
fn round_trip_module_text() {
    let root = SyntaxNode::new_root(build_module());
    assert_eq!(root.text(), "module PureScript.Main () where");
    assert_eq!(root.text_len(), "module PureScript.Main () where".len());
}

#[test]
fn round_trip_empty_input() {
    let mut builder = GreenNodeBuilder::new();
    builder.start_node(SyntaxKind::Module);
    builder.finish_node();
    let root = SyntaxNode::new_root(builder.finish());
    assert_eq!(root.text(), "");
    assert_eq!(root.text_len(), 0);
}

#[test]
fn round_trip_pure_whitespace() {
    let mut builder = GreenNodeBuilder::new();
    builder.start_node(SyntaxKind::Module);
    builder.token(SyntaxKind::Whitespace, "  \n\t ");
    builder.finish_node();
    let root = SyntaxNode::new_root(builder.finish());
    assert_eq!(root.text(), "  \n\t ");
}

#[test]
fn round_trip_every_trivia_kind() {
    let mut builder = GreenNodeBuilder::new();
    builder.start_node(SyntaxKind::Module);
    builder.token(SyntaxKind::Whitespace, " ");
    builder.token(SyntaxKind::LineComment, "-- a line\n");
    builder.token(SyntaxKind::BlockComment, "{- a block -}");
    builder.token(SyntaxKind::Lower, "main");
    builder.finish_node();
    let root = SyntaxNode::new_root(builder.finish());
    assert_eq!(root.text(), " -- a line\n{- a block -}main");
}

fn sentinel_code() -> u16 {
    syntax::PureScript::kind_to_raw(SyntaxKind::EndOfFile)
}

#[test]
fn kind_bound_accepts_up_to_sentinel() {
    let sentinel = sentinel_code();
    for code in 0..=sentinel {
        let kind = syntax::PureScript::kind_from_raw_checked(code);
        assert!(kind.is_some());
        assert_eq!(syntax::PureScript::kind_to_raw(kind.unwrap()), code);
    }
}

#[test]
fn kind_bound_rejects_past_sentinel() {
    let sentinel = sentinel_code();
    assert!(syntax::PureScript::kind_from_raw_checked(sentinel + 1).is_none());
    assert!(syntax::PureScript::kind_from_raw_checked(u16::MAX).is_none());
}

#[test]
fn kind_conversion_round_trips() {
    assert_eq!(syntax::PureScript::kind_to_raw(SyntaxKind::Whitespace), 0);
    let raw = syntax::PureScript::kind_to_raw(SyntaxKind::ModuleName);
    assert_eq!(syntax::PureScript::kind_from_raw(raw), SyntaxKind::ModuleName);
}

#[test]
fn trivia_predicate() {
    assert!(SyntaxKind::Whitespace.is_whitespace_or_comment());
    assert!(SyntaxKind::LineComment.is_whitespace_or_comment());
    assert!(SyntaxKind::BlockComment.is_whitespace_or_comment());
    assert!(!SyntaxKind::Module.is_whitespace_or_comment());
    assert!(!SyntaxKind::Upper.is_whitespace_or_comment());
}

fn node_rc(c: &GreenChild) -> Arc<GreenNode> {
    match c {
        GreenChild::Node(rc) => Arc::clone(rc),
        GreenChild::Token(_) => panic!("expected a node child"),
    }
}

#[test]
fn sharing_under_replace() {
    // A root with children B and C; B has child D holding one token.
    let mut builder = GreenNodeBuilder::new();
    builder.start_node(SyntaxKind::Module);
    builder.start_node(SyntaxKind::ModuleHeader);
    builder.start_node(SyntaxKind::ModuleName);
    builder.token(SyntaxKind::Upper, "Old");
    builder.finish_node();
    builder.start_node(SyntaxKind::ExportList);
    builder.token(SyntaxKind::Lower, "x");
    builder.finish_node();
    builder.finish_node();
    builder.start_node(SyntaxKind::ImportList);
    builder.token(SyntaxKind::Lower, "y");
    builder.finish_node();
    builder.finish_node();
    let a = builder.finish();
    let b = node_rc(a.get_child(0));
    let c = node_rc(a.get_child(1));
    let d = node_rc(b.get_child(0));

    // Replace the token inside D (reached through B), keeping C intact.
    let root = SyntaxNode::new_root(Arc::clone(&a));
    let header = root.children().into_iter().next().unwrap();
    let name = header.children().into_iter().next().unwrap();
    let segment = match name.children_with_tokens().into_iter().next().unwrap() {
        SyntaxElement::Token(t) => t,
        SyntaxElement::Node(_) => panic!("expected a token"),
    };
    let new_root = segment.replace_with(GreenToken::new(SyntaxKind::Upper, "New"));

    let b2 = node_rc(new_root.get_child(0));
    let c2 = node_rc(new_root.get_child(1));
    let d2 = node_rc(b2.get_child(0));

    // Off-path subtree C is the very same allocation; the path A, B, D
    // was rebuilt.
    assert!(Arc::ptr_eq(&c, &c2));
    assert!(!Arc::ptr_eq(&a, &new_root));
    assert!(!Arc::ptr_eq(&b, &b2));
    assert!(!Arc::ptr_eq(&d, &d2));

    // The off-path sibling inside B is also the same allocation.
    let e = node_rc(b.get_child(1));
    let e2 = node_rc(b2.get_child(1));
    assert!(Arc::ptr_eq(&e, &e2));
}

#[test]
fn snapshot_independence() {
    let purescript_module = SyntaxNode::new_root(build_module());
    let module_name = purescript_module
        .children()
        .into_iter()
        .next()
        .unwrap()
        .children()
        .into_iter()
        .next()
        .and_then(ast::ModuleName::cast)
        .unwrap();
    let segments = module_name.segments();
    assert_eq!(segments.len(), 2);
    assert_eq!(segments[0].text(), "PureScript");
    assert_eq!(segments[1].text(), "Main");

    let rust_module = SyntaxNode::new_root(
        segments[0].replace_with(GreenToken::new(SyntaxKind::Upper, "Rust")),
    );
    assert_eq!(rust_module.text(), "module Rust.Main () where");
    // The original snapshot still reads exactly as before.
    assert_eq!(purescript_module.text(), "module PureScript.Main () where");
    assert_eq!(segments[0].text(), "PureScript");
}

#[test]
fn cast_correctness() {
    let root = SyntaxNode::new_root(build_module());
    let header = root.children().into_iter().next().unwrap();
    let name = header.children().into_iter().next().unwrap();
    assert_eq!(name.kind(), SyntaxKind::ModuleName);
    assert!(ast::ModuleName::cast(name).is_some());

    // A structurally similar sibling of another kind is refused.
    let export_list = header.children().into_iter().nth(1).unwrap();
    assert_eq!(export_list.kind(), SyntaxKind::ExportList);
    assert!(ast::ModuleName::cast(export_list).is_none());
    assert!(ast::ModuleName::cast(root.duplicate()).is_none());
}

#[test]
fn cast_accepts_declared_alternatives() {
    let mut builder = GreenNodeBuilder::new();
    builder.start_node(SyntaxKind::Module);
    builder.start_node(SyntaxKind::QualifiedName);
    builder.token(SyntaxKind::Upper, "A");
    builder.finish_node();
    builder.start_node(SyntaxKind::Name);
    builder.token(SyntaxKind::Lower, "b");
    builder.finish_node();
    builder.start_node(SyntaxKind::NameRef);
    builder.token(SyntaxKind::Lower, "c");
    builder.finish_node();
    builder.finish_node();
    let root = SyntaxNode::new_root(builder.finish());
    let kids = root.children();
    assert!(ast::QualifiedOrSimpleName::cast(kids[0].duplicate()).is_some());
    assert!(ast::QualifiedOrSimpleName::cast(kids[1].duplicate()).is_some());
    assert!(ast::QualifiedOrSimpleName::cast(kids[2].duplicate()).is_none());
}

#[test]
fn builder_balance_unmatched_start_fails() {
    let mut builder = GreenNodeBuilder::new();
    builder.start_node(SyntaxKind::Module);
    builder.start_node(SyntaxKind::ModuleHeader);
    builder.token(SyntaxKind::ModuleKw, "module");
    builder.finish_node();
    // One start_node is still unmatched: no tree is produced.
    assert_eq!(builder.open_nodes(), 1);
    assert!(builder.try_finish().is_none());
}

#[test]
fn builder_balance_balanced_produces_expected_shape() {
    let root = build_module();
    assert_eq!(root.kind(), SyntaxKind::Module);
    assert_eq!(root.n_children(), 1);
    let header = node_rc(root.get_child(0));
    assert_eq!(header.kind(), SyntaxKind::ModuleHeader);
    assert_eq!(header.n_children(), 7);
    let name = node_rc(header.get_child(2));
    assert_eq!(name.kind(), SyntaxKind::ModuleName);
    assert_eq!(name.n_children(), 3);
}

#[test]
fn builder_empty_produces_no_tree() {
    let builder = GreenNodeBuilder::new();
    assert!(builder.try_finish().is_none());
}

#[test]
fn cursor_offsets_and_parents() {
    let root = SyntaxNode::new_root(build_module());
    assert_eq!(root.offset(), 0);
    assert!(root.parent().is_none());

    let header = root.children().into_iter().next().unwrap();
    assert_eq!(header.offset(), 0);
    assert_eq!(header.parent().unwrap().kind(), SyntaxKind::Module);

    let name = header.children().into_iter().next().unwrap();
    // "module " comes before the module name.
    assert_eq!(name.offset(), 7);
    assert_eq!(name.text(), "PureScript.Main");
    assert_eq!(name.text_len(), 15);
    assert_eq!(name.parent().unwrap().kind(), SyntaxKind::ModuleHeader);

    let module_name = ast::ModuleName::cast(name).unwrap();
    let segments = module_name.segments();
    assert_eq!(segments[0].offset(), 7);
    assert_eq!(segments[1].offset(), 18);
    assert_eq!(segments[1].parent().kind(), SyntaxKind::ModuleName);
}

#[test]
fn children_with_tokens_interleaves_in_order() {
    let root = SyntaxNode::new_root(build_module());
    let header = root.children().into_iter().next().unwrap();
    let kinds: Vec<SyntaxKind> = header.children_with_tokens().iter().map(|e| e.kind()).collect();
    assert_eq!(
        kinds,
        vec![
            SyntaxKind::ModuleKw,
            SyntaxKind::Whitespace,
            SyntaxKind::ModuleName,
            SyntaxKind::Whitespace,
            SyntaxKind::ExportList,
            SyntaxKind::Whitespace,
            SyntaxKind::WhereKw,
        ]
    );
}

#[test]
fn replace_node_cursor_at_root() {
    let root = SyntaxNode::new_root(build_module());
    let mut builder = GreenNodeBuilder::new();
    builder.start_node(SyntaxKind::Error);
    builder.token(SyntaxKind::Lower, "oops");
    builder.finish_node();
    let replacement = builder.finish();
    let new_root = SyntaxNode::new_root(root.replace_with(replacement));
    assert_eq!(new_root.kind(), SyntaxKind::Error);
    assert_eq!(new_root.text(), "oops");
    assert_eq!(root.text(), "module PureScript.Main () where");
}

#[test]
fn replace_inner_node_cursor() {
    let root = SyntaxNode::new_root(build_module());
    let header = root.children().into_iter().next().unwrap();
    let export_list = header.children().into_iter().nth(1).unwrap();
    assert_eq!(export_list.kind(), SyntaxKind::ExportList);

    let mut builder = GreenNodeBuilder::new();
    builder.start_node(SyntaxKind::ExportList);
    builder.token(SyntaxKind::LeftParenthesis, "(");
    builder.token(SyntaxKind::Lower, "main");
    builder.token(SyntaxKind::RightParenthesis, ")");
    builder.finish_node();
    let replacement = builder.finish();

    let new_root = SyntaxNode::new_root(export_list.replace_with(replacement));
    assert_eq!(new_root.text(), "module PureScript.Main (main) where");
    assert_eq!(root.text(), "module PureScript.Main () where");
}

#[test]
fn token_text_and_kind() {
    let token = GreenToken::new(SyntaxKind::Upper, "Data");
    assert_eq!(token.kind(), SyntaxKind::Upper);
    assert_eq!(token.text(), "Data");
    assert_eq!(token.text_len(), 4);
}
