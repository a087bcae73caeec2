use ra_nav::query::parse_query;
use ra_nav::resolve::{Analysis, DefKind, Definition, NavError, SourceFile};
use ra_nav::text::{join_path, offset_in_text};
use ra_nav::tokens::{pick_token, token_at, Site, Token, TokenAt};

fn chars(s: &str) -> Vec<char> {
    s.chars().collect()
}

/// Splits ASCII text into identifier runs, whitespace runs and single punctuation
/// characters; every token gets the `Other` site.
fn lex(text: &str) -> Vec<Token> {
    let b = text.as_bytes();
    let mut out = Vec::new();
    let mut i = 0;
    while i < b.len() {
        let start = i;
        let c = b[i];
        let ident = c.is_ascii_alphanumeric() || c == b'_';
        if ident {
            while i < b.len() && (b[i].is_ascii_alphanumeric() || b[i] == b'_') {
                i += 1;
            }
        } else if c.is_ascii_whitespace() {
            while i < b.len() && b[i].is_ascii_whitespace() {
                i += 1;
            }
        } else {
            i += 1;
        }
        out.push(Token { start, end: i, ident, site: Site::Other });
    }
    out
}

fn set_site(tokens: &mut Vec<Token>, start: usize, site: Site) {
    let t = tokens.iter_mut().find(|t| t.start == start).unwrap();
    t.site = site;
}

fn def(id: usize, kind: DefKind, name: &str, offset: usize) -> Definition {
    Definition { id, kind, name: name.to_string(), location: Some((0, offset)) }
}

const LIB: &str = "use std::fmt;\n\n// helpers\n\npub fn foo(x: i32) {}\n\nfn bar() { foo(1); baz(); }\n";

fn lib_analysis() -> Analysis {
    let mut tokens = lex(LIB);
    let foo_decl = LIB.find("foo(x").unwrap();
    let foo_use = LIB.find("foo(1").unwrap();
    let bar_decl = LIB.find("bar").unwrap();
    let baz_use = LIB.find("baz").unwrap();
    set_site(&mut tokens, foo_decl, Site::Binding(Some(0)));
    set_site(&mut tokens, foo_use, Site::Reference(Some(0)));
    set_site(&mut tokens, bar_decl, Site::Binding(Some(1)));
    set_site(&mut tokens, baz_use, Site::Reference(None));
    let files = vec![
        SourceFile { path: "/work/demo/src/lib.rs".to_string(), text: chars(LIB), tokens },
        SourceFile { path: "/work/demo/src/empty.rs".to_string(), text: Vec::new(), tokens: Vec::new() },
    ];
    let symbols = vec![
        def(0, DefKind::Function, "foo", foo_decl),
        def(1, DefKind::Function, "bar", bar_decl),
    ];
    Analysis::new("/work/demo".to_string(), files, symbols).unwrap()
}

#[test]
fn resolves_function_name_at_declaration() {
    let a = lib_analysis();
    let d = a.resolve("src/lib.rs", 5, 10).unwrap();
    assert_eq!(d.name, "foo");
    assert_eq!(d.kind, DefKind::Function);
    assert_eq!(d.location, Some((0, LIB.find("foo(x").unwrap())));
}

#[test]
fn keyword_at_line_start_is_unsupported() {
    let a = lib_analysis();
    assert_eq!(a.resolve("src/lib.rs", 1, 1).unwrap_err(), NavError::UnsupportedToken);
}

#[test]
fn punctuation_is_unsupported() {
    let a = lib_analysis();
    // between the `{` and the `}` of `{}` on line 5
    assert_eq!(a.resolve("src/lib.rs", 5, 21).unwrap_err(), NavError::UnsupportedToken);
}

#[test]
fn missing_file_then_successful_query() {
    let a = lib_analysis();
    assert_eq!(a.resolve("src/nope.rs", 1, 1).unwrap_err(), NavError::FileNotFound);
    let d = a.resolve("src/lib.rs", 5, 10).unwrap();
    assert_eq!(d.name, "foo");
}

#[test]
fn declaration_and_use_give_same_symbol() {
    let a = lib_analysis();
    let decl = a.resolve("src/lib.rs", 5, 8).unwrap();
    let used = a.resolve("src/lib.rs", 7, 12).unwrap();
    assert_eq!(decl.id, used.id);
    assert_eq!(used.name, "foo");
}

#[test]
fn boundary_before_identifier_takes_identifier() {
    let a = lib_analysis();
    // column 8 on line 5 sits between the space and `foo`
    let d = a.resolve("src/lib.rs", 5, 8).unwrap();
    assert_eq!(d.name, "foo");
}

#[test]
fn boundary_after_identifier_takes_identifier() {
    let a = lib_analysis();
    // column 11 on line 5 sits between `foo` and `(`
    let d = a.resolve("src/lib.rs", 5, 11).unwrap();
    assert_eq!(d.name, "foo");
}

#[test]
fn unresolved_reference_is_definition_not_found() {
    let a = lib_analysis();
    assert_eq!(a.resolve("src/lib.rs", 7, 21).unwrap_err(), NavError::DefinitionNotFound);
}

#[test]
fn zero_line_or_column_is_out_of_range() {
    let a = lib_analysis();
    assert_eq!(a.resolve("src/lib.rs", 0, 3).unwrap_err(), NavError::PositionOutOfRange);
    assert_eq!(a.resolve("src/lib.rs", 3, 0).unwrap_err(), NavError::PositionOutOfRange);
}

#[test]
fn position_past_line_or_file_is_out_of_range() {
    let a = lib_analysis();
    assert_eq!(a.resolve("src/lib.rs", 1, 100).unwrap_err(), NavError::PositionOutOfRange);
    assert_eq!(a.resolve("src/lib.rs", 8, 2).unwrap_err(), NavError::PositionOutOfRange);
    assert_eq!(a.resolve("src/lib.rs", 20, 1).unwrap_err(), NavError::PositionOutOfRange);
}

#[test]
fn empty_file_has_no_token() {
    let a = lib_analysis();
    assert_eq!(a.resolve("src/empty.rs", 1, 1).unwrap_err(), NavError::NoToken);
}

#[test]
fn absolute_path_is_looked_up_as_is() {
    let a = lib_analysis();
    let d = a.resolve("/work/demo/src/lib.rs", 5, 10).unwrap();
    assert_eq!(d.name, "foo");
}

#[test]
fn malformed_model_is_refused() {
    let text = "ab";
    // tokens leave a gap
    let tokens = vec![Token { start: 0, end: 1, ident: true, site: Site::Other }];
    let files = vec![SourceFile { path: "/p/a.rs".to_string(), text: chars(text), tokens }];
    assert!(Analysis::new("/p".to_string(), files, Vec::new()).is_none());
    // a site names a missing symbol
    let tokens = vec![Token { start: 0, end: 2, ident: true, site: Site::Reference(Some(3)) }];
    let files = vec![SourceFile { path: "/p/a.rs".to_string(), text: chars(text), tokens }];
    assert!(Analysis::new("/p".to_string(), files, Vec::new()).is_none());
    // two files with one path
    let files = vec![
        SourceFile { path: "/p/a.rs".to_string(), text: Vec::new(), tokens: Vec::new() },
        SourceFile { path: "/p/a.rs".to_string(), text: Vec::new(), tokens: Vec::new() },
    ];
    assert!(Analysis::new("/p".to_string(), files, Vec::new()).is_none());
    // a symbol whose identity is not its index
    let symbols = vec![def(4, DefKind::Struct, "S", 0)];
    assert!(Analysis::new("/p".to_string(), Vec::new(), symbols).is_none());
}

#[test]
fn offsets_count_utf16_columns() {
    // 'é' is one UTF-16 unit and two UTF-8 bytes; '𝄞' is two units and four bytes
    let t = chars("a\né𝄞x\n");
    assert_eq!(offset_in_text(&t, 0, 0), Some(0));
    assert_eq!(offset_in_text(&t, 1, 0), Some(2));
    assert_eq!(offset_in_text(&t, 1, 1), Some(4));
    assert_eq!(offset_in_text(&t, 1, 3), Some(8));
    assert_eq!(offset_in_text(&t, 1, 4), Some(9));
    // the empty last line
    assert_eq!(offset_in_text(&t, 2, 0), Some(10));
    // a line the text lacks
    assert_eq!(offset_in_text(&t, 3, 0), None);
    // past the end of the text
    assert_eq!(offset_in_text(&t, 2, 1), None);
    assert_eq!(offset_in_text(&t, 0, u32::MAX), None);
}

#[test]
fn resolves_with_utf16_columns() {
    let text = "é𝄞 foo\n";
    let tokens = vec![
        Token { start: 0, end: 6, ident: false, site: Site::Other },
        Token { start: 6, end: 7, ident: false, site: Site::Other },
        Token { start: 7, end: 10, ident: true, site: Site::Binding(Some(0)) },
        Token { start: 10, end: 11, ident: false, site: Site::Other },
    ];
    let files = vec![SourceFile { path: "/u/w.rs".to_string(), text: chars(text), tokens }];
    let symbols = vec![def(0, DefKind::Const, "foo", 7)];
    let a = Analysis::new("/u".to_string(), files, symbols).unwrap();
    // UTF-16 column 5 is the start of `foo`; counted in bytes it would be column 8
    assert_eq!(a.resolve("w.rs", 1, 5).unwrap().name, "foo");
    assert_eq!(a.resolve("w.rs", 1, 6).unwrap().name, "foo");
    assert_eq!(a.resolve("w.rs", 1, 2).unwrap_err(), NavError::UnsupportedToken);
}

#[test]
fn joins_paths() {
    assert_eq!(join_path("/r", "src/a.rs"), "/r/src/a.rs");
    assert_eq!(join_path("/r/", "src/a.rs"), "/r/src/a.rs");
    assert_eq!(join_path("", "src/a.rs"), "src/a.rs");
    assert_eq!(join_path("/r", "/abs/a.rs"), "/abs/a.rs");
}

fn tok(start: usize, end: usize, ident: bool) -> Token {
    Token { start, end, ident, site: Site::Other }
}

#[test]
fn token_at_reports_single_between_and_none() {
    let ts = vec![tok(0, 3, true), tok(3, 4, false), tok(4, 7, true)];
    assert_eq!(token_at(&ts, 0), TokenAt::Single(0));
    assert_eq!(token_at(&ts, 1), TokenAt::Single(0));
    assert_eq!(token_at(&ts, 3), TokenAt::Between(0, 1));
    assert_eq!(token_at(&ts, 4), TokenAt::Between(1, 2));
    assert_eq!(token_at(&ts, 5), TokenAt::Single(2));
    assert_eq!(token_at(&ts, 7), TokenAt::Single(2));
    assert_eq!(token_at(&Vec::new(), 0), TokenAt::Nothing);
}

#[test]
fn tie_break_prefers_identifier_on_either_side() {
    let ts = vec![tok(0, 3, true), tok(3, 4, false), tok(4, 7, true)];
    assert_eq!(pick_token(&ts, TokenAt::Between(0, 1)), Some(0));
    assert_eq!(pick_token(&ts, TokenAt::Between(1, 2)), Some(2));
    assert_eq!(pick_token(&ts, TokenAt::Single(1)), Some(1));
    assert_eq!(pick_token(&ts, TokenAt::Nothing), None);
    // two non-identifiers: the left one
    let ts = vec![tok(0, 1, false), tok(1, 2, false)];
    assert_eq!(pick_token(&ts, TokenAt::Between(0, 1)), Some(0));
    // two identifiers: the right one
    let ts = vec![tok(0, 1, true), tok(1, 2, true)];
    assert_eq!(pick_token(&ts, TokenAt::Between(0, 1)), Some(1));
}

#[test]
fn parses_queries() {
    let q = parse_query("src/a.rs:12:5").unwrap();
    assert_eq!(q.0, "src/a.rs");
    assert_eq!((q.1, q.2), (12, 5));
    assert_eq!(parse_query("src/a.rs:+3:4").map(|q| (q.1, q.2)), Some((3, 4)));
    assert_eq!(parse_query("src/a.rs:4294967295:1").map(|q| q.1), Some(4294967295));
    assert!(parse_query("src/a.rs:4294967296:1").is_none());
    assert!(parse_query("src/a.rs:12").is_none());
    assert!(parse_query("src/a.rs:1:2:3").is_none());
    assert!(parse_query("src/a.rs:x:2").is_none());
    assert!(parse_query("src/a.rs::2").is_none());
    assert!(parse_query("src/a.rs:-1:2").is_none());
    assert_eq!(parse_query(":1:0").map(|q| (q.0, q.1, q.2)), Some((String::new(), 1, 0)));
}
