use alacritty_terminal::event::{Event, EventListener};
use alacritty_terminal::term::test::TermSize;
use alacritty_terminal::term::Config;
use alacritty_terminal::vte::ansi::{Processor, StdSyncHandler};
use alacritty_terminal::Term;
use std::cell::{Cell, RefCell};
use std::collections::HashSet;
use termica::paths::{
    find_paths_in_chars, join_path, resolve, scan_visible_paths_with, visible_paths_with,
};

fn chars(s: &str) -> Vec<char> {
    s.chars().collect()
}

fn exists_predicate(paths: &[&str]) -> impl Fn(&str) -> bool {
    let set: HashSet<String> = paths.iter().map(|p| p.to_string()).collect();
    move |p: &str| set.contains(p)
}

fn cwd() -> &'static str {
    "/Users/tim/code"
}

fn home() -> &'static str {
    "/Users/tim"
}

#[test]
fn detects_absolute_path() {
    let exists = exists_predicate(&["/etc/hosts"]);
    let r = find_paths_in_chars(
        &chars("edit /etc/hosts please"),
        Some(cwd()),
        Some(home()),
        &exists,
    );
    assert_eq!(r.len(), 1);
    assert_eq!(r[0].2, "/etc/hosts");
}

#[test]
fn absolute_path_with_trailing_comma_trimmed() {
    let exists = exists_predicate(&["/etc/hosts"]);
    let r = find_paths_in_chars(&chars("/etc/hosts,"), Some(cwd()), Some(home()), &exists);
    assert_eq!(r.len(), 1);
    assert_eq!(r[0].2, "/etc/hosts");
}

#[test]
fn absolute_path_with_sentence_dot_trimmed() {
    let exists = exists_predicate(&["/etc/hosts"]);
    let r =
        find_paths_in_chars(&chars("see /etc/hosts."), Some(cwd()), Some(home()), &exists);
    assert_eq!(r.len(), 1);
    assert_eq!(r[0].2, "/etc/hosts");
}

#[test]
fn cwd_relative_path_resolves_against_cwd() {
    let exists = exists_predicate(&["/Users/tim/code/src/lib.rs"]);
    let r =
        find_paths_in_chars(&chars("edit src/lib.rs"), Some(cwd()), Some(home()), &exists);
    assert_eq!(r.len(), 1);
    assert_eq!(r[0].2, "/Users/tim/code/src/lib.rs");
}

#[test]
fn bare_filename_in_cwd_resolves() {
    let exists = exists_predicate(&["/Users/tim/code/Cargo.toml"]);
    let r = find_paths_in_chars(
        &chars("see Cargo.toml here"),
        Some(cwd()),
        Some(home()),
        &exists,
    );
    assert_eq!(r.len(), 1);
    assert_eq!(r[0].2, "/Users/tim/code/Cargo.toml");
}

#[test]
fn cwd_relative_path_requires_cwd() {
    let exists = exists_predicate(&["/Users/tim/code/Cargo.toml"]);
    let r = find_paths_in_chars(&chars("Cargo.toml"), None, Some(home()), &exists);
    assert!(r.is_empty());
}

#[test]
fn tilde_expands_to_home() {
    let exists = exists_predicate(&["/Users/tim/.zshrc"]);
    let r = find_paths_in_chars(&chars("vim ~/.zshrc"), Some(cwd()), Some(home()), &exists);
    assert_eq!(r.len(), 1);
    assert_eq!(r[0].2, "/Users/tim/.zshrc");
}

#[test]
fn bare_tilde_resolves_to_home() {
    let exists = exists_predicate(&["/Users/tim"]);
    let r = find_paths_in_chars(&chars("cd ~"), Some(cwd()), Some(home()), &exists);
    assert_eq!(r.len(), 1);
    assert_eq!(r[0].2, "/Users/tim");
}

#[test]
fn plain_identifier_is_not_a_path_when_nonexistent() {
    let exists = exists_predicate(&[]);
    let r = find_paths_in_chars(&chars("echo hello"), Some(cwd()), Some(home()), &exists);
    assert!(r.is_empty(), "expected no paths; got {r:?}");
}

#[test]
fn extensionless_filename_in_cwd_is_detected() {
    let exists = exists_predicate(&["/Users/tim/code/Makefile"]);
    let r =
        find_paths_in_chars(&chars("see Makefile here"), Some(cwd()), Some(home()), &exists);
    assert_eq!(r.len(), 1);
    assert_eq!(r[0].2, "/Users/tim/code/Makefile");
}

#[test]
fn bare_dirname_in_cwd_is_detected() {
    let exists = exists_predicate(&["/Users/tim/code/src"]);
    let r = find_paths_in_chars(&chars("ls src"), Some(cwd()), Some(home()), &exists);
    assert_eq!(r.len(), 1);
    assert_eq!(r[0].2, "/Users/tim/code/src");
}

#[test]
fn pure_punctuation_token_is_skipped() {
    let exists = exists_predicate(&["/Users/tim/code/|", "/Users/tim/code/-->"]);
    let r = find_paths_in_chars(&chars("a | b --> c"), Some(cwd()), Some(home()), &exists);
    assert!(r.is_empty(), "pure-punctuation tokens should be skipped; got {r:?}");
}

#[test]
fn nonexistent_path_is_not_detected() {
    let exists = exists_predicate(&[]);
    let r =
        find_paths_in_chars(&chars("ls /does/not/exist"), Some(cwd()), Some(home()), &exists);
    assert!(r.is_empty());
}

#[test]
fn url_scheme_token_is_skipped() {
    let exists = exists_predicate(&["/Users/tim/code/https://example.com"]);
    let r = find_paths_in_chars(
        &chars("see https://example.com"),
        Some(cwd()),
        Some(home()),
        &exists,
    );
    assert!(r.is_empty(), "URL token should not be path-detected");
}

#[test]
fn detects_two_paths_on_same_row() {
    let exists =
        exists_predicate(&["/Users/tim/code/src/lib.rs", "/Users/tim/code/Cargo.toml"]);
    let r = find_paths_in_chars(
        &chars("diff src/lib.rs Cargo.toml"),
        Some(cwd()),
        Some(home()),
        &exists,
    );
    assert_eq!(r.len(), 2);
}

#[test]
fn column_range_covers_token_only() {
    let exists = exists_predicate(&["/etc/hosts"]);
    let r = find_paths_in_chars(
        &chars("edit /etc/hosts please"),
        Some(cwd()),
        Some(home()),
        &exists,
    );
    assert_eq!(r.len(), 1);
    assert_eq!(r[0].0, 5);
    assert_eq!(r[0].1, 14);
}

#[derive(Default)]
struct NopListener;
impl EventListener for NopListener {
    fn send_event(&self, _e: Event) {}
}

fn term_with(text: &[u8], rows: u16, cols: u16) -> Term<NopListener> {
    let size = TermSize::new(cols as usize, rows as usize);
    let mut term = Term::new(Config::default(), &size, NopListener);
    let mut parser: Processor<StdSyncHandler> = Processor::new();
    for b in text {
        parser.advance(&mut term, &[*b]);
    }
    term
}

#[test]
fn scan_visible_paths_finds_existing_path_in_grid() {
    let term = term_with(b"edit src/lib.rs please", 5, 60);
    let exists = exists_predicate(&["/Users/tim/code/src/lib.rs"]);
    let spans = scan_visible_paths_with(term.grid(), Some(cwd()), Some(home()), &exists);
    assert_eq!(spans.len(), 1);
    assert_eq!(spans[0].url, "/Users/tim/code/src/lib.rs");
    assert_eq!(spans[0].start.line, 0);
}

#[test]
fn scan_visible_paths_returns_empty_when_path_does_not_exist() {
    let term = term_with(b"edit src/missing.rs", 5, 60);
    let exists = exists_predicate(&[]);
    let spans = scan_visible_paths_with(term.grid(), Some(cwd()), Some(home()), &exists);
    assert!(spans.is_empty());
}

#[test]
fn visible_paths_are_those_of_the_scan() {
    let mut term = term_with(b"see /etc/hosts\r\n1\r\n2\r\n3", 3, 40);
    term.scroll_display(alacritty_terminal::grid::Scroll::Top);
    let exists = exists_predicate(&["/etc/hosts"]);
    let spans = visible_paths_with(term.grid(), None, None, &exists).unwrap();
    assert_eq!(spans.len(), 1);
    assert_eq!((spans[0].start.line, spans[0].start.column), (-1, 4));
    assert_eq!(spans, scan_visible_paths_with(term.grid(), None, None, &exists));
}

#[test]
fn joining_keeps_one_slash_and_lets_an_absolute_path_win() {
    for (base, rest) in [
        ("/a", "b"), ("/a/", "b"), ("", "b"), ("/a", ""), ("/a", "/b"), ("/", "b"), ("a", "b/c"),
    ] {
        let expected = std::path::Path::new(base).join(rest);
        assert_eq!(join_path(base, rest), expected.to_str().unwrap(), "{base:?} {rest:?}");
    }
}

#[test]
fn a_home_path_needs_a_home_and_a_relative_one_a_directory() {
    assert_eq!(resolve("~/x", Some("/c"), Some("/h")).as_deref(), Some("/h/x"));
    assert_eq!(resolve("~", None, Some("/h")).as_deref(), Some("/h"));
    assert_eq!(resolve("~/x", Some("/c"), None), None);
    assert_eq!(resolve("x/y", None, Some("/h")), None);
    assert_eq!(resolve("/x", None, None).as_deref(), Some("/x"));
}

#[test]
fn only_bare_words_are_asked_about() {
    let seen: RefCell<Vec<String>> = RefCell::new(Vec::new());
    let never = |p: &str| {
        seen.borrow_mut().push(p.to_string());
        false
    };
    let row = chars("see (a/b), https://q/z -- foo.;  ~/x");
    assert!(find_paths_in_chars(&row, Some("/c"), Some("/h"), &never).is_empty());
    let asked = vec!["/c/see", "/c/(a/b", "/c/foo.", "/c/foo", "/h/x"];
    assert_eq!(seen.into_inner(), asked);
}

#[test]
fn each_word_goes_by_its_own_answer() {
    let count = Cell::new(0);
    // The first question is answered with no, all later ones with yes.
    let later = |_: &str| {
        count.set(count.get() + 1);
        count.get() > 1
    };
    let found = find_paths_in_chars(&chars("foo. foo."), Some("/c"), None, &later);
    let expected = vec![(0, 2, "/c/foo".to_string()), (5, 8, "/c/foo.".to_string())];
    assert_eq!(found, expected);
}

#[test]
fn no_paths_are_read_past_the_history() {
    let mut term = term_with(b"/a\r\n2\r\n3\r\n4", 3, 30);
    term.scroll_display(alacritty_terminal::grid::Scroll::Top);
    let exists = exists_predicate(&["/a"]);
    assert_eq!(visible_paths_with(term.grid(), None, None, &exists).unwrap().len(), 1);
    let mut parser: Processor<StdSyncHandler> = Processor::new();
    parser.advance(&mut term, b"\x1b[2;3r\x1b[3;1H\n");
    assert_eq!(visible_paths_with(term.grid(), None, None, &exists), None);
}
