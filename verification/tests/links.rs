use alacritty_terminal::event::{Event, EventListener};
use alacritty_terminal::grid::Dimensions;
use alacritty_terminal::term::test::TermSize;
use alacritty_terminal::term::Config;
use alacritty_terminal::vte::ansi::{Processor, StdSyncHandler};
use alacritty_terminal::Term;
use termica::grid::read_viewport;
use termica::links::{find_urls_in_chars, scan_visible_links, visible_links, LinkSpan, Point};

fn chars(s: &str) -> Vec<char> {
    s.chars().collect()
}

fn urls(s: &str) -> Vec<String> {
    find_urls_in_chars(&chars(s)).into_iter().map(|(_, _, u)| u).collect()
}

#[test]
fn detects_plain_https_url() {
    assert_eq!(urls("see https://example.com here"), vec!["https://example.com"]);
}

#[test]
fn detects_http_url() {
    assert_eq!(urls("http://example.com"), vec!["http://example.com"]);
}

#[test]
fn detects_ftp_url() {
    assert_eq!(urls("ftp://files.example.com/dir"), vec!["ftp://files.example.com/dir"]);
}

#[test]
fn detects_file_url() {
    assert_eq!(urls("file:///etc/hosts"), vec!["file:///etc/hosts"]);
}

#[test]
fn detects_two_urls_on_same_row() {
    let u = urls("a https://example.com b https://other.example here");
    assert_eq!(u, vec!["https://example.com", "https://other.example"]);
}

#[test]
fn longest_scheme_match_wins() {
    assert_eq!(urls("https://example.com"), vec!["https://example.com"]);
}

#[test]
fn url_at_start_of_row() {
    assert_eq!(urls("https://example.com is great"), vec!["https://example.com"]);
    let (start, _, _) = find_urls_in_chars(&chars("https://example.com is great"))[0].clone();
    assert_eq!(start, 0);
}

#[test]
fn url_at_end_of_row() {
    let u = urls("visit https://example.com");
    assert_eq!(u, vec!["https://example.com"]);
    let (_, end, _) = find_urls_in_chars(&chars("visit https://example.com"))[0].clone();
    assert_eq!(end, 24);
}

#[test]
fn trims_trailing_dot() {
    assert_eq!(urls("see https://example.com."), vec!["https://example.com"]);
}

#[test]
fn trims_trailing_comma() {
    assert_eq!(urls("https://a.example, then..."), vec!["https://a.example"]);
}

#[test]
fn trims_trailing_close_paren() {
    assert_eq!(urls("(see https://example.com)"), vec!["https://example.com"]);
}

#[test]
fn trims_multiple_trailing_chars() {
    assert_eq!(urls("really?! https://a.example?!"), vec!["https://a.example"]);
}

#[test]
fn keeps_query_string() {
    assert_eq!(
        urls("https://example.com/path?a=1&b=2"),
        vec!["https://example.com/path?a=1&b=2"]
    );
}

#[test]
fn keeps_fragment() {
    assert_eq!(urls("https://example.com#anchor"), vec!["https://example.com#anchor"]);
}

#[test]
fn keeps_percent_encoded() {
    assert_eq!(urls("https://example.com/a%20b"), vec!["https://example.com/a%20b"]);
}

#[test]
fn whitespace_terminates_url() {
    assert_eq!(urls("https://a.com https://b.com"), vec!["https://a.com", "https://b.com"]);
}

#[test]
fn angle_brackets_terminate_url() {
    assert_eq!(urls("<https://example.com>"), vec!["https://example.com"]);
}

#[test]
fn quotes_terminate_url() {
    assert_eq!(urls("\"https://example.com\""), vec!["https://example.com"]);
}

#[test]
fn schemeless_url_is_not_detected() {
    assert!(urls("example.com").is_empty());
    assert!(urls("www.example.com").is_empty());
}

#[test]
fn lone_scheme_is_not_a_url() {
    assert!(urls("http://").is_empty());
    assert!(urls("https://").is_empty());
}

#[derive(Default)]
struct NopListener;
impl EventListener for NopListener {
    fn send_event(&self, _e: Event) {}
}

fn term_with(text: &[u8], rows: u16, cols: u16) -> Term<NopListener> {
    let size = TermSize::new(cols as usize, rows as usize);
    let mut term = Term::new(Config::default(), &size, NopListener);
    let mut parser: Processor<StdSyncHandler> = Processor::new();
    for b in text {
        parser.advance(&mut term, &[*b]);
    }
    term
}

#[test]
fn scan_visible_links_finds_url_in_grid() {
    let term = term_with(b"see https://example.com\r\nor http://other.example", 5, 60);
    let spans = scan_visible_links(term.grid());
    assert_eq!(spans.len(), 2);

    let urls: Vec<_> = spans.iter().map(|s| s.url.as_str()).collect();
    assert!(urls.contains(&"https://example.com"));
    assert!(urls.contains(&"http://other.example"));

    let lines: Vec<i32> = spans.iter().map(|s| s.start.line).collect();
    assert!(lines.contains(&0));
    assert!(lines.contains(&1));
}

#[test]
fn scan_visible_links_returns_empty_when_no_urls() {
    let term = term_with(b"just plain text here", 5, 40);
    assert!(scan_visible_links(term.grid()).is_empty());
}

#[test]
fn link_contains_point_only_on_correct_line_within_range() {
    let link = LinkSpan {
        start: Point::new(2, 3),
        end: Point::new(2, 10),
        url: "https://x.example".to_string(),
    };
    assert!(link.contains(Point::new(2, 3)));
    assert!(link.contains(Point::new(2, 10)));
    assert!(link.contains(Point::new(2, 7)));
    assert!(!link.contains(Point::new(1, 7)));
    assert!(!link.contains(Point::new(3, 7)));
    assert!(!link.contains(Point::new(2, 2)));
    assert!(!link.contains(Point::new(2, 11)));
}

#[test]
fn links_in_scrolled_back_lines_have_negative_line_numbers() {
    let mut term = term_with(b"x http://old.example\r\n1\r\n2\r\n3\r\n4", 3, 30);
    assert!(scan_visible_links(term.grid()).is_empty());
    term.scroll_display(alacritty_terminal::grid::Scroll::Top);
    let spans = visible_links(term.grid()).unwrap();
    assert_eq!(spans.len(), 1);
    assert_eq!(spans[0].url, "http://old.example");
    assert_eq!((spans[0].start, spans[0].end), (Point::new(-2, 2), Point::new(-2, 19)));
    assert_eq!(scan_visible_links(term.grid()), spans);
}

#[test]
fn the_viewport_is_what_the_grid_shows() {
    let mut term = term_with(b"ab\r\ncd\r\nef\r\ngh", 2, 3);
    let rows = |v: &[Vec<char>]| -> Vec<String> {
        v.iter().map(|r| r.iter().collect()).collect()
    };
    let v = read_viewport(term.grid()).unwrap();
    assert_eq!((v.offset, rows(&v.rows)), (0, vec!["ef ".to_string(), "gh ".to_string()]));
    term.scroll_display(alacritty_terminal::grid::Scroll::Delta(1));
    let v = read_viewport(term.grid()).unwrap();
    assert_eq!((v.offset, rows(&v.rows)), (1, vec!["cd ".to_string(), "ef ".to_string()]));
}

#[test]
fn every_url_of_a_crowded_row_is_found() {
    let row: Vec<char> = "http:// https://a.b, (ftp://c/d) mailto:e@f! http://g".chars().collect();
    let found: Vec<String> = termica::links::find_urls_in_chars(&row)
        .into_iter()
        .map(|(_, _, url)| url)
        .collect();
    assert_eq!(found, vec!["https://a.b", "ftp://c/d", "mailto:e@f", "http://g"]);
}

#[test]
fn a_grid_that_is_scrolled_past_its_history_shows_nothing() {
    let mut term = term_with(b"1\r\n2\r\n3\r\n4", 3, 30);
    term.scroll_display(alacritty_terminal::grid::Scroll::Top);
    assert_eq!(read_viewport(term.grid()).unwrap().offset, 1);
    // Only the two lower lines scroll: the offset grows, the history does not.
    let mut parser: Processor<StdSyncHandler> = Processor::new();
    parser.advance(&mut term, b"\x1b[2;3r\x1b[3;1H\n");
    assert_eq!(term.grid().display_offset(), 2);
    assert_eq!(term.grid().history_size(), 1);
    assert_eq!(read_viewport(term.grid()), None);
    assert_eq!(visible_links(term.grid()), None);
    term.scroll_display(alacritty_terminal::grid::Scroll::Bottom);
    assert_eq!(read_viewport(term.grid()).unwrap().offset, 0);
}
