use secret_populator::scanner::{find_token, scan, Token};
use secret_populator::text::chars_of;

fn token(start: usize, end: usize, key: &str) -> Token {
    Token { start, end, key: key.to_string() }
}

#[test]
fn chars_of_gives_the_characters() {
    assert_eq!(chars_of("a<é>"), vec!['a', '<', 'é', '>']);
    assert_eq!(chars_of(""), Vec::<char>::new());
}

#[test]
fn plain_line_has_no_token() {
    assert_eq!(scan("plain text, no tokens"), vec![]);
    assert_eq!(scan(""), vec![]);
}

#[test]
fn one_token() {
    assert_eq!(scan("host=<<db/password>>"), vec![token(5, 20, "db/password")]);
}

#[test]
fn two_tokens_left_to_right() {
    assert_eq!(scan("<<a>>-<<b>>"), vec![token(0, 5, "a"), token(6, 11, "b")]);
}

#[test]
fn adjacent_tokens_are_found_one_by_one() {
    assert_eq!(scan("<<a>><<b>>"), vec![token(0, 5, "a"), token(5, 10, "b")]);
}

#[test]
fn unterminated_opening_is_no_token() {
    assert_eq!(scan("a << b"), vec![]);
    assert_eq!(scan("<<abc>"), vec![]);
    assert_eq!(scan("<<"), vec![]);
    assert_eq!(scan("<<>"), vec![]);
    assert_eq!(scan("<<a>> and <<b"), vec![token(0, 5, "a")]);
}

#[test]
fn closing_without_opening_is_no_token() {
    assert_eq!(scan("a >> b"), vec![]);
    assert_eq!(scan(">><<"), vec![]);
    assert_eq!(scan("<a>>"), vec![]);
}

#[test]
fn key_may_be_empty() {
    assert_eq!(scan("<<>>"), vec![token(0, 4, "")]);
}

#[test]
fn key_is_taken_verbatim() {
    assert_eq!(scan("<< a b >>"), vec![token(0, 9, " a b ")]);
    assert_eq!(scan("<<A>><<a>>"), vec![token(0, 5, "A"), token(5, 10, "a")]);
}

#[test]
fn key_stops_at_the_first_closing() {
    assert_eq!(scan("<<a>>b>>"), vec![token(0, 5, "a")]);
    assert_eq!(scan("<<a>>>"), vec![token(0, 5, "a")]);
    assert_eq!(scan("<<a>b>>"), vec![token(0, 7, "a>b")]);
}

#[test]
fn leftmost_opening_wins() {
    assert_eq!(scan("<<<a>>"), vec![token(0, 6, "<a")]);
    assert_eq!(scan("<<a<<b>>"), vec![token(0, 8, "a<<b")]);
}

#[test]
fn positions_count_characters() {
    assert_eq!(scan("é=<<ключ>>"), vec![token(2, 10, "ключ")]);
}

#[test]
fn token_does_not_reach_across_lines() {
    assert_eq!(scan("<<a\nb>>"), vec![]);
    assert_eq!(scan("<<a\n<<b>>"), vec![token(4, 9, "b")]);
    assert_eq!(scan("<<\n>>"), vec![]);
    assert_eq!(scan("<<a\r>>"), vec![token(0, 6, "a\r")]);
}

#[test]
fn find_token_starts_where_it_is_told() {
    let chars = chars_of("<<a>>-<<b>>");
    assert_eq!(find_token(&chars, 0), Some((0, 5)));
    assert_eq!(find_token(&chars, 1), Some((6, 11)));
    assert_eq!(find_token(&chars, 6), Some((6, 11)));
    assert_eq!(find_token(&chars, 7), None);
    assert_eq!(find_token(&chars, 11), None);
    assert_eq!(find_token(&chars, 100), None);
}

#[test]
fn find_token_on_short_input() {
    assert_eq!(find_token(&[], 0), None);
    assert_eq!(find_token(&['<', '<', '>'], 0), None);
    assert_eq!(find_token(&['<', '<', '>', '>'], 0), Some((0, 4)));
}
