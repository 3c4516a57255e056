use nomfun::error::{ErrorKind, Simple};
use nomfun::input::InputLength;
use nomfun::multi::{many0, many1, separated_list};
use nomfun::outcome::{IResult, Needed, ParseErr};
use nomfun::primitive::{char, tag, take_while, take_while1};

type Res<'a, O> = IResult<&'a [u8], O, Simple<&'a [u8]>>;

fn is_digit(c: u8) -> bool {
    c >= b'0' && c <= b'9'
}

fn is_space(c: u8) -> bool {
    c == b' '
}

fn digits(i: &[u8]) -> Res<&[u8]> {
    take_while1(i, is_digit)
}

fn spaces(i: &[u8]) -> Res<&[u8]> {
    take_while(i, is_space)
}

fn empty_match(i: &[u8]) -> Res<&[u8]> {
    Ok((i, &i[..0]))
}

fn commits_on_bang(i: &[u8]) -> Res<&[u8]> {
    if i.first() == Some(&b'!') {
        Err(ParseErr::Failure(Simple { i, e: ErrorKind::ParseTo }))
    } else {
        take_while1(i, is_digit)
    }
}

fn comma_or_commit(i: &[u8]) -> Res<char> {
    if i.first() == Some(&b'!') {
        Err(ParseErr::Failure(Simple { i, e: ErrorKind::ParseTo }))
    } else {
        char(',')(i)
    }
}

fn needs_more(_i: &[u8]) -> Res<&[u8]> {
    Err(ParseErr::Incomplete(Needed::Size(1)))
}

fn x_or_needs_more(i: &[u8]) -> Res<&[u8]> {
    if i.first() == Some(&b'x') {
        Ok((&i[1..], &i[..1]))
    } else {
        Err(ParseErr::Incomplete(Needed::Size(1)))
    }
}

#[test]
fn many0_without_a_match_succeeds_with_nothing() {
    let r: Res<Vec<&[u8]>> = many0(&b"abc"[..], tag(&b"x"[..]));
    assert_eq!(r, Ok((&b"abc"[..], vec![])));
}

#[test]
fn many0_on_empty_input_succeeds_with_nothing() {
    let r: Res<Vec<&[u8]>> = many0(&b""[..], tag(&b"x"[..]));
    assert_eq!(r, Ok((&b""[..], vec![])));
}

#[test]
fn many0_collects_in_order() {
    let r: Res<Vec<&[u8]>> = many0(&b"abcdabcdabcdx"[..], tag(&b"abcd"[..]));
    assert_eq!(r, Ok((&b"x"[..], vec![&b"abcd"[..], &b"abcd"[..], &b"abcd"[..]])));
}

#[test]
fn many0_stops_at_the_end_of_input() {
    let r: Res<Vec<&[u8]>> = many0(&b"xxx"[..], tag(&b"x"[..]));
    assert_eq!(r, Ok((&b""[..], vec![&b"x"[..], &b"x"[..], &b"x"[..]])));
}

#[test]
fn many0_answers_a_parser_that_takes_nothing_with_an_error() {
    let r: Res<Vec<&[u8]>> = many0(&b"abc"[..], empty_match);
    assert_eq!(r, Err(ParseErr::Error(Simple { i: &b"abc"[..], e: ErrorKind::Many0 })));
    let r: Res<Vec<&[u8]>> = many0(&b"  x"[..], spaces);
    assert_eq!(r, Err(ParseErr::Error(Simple { i: &b"x"[..], e: ErrorKind::Many0 })));
}

#[test]
fn many0_on_empty_input_still_asks_the_parser_once() {
    let r: Res<Vec<&[u8]>> = many0(&b""[..], empty_match);
    assert_eq!(r, Err(ParseErr::Error(Simple { i: &b""[..], e: ErrorKind::Many0 })));
}

#[test]
fn many0_hands_a_failure_on() {
    let r: Res<Vec<&[u8]>> = many0(&b"!1"[..], commits_on_bang);
    assert_eq!(r, Err(ParseErr::Failure(Simple { i: &b"!1"[..], e: ErrorKind::ParseTo })));
}

#[test]
fn many0_ends_on_incomplete() {
    let r: Res<Vec<&[u8]>> = many0(&b"xxy"[..], x_or_needs_more);
    assert_eq!(r, Ok((&b"y"[..], vec![&b"x"[..], &b"x"[..]])));
    let r: Res<Vec<&[u8]>> = many0(&b"abc"[..], needs_more);
    assert_eq!(r, Ok((&b"abc"[..], vec![])));
}

#[test]
fn many0_accepts_a_parser_that_keeps_state() {
    let mut calls = 0;
    let r: Res<Vec<&[u8]>> = many0(&b"abcdabcdabcd"[..], |i| {
        calls += 1;
        tag(&b"abcd"[..])(i)
    });
    assert_eq!(r.map(|(_, v)| v.len()), Ok(3));
    assert_eq!(calls, 3);
}

#[test]
fn many0_never_leaves_more_than_it_was_given() {
    let input = &b"xxxy"[..];
    let r: Res<Vec<&[u8]>> = many0(input, tag(&b"x"[..]));
    let (rest, values) = r.unwrap();
    assert!(rest.input_len() <= input.input_len());
    assert!(rest.input_len() + values.len() <= input.input_len());
}

#[test]
fn many1_without_a_match_is_an_error() {
    let r: Res<Vec<&[u8]>> = many1(&b"abc"[..], tag(&b"x"[..]));
    assert_eq!(r, Err(ParseErr::Error(Simple { i: &b"abc"[..], e: ErrorKind::Many1 })));
}

#[test]
fn many1_on_empty_input_is_an_error() {
    let r: Res<Vec<&[u8]>> = many1(&b""[..], tag(&b"x"[..]));
    assert_eq!(r, Err(ParseErr::Error(Simple { i: &b""[..], e: ErrorKind::Many1 })));
}

#[test]
fn many1_with_incomplete_at_first_is_an_error() {
    let r: Res<Vec<&[u8]>> = many1(&b"abc"[..], needs_more);
    assert_eq!(r, Err(ParseErr::Error(Simple { i: &b"abc"[..], e: ErrorKind::Many1 })));
}

#[test]
fn many1_collects_in_order() {
    let r: Res<Vec<&[u8]>> = many1(&b"xxy"[..], tag(&b"x"[..]));
    assert_eq!(r, Ok((&b"y"[..], vec![&b"x"[..], &b"x"[..]])));
    let r: Res<Vec<&[u8]>> = many1(&b"x"[..], tag(&b"x"[..]));
    assert_eq!(r, Ok((&b""[..], vec![&b"x"[..]])));
}

#[test]
fn many1_answers_a_parser_that_takes_nothing_with_an_error() {
    let r: Res<Vec<&[u8]>> = many1(&b"abc"[..], empty_match);
    assert_eq!(r, Err(ParseErr::Error(Simple { i: &b"abc"[..], e: ErrorKind::Many1 })));
    let r: Res<Vec<&[u8]>> = many1(&b"  x"[..], spaces);
    assert_eq!(r, Err(ParseErr::Error(Simple { i: &b"x"[..], e: ErrorKind::Many1 })));
}

#[test]
fn many1_hands_a_failure_on() {
    let r: Res<Vec<&[u8]>> = many1(&b"!1"[..], commits_on_bang);
    assert_eq!(r, Err(ParseErr::Failure(Simple { i: &b"!1"[..], e: ErrorKind::ParseTo })));
}

fn one_digit(i: &[u8]) -> Res<&[u8]> {
    if i.first().map_or(false, |c| is_digit(*c)) {
        Ok((&i[1..], &i[..1]))
    } else {
        commits_on_bang(i)
    }
}

#[test]
fn many1_hands_a_later_failure_on() {
    let r: Res<Vec<&[u8]>> = many1(&b"12!"[..], one_digit);
    assert_eq!(r, Err(ParseErr::Failure(Simple { i: &b"!"[..], e: ErrorKind::ParseTo })));
}

#[test]
fn separated_list_collects_the_items() {
    let r: Res<Vec<&[u8]>> = separated_list(&b"1,22,333;"[..], char(','), digits);
    assert_eq!(r, Ok((&b";"[..], vec![&b"1"[..], &b"22"[..], &b"333"[..]])));
}

#[test]
fn separated_list_of_one_item() {
    let r: Res<Vec<&[u8]>> = separated_list(&b"7"[..], char(','), digits);
    assert_eq!(r, Ok((&b""[..], vec![&b"7"[..]])));
    let r: Res<Vec<&[u8]>> = separated_list(&b"7]"[..], char(','), digits);
    assert_eq!(r, Ok((&b"]"[..], vec![&b"7"[..]])));
}

#[test]
fn separated_list_does_not_consume_a_trailing_separator() {
    let r: Res<Vec<&[u8]>> = separated_list(&b"1,2,x"[..], char(','), digits);
    assert_eq!(r, Ok((&b",x"[..], vec![&b"1"[..], &b"2"[..]])));
    let r: Res<Vec<&[u8]>> = separated_list(&b"1,2,"[..], char(','), digits);
    assert_eq!(r, Ok((&b","[..], vec![&b"1"[..], &b"2"[..]])));
}

#[test]
fn separated_list_without_a_first_item_is_the_empty_list() {
    let r: Res<Vec<&[u8]>> = separated_list(&b"]"[..], tag(&b","[..]), tag(&b"a"[..]));
    assert_eq!(r, Ok((&b"]"[..], vec![])));
    let r: Res<Vec<&[u8]>> = separated_list(&b"x,1"[..], char(','), digits);
    assert_eq!(r, Ok((&b"x,1"[..], vec![])));
    let r: Res<Vec<&[u8]>> = separated_list(&b""[..], char(','), digits);
    assert_eq!(r, Ok((&b""[..], vec![])));
}

#[test]
fn separated_list_hands_incomplete_of_the_first_item_on() {
    let r: Res<Vec<char>> = separated_list(&b""[..], digits, char('a'));
    assert_eq!(r, Err(ParseErr::Incomplete(Needed::Unknown)));
}

#[test]
fn separated_list_answers_an_item_that_takes_nothing_with_an_error() {
    let r: Res<Vec<&[u8]>> = separated_list(&b" ,x"[..], char(','), spaces);
    assert_eq!(r, Err(ParseErr::Error(Simple { i: &b",x"[..], e: ErrorKind::Many0 })));
}

#[test]
fn separated_list_accepts_a_separator_that_takes_nothing() {
    let r: Res<Vec<&[u8]>> = separated_list(&b"1 2  3x"[..], spaces, digits);
    assert_eq!(r, Ok((&b"x"[..], vec![&b"1"[..], &b"2"[..], &b"3"[..]])));
}

#[test]
fn separated_list_hands_a_failure_on() {
    let r: Res<Vec<&[u8]>> = separated_list(&b"1,!"[..], char(','), commits_on_bang);
    assert_eq!(r, Err(ParseErr::Failure(Simple { i: &b"!"[..], e: ErrorKind::ParseTo })));
    let r: Res<Vec<&[u8]>> = separated_list(&b"1!2"[..], comma_or_commit, digits);
    assert_eq!(r, Err(ParseErr::Failure(Simple { i: &b"!2"[..], e: ErrorKind::ParseTo })));
    let r: Res<Vec<&[u8]>> = separated_list(&b"!"[..], char(','), commits_on_bang);
    assert_eq!(r, Err(ParseErr::Failure(Simple { i: &b"!"[..], e: ErrorKind::ParseTo })));
}

#[test]
fn separated_list_never_leaves_more_than_it_was_given() {
    let input = &b"1,2,3,"[..];
    let r: Res<Vec<&[u8]>> = separated_list(input, char(','), digits);
    let (rest, _) = r.unwrap();
    assert!(rest.input_len() <= input.input_len());
}
