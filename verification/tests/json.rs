use fnv::FnvHashMap;
use nomfun::branch::or;
use nomfun::combinator::{flat_map, value};
use nomfun::error::{Er, ErrorKind, Simple, Verbose, VerboseKind};
use nomfun::multi::separated_list;
use nomfun::outcome::{IResult, Needed, ParseErr};
use nomfun::primitive::{char, tag, take_while, take_while1};
use nomfun::sequence::{delimited, separated};
use std::str::from_utf8;

#[derive(Debug, PartialEq)]
enum JsonValue<'a> {
    Str(&'a str),
    Boolean(bool),
    Num(f64),
    Array(Vec<JsonValue<'a>>),
    Object(FnvHashMap<&'a str, JsonValue<'a>>),
}

type Res<'a, O, E> = IResult<&'a [u8], O, E>;

fn is_space(c: u8) -> bool {
    c == b' ' || c == b'\t' || c == b'\r' || c == b'\n'
}

fn is_digit(c: u8) -> bool {
    c >= b'0' && c <= b'9'
}

fn is_sign(c: u8) -> bool {
    c == b'+' || c == b'-'
}

fn sp<'a, E: Er<&'a [u8]>>(i: &'a [u8]) -> Res<'a, &'a [u8], E> {
    take_while(i, is_space)
}

fn recognize_float<'a, E: Er<&'a [u8]>>(input: &'a [u8]) -> Res<'a, &'a [u8], E> {
    let (i, sign) = take_while(input, is_sign)?;
    if sign.len() > 1 {
        return Err(ParseErr::Error(E::from_error_kind(input, ErrorKind::ParseTo)));
    }
    let (i, whole) = take_while(i, is_digit)?;
    let (i, fraction) = match char::<E>('.')(i) {
        Ok((after_point, _)) => take_while(after_point, is_digit)?,
        Err(_) => (i, &i[..0]),
    };
    if whole.is_empty() && fraction.is_empty() {
        return Err(ParseErr::Error(E::from_error_kind(input, ErrorKind::ParseTo)));
    }
    let i = match i.first() {
        Some(b'e') | Some(b'E') => {
            let (after_sign, sign) = take_while::<u8, _, E>(&i[1..], is_sign)?;
            match take_while1::<u8, _, E>(after_sign, is_digit) {
                Ok((after_exponent, _)) if sign.len() <= 1 => after_exponent,
                _ => i,
            }
        }
        _ => i,
    };
    Ok((i, &input[..input.len() - i.len()]))
}

fn to_float<'a, E: Er<&'a [u8]>>(i: &'a [u8]) -> Res<'a, f64, E> {
    match from_utf8(i).ok().and_then(|s| s.parse::<f64>().ok()) {
        Some(o) => Ok((&i[i.len()..], o)),
        None => Err(ParseErr::Error(E::from_error_kind(i, ErrorKind::ParseTo))),
    }
}

fn float<'a, E: Er<&'a [u8]>>(i: &'a [u8]) -> Res<'a, f64, E> {
    flat_map(i, recognize_float::<E>, to_float::<E>)
}

fn not_quote(c: u8) -> bool {
    c != b'"'
}

fn parse_str<'a, E: Er<&'a [u8]>>(input: &'a [u8]) -> Res<'a, &'a str, E> {
    let (i, data) = take_while(input, not_quote)?;
    match from_utf8(data) {
        Ok(s) => Ok((i, s)),
        Err(_) => Err(ParseErr::Error(E::from_error_kind(input, ErrorKind::ParseTo))),
    }
}

fn string<'a, E: Er<&'a [u8]>>(input: &'a [u8]) -> Res<'a, &'a str, E> {
    delimited(input, char('"'), parse_str, char('"'))
}

fn json_false<'a, E: Er<&'a [u8]>>(i: &'a [u8]) -> Res<'a, bool, E> {
    value(i, tag(&b"false"[..]), false)
}

fn json_true<'a, E: Er<&'a [u8]>>(i: &'a [u8]) -> Res<'a, bool, E> {
    value(i, tag(&b"true"[..]), true)
}

fn boolean<'a, E: Er<&'a [u8]>>(input: &'a [u8]) -> Res<'a, bool, E> {
    let alternatives: [&dyn Fn(&'a [u8]) -> Res<'a, bool, E>; 2] = [&json_false, &json_true];
    or(input, &alternatives[..])
}

fn items<'a, E: Er<&'a [u8]>>(i: &'a [u8]) -> Res<'a, Vec<JsonValue<'a>>, E> {
    separated_list(i, char(','), json_value)
}

fn array<'a, E: Er<&'a [u8]>>(input: &'a [u8]) -> Res<'a, Vec<JsonValue<'a>>, E> {
    delimited(input, char('['), items, char(']'))
}

fn key_value<'a, E: Er<&'a [u8]>>(input: &'a [u8]) -> Res<'a, (&'a str, JsonValue<'a>), E> {
    separated(input, string, char(':'), json_value)
}

fn comma_kv<'a, E: Er<&'a [u8]>>(i: &'a [u8]) -> Res<'a, (&'a str, JsonValue<'a>), E> {
    let (i, _) = sp(i)?;
    let (i, _) = char(',')(i)?;
    key_value(i)
}

fn hash_internal<'a, E: Er<&'a [u8]>>(
    input: &'a [u8],
) -> Res<'a, FnvHashMap<&'a str, JsonValue<'a>>, E> {
    match key_value::<E>(input) {
        Err(ParseErr::Error(_)) => Ok((input, FnvHashMap::default())),
        Err(e) => Err(e),
        Ok((i, (key, value))) => {
            let mut map = FnvHashMap::default();
            map.insert(key, value);
            let mut input = i;
            loop {
                match comma_kv::<E>(input) {
                    Err(ParseErr::Error(_)) => break Ok((input, map)),
                    Err(e) => break Err(e),
                    Ok((i, (key, value))) => {
                        map.insert(key, value);
                        input = i;
                    }
                }
            }
        }
    }
}

fn hash<'a, E: Er<&'a [u8]>>(input: &'a [u8]) -> Res<'a, FnvHashMap<&'a str, JsonValue<'a>>, E> {
    delimited(input, char('{'), hash_internal, char('}'))
}

fn str_value<'a, E: Er<&'a [u8]>>(i: &'a [u8]) -> Res<'a, JsonValue<'a>, E> {
    nomfun::combinator::map(i, string, JsonValue::Str)
}

fn num_value<'a, E: Er<&'a [u8]>>(i: &'a [u8]) -> Res<'a, JsonValue<'a>, E> {
    nomfun::combinator::map(i, float, JsonValue::Num)
}

fn array_value<'a, E: Er<&'a [u8]>>(i: &'a [u8]) -> Res<'a, JsonValue<'a>, E> {
    nomfun::combinator::map(i, array, JsonValue::Array)
}

fn object_value<'a, E: Er<&'a [u8]>>(i: &'a [u8]) -> Res<'a, JsonValue<'a>, E> {
    nomfun::combinator::map(i, hash, JsonValue::Object)
}

fn boolean_value<'a, E: Er<&'a [u8]>>(i: &'a [u8]) -> Res<'a, JsonValue<'a>, E> {
    nomfun::combinator::map(i, boolean, JsonValue::Boolean)
}

fn json_value<'a, E: Er<&'a [u8]>>(input: &'a [u8]) -> Res<'a, JsonValue<'a>, E> {
    let alternatives: [&dyn Fn(&'a [u8]) -> Res<'a, JsonValue<'a>, E>; 5] =
        [&str_value, &num_value, &array_value, &object_value, &boolean_value];
    or(input, &alternatives[..])
}

fn root<'a, E: Er<&'a [u8]>>(input: &'a [u8]) -> Res<'a, JsonValue<'a>, E> {
    let alternatives: [&dyn Fn(&'a [u8]) -> Res<'a, JsonValue<'a>, E>; 2] =
        [&array_value, &object_value];
    or(input, &alternatives[..])
}

#[test]
fn json_object_with_a_number_and_an_array() {
    let input = &b"{\"a\":1,\"b\":[true,false]}"[..];
    let (rest, parsed) = root::<Simple<&[u8]>>(input).unwrap();
    assert_eq!(rest, &b""[..]);
    let mut expected = FnvHashMap::default();
    expected.insert("a", JsonValue::Num(1.0));
    expected.insert(
        "b",
        JsonValue::Array(vec![JsonValue::Boolean(true), JsonValue::Boolean(false)]),
    );
    match &parsed {
        JsonValue::Object(entries) => assert_eq!(entries.len(), 2),
        other => panic!("not an object: {:?}", other),
    }
    assert_eq!(parsed, JsonValue::Object(expected));
}

#[test]
fn json_cut_short_is_never_a_success() {
    let input = &b"{\"a\":1,\"b\":[true,false"[..];
    assert_eq!(root::<Simple<&[u8]>>(input), Err(ParseErr::Incomplete(Needed::Unknown)));
    assert_eq!(root::<(&[u8], u32)>(input), Err(ParseErr::Incomplete(Needed::Unknown)));
    let input = &b"{\"a\":1,\"b\":[true,false]"[..];
    assert!(root::<Simple<&[u8]>>(input).is_err());
    let input = &b"{\"a\":1,\"b\":[true,fal"[..];
    assert!(root::<Simple<&[u8]>>(input).is_err());
    let input = &b"{\"a\":1,\"b"[..];
    assert!(root::<Simple<&[u8]>>(input).is_err());
}

#[test]
fn json_with_nested_objects_and_strings() {
    let input = &b"{\"a\":42,\"b\":[\"x\",\"y\",12],\"c\":{\"hello\":\"world\"}};"[..];
    let (rest, parsed) = root::<(&[u8], u32)>(input).unwrap();
    assert_eq!(rest, &b";"[..]);
    let mut inner = FnvHashMap::default();
    inner.insert("hello", JsonValue::Str("world"));
    let mut expected = FnvHashMap::default();
    expected.insert("a", JsonValue::Num(42.0));
    expected.insert(
        "b",
        JsonValue::Array(vec![JsonValue::Str("x"), JsonValue::Str("y"), JsonValue::Num(12.0)]),
    );
    expected.insert("c", JsonValue::Object(inner));
    assert_eq!(parsed, JsonValue::Object(expected));
}

#[test]
fn json_numbers() {
    assert_eq!(float::<Simple<&[u8]>>(&b"1,"[..]), Ok((&b","[..], 1.0)));
    assert_eq!(float::<Simple<&[u8]>>(&b"-12.5e3]"[..]), Ok((&b"]"[..], -12500.0)));
    assert_eq!(float::<Simple<&[u8]>>(&b"0.25"[..]), Ok((&b""[..], 0.25)));
    assert_eq!(float::<Simple<&[u8]>>(&b"7e"[..]), Ok((&b"e"[..], 7.0)));
    assert_eq!(
        float::<Simple<&[u8]>>(&b"true"[..]),
        Err(ParseErr::Error(Simple { i: &b"true"[..], e: ErrorKind::ParseTo }))
    );
}

#[test]
fn json_error_with_the_verbose_representation_is_the_farthest() {
    let input = &b"[true,folse]"[..];
    match root::<Verbose<&[u8]>>(input) {
        Err(ParseErr::Error(e)) => {
            assert_eq!(e.entries(), &[(&b",folse]"[..], VerboseKind::E(ErrorKind::Char))][..]);
        }
        other => panic!("unexpected result: {:?}", other),
    }
}

#[test]
fn json_empty_object() {
    let (rest, parsed) = root::<Simple<&[u8]>>(&b"{}"[..]).unwrap();
    assert_eq!(rest, &b""[..]);
    assert_eq!(parsed, JsonValue::Object(FnvHashMap::default()));
}

#[test]
fn json_empty_array() {
    let (rest, parsed) = root::<Simple<&[u8]>>(&b"[]"[..]).unwrap();
    assert_eq!(rest, &b""[..]);
    assert_eq!(parsed, JsonValue::Array(vec![]));
    let (rest, parsed) = root::<Simple<&[u8]>>(&b"{\"a\":[]}"[..]).unwrap();
    assert_eq!(rest, &b""[..]);
    let mut expected = FnvHashMap::default();
    expected.insert("a", JsonValue::Array(vec![]));
    assert_eq!(parsed, JsonValue::Object(expected));
}
