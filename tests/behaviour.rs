use std::str::FromStr;

use pico_args::{ends_with, error_to_string, is_width, parse_width, Arg, Arguments, Error, Keys};

fn tokens(args: &[&str]) -> Vec<Arg> {
    args.iter().map(|s| Arg::Text(s.to_string())).collect()
}

fn store(args: &[&str]) -> Arguments {
    Arguments::from_vec(tokens(args))
}

fn size(a: &Arg) -> Result<usize, String> {
    match a {
        Arg::Binary(b) => Ok(b.len()),
        Arg::Text(_) => Err("text".to_string()),
    }
}

fn size_or_text(a: &Arg) -> Result<usize, String> {
    match a {
        Arg::Binary(b) => Ok(b.len()),
        Arg::Text(t) => Err(format!("text {}", t)),
    }
}

fn text(a: &Arg) -> Result<String, String> {
    match a {
        Arg::Text(t) => Ok(t.clone()),
        Arg::Binary(_) => Err("binary".to_string()),
    }
}

#[test]
fn contains_takes_primary_before_secondary() {
    let mut args = store(&["--verbose", "x", "-v"]);
    assert!(args.contains(["-v", "--verbose"]));
    assert_eq!(args.finish().unwrap_err().to_string(), "unused arguments left: --verbose, x");
}

#[test]
fn contains_takes_first_occurrence_only() {
    let mut args = store(&["a", "-v", "b", "-v"]);
    assert!(args.contains("-v"));
    assert_eq!(args.finish().unwrap_err().to_string(), "unused arguments left: a, b, -v");
}

#[test]
fn contains_absent_leaves_store() {
    let mut args = store(&["-x", "--verbosity"]);
    assert!(!args.contains(["-v", "--verbose"]));
    assert_eq!(args.finish().unwrap_err().to_string(), "unused arguments left: -x, --verbosity");
}

#[test]
fn contains_twice_single_occurrence() {
    let mut args = store(&["-q"]);
    assert!(args.contains("-q"));
    assert!(!args.contains("-q"));
}

#[test]
fn contains_twice_two_occurrences() {
    let mut args = store(&["-q", "--quiet"]);
    assert!(args.contains(["-q", "--quiet"]));
    assert!(args.contains(["-q", "--quiet"]));
    assert!(!args.contains(["-q", "--quiet"]));
}

#[test]
fn round_trip_two_aliases() {
    let mut args = store(&["-w", "10"]);
    let value: Option<u32> = args.opt_value_from_fn(["-w", "--width"], u32::from_str).unwrap();
    assert_eq!(value, Some(10));
    assert!(args.finish().is_ok());
}

#[test]
fn inline_quotes_all_decode_alike() {
    for token in ["-w='10'", "-w=\"10\"", "-w=10"] {
        let mut args = store(&[token]);
        let value: Option<u32> = args.opt_value_from_fn("-w", u32::from_str).unwrap();
        assert_eq!(value, Some(10));
        assert!(args.finish().is_ok());
    }
}

#[test]
fn inline_without_value_is_an_error() {
    for token in ["-w=", "-w='", "-w=''", "-w='\"", "-w='10\""] {
        let mut args = store(&[token]);
        let value: Result<Option<u32>, Error> = args.opt_value_from_fn("-w", u32::from_str);
        assert!(matches!(value, Err(Error::OptionWithoutAValue("-w"))));
        assert!(args.finish().is_err());
    }
}

#[test]
fn inline_quoted_value_keeps_inner_text() {
    let mut args = store(&["--name=\"a b\""]);
    let value: Option<String> = args.opt_value_from_fn("--name", String::from_str).unwrap();
    assert_eq!(value.unwrap(), "a b");
}

#[test]
fn two_token_form_wins_over_inline_form() {
    let mut args = store(&["--width=1", "--width", "2"]);
    let value: Option<u32> = args.opt_value_from_fn("--width", u32::from_str).unwrap();
    assert_eq!(value, Some(2));
    assert_eq!(args.finish().unwrap_err().to_string(), "unused arguments left: --width=1");
}

#[test]
fn two_token_value_may_look_like_a_flag() {
    let mut args = store(&["--key", "--value"]);
    let value: Option<String> = args.opt_value_from_fn("--key", String::from_str).unwrap();
    assert_eq!(value.unwrap(), "--value");
}

#[test]
fn decode_failure_keeps_tokens() {
    let mut args = store(&["--width", "x"]);
    let value: Result<Option<u32>, Error> = args.opt_value_from_fn("--width", u32::from_str);
    assert_eq!(value.unwrap_err().to_string(),
               "failed to parse 'x' cause invalid digit found in string");
    assert_eq!(args.finish().unwrap_err().to_string(), "unused arguments left: --width, x");
}

#[test]
fn binary_option_value_is_an_error() {
    let mut args = Arguments::from_vec(vec![Arg::Text("-i".to_string()), Arg::Binary(vec![0xff])]);
    let value: Result<Option<String>, Error> = args.opt_value_from_fn("-i", String::from_str);
    assert_eq!(value.unwrap_err().to_string(), "argument is not a UTF-8 string");
    assert!(args.finish().is_err());
}

#[test]
fn raw_option_value_accepts_binary() {
    let mut args = Arguments::from_vec(vec![Arg::Text("-i".to_string()), Arg::Binary(vec![0xff, 0xfe])]);
    assert_eq!(args.value_from_os_str("-i", size).unwrap(), 2);
    assert!(args.finish().is_ok());
}

#[test]
fn raw_option_refused_keeps_tokens() {
    let mut args = store(&["-i", "abc"]);
    let value = args.opt_value_from_os_str("-i", size);
    assert_eq!(value.unwrap_err().to_string(), "failed to parse a binary argument cause text");
    assert!(args.finish().is_err());
}

#[test]
fn raw_option_ignores_inline_form() {
    let mut args = store(&["--input=a.txt"]);
    let value = args.opt_value_from_os_str("--input", text).unwrap();
    assert_eq!(value, None);
    let missing = args.value_from_os_str("--input", text);
    assert_eq!(missing.unwrap_err().to_string(), "the '--input' option must be set");
}

#[test]
fn raw_values_in_order() {
    let mut args = store(&["--file", "a", "x", "--file", "b"]);
    assert_eq!(args.values_from_os_str("--file", text).unwrap(), vec!["a".to_string(), "b".to_string()]);
    assert_eq!(args.free().unwrap(), vec!["x".to_string()]);
}

#[test]
fn values_in_order() {
    let mut args = store(&["--file", "a", "--file", "b"]);
    let values: Vec<String> = args.values_from_fn("--file", String::from_str).unwrap();
    assert_eq!(values, vec!["a".to_string(), "b".to_string()]);
    assert!(args.finish().is_ok());
}

#[test]
fn values_absent_is_empty() {
    let mut args = store(&["x", "-y"]);
    let values: Vec<String> = args.values_from_fn("--file", String::from_str).unwrap();
    assert!(values.is_empty());
    assert_eq!(args.finish().unwrap_err().to_string(), "unused arguments left: x, -y");
}

#[test]
fn values_mixed_forms() {
    let mut args = store(&["--n=1", "--n", "2", "-n", "3"]);
    let values: Vec<u32> = args.values_from_fn(["-n", "--n"], u32::from_str).unwrap();
    assert_eq!(values, vec![3, 2, 1]);
}

#[test]
fn values_stop_at_refused_value() {
    let mut args = store(&["--n", "1", "--n", "x", "--n", "3"]);
    let values: Result<Vec<u32>, Error> = args.values_from_fn("--n", u32::from_str);
    assert_eq!(values.unwrap_err().to_string(),
               "failed to parse 'x' cause invalid digit found in string");
    assert_eq!(args.finish().unwrap_err().to_string(), "unused arguments left: --n, x, --n, 3");
}

#[test]
fn stdin_is_never_a_flag() {
    let args = store(&["a", "-", "b"]);
    assert_eq!(args.free().unwrap(), vec!["a".to_string(), "-".to_string(), "b".to_string()]);
    let mut args = store(&["-"]);
    assert_eq!(args.free_from_fn(String::from_str).unwrap(), Some("-".to_string()));
}

#[test]
fn free_lists_only_flags() {
    let args = store(&["-a", "x", "--b", "-"]);
    assert_eq!(args.free().unwrap_err().to_string(), "unused arguments left: -a, --b");
}

#[test]
fn free_binary_is_an_error() {
    let args = Arguments::from_vec(vec![Arg::Text("x".to_string()), Arg::Binary(vec![0x80])]);
    assert!(matches!(args.free(), Err(Error::NonUtf8Argument)));
}

#[test]
fn free_os_keeps_binary() {
    let all = vec![Arg::Binary(vec![0x80]), Arg::Text("-".to_string())];
    let args = Arguments::from_vec(all.clone());
    assert_eq!(args.free_os().unwrap(), all);
}

#[test]
fn free_value_refused_is_still_removed() {
    let mut args = store(&["a", "7"]);
    assert!(args.free_from_fn(u32::from_str).is_err());
    assert_eq!(args.free_from_fn(u32::from_str).unwrap(), Some(7));
    assert!(args.finish().is_ok());
}

#[test]
fn free_value_binary_is_removed() {
    let mut args = Arguments::from_vec(vec![Arg::Binary(vec![0x80]), Arg::Text("b".to_string())]);
    assert!(matches!(args.free_from_fn(String::from_str), Err(Error::NonUtf8Argument)));
    assert_eq!(args.free_from_fn(String::from_str).unwrap(), Some("b".to_string()));
}

#[test]
fn free_raw_value() {
    let mut args = Arguments::from_vec(vec![Arg::Text("t".to_string()), Arg::Binary(vec![1, 2, 3])]);
    assert_eq!(args.free_from_os_str(size_or_text).unwrap_err().to_string(),
               "failed to parse a binary argument cause text t");
    assert_eq!(args.free_from_os_str(size_or_text).unwrap(), Some(3));
    assert_eq!(args.free_from_os_str(size_or_text).unwrap(), None);
}

#[test]
fn free_raw_value_checks_flags() {
    let mut args = store(&["-z"]);
    assert_eq!(args.free_from_os_str(size).unwrap_err().to_string(), "unused arguments left: -z");
}

#[test]
fn finish_names_binary_tokens() {
    let args = Arguments::from_vec(vec![Arg::Text("a".to_string()), Arg::Binary(vec![0xff])]);
    assert_eq!(args.finish().unwrap_err().to_string(), "unused arguments left: a, binary data");
}

#[test]
fn finish_empty_is_ok() {
    assert!(store(&[]).finish().is_ok());
}

#[test]
fn subcommand_skips_flag_and_empty() {
    let mut args = store(&["-v", "run"]);
    assert_eq!(args.subcommand().unwrap(), None);
    let mut empty = store(&[]);
    assert_eq!(empty.subcommand().unwrap(), None);
}

#[test]
fn subcommand_binary_is_an_error() {
    let mut args = Arguments::from_vec(vec![Arg::Binary(vec![0xff]), Arg::Text("x".to_string())]);
    assert!(matches!(args.subcommand(), Err(Error::NonUtf8Argument)));
    assert_eq!(args.subcommand().unwrap(), Some("x".to_string()));
}

#[test]
fn required_value_present() {
    let mut args = store(&["-w=7"]);
    assert_eq!(args.value_from_fn(["-w", "--width"], u32::from_str).unwrap(), 7);
}

#[test]
fn width_parsing() {
    assert_eq!(parse_width("10"), Ok(10));
    assert_eq!(parse_width("+7"), Ok(7));
    assert_eq!(parse_width("0"), Err("width must be positive".to_string()));
    assert_eq!(parse_width("x"), Err("not a number".to_string()));
    assert_eq!(parse_width(""), Err("not a number".to_string()));
    assert_eq!(parse_width("4294967296"), Err("not a number".to_string()));
    assert_eq!(parse_width("4294967295"), Ok(4294967295));
    assert_eq!(parse_width("-1"), Err("not a number".to_string()));
}

#[test]
fn width_checking() {
    assert_eq!(is_width("12".to_string()), Ok(()));
    assert_eq!(is_width("0".to_string()), Err("width must be positive".to_string()));
    assert_eq!(is_width("a".to_string()), Err("not a number".to_string()));
}

#[test]
fn width_as_decoder() {
    let mut args = store(&["--width", "0"]);
    let value = args.opt_value_from_fn("--width", parse_width);
    assert_eq!(value.unwrap_err().to_string(), "failed to parse '0' cause width must be positive");
}

#[test]
fn ends_with_last_byte() {
    assert!(ends_with("abc'", b'\''));
    assert!(!ends_with("abc", b'\''));
    assert!(!ends_with("", b'"'));
    assert!(ends_with("caf\u{e9}", 0xa9));
}

#[test]
fn error_text_of_display() {
    assert_eq!(error_to_string(42u8), "42");
    assert_eq!(error_to_string("cause"), "cause");
}

#[test]
fn keys_spellings() {
    let k = Keys::from(["-w", "--width"]);
    assert_eq!(k.first(), "-w");
    assert_eq!(k.second(), "--width");
    let k = Keys::from("-w");
    assert_eq!(k.first(), "-w");
    assert_eq!(k.second(), "");
}

#[test]
fn missing_option_message_uses_keys() {
    let e = Error::MissingOption(Keys::from(["-n", "--number"]));
    assert_eq!(e.to_string(), "the '-n/--number' option must be set");
}
