use vstd::prelude::*;
use vstd::string::to_string_from_display_ensures;
use std::fmt::Display;
use crate::arg::{Arg, ArgView, text_of};
use crate::error::{Error, ErrorView};
use crate::scan::{PairKind, exact_hit, find_value_spec, taken};

verus! {

/// The store after a flag check: whether one of the aliases was present, and
/// what is left once the first such token is gone.
pub open spec fn after_contains(s: Seq<ArgView>, keys: (Seq<char>, Seq<char>)) -> (bool, Seq<ArgView>) {
    match exact_hit(s, keys) {
        Some((i, _)) => (true, s.remove(i)),
        None => (false, s),
    }
}

/// The decoder may be called on any text.
pub open spec fn decodes_any_text<T, E, F: Fn(&str) -> Result<T, E>>(f: F) -> bool {
    forall|x: &str| #[trigger] f.requires((x,))
}

/// The decoder, called on the text `v`, may return `Ok(x)`.
pub open spec fn accepts<T, E, F: Fn(&str) -> Result<T, E>>(f: F, v: Seq<char>, x: T) -> bool {
    exists|s: &str| s@ == v && #[trigger] f.ensures((s,), Ok::<T, E>(x))
}

/// The decoder, called on the text `v`, may return an error whose display
/// text is `cause`.
pub open spec fn rejects<T, E: Display, F: Fn(&str) -> Result<T, E>>(
    f: F,
    v: Seq<char>,
    cause: String,
) -> bool {
    exists|s: &str, e: E|
        s@ == v && #[trigger] f.ensures((s,), Err::<T, E>(e)) && to_string_from_display_ensures::<
            E,
        >(&e, cause)
}

/// `err` reports that the decoder refused the text `v`.
pub open spec fn refused_by<T, E: Display, F: Fn(&str) -> Result<T, E>>(
    err: Error,
    f: F,
    v: Seq<char>,
) -> bool {
    match err {
        Error::Utf8ArgumentParsingFailed { value, cause } => value@ == v && rejects(f, v, cause),
        _ => false,
    }
}

/// What an optional key-value extraction returns and leaves behind, given the
/// store before it and the keys; `f` decides only between the found value
/// being taken (`Ok(Some(..))`, its tokens removed) and refused (an error,
/// nothing removed).
pub open spec fn opt_value_outcome<T, E: Display, F: Fn(&str) -> Result<T, E>>(
    s: Seq<ArgView>,
    keys: (Seq<char>, Seq<char>),
    f: F,
    r: Result<Option<T>, Error>,
    after: Seq<ArgView>,
) -> bool {
    match find_value_spec(s, keys) {
        Err(e) => r matches Err(re) && re@ == e && after == s,
        Ok(None) => r matches Ok(None) && after == s,
        Ok(Some((v, kind, i))) => match r {
            Ok(Some(x)) => accepts(f, v, x) && after == taken(s, i, kind),
            Ok(None) => false,
            Err(re) => refused_by(re, f, v) && after == s,
        },
    }
}

/// What a required key-value extraction returns and leaves behind: as the
/// optional one, but an absent option is the error `MissingOption`.
pub open spec fn value_outcome<T, E: Display, F: Fn(&str) -> Result<T, E>>(
    s: Seq<ArgView>,
    keys: (Seq<char>, Seq<char>),
    f: F,
    r: Result<T, Error>,
    after: Seq<ArgView>,
) -> bool {
    match find_value_spec(s, keys) {
        Ok(None) => r matches Err(re) && re@ == ErrorView::MissingOption(keys.0, keys.1) && after
            == s,
        _ => opt_value_outcome(
            s,
            keys,
            f,
            match r {
                Ok(x) => Ok(Some(x)),
                Err(e) => Err(e),
            },
            after,
        ),
    }
}

/// The store after `n` successive successful extractions of the option.
pub open spec fn store_after(s: Seq<ArgView>, keys: (Seq<char>, Seq<char>), n: nat) -> Seq<ArgView>
    decreases n,
{
    if n == 0 {
        s
    } else {
        let p = store_after(s, keys, (n - 1) as nat);
        match find_value_spec(p, keys) {
            Ok(Some((_, kind, i))) => taken(p, i, kind),
            _ => p,
        }
    }
}

/// The search for the option's value after `n` successful extractions.
pub open spec fn search_after(s: Seq<ArgView>, keys: (Seq<char>, Seq<char>), n: nat) -> Result<
    Option<(Seq<char>, PairKind, int)>,
    ErrorView,
> {
    find_value_spec(store_after(s, keys, n), keys)
}

/// The value found by the search after `n` successful extractions, if any.
pub open spec fn value_after(s: Seq<ArgView>, keys: (Seq<char>, Seq<char>), n: nat) -> Option<Seq<char>> {
    match search_after(s, keys, n) {
        Ok(Some((v, _, _))) => Some(v),
        _ => None,
    }
}

pub proof fn lemma_chain_step(s: Seq<ArgView>, keys: (Seq<char>, Seq<char>), n: nat)
    ensures
        search_after(s, keys, n) == find_value_spec(store_after(s, keys, n), keys),
        match find_value_spec(store_after(s, keys, n), keys) {
            Ok(Some((w, kind, i))) => store_after(s, keys, n + 1) == taken(
                store_after(s, keys, n),
                i,
                kind,
            ) && value_after(s, keys, n) == Some(w),
            _ => value_after(s, keys, n) is None,
        },
{
}

/// What a repeated extraction returns and leaves behind: it extracts the
/// option again and again, each value decoded by `f`, until the option is
/// absent (`Ok` with all values in order) or a search or a decoding fails
/// (that error, with the failing occurrence left in place).
pub open spec fn values_outcome<T, E: Display, F: Fn(&str) -> Result<T, E>>(
    s: Seq<ArgView>,
    keys: (Seq<char>, Seq<char>),
    f: F,
    r: Result<Vec<T>, Error>,
    after: Seq<ArgView>,
) -> bool {
    match r {
        Ok(xs) => {
            &&& forall|j: int|
                0 <= j < xs.len() ==> #[trigger] value_after(s, keys, j as nat) is Some && accepts(
                    f,
                    value_after(s, keys, j as nat)->Some_0,
                    xs@[j],
                )
            &&& search_after(s, keys, xs.len() as nat) is Ok
            &&& search_after(s, keys, xs.len() as nat)->Ok_0 is None
            &&& after == store_after(s, keys, xs.len() as nat)
        },
        Err(err) => exists|n: nat|
            {
                &&& forall|j: int| 0 <= j < n ==> #[trigger] value_after(s, keys, j as nat) is Some
                &&& after == store_after(s, keys, n)
                &&& match search_after(s, keys, n) {
                    Err(e) => err@ == e,
                    Ok(Some((v, _, _))) => refused_by(err, f, v),
                    Ok(None) => false,
                }
            },
    }
}

/// The raw decoder may be called on any token.
pub open spec fn decodes_any_arg<T, E, F: Fn(&Arg) -> Result<T, E>>(f: F) -> bool {
    forall|a: &Arg| #[trigger] f.requires((a,))
}

/// The raw decoder, called on a token whose value is `a`, may return `Ok(x)`.
pub open spec fn accepts_arg<T, E, F: Fn(&Arg) -> Result<T, E>>(f: F, a: ArgView, x: T) -> bool {
    exists|b: &Arg| b@ == a && #[trigger] f.ensures((b,), Ok::<T, E>(x))
}

/// The raw decoder, called on a token whose value is `a`, may return an error
/// whose display text is `cause`.
pub open spec fn rejects_arg<T, E: Display, F: Fn(&Arg) -> Result<T, E>>(
    f: F,
    a: ArgView,
    cause: String,
) -> bool {
    exists|b: &Arg, e: E|
        b@ == a && #[trigger] f.ensures((b,), Err::<T, E>(e)) && to_string_from_display_ensures::<
            E,
        >(&e, cause)
}

/// `err` reports that the raw decoder refused the token `a`.
pub open spec fn raw_refused_by<T, E: Display, F: Fn(&Arg) -> Result<T, E>>(
    err: Error,
    f: F,
    a: ArgView,
) -> bool {
    match err {
        Error::ArgumentParsingFailed { cause } => rejects_arg(f, a, cause),
        _ => false,
    }
}

/// The outcome of looking for an option's raw value: only the two-token form
/// counts, and the value token may be any token.
pub open spec fn raw_value_spec(s: Seq<ArgView>, keys: (Seq<char>, Seq<char>)) -> Result<
    Option<(ArgView, int)>,
    ErrorView,
> {
    match exact_hit(s, keys) {
        Some((i, key)) => if i + 1 < s.len() {
            Ok(Some((s[i + 1], i)))
        } else {
            Err(ErrorView::OptionWithoutAValue(key))
        },
        None => Ok(None),
    }
}

/// What an optional raw key-value extraction returns and leaves behind.
pub open spec fn opt_raw_outcome<T, E: Display, F: Fn(&Arg) -> Result<T, E>>(
    s: Seq<ArgView>,
    keys: (Seq<char>, Seq<char>),
    f: F,
    r: Result<Option<T>, Error>,
    after: Seq<ArgView>,
) -> bool {
    match raw_value_spec(s, keys) {
        Err(e) => r matches Err(re) && re@ == e && after == s,
        Ok(None) => r matches Ok(None) && after == s,
        Ok(Some((a, i))) => match r {
            Ok(Some(x)) => accepts_arg(f, a, x) && after == s.remove(i).remove(i),
            Ok(None) => false,
            Err(re) => raw_refused_by(re, f, a) && after == s,
        },
    }
}

/// What a required raw key-value extraction returns and leaves behind.
pub open spec fn raw_outcome<T, E: Display, F: Fn(&Arg) -> Result<T, E>>(
    s: Seq<ArgView>,
    keys: (Seq<char>, Seq<char>),
    f: F,
    r: Result<T, Error>,
    after: Seq<ArgView>,
) -> bool {
    match raw_value_spec(s, keys) {
        Ok(None) => r matches Err(re) && re@ == ErrorView::MissingOption(keys.0, keys.1) && after
            == s,
        _ => opt_raw_outcome(
            s,
            keys,
            f,
            match r {
                Ok(x) => Ok(Some(x)),
                Err(e) => Err(e),
            },
            after,
        ),
    }
}

/// The store after `n` successive successful raw extractions of the option.
pub open spec fn raw_store_after(s: Seq<ArgView>, keys: (Seq<char>, Seq<char>), n: nat) -> Seq<
    ArgView,
>
    decreases n,
{
    if n == 0 {
        s
    } else {
        let p = raw_store_after(s, keys, (n - 1) as nat);
        match raw_value_spec(p, keys) {
            Ok(Some((_, i))) => p.remove(i).remove(i),
            _ => p,
        }
    }
}

/// The raw value found after `n` successful raw extractions, if any.
pub open spec fn raw_value_after(s: Seq<ArgView>, keys: (Seq<char>, Seq<char>), n: nat) -> Option<
    ArgView,
> {
    match raw_value_spec(raw_store_after(s, keys, n), keys) {
        Ok(Some((a, _))) => Some(a),
        _ => None,
    }
}

pub proof fn lemma_raw_chain_step(s: Seq<ArgView>, keys: (Seq<char>, Seq<char>), n: nat)
    ensures
        match raw_value_spec(raw_store_after(s, keys, n), keys) {
            Ok(Some((a, i))) => raw_store_after(s, keys, n + 1) == raw_store_after(
                s,
                keys,
                n,
            ).remove(i).remove(i) && raw_value_after(s, keys, n) == Some(a),
            _ => raw_value_after(s, keys, n) is None,
        },
{
}

/// What a repeated raw extraction returns and leaves behind.
pub open spec fn raw_values_outcome<T, E: Display, F: Fn(&Arg) -> Result<T, E>>(
    s: Seq<ArgView>,
    keys: (Seq<char>, Seq<char>),
    f: F,
    r: Result<Vec<T>, Error>,
    after: Seq<ArgView>,
) -> bool {
    match r {
        Ok(xs) => {
            &&& forall|j: int|
                0 <= j < xs.len() ==> #[trigger] raw_value_after(s, keys, j as nat) is Some
                    && accepts_arg(f, raw_value_after(s, keys, j as nat)->Some_0, xs@[j])
            &&& raw_value_spec(raw_store_after(s, keys, xs.len() as nat), keys) is Ok
            &&& raw_value_spec(raw_store_after(s, keys, xs.len() as nat), keys)->Ok_0 is None
            &&& after == raw_store_after(s, keys, xs.len() as nat)
        },
        Err(err) => exists|n: nat|
            {
                &&& forall|j: int| 0 <= j < n ==> #[trigger] raw_value_after(s, keys, j as nat) is Some
                &&& after == raw_store_after(s, keys, n)
                &&& match raw_value_spec(raw_store_after(s, keys, n), keys) {
                    Err(e) => err@ == e,
                    Ok(Some((a, _))) => raw_refused_by(err, f, a),
                    Ok(None) => false,
                }
            },
    }
}

/// What a single raw positional extraction returns and leaves behind.
pub open spec fn free_raw_outcome<T, E: Display, F: Fn(&Arg) -> Result<T, E>>(
    s: Seq<ArgView>,
    f: F,
    r: Result<Option<T>, Error>,
    after: Seq<ArgView>,
) -> bool {
    match flag_check(s) {
        Err(e) => r matches Err(re) && re@ == e && after == s,
        Ok(_) => if s.len() == 0 {
            r matches Ok(None) && after == s
        } else {
            &&& after == s.drop_first()
            &&& match r {
                Ok(Some(x)) => accepts_arg(f, s[0], x),
                Ok(None) => false,
                Err(re) => raw_refused_by(re, f, s[0]),
            }
        },
    }
}

/// A token that looks like a flag: text that starts with `-` and is not `-`
/// alone (which stands for standard input).
pub open spec fn is_flag(a: ArgView) -> bool {
    match a {
        ArgView::Text(t) => t.len() > 0 && t[0] == '-' && t != seq!['-'],
        ArgView::Binary(_) => false,
    }
}

/// The texts of the flag-like tokens of `s`, in order.
pub open spec fn flags_left(s: Seq<ArgView>) -> Seq<Seq<char>>
    decreases s.len(),
{
    if s.len() == 0 {
        Seq::empty()
    } else if is_flag(s.last()) {
        flags_left(s.drop_last()).push(text_of(s.last())->Some_0)
    } else {
        flags_left(s.drop_last())
    }
}

/// The residue check: no flag-like token may be left.
pub open spec fn flag_check(s: Seq<ArgView>) -> Result<(), ErrorView> {
    if flags_left(s).len() == 0 {
        Ok(())
    } else {
        Err(ErrorView::UnusedArgsLeft(flags_left(s)))
    }
}

/// What the positional list is: every token's text, in order, once the
/// residue check passes and every token is text.
pub open spec fn free_spec(s: Seq<ArgView>) -> Result<Seq<Seq<char>>, ErrorView> {
    match flag_check(s) {
        Err(e) => Err(e),
        Ok(_) => if exists|i: int| 0 <= i < s.len() && s[i] is Binary {
            Err(ErrorView::NonUtf8Argument)
        } else {
            Ok(positional_texts(s))
        },
    }
}

/// How each token is listed by the completion check: its text, or a
/// placeholder for a token that is not text.
pub open spec fn listed(a: ArgView) -> Seq<char> {
    match a {
        ArgView::Text(t) => t,
        ArgView::Binary(_) => "binary data"@,
    }
}

/// The texts of all tokens, in order (all of them being text).
pub open spec fn positional_texts(s: Seq<ArgView>) -> Seq<Seq<char>> {
    s.map_values(|a: ArgView| text_of(a)->Some_0)
}

/// How the completion check lists the tokens, in order.
pub open spec fn listed_all(s: Seq<ArgView>) -> Seq<Seq<char>> {
    s.map_values(|a: ArgView| listed(a))
}

/// The completion check: succeeds exactly on an empty store.
pub open spec fn finish_spec(s: Seq<ArgView>) -> Result<(), ErrorView> {
    if s.len() == 0 {
        Ok(())
    } else {
        Err(ErrorView::UnusedArgsLeft(listed_all(s)))
    }
}

/// What a single positional extraction returns and leaves behind: after the
/// residue check, the first token is removed whatever the decoder says.
pub open spec fn free_value_outcome<T, E: Display, F: Fn(&str) -> Result<T, E>>(
    s: Seq<ArgView>,
    f: F,
    r: Result<Option<T>, Error>,
    after: Seq<ArgView>,
) -> bool {
    match flag_check(s) {
        Err(e) => r matches Err(re) && re@ == e && after == s,
        Ok(_) => if s.len() == 0 {
            r matches Ok(None) && after == s
        } else {
            &&& after == s.drop_first()
            &&& match s[0] {
                ArgView::Text(t) => match r {
                    Ok(Some(x)) => accepts(f, t, x),
                    Ok(None) => false,
                    Err(re) => refused_by(re, f, t),
                },
                ArgView::Binary(_) => r matches Err(re) && re@ == ErrorView::NonUtf8Argument,
            }
        },
    }
}

/// What a subcommand extraction returns and leaves behind: a first token that
/// is text not starting with `-` is removed and returned.
pub open spec fn subcommand_outcome(s: Seq<ArgView>, r: Result<Option<String>, Error>, after: Seq<ArgView>) -> bool {
    if s.len() == 0 || (s[0] matches ArgView::Text(t) && t.len() > 0 && t[0] == '-') {
        r matches Ok(None) && after == s
    } else {
        &&& after == s.drop_first()
        &&& match s[0] {
            ArgView::Text(t) => r matches Ok(Some(name)) && name@ == t,
            ArgView::Binary(_) => r matches Err(re) && re@ == ErrorView::NonUtf8Argument,
        }
    }
}

} // verus!
