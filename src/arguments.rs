use vstd::prelude::*;
use vstd::string::StrSliceExecFns;
use vstd::std_specs::convert::IntoSpec;
use std::fmt::Display;
use crate::arg::{Arg, ArgView, views};
use crate::error::{Error, error_to_string, texts};
use crate::keys::{Keys, valid_keys};
use crate::scan::{
    PairKind, exact_hit, inline_hit, find_value_spec, taken, lemma_hits_in_range, position_exact,
    position_inline, unquote,
};
use crate::outcome::{
    after_contains, decodes_any_text, accepts, rejects, opt_value_outcome, value_outcome,
    store_after, value_after, lemma_chain_step, values_outcome, decodes_any_arg, accepts_arg,
    rejects_arg, opt_raw_outcome, raw_outcome, raw_store_after, raw_value_after,
    lemma_raw_chain_step, raw_values_outcome, free_raw_outcome, is_flag, flags_left, flag_check,
    free_spec, positional_texts, listed_all, finish_spec, free_value_outcome, subcommand_outcome,
};

verus! {

/// An arguments parser: the tokens not consumed yet, in command-line order.
#[derive(Clone, Debug)]
pub struct Arguments(Vec<Arg>);

impl View for Arguments {
    type V = Seq<ArgView>;

    closed spec fn view(&self) -> Seq<ArgView> {
        views(self.0@)
    }
}

/// Whether the token looks like a flag.
fn looks_like_flag(a: &Arg) -> (r: bool)
    ensures
        r == is_flag(a@),
{
    match a {
        Arg::Text(t) => {
            let s = t.as_str();
            let n = s.unicode_len();
            if n == 0 {
                false
            } else {
                let dash = s.get_char(0) == '-';
                proof {
                    if n == 1 && dash {
                        assert(t@ =~= seq!['-']);
                    }
                }
                dash && n != 1
            }
        },
        Arg::Binary(_) => false,
    }
}

impl Arguments {
    /// Creates a parser from a list of tokens; the executable path must not be
    /// among them.
    pub fn from_vec(args: Vec<Arg>) -> (r: Self)
        ensures
            r@ == views(args@),
    {
        Arguments(args)
    }

    proof fn lemma_view_remove(old_v: Seq<Arg>, i: int)
        requires
            0 <= i < old_v.len(),
        ensures
            views(old_v.remove(i)) == views(old_v).remove(i),
    {
        assert(views(old_v.remove(i)) =~= views(old_v).remove(i));
    }

    fn index_of(&self, keys: Keys) -> (r: Option<(usize, &'static str)>)
        ensures
            match r {
                Some((i, k)) => exact_hit(self@, keys@) == Some((i as int, k@)),
                None => exact_hit(self@, keys@) is None,
            },
    {
        let k1 = keys.first();
        if !k1.is_empty() {
            if let Some(i) = position_exact(&self.0, k1) {
                return Some((i, k1));
            }
        }
        let k2 = keys.second();
        if !k2.is_empty() {
            if let Some(i) = position_exact(&self.0, k2) {
                return Some((i, k2));
            }
        }
        None
    }

    fn index_of2(&self, keys: Keys) -> (r: Option<(usize, &'static str)>)
        ensures
            match r {
                Some((i, k)) => inline_hit(self@, keys@) == Some((i as int, k@)),
                None => inline_hit(self@, keys@) is None,
            },
    {
        let k1 = keys.first();
        if !k1.is_empty() {
            if let Some(i) = position_inline(&self.0, k1) {
                return Some((i, k1));
            }
        }
        let k2 = keys.second();
        if !k2.is_empty() {
            if let Some(i) = position_inline(&self.0, k2) {
                return Some((i, k2));
            }
        }
        None
    }

    fn find_value(&self, keys: Keys) -> (r: Result<Option<(&str, PairKind, usize)>, Error>)
        ensures
            match find_value_spec(self@, keys@) {
                Ok(Some((v, kind, i))) => r matches Ok(Some((rv, rk, ri))) && rv@ == v && rk == kind
                    && ri as int == i,
                Ok(None) => r matches Ok(None),
                Err(e) => r matches Err(re) && re@ == e,
            },
    {
        proof {
            reveal(find_value_spec);
            lemma_hits_in_range(self@, keys@);
        }
        if let Some((idx, key)) = self.index_of(keys) {
            assert(self@.len() == self.0@.len());
            if idx < self.0.len() - 1 {
                assert(self@[idx + 1] == self.0@[idx + 1]@);
                match &self.0[idx + 1] {
                    Arg::Text(v) => Ok(Some((v.as_str(), PairKind::TwoArguments, idx))),
                    Arg::Binary(_) => Err(Error::NonUtf8Argument),
                }
            } else {
                Err(Error::OptionWithoutAValue(key))
            }
        } else if let Some((idx, key)) = self.index_of2(keys) {
            assert(self@[idx as int] == self.0@[idx as int]@);
            match &self.0[idx] {
                Arg::Text(t) => {
                    let s = t.as_str();
                    let n = s.unicode_len();
                    let m = key.unicode_len();
                    let rest = s.substring_char(m + 1, n);
                    match unquote(rest) {
                        Some(v) => Ok(Some((v, PairKind::SingleArgument, idx))),
                        None => Err(Error::OptionWithoutAValue(key)),
                    }
                },
                Arg::Binary(_) => Err(Error::NonUtf8Argument),
            }
        } else {
            Ok(None)
        }
    }

    /// Checks whether a flag is present; if it is, removes its first token
    /// (the primary spelling is looked for before the secondary one).
    pub fn contains<A: Into<Keys>>(&mut self, keys: A) -> (r: bool)
        requires
            A::obeys_into_spec(),
            valid_keys(keys.into_spec()@),
        ensures
            (r, final(self)@) == after_contains(old(self)@, keys.into_spec()@),
    {
        self.contains_impl(keys.into())
    }

    /// Parses an optional key-value pair (`--key value` or `--key=value`) with
    /// the decoder `f`; `Ok(None)` when the option is absent.
    pub fn opt_value_from_fn<A: Into<Keys>, T, E: Display, F: Fn(&str) -> Result<T, E>>(
        &mut self,
        keys: A,
        f: F,
    ) -> (r: Result<Option<T>, Error>)
        requires
            A::obeys_into_spec(),
            valid_keys(keys.into_spec()@),
            decodes_any_text(f),
        ensures
            opt_value_outcome(old(self)@, keys.into_spec()@, f, r, final(self)@),
    {
        self.opt_value_from_fn_impl(keys.into(), &f)
    }

    fn opt_value_from_fn_impl<T, E: Display, F: Fn(&str) -> Result<T, E>>(
        &mut self,
        keys: Keys,
        f: &F,
    ) -> (r: Result<Option<T>, Error>)
        requires
            decodes_any_text(*f),
        ensures
            opt_value_outcome(old(self)@, keys@, *f, r, final(self)@),
    {
        proof {
            lemma_hits_in_range(self@, keys@);
        }
        match self.find_value(keys) {
            Err(e) => Err(e),
            Ok(None) => Ok(None),
            Ok(Some((value, kind, idx))) => {
                match f(value) {
                    Ok(x) => {
                        proof {
                            assert(f.ensures((value,), Ok::<T, E>(x)));
                        }
                        let ghost v0 = self.0@;
                        assert(self@.len() == self.0@.len());
                        self.0.remove(idx);
                        proof {
                            Self::lemma_view_remove(v0, idx as int);
                        }
                        if kind == PairKind::TwoArguments {
                            let ghost v1 = self.0@;
                            self.0.remove(idx);
                            proof {
                                Self::lemma_view_remove(v1, idx as int);
                            }
                        }
                        Ok(Some(x))
                    },
                    Err(e) => {
                        let ghost e0 = e;
                        let cause = error_to_string(e);
                        proof {
                            assert(f.ensures((value,), Err::<T, E>(e0)));
                            assert(rejects(f, value@, cause));
                        }
                        Err(Error::Utf8ArgumentParsingFailed { value: value.to_owned(), cause })
                    },
                }
            },
        }
    }

    /// Parses a required key-value pair with the decoder `f`; an absent option
    /// is the error `MissingOption`.
    pub fn value_from_fn<A: Into<Keys>, T, E: Display, F: Fn(&str) -> Result<T, E>>(
        &mut self,
        keys: A,
        f: F,
    ) -> (r: Result<T, Error>)
        requires
            A::obeys_into_spec(),
            valid_keys(keys.into_spec()@),
            decodes_any_text(f),
        ensures
            value_outcome(old(self)@, keys.into_spec()@, f, r, final(self)@),
    {
        let k: Keys = keys.into();
        match self.opt_value_from_fn_impl(k, &f) {
            Ok(Some(v)) => Ok(v),
            Ok(None) => Err(Error::MissingOption(k)),
            Err(e) => Err(e),
        }
    }

    /// Parses every occurrence of a key-value pair, in order, with the decoder
    /// `f`; no occurrence at all gives an empty list.
    pub fn values_from_fn<A: Into<Keys>, T, E: Display, F: Fn(&str) -> Result<T, E>>(
        &mut self,
        keys: A,
        f: F,
    ) -> (r: Result<Vec<T>, Error>)
        requires
            A::obeys_into_spec(),
            valid_keys(keys.into_spec()@),
            decodes_any_text(f),
        ensures
            values_outcome(old(self)@, keys.into_spec()@, f, r, final(self)@),
    {
        let k: Keys = keys.into();
        let ghost s0 = self@;
        let mut values: Vec<T> = Vec::new();
        loop
            invariant
                decodes_any_text(f),
                s0 == old(self)@,
                k@ == keys.into_spec()@,
                self@ == store_after(s0, k@, values@.len() as nat),
                forall|j: int|
                    0 <= j < values@.len() ==> #[trigger] value_after(s0, k@, j as nat) is Some
                        && accepts(f, value_after(s0, k@, j as nat)->Some_0, values@[j]),
            decreases self@.len(),
        {
            let ghost before = self@;
            let ghost n = values@.len() as nat;
            let ghost vals0 = values@;
            proof {
                lemma_hits_in_range(before, k@);
            }
            let res = self.opt_value_from_fn_impl(k, &f);
            proof {
                lemma_chain_step(s0, k@, n);
            }
            match res {
                Ok(Some(v)) => {
                    values.push(v);
                    proof {
                        assert forall|j: int| 0 <= j < values@.len() implies #[trigger] value_after(
                            s0,
                            k@,
                            j as nat,
                        ) is Some && accepts(f, value_after(s0, k@, j as nat)->Some_0, values@[j]) by {
                            if j < n {
                                assert(values@[j] == vals0[j]);
                            }
                        }
                    }
                },
                Ok(None) => {
                    return Ok(values);
                },
                Err(e) => {
                    return Err(e);
                },
            }
        }
    }

    /// Parses the first remaining token as a positional value with the
    /// decoder `f`, once no flag-like token is left; `Ok(None)` when nothing is
    /// left. The token is removed even when the decoder refuses it.
    pub fn free_from_fn<T, E: Display, F: Fn(&str) -> Result<T, E>>(&mut self, f: F) -> (r: Result<
        Option<T>,
        Error,
    >)
        requires
            decodes_any_text(f),
        ensures
            free_value_outcome(old(self)@, f, r, final(self)@),
    {
        if let Err(e) = self.check_for_flags() {
            return Err(e);
        }
        if self.0.len() == 0 {
            return Ok(None);
        }
        let ghost v0 = self.0@;
        let first = self.0.remove(0);
        proof {
            Self::lemma_view_remove(v0, 0);
            assert(views(v0).remove(0) =~= views(v0).drop_first());
        }
        match first {
            Arg::Text(t) => {
                let value = t.as_str();
                match f(value) {
                    Ok(x) => {
                        assert(f.ensures((value,), Ok::<T, E>(x)));
                        Ok(Some(x))
                    },
                    Err(e) => {
                        let ghost e0 = e;
                        let cause = error_to_string(e);
                        proof {
                            assert(f.ensures((value,), Err::<T, E>(e0)));
                            assert(rejects(f, value@, cause));
                        }
                        Err(Error::Utf8ArgumentParsingFailed { value: t, cause })
                    },
                }
            },
            Arg::Binary(_) => Err(Error::NonUtf8Argument),
        }
    }

    /// Returns the remaining tokens as positional values, in order, once no
    /// flag-like token is left; `-` counts as a positional value.
    pub fn free(self) -> (r: Result<Vec<String>, Error>)
        ensures
            match free_spec(self@) {
                Ok(ts) => r matches Ok(v) && texts(v@) == ts,
                Err(e) => r matches Err(re) && re@ == e,
            },
    {
        if let Err(e) = self.check_for_flags() {
            return Err(e);
        }
        let ghost s = self@;
        let mut args: Vec<String> = Vec::new();
        let mut i: usize = 0;
        while i < self.0.len()
            invariant
                s == self@,
                flag_check(s) is Ok,
                i <= self.0.len(),
                args@.len() == i,
                texts(args@) == positional_texts(s.subrange(0, i as int)),
                forall|j: int| 0 <= j < i ==> !(#[trigger] s[j] is Binary),
            decreases self.0.len() - i,
        {
            assert(s[i as int] == self.0@[i as int]@);
            match &self.0[i] {
                Arg::Text(t) => {
                    let ghost old_args = args@;
                    let c = t.clone();
                    args.push(c);
                    assert forall|k: int| 0 <= k < i + 1 implies texts(args@)[k] == positional_texts(
                        s.subrange(0, i + 1),
                    )[k] by {
                        if k < i {
                            assert(texts(old_args)[k] == positional_texts(s.subrange(0, i as int))[k]);
                        }
                    }
                    assert(texts(args@) =~= positional_texts(s.subrange(0, i + 1)));
                },
                Arg::Binary(_) => {
                    return Err(Error::NonUtf8Argument);
                },
            }
            i = i + 1;
        }
        assert(s.subrange(0, s.len() as int) =~= s);
        Ok(args)
    }

    /// Returns the remaining tokens, in order, once no flag-like token is
    /// left; `-` counts as a positional value.
    pub fn free_os(self) -> (r: Result<Vec<Arg>, Error>)
        ensures
            match flag_check(self@) {
                Ok(_) => r matches Ok(v) && views(v@) == self@,
                Err(e) => r matches Err(re) && re@ == e,
            },
    {
        if let Err(e) = self.check_for_flags() {
            return Err(e);
        }
        Ok(self.0)
    }

    /// The residue check.
    fn check_for_flags(&self) -> (r: Result<(), Error>)
        ensures
            match flag_check(self@) {
                Ok(_) => r is Ok,
                Err(e) => r matches Err(re) && re@ == e,
            },
    {
        let mut flags_left_now: Vec<String> = Vec::new();
        let mut i: usize = 0;
        while i < self.0.len()
            invariant
                i <= self.0.len(),
                texts(flags_left_now@) == flags_left(self@.subrange(0, i as int)),
            decreases self.0.len() - i,
        {
            let ghost pre = self@.subrange(0, i as int);
            let ghost cur = self@.subrange(0, i + 1);
            assert(cur.drop_last() =~= pre);
            assert(cur.last() == self.0@[i as int]@);
            let a = &self.0[i];
            if looks_like_flag(a) {
                match a {
                    Arg::Text(t) => {
                        flags_left_now.push(t.clone());
                        assert(texts(flags_left_now@) =~= flags_left(cur));
                    },
                    Arg::Binary(_) => {},
                }
            }
            i = i + 1;
        }
        assert(self@.subrange(0, self@.len() as int) =~= self@);
        if flags_left_now.len() == 0 {
            Ok(())
        } else {
            Err(Error::UnusedArgsLeft(flags_left_now))
        }
    }

    /// Checks that every token was consumed; otherwise lists all of them.
    pub fn finish(self) -> (r: Result<(), Error>)
        ensures
            match finish_spec(self@) {
                Ok(_) => r is Ok,
                Err(e) => r matches Err(re) && re@ == e,
            },
    {
        if self.0.len() != 0 {
            let mut args: Vec<String> = Vec::new();
            let mut i: usize = 0;
            while i < self.0.len()
                invariant
                    i <= self.0.len(),
                    args@.len() == i,
                    texts(args@) == listed_all(self@.subrange(0, i as int)),
                decreases self.0.len() - i,
            {
                assert(self@[i as int] == self.0@[i as int]@);
                let ghost old_args = args@;
                match &self.0[i] {
                    Arg::Text(t) => args.push(t.clone()),
                    Arg::Binary(_) => args.push("binary data".to_owned()),
                }
                assert forall|k: int| 0 <= k < i + 1 implies texts(args@)[k] == listed_all(
                    self@.subrange(0, i + 1),
                )[k] by {
                    if k < i {
                        assert(texts(old_args)[k] == listed_all(self@.subrange(0, i as int))[k]);
                    }
                }
                assert(texts(args@) =~= listed_all(self@.subrange(0, i + 1)));
                i = i + 1;
            }
            assert(self@.subrange(0, self@.len() as int) =~= self@);
            return Err(Error::UnusedArgsLeft(args));
        }
        Ok(())
    }

    /// Returns the first token as a subcommand name when it is not flag-like.
    pub fn subcommand(&mut self) -> (r: Result<Option<String>, Error>)
        ensures
            subcommand_outcome(old(self)@, r, final(self)@),
    {
        if self.0.len() == 0 {
            return Ok(None);
        }
        assert(self@[0] == self.0@[0]@);
        if let Arg::Text(t) = &self.0[0] {
            let s = t.as_str();
            if s.unicode_len() > 0 && s.get_char(0) == '-' {
                return Ok(None);
            }
        }
        let ghost v0 = self.0@;
        let first = self.0.remove(0);
        proof {
            Self::lemma_view_remove(v0, 0);
            assert(views(v0).remove(0) =~= views(v0).drop_first());
        }
        match first {
            Arg::Text(t) => Ok(Some(t)),
            Arg::Binary(_) => Err(Error::NonUtf8Argument),
        }
    }

    /// Parses an optional `--key value` pair whose value may be any token,
    /// with the raw decoder `f`; the `=` form is not recognised here.
    pub fn opt_value_from_os_str<A: Into<Keys>, T, E: Display, F: Fn(&Arg) -> Result<T, E>>(
        &mut self,
        keys: A,
        f: F,
    ) -> (r: Result<Option<T>, Error>)
        requires
            A::obeys_into_spec(),
            valid_keys(keys.into_spec()@),
            decodes_any_arg(f),
        ensures
            opt_raw_outcome(old(self)@, keys.into_spec()@, f, r, final(self)@),
    {
        self.opt_value_from_os_str_impl(keys.into(), &f)
    }

    fn opt_value_from_os_str_impl<T, E: Display, F: Fn(&Arg) -> Result<T, E>>(
        &mut self,
        keys: Keys,
        f: &F,
    ) -> (r: Result<Option<T>, Error>)
        requires
            decodes_any_arg(*f),
        ensures
            opt_raw_outcome(old(self)@, keys@, *f, r, final(self)@),
    {
        proof {
            lemma_hits_in_range(self@, keys@);
        }
        if let Some((idx, key)) = self.index_of(keys) {
            assert(self@.len() == self.0@.len());
            if idx >= self.0.len() - 1 {
                return Err(Error::OptionWithoutAValue(key));
            }
            let value = &self.0[idx + 1];
            assert(value@ == self@[idx + 1]);
            match f(value) {
                Ok(x) => {
                    assert(f.ensures((value,), Ok::<T, E>(x)));
                    let ghost v0 = self.0@;
                    self.0.remove(idx);
                    proof {
                        Self::lemma_view_remove(v0, idx as int);
                    }
                    let ghost v1 = self.0@;
                    self.0.remove(idx);
                    proof {
                        Self::lemma_view_remove(v1, idx as int);
                    }
                    Ok(Some(x))
                },
                Err(e) => {
                    let ghost e0 = e;
                    let cause = error_to_string(e);
                    proof {
                        assert(f.ensures((value,), Err::<T, E>(e0)));
                        assert(rejects_arg(*f, value@, cause));
                    }
                    Err(Error::ArgumentParsingFailed { cause })
                },
            }
        } else {
            Ok(None)
        }
    }

    /// Parses a required `--key value` pair whose value may be any token, with
    /// the raw decoder `f`; an absent option is the error `MissingOption`.
    pub fn value_from_os_str<A: Into<Keys>, T, E: Display, F: Fn(&Arg) -> Result<T, E>>(
        &mut self,
        keys: A,
        f: F,
    ) -> (r: Result<T, Error>)
        requires
            A::obeys_into_spec(),
            valid_keys(keys.into_spec()@),
            decodes_any_arg(f),
        ensures
            raw_outcome(old(self)@, keys.into_spec()@, f, r, final(self)@),
    {
        let k: Keys = keys.into();
        match self.opt_value_from_os_str_impl(k, &f) {
            Ok(Some(v)) => Ok(v),
            Ok(None) => Err(Error::MissingOption(k)),
            Err(e) => Err(e),
        }
    }

    /// Parses every occurrence of a `--key value` pair, in order, with the raw
    /// decoder `f`; no occurrence at all gives an empty list.
    pub fn values_from_os_str<A: Into<Keys>, T, E: Display, F: Fn(&Arg) -> Result<T, E>>(
        &mut self,
        keys: A,
        f: F,
    ) -> (r: Result<Vec<T>, Error>)
        requires
            A::obeys_into_spec(),
            valid_keys(keys.into_spec()@),
            decodes_any_arg(f),
        ensures
            raw_values_outcome(old(self)@, keys.into_spec()@, f, r, final(self)@),
    {
        let k: Keys = keys.into();
        let ghost s0 = self@;
        let mut values: Vec<T> = Vec::new();
        loop
            invariant
                decodes_any_arg(f),
                s0 == old(self)@,
                k@ == keys.into_spec()@,
                self@ == raw_store_after(s0, k@, values@.len() as nat),
                forall|j: int|
                    0 <= j < values@.len() ==> #[trigger] raw_value_after(s0, k@, j as nat) is Some
                        && accepts_arg(f, raw_value_after(s0, k@, j as nat)->Some_0, values@[j]),
            decreases self@.len(),
        {
            let ghost before = self@;
            let ghost n = values@.len() as nat;
            let ghost vals0 = values@;
            proof {
                lemma_hits_in_range(before, k@);
            }
            let res = self.opt_value_from_os_str_impl(k, &f);
            proof {
                lemma_raw_chain_step(s0, k@, n);
            }
            match res {
                Ok(Some(v)) => {
                    values.push(v);
                    proof {
                        assert forall|j: int| 0 <= j < values@.len() implies #[trigger] raw_value_after(
                            s0,
                            k@,
                            j as nat,
                        ) is Some && accepts_arg(f, raw_value_after(s0, k@, j as nat)->Some_0, values@[j]) by {
                            if j < n {
                                assert(values@[j] == vals0[j]);
                            }
                        }
                    }
                },
                Ok(None) => {
                    return Ok(values);
                },
                Err(e) => {
                    return Err(e);
                },
            }
        }
    }

    /// Parses the first remaining token as a positional value with the raw
    /// decoder `f`, once no flag-like token is left; `Ok(None)` when nothing is
    /// left. The token is removed even when the decoder refuses it.
    pub fn free_from_os_str<T, E: Display, F: Fn(&Arg) -> Result<T, E>>(&mut self, f: F) -> (r:
        Result<Option<T>, Error>)
        requires
            decodes_any_arg(f),
        ensures
            free_raw_outcome(old(self)@, f, r, final(self)@),
    {
        if let Err(e) = self.check_for_flags() {
            return Err(e);
        }
        if self.0.len() == 0 {
            return Ok(None);
        }
        let ghost v0 = self.0@;
        let first = self.0.remove(0);
        proof {
            Self::lemma_view_remove(v0, 0);
            assert(views(v0).remove(0) =~= views(v0).drop_first());
        }
        match f(&first) {
            Ok(x) => {
                assert(f.ensures((&first,), Ok::<T, E>(x)));
                Ok(Some(x))
            },
            Err(e) => {
                let ghost e0 = e;
                let cause = error_to_string(e);
                proof {
                    assert(f.ensures((&first,), Err::<T, E>(e0)));
                    assert(rejects_arg(f, first@, cause));
                }
                Err(Error::ArgumentParsingFailed { cause })
            },
        }
    }

    fn contains_impl(&mut self, keys: Keys) -> (r: bool)
        ensures
            (r, final(self)@) == after_contains(old(self)@, keys@),
    {
        proof {
            lemma_hits_in_range(self@, keys@);
        }
        if let Some((idx, _)) = self.index_of(keys) {
            let ghost v0 = self.0@;
            self.0.remove(idx);
            proof {
                Self::lemma_view_remove(v0, idx as int);
            }
            return true;
        }
        false
    }
}

} // verus!
