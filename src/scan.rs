use vstd::prelude::*;
use vstd::string::{StrSliceExecFns, StringSliceAdditionalSpecFns};
use crate::arg::{Arg, ArgView, views};
use crate::error::ErrorView;

verus! {

/// `i` is the first index of `s` whose token satisfies `p`.
pub open spec fn is_first(s: Seq<ArgView>, p: spec_fn(ArgView) -> bool, i: int) -> bool {
    &&& 0 <= i < s.len()
    &&& p(s[i])
    &&& forall|j: int| 0 <= j < i ==> !p(#[trigger] s[j])
}

/// The index of the first token of `s` that satisfies `p`.
pub open spec fn first_where(s: Seq<ArgView>, p: spec_fn(ArgView) -> bool) -> Option<int> {
    if exists|i: int| 0 <= i < s.len() && p(s[i]) {
        Some(choose|i: int| is_first(s, p, i))
    } else {
        None
    }
}

proof fn lemma_least(s: Seq<ArgView>, p: spec_fn(ArgView) -> bool, i: int) -> (m: int)
    requires
        0 <= i < s.len(),
        p(s[i]),
    ensures
        is_first(s, p, m),
    decreases i,
{
    if exists|j: int| 0 <= j < i && p(s[j]) {
        let j = choose|j: int| 0 <= j < i && p(s[j]);
        lemma_least(s, p, j)
    } else {
        i
    }
}

/// `first_where` finds the first satisfying token, or reports that none does.
pub proof fn lemma_first_where(s: Seq<ArgView>, p: spec_fn(ArgView) -> bool)
    ensures
        match first_where(s, p) {
            Some(i) => is_first(s, p, i),
            None => forall|i: int| 0 <= i < s.len() ==> !p(#[trigger] s[i]),
        },
{
    if exists|i: int| 0 <= i < s.len() && p(s[i]) {
        let i = choose|i: int| 0 <= i < s.len() && p(s[i]);
        let _ = lemma_least(s, p, i);
    }
}

/// The token is exactly the text `k`.
pub open spec fn is_exact(a: ArgView, k: Seq<char>) -> bool {
    a == ArgView::Text(k)
}

/// The token is text of the form `k=...`.
pub open spec fn is_inline(a: ArgView, k: Seq<char>) -> bool {
    match a {
        ArgView::Text(t) => {
            &&& t.len() > k.len()
            &&& t.subrange(0, k.len() as int) == k
            &&& t[k.len() as int] == '='
        },
        ArgView::Binary(_) => false,
    }
}

/// The index of the first token equal to `k`.
pub open spec fn first_exact(s: Seq<ArgView>, k: Seq<char>) -> Option<int> {
    first_where(s, |a: ArgView| is_exact(a, k))
}

/// The index of the first token of the form `k=...`.
pub open spec fn first_inline(s: Seq<ArgView>, k: Seq<char>) -> Option<int> {
    first_where(s, |a: ArgView| is_inline(a, k))
}

pub proof fn lemma_first_exact(s: Seq<ArgView>, k: Seq<char>)
    ensures
        match first_exact(s, k) {
            Some(i) => 0 <= i < s.len() && is_exact(s[i], k) && forall|j: int|
                0 <= j < i ==> !is_exact(#[trigger] s[j], k),
            None => forall|i: int| 0 <= i < s.len() ==> !is_exact(#[trigger] s[i], k),
        },
{
    lemma_first_where(s, |a: ArgView| is_exact(a, k));
}

pub proof fn lemma_first_inline(s: Seq<ArgView>, k: Seq<char>)
    ensures
        match first_inline(s, k) {
            Some(i) => 0 <= i < s.len() && is_inline(s[i], k) && forall|j: int|
                0 <= j < i ==> !is_inline(#[trigger] s[j], k),
            None => forall|i: int| 0 <= i < s.len() ==> !is_inline(#[trigger] s[i], k),
        },
{
    lemma_first_where(s, |a: ArgView| is_inline(a, k));
}

/// Whether the token is exactly the text `key`.
fn text_equals(a: &Arg, key: &String) -> (r: bool)
    ensures
        r == is_exact(a@, key@),
{
    match a {
        Arg::Text(t) => *t == *key,
        Arg::Binary(_) => false,
    }
}

/// Whether the token is text of the form `prefix=...`.
pub(crate) fn starts_with_plus_eq(a: &Arg, prefix: &str) -> (r: bool)
    ensures
        r == is_inline(a@, prefix@),
{
    match a {
        Arg::Text(t) => {
            let s = t.as_str();
            let n = s.unicode_len();
            let m = prefix.unicode_len();
            if n <= m {
                false
            } else {
                let head = s.substring_char(0, m).to_owned();
                let p = prefix.to_owned();
                if head == p {
                    s.get_char(m) == '='
                } else {
                    false
                }
            }
        },
        Arg::Binary(_) => false,
    }
}

/// The index of the first token equal to `k`.
pub(crate) fn position_exact(v: &Vec<Arg>, k: &str) -> (r: Option<usize>)
    ensures
        match r {
            Some(i) => first_exact(views(v@), k@) == Some(i as int),
            None => first_exact(views(v@), k@) is None,
        },
{
    let key = k.to_owned();
    let ghost s = views(v@);
    proof {
        lemma_first_exact(s, k@);
    }
    let mut i: usize = 0;
    while i < v.len()
        invariant
            i <= v.len(),
            s == views(v@),
            key@ == k@,
            forall|j: int| 0 <= j < i ==> !is_exact(#[trigger] s[j], k@),
        decreases v.len() - i,
    {
        assert(s[i as int] == v@[i as int]@);
        if text_equals(&v[i], &key) {
            proof {
                lemma_first_exact(s, k@);
                let m = first_exact(s, k@)->Some_0;
                if m < i {
                    assert(!is_exact(s[m], k@));
                }
            }
            return Some(i);
        }
        i = i + 1;
    }
    None
}

/// The index of the first token of the form `k=...`.
pub(crate) fn position_inline(v: &Vec<Arg>, k: &str) -> (r: Option<usize>)
    ensures
        match r {
            Some(i) => first_inline(views(v@), k@) == Some(i as int),
            None => first_inline(views(v@), k@) is None,
        },
{
    let ghost s = views(v@);
    proof {
        lemma_first_inline(s, k@);
    }
    let mut i: usize = 0;
    while i < v.len()
        invariant
            i <= v.len(),
            s == views(v@),
            forall|j: int| 0 <= j < i ==> !is_inline(#[trigger] s[j], k@),
        decreases v.len() - i,
    {
        assert(s[i as int] == v@[i as int]@);
        if starts_with_plus_eq(&v[i], k) {
            proof {
                lemma_first_inline(s, k@);
                let m = first_inline(s, k@)->Some_0;
                if m < i {
                    assert(!is_inline(s[m], k@));
                }
            }
            return Some(i);
        }
        i = i + 1;
    }
    None
}

/// How a found option carries its value.
#[derive(Clone, Copy, Debug, PartialEq, Eq, Structural)]
pub enum PairKind {
    /// `--key=value`: one token holds both.
    SingleArgument,
    /// `--key value`: the value is the next token.
    TwoArguments,
}

/// The first alias (primary before secondary, empty ones skipped) that some
/// token equals, with the index of the first such token.
pub open spec fn exact_hit(s: Seq<ArgView>, keys: (Seq<char>, Seq<char>)) -> Option<(int, Seq<char>)> {
    if keys.0.len() > 0 && first_exact(s, keys.0) is Some {
        Some((first_exact(s, keys.0)->Some_0, keys.0))
    } else if keys.1.len() > 0 && first_exact(s, keys.1) is Some {
        Some((first_exact(s, keys.1)->Some_0, keys.1))
    } else {
        None
    }
}

/// The first alias (primary before secondary, empty ones skipped) that some
/// token holds in the form `alias=...`, with the index of the first such token.
pub open spec fn inline_hit(s: Seq<ArgView>, keys: (Seq<char>, Seq<char>)) -> Option<(int, Seq<char>)> {
    if keys.0.len() > 0 && first_inline(s, keys.0) is Some {
        Some((first_inline(s, keys.0)->Some_0, keys.0))
    } else if keys.1.len() > 0 && first_inline(s, keys.1) is Some {
        Some((first_inline(s, keys.1)->Some_0, keys.1))
    } else {
        None
    }
}

/// What follows `k=` in a token of the form `k=...`.
pub open spec fn inline_rest(a: ArgView, k: Seq<char>) -> Seq<char> {
    match a {
        ArgView::Text(t) => t.subrange(k.len() + 1int, t.len() as int),
        ArgView::Binary(_) => Seq::empty(),
    }
}

/// The value written after `=`: a matching pair of quotes around it is
/// dropped; an unmatched opening quote, or nothing left, gives no value.
pub open spec fn unquoted(rest: Seq<char>) -> Option<Seq<char>> {
    let inner = if rest.len() > 0 && (rest[0] == '"' || rest[0] == '\'') {
        if rest.len() >= 2 && rest.last() == rest[0] {
            Some(rest.subrange(1, rest.len() - 1))
        } else {
            None
        }
    } else {
        Some(rest)
    };
    match inner {
        Some(v) => if v.len() > 0 {
            Some(v)
        } else {
            None
        },
        None => None,
    }
}

/// The outcome of looking for an option's value: the value, how it was
/// written and the index of the key's token; nothing; or an error.
/// The two-token form is searched for both aliases before the `=` form.
#[verifier::opaque]
pub open spec fn find_value_spec(s: Seq<ArgView>, keys: (Seq<char>, Seq<char>)) -> Result<
    Option<(Seq<char>, PairKind, int)>,
    ErrorView,
> {
    match exact_hit(s, keys) {
        Some((i, key)) => if i + 1 < s.len() {
            match s[i + 1] {
                ArgView::Text(v) => Ok(Some((v, PairKind::TwoArguments, i))),
                ArgView::Binary(_) => Err(ErrorView::NonUtf8Argument),
            }
        } else {
            Err(ErrorView::OptionWithoutAValue(key))
        },
        None => match inline_hit(s, keys) {
            Some((i, key)) => match unquoted(inline_rest(s[i], key)) {
                Some(v) => Ok(Some((v, PairKind::SingleArgument, i))),
                None => Err(ErrorView::OptionWithoutAValue(key)),
            },
            None => Ok(None),
        },
    }
}

/// `s` without the tokens of an option found at `i`.
pub open spec fn taken(s: Seq<ArgView>, i: int, kind: PairKind) -> Seq<ArgView> {
    match kind {
        PairKind::TwoArguments => s.remove(i).remove(i),
        PairKind::SingleArgument => s.remove(i),
    }
}

/// The tokens of an option found at `i` lie within `s`.
pub open spec fn well_placed(s: Seq<ArgView>, i: int, kind: PairKind) -> bool {
    match kind {
        PairKind::TwoArguments => 0 <= i && i + 1 < s.len(),
        PairKind::SingleArgument => 0 <= i < s.len(),
    }
}

pub proof fn lemma_hits_in_range(s: Seq<ArgView>, keys: (Seq<char>, Seq<char>))
    ensures
        match exact_hit(s, keys) {
            Some((i, k)) => 0 <= i < s.len() && is_exact(s[i], k) && k.len() > 0 && (k == keys.0
                || k == keys.1),
            None => true,
        },
        match inline_hit(s, keys) {
            Some((i, k)) => 0 <= i < s.len() && is_inline(s[i], k) && k.len() > 0 && (k == keys.0
                || k == keys.1),
            None => true,
        },
        match find_value_spec(s, keys) {
            Ok(Some((v, kind, i))) => well_placed(s, i, kind),
            _ => true,
        },
{
    reveal(find_value_spec);
    lemma_first_exact(s, keys.0);
    lemma_first_exact(s, keys.1);
    lemma_first_inline(s, keys.0);
    lemma_first_inline(s, keys.1);
}

/// Returns `true` when the last byte of `text` is `c`.
pub fn ends_with(text: &str, c: u8) -> (r: bool)
    ensures
        r == (text.spec_bytes().len() > 0 && text.spec_bytes().last() == c),
{
    let b = text.as_bytes();
    if b.len() == 0 {
        false
    } else {
        b[b.len() - 1] == c
    }
}

/// The value written after `=`, as [`unquoted`] describes it.
pub(crate) fn unquote(rest: &str) -> (r: Option<&str>)
    ensures
        match r {
            Some(v) => unquoted(rest@) == Some(v@),
            None => unquoted(rest@) is None,
        },
{
    let n = rest.unicode_len();
    let inner = if n > 0 && (rest.get_char(0) == '"' || rest.get_char(0) == '\'') {
        if n >= 2 && rest.get_char(n - 1) == rest.get_char(0) {
            rest.substring_char(1, n - 1)
        } else {
            return None;
        }
    } else {
        rest
    };
    if inner.unicode_len() == 0 {
        None
    } else {
        Some(inner)
    }
}

} // verus!
