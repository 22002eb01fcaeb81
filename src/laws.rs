use vstd::prelude::*;
use std::fmt::Display;
use crate::arg::ArgView;
use crate::error::Error;
use crate::keys::valid_keys;
use crate::scan::{exact_hit, find_value_spec, first_exact, first_inline, is_exact, is_inline,
    lemma_first_exact, lemma_first_inline,
};
use crate::outcome::{
    after_contains, flag_check, flags_left, free_spec, finish_spec, is_flag, opt_value_outcome,
    values_outcome, search_after, store_after, value_after, refused_by,
};

verus! {

/// The token is one of the spellings of the keys.
pub open spec fn names(a: ArgView, keys: (Seq<char>, Seq<char>)) -> bool {
    a == ArgView::Text(keys.0) || (keys.1.len() > 0 && a == ArgView::Text(keys.1))
}

/// A flag check reports presence exactly when some token is one of the
/// spellings; it then removes exactly one token: the first one equal to the
/// primary spelling, or, when there is none, the first one equal to the
/// secondary spelling. Otherwise it removes nothing.
pub proof fn law_contains(s: Seq<ArgView>, keys: (Seq<char>, Seq<char>))
    requires
        valid_keys(keys),
    ensures
        after_contains(s, keys).0 <==> exists|i: int| 0 <= i < s.len() && names(#[trigger] s[i], keys),
        after_contains(s, keys).0 ==> exists|i: int|
            {
                &&& 0 <= i < s.len()
                &&& after_contains(s, keys).1 == s.remove(i)
                &&& {
                    ||| s[i] == ArgView::Text(keys.0) && forall|j: int|
                        0 <= j < i ==> #[trigger] s[j] != ArgView::Text(keys.0)
                    ||| keys.1.len() > 0 && s[i] == ArgView::Text(keys.1) && (forall|j: int|
                        0 <= j < s.len() ==> #[trigger] s[j] != ArgView::Text(keys.0)) && forall|j: int|
                        0 <= j < i ==> #[trigger] s[j] != ArgView::Text(keys.1)
                }
            },
        !after_contains(s, keys).0 ==> after_contains(s, keys).1 == s,
{
    lemma_first_exact(s, keys.0);
    lemma_first_exact(s, keys.1);
    if exists|i: int| 0 <= i < s.len() && names(#[trigger] s[i], keys) {
        let i = choose|i: int| 0 <= i < s.len() && names(#[trigger] s[i], keys);
        if s[i] == ArgView::Text(keys.0) {
            assert(is_exact(s[i], keys.0));
        } else {
            assert(is_exact(s[i], keys.1));
        }
    }
}

/// Checking the same flag twice never reports presence the second time after
/// an absence the first time, and reports it both times exactly when at least
/// two tokens are spellings of the flag.
pub proof fn law_contains_twice(s: Seq<ArgView>, keys: (Seq<char>, Seq<char>))
    requires
        valid_keys(keys),
    ensures
        after_contains(after_contains(s, keys).1, keys).0 ==> after_contains(s, keys).0,
        (after_contains(s, keys).0 && after_contains(after_contains(s, keys).1, keys).0)
            <==> exists|i: int, j: int|
            0 <= i < j < s.len() && names(#[trigger] s[i], keys) && names(#[trigger] s[j], keys),
{
    let s1 = after_contains(s, keys).1;
    law_contains(s, keys);
    law_contains(s1, keys);
    if after_contains(s, keys).0 {
        let m = choose|m: int|
            {
                &&& 0 <= m < s.len()
                &&& after_contains(s, keys).1 == s.remove(m)
                &&& {
                    ||| s[m] == ArgView::Text(keys.0) && forall|j: int|
                        0 <= j < m ==> #[trigger] s[j] != ArgView::Text(keys.0)
                    ||| keys.1.len() > 0 && s[m] == ArgView::Text(keys.1) && (forall|j: int|
                        0 <= j < s.len() ==> #[trigger] s[j] != ArgView::Text(keys.0)) && forall|j: int|
                        0 <= j < m ==> #[trigger] s[j] != ArgView::Text(keys.1)
                }
            };
        assert(names(s[m], keys));
        if after_contains(s1, keys).0 {
            let k = choose|k: int| 0 <= k < s1.len() && names(#[trigger] s1[k], keys);
            if k < m {
                assert(s1[k] == s[k]);
                assert(names(s[k], keys) && names(s[m], keys));
            } else {
                assert(s1[k] == s[k + 1]);
                assert(names(s[m], keys) && names(s[k + 1], keys));
            }
        }
        if exists|i: int, j: int|
            0 <= i < j < s.len() && names(#[trigger] s[i], keys) && names(#[trigger] s[j], keys) {
            let (i, j) = choose|i: int, j: int|
                0 <= i < j < s.len() && names(#[trigger] s[i], keys) && names(#[trigger] s[j], keys);
            let k = if i != m {
                i
            } else {
                j
            };
            let k1 = if k < m {
                k
            } else {
                k - 1
            };
            assert(s1[k1] == s[k]);
            assert(names(s1[k1], keys));
        }
    }
}

/// When extracting an option fails, whether its value is missing, malformed
/// or refused by the decoder, the store is left as it was, and it is not
/// empty, so a completion check that follows fails.
pub proof fn law_failed_extraction_keeps_tokens<T, E: Display, F: Fn(&str) -> Result<T, E>>(
    s: Seq<ArgView>,
    keys: (Seq<char>, Seq<char>),
    f: F,
    r: Result<Option<T>, Error>,
    after: Seq<ArgView>,
)
    requires
        opt_value_outcome(s, keys, f, r, after),
        r is Err,
    ensures
        after == s,
        finish_spec(after) is Err,
{
    reveal(find_value_spec);
    lemma_first_exact(s, keys.0);
    lemma_first_exact(s, keys.1);
    lemma_first_inline(s, keys.0);
    lemma_first_inline(s, keys.1);
}

/// The flag-like tokens of a concatenation are those of each part, in order.
pub proof fn lemma_flags_left_concat(a: Seq<ArgView>, b: Seq<ArgView>)
    ensures
        flags_left(a + b) == flags_left(a) + flags_left(b),
    decreases b.len(),
{
    if b.len() == 0 {
        assert(a + b =~= a);
        assert(flags_left(b) =~= Seq::<Seq<char>>::empty());
        assert(flags_left(a) + flags_left(b) =~= flags_left(a));
    } else {
        lemma_flags_left_concat(a, b.drop_last());
        assert((a + b).drop_last() =~= a + b.drop_last());
        assert((a + b).last() == b.last());
        if is_flag(b.last()) {
            assert(flags_left(a + b) =~= flags_left(a) + flags_left(b));
        } else {
            assert(flags_left(a + b) =~= flags_left(a) + flags_left(b));
        }
    }
}

/// The token `-` alone is never taken for a leftover flag: the residue check
/// is the same with or without it, and the positional list keeps it in its
/// place.
pub proof fn law_stdin_is_positional(s: Seq<ArgView>, i: int)
    requires
        0 <= i < s.len(),
        s[i] == ArgView::Text(seq!['-']),
    ensures
        !is_flag(s[i]),
        flags_left(s.remove(i)) == flags_left(s),
        flag_check(s.remove(i)) == flag_check(s),
        free_spec(s) is Ok ==> free_spec(s)->Ok_0[i] == seq!['-'],
{
    let a = s.subrange(0, i);
    let b = s.subrange(i + 1, s.len() as int);
    let x = seq![s[i]];
    assert(s =~= a + x + b);
    assert(s.remove(i) =~= a + b);
    lemma_flags_left_concat(a, x);
    lemma_flags_left_concat(a + x, b);
    lemma_flags_left_concat(a, b);
    assert(x.drop_last() =~= Seq::<ArgView>::empty());
    assert(x.last() == s[i]);
    assert(!is_flag(x.last()));
    assert(flags_left(x.drop_last()) =~= Seq::<Seq<char>>::empty());
    assert(flags_left(x) =~= Seq::<Seq<char>>::empty());
    assert(flags_left(a) + flags_left(x) =~= flags_left(a));
}

/// With no token naming the option, in either form, a repeated extraction
/// returns an empty list and leaves the store alone.
pub proof fn law_values_absent<T, E: Display, F: Fn(&str) -> Result<T, E>>(
    s: Seq<ArgView>,
    keys: (Seq<char>, Seq<char>),
    f: F,
    r: Result<Vec<T>, Error>,
    after: Seq<ArgView>,
)
    requires
        valid_keys(keys),
        forall|i: int|
            0 <= i < s.len() ==> !is_exact(#[trigger] s[i], keys.0) && !is_inline(s[i], keys.0),
        keys.1.len() > 0 ==> forall|i: int|
            0 <= i < s.len() ==> !is_exact(#[trigger] s[i], keys.1) && !is_inline(s[i], keys.1),
        values_outcome(s, keys, f, r, after),
    ensures
        r matches Ok(xs) && xs@.len() == 0,
        after == s,
{
    reveal(find_value_spec);
    lemma_first_exact(s, keys.0);
    lemma_first_exact(s, keys.1);
    lemma_first_inline(s, keys.0);
    lemma_first_inline(s, keys.1);
    assert(find_value_spec(s, keys) is Ok && find_value_spec(s, keys)->Ok_0 is None);
    assert(store_after(s, keys, 0) == s);
    assert(search_after(s, keys, 0) == find_value_spec(s, keys));
    match r {
        Ok(xs) => {
            if xs@.len() > 0 {
                let j: int = 0;
                assert(value_after(s, keys, j as nat) is None);
            }
        },
        Err(err) => {
            let n = choose|n: nat|
                {
                    &&& forall|j: int|
                        0 <= j < n ==> #[trigger] value_after(s, keys, j as nat) is Some
                    &&& after == store_after(s, keys, n)
                    &&& match search_after(s, keys, n) {
                        Err(e) => err@ == e,
                        Ok(Some((v, _, _))) => refused_by(err, f, v),
                        Ok(None) => false,
                    }
                };
            if n > 0 {
                let j: int = 0;
                assert(value_after(s, keys, j as nat) is None);
            }
        },
    }
}

} // verus!
