use vstd::prelude::*;
use vstd::string::StringExecFns;
use std::fmt::Display;
use crate::keys::Keys;

verus! {

/// The ways an extraction can fail.
#[derive(Clone, Debug)]
pub enum Error {
    /// A token that is not valid Unicode text where text was needed.
    NonUtf8Argument,
    /// A required option is absent.
    MissingOption(Keys),
    /// An option without a value.
    OptionWithoutAValue(&'static str),
    /// The decoder refused a text value.
    Utf8ArgumentParsingFailed { value: String, cause: String },
    /// The decoder refused a raw value.
    ArgumentParsingFailed { cause: String },
    /// Tokens that nothing consumed.
    UnusedArgsLeft(Vec<String>),
}

/// The mathematical value of an [`Error`].
pub enum ErrorView {
    NonUtf8Argument,
    MissingOption(Seq<char>, Seq<char>),
    OptionWithoutAValue(Seq<char>),
    Utf8ArgumentParsingFailed { value: Seq<char>, cause: Seq<char> },
    ArgumentParsingFailed { cause: Seq<char> },
    UnusedArgsLeft(Seq<Seq<char>>),
}

/// The texts of a list of strings, in order.
pub open spec fn texts(v: Seq<String>) -> Seq<Seq<char>> {
    v.map_values(|s: String| s@)
}

impl View for Error {
    type V = ErrorView;

    open spec fn view(&self) -> ErrorView {
        match self {
            Error::NonUtf8Argument => ErrorView::NonUtf8Argument,
            Error::MissingOption(k) => ErrorView::MissingOption(k@.0, k@.1),
            Error::OptionWithoutAValue(k) => ErrorView::OptionWithoutAValue(k@),
            Error::Utf8ArgumentParsingFailed { value, cause } => ErrorView::Utf8ArgumentParsingFailed {
                value: value@,
                cause: cause@,
            },
            Error::ArgumentParsingFailed { cause } => ErrorView::ArgumentParsingFailed {
                cause: cause@,
            },
            Error::UnusedArgsLeft(v) => ErrorView::UnusedArgsLeft(texts(v@)),
        }
    }
}

/// The items joined by `", "`.
pub open spec fn joined(items: Seq<Seq<char>>) -> Seq<char>
    decreases items.len(),
{
    if items.len() == 0 {
        Seq::empty()
    } else if items.len() == 1 {
        items[0]
    } else {
        joined(items.drop_last()) + ", "@ + items.last()
    }
}

/// The human-readable description of an error.
pub open spec fn message(e: ErrorView) -> Seq<char> {
    match e {
        ErrorView::NonUtf8Argument => "argument is not a UTF-8 string"@,
        ErrorView::MissingOption(k1, k2) => if k2.len() == 0 {
            "the '"@ + k1 + "' option must be set"@
        } else {
            "the '"@ + k1 + "/"@ + k2 + "' option must be set"@
        },
        ErrorView::OptionWithoutAValue(k) => "the '"@ + k
            + "' option doesn't have an associated value"@,
        ErrorView::Utf8ArgumentParsingFailed { value, cause } => "failed to parse '"@ + value
            + "' cause "@ + cause,
        ErrorView::ArgumentParsingFailed { cause } => "failed to parse a binary argument cause "@
            + cause,
        ErrorView::UnusedArgsLeft(args) => "unused arguments left: "@ + joined(args),
    }
}

/// The display text of a value.
pub fn error_to_string<E: Display>(e: E) -> (r: String)
    ensures
        vstd::string::to_string_from_display_ensures::<E>(&e, r),
{
    e.to_string()
}

impl Error {
    /// The human-readable description of this error.
    pub fn to_string(&self) -> (r: String)
        ensures
            r@ == message(self@),
    {
        match self {
            Error::NonUtf8Argument => "argument is not a UTF-8 string".to_owned(),
            Error::MissingOption(k) => {
                let mut r = "the '".to_owned();
                r.append(k.first());
                if k.second().is_empty() {
                    r.append("' option must be set");
                } else {
                    r.append("/");
                    r.append(k.second());
                    r.append("' option must be set");
                }
                r
            },
            Error::OptionWithoutAValue(k) => {
                let mut r = "the '".to_owned();
                r.append(k);
                r.append("' option doesn't have an associated value");
                r
            },
            Error::Utf8ArgumentParsingFailed { value, cause } => {
                let mut r = "failed to parse '".to_owned();
                r.append(value.as_str());
                r.append("' cause ");
                r.append(cause.as_str());
                r
            },
            Error::ArgumentParsingFailed { cause } => {
                let mut r = "failed to parse a binary argument cause ".to_owned();
                r.append(cause.as_str());
                r
            },
            Error::UnusedArgsLeft(args) => {
                let mut r = "unused arguments left: ".to_owned();
                let ghost head = r@;
                let mut i: usize = 0;
                while i < args.len()
                    invariant
                        i <= args.len(),
                        head == "unused arguments left: "@,
                        r@ == head + joined(texts(args@).subrange(0, i as int)),
                    decreases args.len() - i,
                {
                    let ghost before = texts(args@).subrange(0, i as int);
                    if i > 0 {
                        r.append(", ");
                    }
                    r.append(args[i].as_str());
                    proof {
                        let after = texts(args@).subrange(0, i + 1);
                        assert(after.drop_last() =~= before);
                        if i == 0 {
                            assert(before =~= Seq::<Seq<char>>::empty());
                            assert(joined(after) == after[0]);
                        }
                    }
                    i = i + 1;
                }
                assert(texts(args@).subrange(0, args.len() as int) =~= texts(args@));
                r
            },
        }
    }
}

} // verus!
