use vstd::prelude::*;

use crate::parser::xml::xdmerror::{Error, ErrorKind};
use crate::utils::TextSpan;

verus! {

/// An atomic text value inside a document tree.  `Text` is a zero-copy view
/// of the buffer, identified by the range it was read from; `Decoded` is a
/// character produced by resolving a reference, which no longer corresponds
/// to any buffer range and can therefore never be the target of a replace.
#[derive(Clone, Copy, Debug)]
pub enum Value {
    Text(TextSpan),
    Decoded(char),
}

/// A piece of character data as the parser collects it: either a raw range
/// of the buffer or a character decoded from an escape.
#[derive(Clone, Copy, Debug)]
pub enum StringRepr {
    Raw(TextSpan),
    Decoded(char),
}

impl Value {
    /// The value a collected piece of character data stands for.
    pub fn from_repr(s: StringRepr) -> (r: Value)
        ensures
            match s {
                StringRepr::Raw(sp) => r == Value::Text(sp),
                StringRepr::Decoded(c) => r == Value::Decoded(c),
            },
    {
        match s {
            StringRepr::Raw(sp) => Value::Text(sp),
            StringRepr::Decoded(c) => Value::Decoded(c),
        }
    }
}

/// An integer that is at most zero.
#[derive(Clone, Copy, Debug)]
pub struct NonPositiveInteger {
    n: i64,
}

impl NonPositiveInteger {
    pub fn try_new(v: i64) -> (r: Result<NonPositiveInteger, Error>)
        ensures
            v <= 0 <==> r is Ok,
            r matches Ok(p) ==> p.value() == v,
            r matches Err(e) ==> e.kind == ErrorKind::TypeError && e.message@
                == "NonPositiveInteger must be less than zero"@,
    {
        if v > 0 {
            Err(
                Error::new(
                    ErrorKind::TypeError,
                    "NonPositiveInteger must be less than zero".to_owned(),
                ),
            )
        } else {
            Ok(NonPositiveInteger { n: v })
        }
    }

    pub closed spec fn spec_value(&self) -> i64 {
        self.n
    }

    #[verifier::when_used_as_spec(spec_value)]
    pub fn value(&self) -> (r: i64)
        ensures
            r == self.spec_value(),
    {
        self.n
    }
}

/// An integer that is greater than zero.
#[derive(Clone, Copy, Debug)]
pub struct PositiveInteger {
    n: i64,
}

impl PositiveInteger {
    pub fn try_new(v: i64) -> (r: Result<PositiveInteger, Error>)
        ensures
            v > 0 <==> r is Ok,
            r matches Ok(p) ==> p.value() == v,
            r matches Err(e) ==> e.kind == ErrorKind::TypeError && e.message@
                == "PositiveInteger must be greater than zero"@,
    {
        if v <= 0 {
            Err(
                Error::new(
                    ErrorKind::TypeError,
                    "PositiveInteger must be greater than zero".to_owned(),
                ),
            )
        } else {
            Ok(PositiveInteger { n: v })
        }
    }

    pub closed spec fn spec_value(&self) -> i64 {
        self.n
    }

    #[verifier::when_used_as_spec(spec_value)]
    pub fn value(&self) -> (r: i64)
        ensures
            r == self.spec_value(),
    {
        self.n
    }
}

/// An integer that is at least zero.
#[derive(Clone, Copy, Debug)]
pub struct NonNegativeInteger {
    n: i64,
}

impl NonNegativeInteger {
    pub fn try_new(v: i64) -> (r: Result<NonNegativeInteger, Error>)
        ensures
            v >= 0 <==> r is Ok,
            r matches Ok(p) ==> p.value() == v,
            r matches Err(e) ==> e.kind == ErrorKind::TypeError && e.message@
                == "NonNegativeInteger must be zero or greater"@,
    {
        if v < 0 {
            Err(
                Error::new(
                    ErrorKind::TypeError,
                    "NonNegativeInteger must be zero or greater".to_owned(),
                ),
            )
        } else {
            Ok(NonNegativeInteger { n: v })
        }
    }

    pub closed spec fn spec_value(&self) -> i64 {
        self.n
    }

    #[verifier::when_used_as_spec(spec_value)]
    pub fn value(&self) -> (r: i64)
        ensures
            r == self.spec_value(),
    {
        self.n
    }
}

/// An integer that is less than zero.
#[derive(Clone, Copy, Debug)]
pub struct NegativeInteger {
    n: i64,
}

impl NegativeInteger {
    pub fn try_new(v: i64) -> (r: Result<NegativeInteger, Error>)
        ensures
            v < 0 <==> r is Ok,
            r matches Ok(p) ==> p.value() == v,
            r matches Err(e) ==> e.kind == ErrorKind::TypeError && e.message@
                == "NegativeInteger must be less than zero"@,
    {
        if v >= 0 {
            Err(
                Error::new(
                    ErrorKind::TypeError,
                    "NegativeInteger must be less than zero".to_owned(),
                ),
            )
        } else {
            Ok(NegativeInteger { n: v })
        }
    }

    pub closed spec fn spec_value(&self) -> i64 {
        self.n
    }

    #[verifier::when_used_as_spec(spec_value)]
    pub fn value(&self) -> (r: i64)
        ensures
            r == self.spec_value(),
    {
        self.n
    }
}

/// A character a normalized string must not contain: newline, carriage
/// return or tab.
pub open spec fn is_unnormalized_char(c: char) -> bool {
    c == '\n' || c == '\r' || c == '\t'
}

/// A text value that contains no newline, carriage return or tab.
#[derive(Clone, Debug)]
pub struct NormalizedString {
    text: String,
}

impl NormalizedString {
    pub closed spec fn text_view(&self) -> Seq<char> {
        self.text@
    }

    pub fn try_new(v: &str) -> (r: Result<NormalizedString, Error>)
        ensures
            (forall|k: int| 0 <= k < v@.len() ==> !is_unnormalized_char(v@[k])) <==> r is Ok,
            r matches Ok(ns) ==> ns.text_view() == v@,
            r matches Err(e) ==> e.kind == ErrorKind::TypeError && e.message@
                == "value is not a normalized string"@,
    {
        let n = v.unicode_len();
        let mut k: usize = 0;
        while k < n
            invariant
                0 <= k <= n,
                n == v@.len(),
                forall|q: int| 0 <= q < k ==> !is_unnormalized_char(v@[q]),
            ensures
                0 <= k <= n,
                forall|q: int| 0 <= q < k ==> !is_unnormalized_char(v@[q]),
                k < n ==> is_unnormalized_char(v@[k as int]),
            decreases n - k,
        {
            let c = v.get_char(k);
            if c == '\n' || c == '\r' || c == '\t' {
                break ;
            }
            k = k + 1;
        }
        if k == n {
            Ok(NormalizedString { text: v.to_owned() })
        } else {
            Err(Error::new(ErrorKind::TypeError, "value is not a normalized string".to_owned()))
        }
    }

    /// The text held by the normalized string.
    pub fn as_text(&self) -> (r: String)
        ensures
            r@ == self.text_view(),
    {
        self.text.clone()
    }
}

} // verus!
