//! The specified and computed value records.

use vstd::prelude::*;
use crate::sertype::{SerType, spec_needs_separator, needs_separator};
use crate::maps::NameSet;

verus! {

/// A parsed custom-property declaration value: the raw source text, the
/// serialization categories of its first and last tokens, and the names it
/// references through `var()`.
pub struct SpecifiedValue {
    pub css: Vec<u8>,
    pub first_token_type: SerType,
    pub last_token_type: SerType,
    /// Custom property names in `var()` functions.
    pub references: NameSet,
}

/// The mathematical value of a `SpecifiedValue`.
pub struct SpecifiedValueV {
    pub css: Seq<u8>,
    pub first_token_type: SerType,
    pub last_token_type: SerType,
    pub references: Set<Seq<u8>>,
}

impl View for SpecifiedValue {
    type V = SpecifiedValueV;

    open spec fn view(&self) -> SpecifiedValueV {
        SpecifiedValueV {
            css: self.css@,
            first_token_type: self.first_token_type,
            last_token_type: self.last_token_type,
            references: self.references@,
        }
    }
}

impl SpecifiedValue {
    /// The stored source text, verbatim.
    pub fn to_css(&self) -> (r: Vec<u8>)
        ensures
            r@ == self@.css,
    {
        crate::bytes::copy_bytes(&self.css)
    }
}

/// One entry of the per-element specified map: either a declared value
/// (with its reference set) or an entry seeded from the inherited computed
/// map (whose references are already resolved, hence absent).
pub struct BorrowedSpecifiedValue {
    pub css: Vec<u8>,
    pub first_token_type: SerType,
    pub last_token_type: SerType,
    pub references: Option<NameSet>,
}

/// The mathematical value of a `BorrowedSpecifiedValue`.
pub struct BorrowedSpecifiedValueV {
    pub css: Seq<u8>,
    pub first_token_type: SerType,
    pub last_token_type: SerType,
    pub references: Option<Set<Seq<u8>>>,
}

impl View for BorrowedSpecifiedValue {
    type V = BorrowedSpecifiedValueV;

    open spec fn view(&self) -> BorrowedSpecifiedValueV {
        BorrowedSpecifiedValueV {
            css: self.css@,
            first_token_type: self.first_token_type,
            last_token_type: self.last_token_type,
            references: match self.references {
                Some(ref r) => Some(r@),
                None => None,
            },
        }
    }
}

/// A computed custom-property value: all `var()` functions are gone.
pub struct ComputedValue {
    pub css: Vec<u8>,
    pub first_token_type: SerType,
    pub last_token_type: SerType,
}

/// The mathematical value of a `ComputedValue`.
pub struct ComputedValueV {
    pub css: Seq<u8>,
    pub first_token_type: SerType,
    pub last_token_type: SerType,
}

impl View for ComputedValue {
    type V = ComputedValueV;

    open spec fn view(&self) -> ComputedValueV {
        ComputedValueV {
            css: self.css@,
            first_token_type: self.first_token_type,
            last_token_type: self.last_token_type,
        }
    }
}

/// The bytes of the empty comment `/**/` used as a separator.
pub open spec fn sep_bytes() -> Seq<u8> {
    seq![47u8, 42u8, 42u8, 47u8]
}

/// The empty computed value.
pub open spec fn spec_empty_value() -> ComputedValueV {
    ComputedValueV {
        css: Seq::empty(),
        first_token_type: SerType::Nothing,
        last_token_type: SerType::Nothing,
    }
}

/// Appending a fragment to an accumulated computed value: the first token
/// category is set once, and a `/**/` separator is inserted exactly when
/// the accumulator's last token would fuse with the fragment's first.
pub open spec fn spec_push(
    acc: ComputedValueV,
    css: Seq<u8>,
    first: SerType,
    last: SerType,
) -> ComputedValueV {
    ComputedValueV {
        css: acc.css + (if spec_needs_separator(acc.last_token_type, first) {
            sep_bytes()
        } else {
            Seq::empty()
        }) + css,
        first_token_type: if acc.first_token_type == SerType::Nothing {
            first
        } else {
            acc.first_token_type
        },
        last_token_type: last,
    }
}

impl ComputedValue {
    /// The empty computed value.
    pub fn empty() -> (r: ComputedValue)
        ensures
            r@ == spec_empty_value(),
    {
        ComputedValue {
            css: Vec::new(),
            last_token_type: SerType::Nothing,
            first_token_type: SerType::Nothing,
        }
    }

    /// Append a fragment, separating it from the text already accumulated
    /// when the adjacent token categories would otherwise fuse.
    pub fn push(&mut self, css: &Vec<u8>, css_first_token_type: SerType, css_last_token_type: SerType)
        ensures
            final(self)@ == spec_push(old(self)@, css@, css_first_token_type, css_last_token_type),
    {
        if matches!(self.first_token_type, SerType::Nothing) {
            self.first_token_type = css_first_token_type;
        }
        // If self.first_token_type was nothing, self.last_token_type is the
        // table's Nothing row and no separator is inserted.
        if needs_separator(self.last_token_type, css_first_token_type) {
            self.css.push(47);
            self.css.push(42);
            self.css.push(42);
            self.css.push(47);
            proof {
                assert(self.css@ =~= old(self).css@ + sep_bytes());
            }
        }
        crate::bytes::push_bytes(&mut self.css, css);
        self.last_token_type = css_last_token_type;
        proof {
            if spec_needs_separator(old(self).last_token_type, css_first_token_type) {
                assert(self.css@ =~= old(self).css@ + sep_bytes() + css@);
            } else {
                assert(self.css@ =~= old(self).css@ + Seq::<u8>::empty() + css@);
            }
        }
    }

    /// Append another computed value, as `push` does.
    pub fn push_variable(&mut self, variable: &ComputedValue)
        ensures
            final(self)@ == spec_push(
                old(self)@,
                variable@.css,
                variable@.first_token_type,
                variable@.last_token_type,
            ),
    {
        let text = crate::bytes::copy_bytes(&variable.css);
        self.push(&text, variable.first_token_type, variable.last_token_type)
    }

    /// The stored computed text, verbatim.
    pub fn to_css(&self) -> (r: Vec<u8>)
        ensures
            r@ == self@.css,
    {
        crate::bytes::copy_bytes(&self.css)
    }

    /// An identical copy.
    pub fn clone_value(&self) -> (r: ComputedValue)
        ensures
            r@ == self@,
    {
        ComputedValue {
            css: crate::bytes::copy_bytes(&self.css),
            first_token_type: self.first_token_type,
            last_token_type: self.last_token_type,
        }
    }
}

} // verus!
