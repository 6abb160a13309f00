//! A CSS custom-property cascade and substitution engine.
//!
//! Custom properties (`--name: value`) carry arbitrary token streams.  This
//! crate parses their declaration values, collects the `var()` references
//! they contain, merges per-element declarations with the inherited map,
//! removes reference cycles, and substitutes `var()` functions to produce
//! computed values, inserting `/**/` separators where adjacent tokens would
//! otherwise fuse.
//!
//! Text is handled as UTF-8 bytes throughout.  Tokenization is delegated to
//! the `cssparser` crate behind a single trusted boundary; everything the
//! engine decides about the token stream is verified.

use vstd::prelude::*;

pub mod bytes;
pub mod sertype;
pub mod tokens;
pub mod maps;
pub mod value;
pub mod parse;
pub mod cascade;
pub mod cycles;
pub mod subst;
pub mod devtools;
pub mod image;

verus! {

/// A custom property name, without the leading `--`, as UTF-8 bytes.
pub type Name = Vec<u8>;

/// What `parse_name` yields: the suffix after a leading `--`, if present.
pub open spec fn spec_parse_name(s: Seq<u8>) -> Option<Seq<u8>> {
    if s.len() >= 2 && s[0] == 45u8 && s[1] == 45u8 {
        Some(s.skip(2))
    } else {
        None
    }
}

/// Strip the `--` prefix from a custom property name.
///
/// Returns the part after the prefix, or an error when the prefix is absent.
pub fn parse_name(s: &Vec<u8>) -> (r: Result<Vec<u8>, ()>)
    ensures
        r is Ok <==> spec_parse_name(s@) is Some,
        r matches Ok(n) ==> Some(n@) == spec_parse_name(s@),
{
    if s.len() >= 2 && s[0] == 45u8 && s[1] == 45u8 {
        let mut out: Vec<u8> = Vec::new();
        let mut i: usize = 2;
        while i < s.len()
            invariant
                2 <= i <= s.len(),
                out@ == s@.subrange(2, i as int),
            decreases s.len() - i,
        {
            out.push(s[i]);
            i = i + 1;
            proof {
                assert(out@ == s@.subrange(2, i as int));
            }
        }
        proof {
            assert(out@ == s@.skip(2));
        }
        Ok(out)
    } else {
        Err(())
    }
}

/// Law: prepending `--` to any name and parsing strips it back off, and a
/// string that does not begin with `--` is rejected.
pub proof fn lemma_parse_name_round_trip(x: Seq<u8>)
    ensures
        spec_parse_name(seq![45u8, 45u8] + x) == Some(x),
        (x.len() < 2 || x[0] != 45u8 || x[1] != 45u8) ==> spec_parse_name(x) is None,
{
    assert((seq![45u8, 45u8] + x).skip(2) =~= x);
}

} // verus!
