//! Merging custom-property declarations with the inherited computed map.

use vstd::prelude::*;
use crate::maps::{NameMap, NameSet};
use crate::value::{
    SpecifiedValue, BorrowedSpecifiedValue, BorrowedSpecifiedValueV, ComputedValue, ComputedValueV,
};

verus! {

/// The per-element map built during one cascade.
pub type SpecifiedMap = NameMap<BorrowedSpecifiedValue>;

/// The computed custom-property map an element ends up with.
pub type ComputedMap = NameMap<ComputedValue>;

/// What the cascade declares for one custom property.
pub enum DeclaredValue {
    /// A parsed declaration value.
    Value(SpecifiedValue),
    /// A value still carrying `var()` references to other properties; never
    /// legal for a custom property itself.
    WithVariables,
    /// The initial value: for a custom property, absence from the map.
    Initial,
    /// The inherited value.
    Inherit,
}

/// A computed entry lifted into the specified map: same text and token
/// categories, references already resolved hence absent.
pub open spec fn spec_borrow_computed(c: ComputedValueV) -> BorrowedSpecifiedValueV {
    BorrowedSpecifiedValueV {
        css: c.css,
        first_token_type: c.first_token_type,
        last_token_type: c.last_token_type,
        references: None,
    }
}

/// A declared value wrapped for the specified map, references kept.
pub open spec fn spec_borrow_specified(v: crate::value::SpecifiedValueV) -> BorrowedSpecifiedValueV {
    BorrowedSpecifiedValueV {
        css: v.css,
        first_token_type: v.first_token_type,
        last_token_type: v.last_token_type,
        references: Some(v.references),
    }
}

/// The inherited computed map, seeded entry-wise into a specified map.
pub open spec fn spec_seed(m: Map<Seq<u8>, ComputedValueV>) -> Map<
    Seq<u8>,
    BorrowedSpecifiedValueV,
> {
    Map::new(|k: Seq<u8>| m.contains_key(k), |k: Seq<u8>| spec_borrow_computed(m[k]))
}

/// The map `cascade` starts from: the one already built, else the seeded
/// inherited map, else an empty one.
pub open spec fn spec_cascade_base(
    cp: Option<Map<Seq<u8>, BorrowedSpecifiedValueV>>,
    inherited: Option<Map<Seq<u8>, ComputedValueV>>,
) -> Map<Seq<u8>, BorrowedSpecifiedValueV> {
    match cp {
        Some(m) => m,
        None => match inherited {
            Some(i) => spec_seed(i),
            None => Map::empty(),
        },
    }
}

/// Seed a specified map from the inherited computed map.
fn seed_from_inherited(inherited: &ComputedMap) -> (r: SpecifiedMap)
    requires
        inherited.wf(),
    ensures
        r@ == spec_seed(inherited@),
        r.wf(),
{
    let ghost entries = inherited.entries_seq();
    let mut out: SpecifiedMap = NameMap::new();
    let n = inherited.count();
    let mut i: usize = 0;
    proof {
        inherited.lemma_entries();
        assert(out@ =~= spec_seed(crate::maps::map_of(entries.subrange(0, 0))));
    }
    while i < n
        invariant
            0 <= i <= n,
            n == entries.len(),
            entries == inherited.entries_seq(),
            inherited.wf(),
            out.wf(),
            out@ == spec_seed(crate::maps::map_of(entries.subrange(0, i as int))),
        decreases n - i,
    {
        let key = inherited.key_at(i);
        let val = inherited.val_at(i);
        let b = BorrowedSpecifiedValue {
            css: crate::bytes::copy_bytes(&val.css),
            first_token_type: val.first_token_type,
            last_token_type: val.last_token_type,
            references: None,
        };
        out.insert(key, b);
        proof {
            let prefix = entries.subrange(0, i as int);
            let prefix1 = entries.subrange(0, i + 1);
            assert(prefix1.drop_last() =~= prefix);
            assert(prefix1.last() == entries[i as int]);
            assert(crate::maps::map_of(prefix1) == crate::maps::map_of(prefix).insert(
                entries[i as int].0,
                entries[i as int].1,
            ));
            assert(out@ =~= spec_seed(crate::maps::map_of(prefix1)));
        }
        i = i + 1;
    }
    proof {
        assert(entries.subrange(0, n as int) =~= entries);
    }
    out
}

/// Add one custom property declaration to the per-element map, unless
/// another declaration with the same name was already seen.
///
/// On the first declaration of any name, a missing map is initialized from
/// the inherited computed map.  A declared value overwrites the entry;
/// `initial` removes it (absence represents the initial value); `inherit`
/// keeps the seeded entry.
pub fn cascade(
    custom_properties: &mut Option<SpecifiedMap>,
    inherited: &Option<ComputedMap>,
    seen: &mut NameSet,
    name: &Vec<u8>,
    specified_value: &DeclaredValue,
)
    requires
        !(specified_value is WithVariables),
        (*old(custom_properties)) matches Some(m) ==> m.wf(),
        inherited matches Some(m) ==> m.wf(),
    ensures
        final(seen)@ == old(seen)@.insert(name@),
        (*final(custom_properties)) matches Some(m) ==> m.wf(),
        old(seen)@.contains(name@) ==> *final(custom_properties) == *old(custom_properties),
        !old(seen)@.contains(name@) ==> ((*final(custom_properties)) matches Some(m) && m@ == ({
            let base = spec_cascade_base(
                match *old(custom_properties) {
                    Some(ref m) => Some(m@),
                    None => None,
                },
                match *inherited {
                    Some(ref m) => Some(m@),
                    None => None,
                },
            );
            match *specified_value {
                DeclaredValue::Value(ref v) => base.insert(name@, spec_borrow_specified(v@)),
                DeclaredValue::Initial => base.remove(name@),
                _ => base,
            }
        })),
{
    let was_not_already_present = !seen.contains(name);
    seen.insert(name);
    if was_not_already_present {
        if custom_properties.is_none() {
            let seeded: SpecifiedMap = match inherited {
                Some(inh) => seed_from_inherited(inh),
                None => NameMap::new(),
            };
            *custom_properties = Some(seeded);
        }
        match custom_properties {
            Some(map) => {
                match specified_value {
                    DeclaredValue::Value(v) => {
                        let b = BorrowedSpecifiedValue {
                            css: crate::bytes::copy_bytes(&v.css),
                            first_token_type: v.first_token_type,
                            last_token_type: v.last_token_type,
                            references: Some(v.references.clone_set()),
                        };
                        map.insert(name, b);
                    },
                    DeclaredValue::Initial => {
                        map.remove(name);
                    },
                    _ => {},
                }
            },
            None => {},
        }
    }
}

} // verus!
