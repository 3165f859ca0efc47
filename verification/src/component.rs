//! Declaring component kinds.

use vstd::prelude::*;

verus! {

/// Whether a declaration's storage keys are a valid registry: at least one
/// kind, and no key claimed twice.
pub open spec fn spec_keys_valid(keys: Seq<u64>) -> bool {
    &&& keys.len() > 0
    &&& forall|i: int, j: int|
        0 <= i < keys.len() && 0 <= j < keys.len() && i != j ==> keys[i] != keys[j]
}

/// Registration-time check of a declaration: `keys` lists the storage key of
/// every kind declared for one union, and the declaration is valid exactly
/// when it declares at least one kind and no two kinds share a key. A failed
/// check is a declaration-time error, to be raised before any world exists.
pub fn keys_valid(keys: &Vec<u64>) -> (r: bool)
    ensures
        r == spec_keys_valid(keys@),
{
    if keys.len() == 0 {
        return false;
    }
    let mut i: usize = 0;
    while i < keys.len()
        invariant
            i <= keys@.len(),
            forall|p: int, q: int| 0 <= p < i && p < q < keys@.len() ==> keys@[p] != keys@[q],
        decreases keys@.len() - i,
    {
        let mut j: usize = i + 1;
        while j < keys.len()
            invariant
                i < j <= keys@.len(),
                i < keys@.len(),
                forall|q: int| i < q < j ==> keys@[i as int] != keys@[q],
            decreases keys@.len() - j,
        {
            if keys[i] == keys[j] {
                return false;
            }
            j += 1;
        }
        i += 1;
    }
    true
}

/// A declared component kind.
///
/// Implementing this trait on a tag type declares one kind: it names the
/// kind's payload type ([`Component::Type`]), the closed union of all kinds
/// declared together with it ([`Component::Enum`]), the union case that
/// carries this kind's payload, and the storage key entities file the payload
/// under. Two kinds declared for the same union must never share a key: the
/// query layer relies on distinct keys naming disjoint storage.
pub trait Component {
    /// The payload type of this kind.
    type Type;

    /// The closed union of every kind declared alongside this one.
    type Enum;

    /// The storage key entities file this kind under.
    spec fn spec_key() -> u64;

    /// Whether a union value carries this kind's case.
    spec fn is_case(c: Self::Enum) -> bool;

    /// The payload of a union value that carries this kind's case.
    spec fn spec_value(c: Self::Enum) -> Self::Type
        recommends
            Self::is_case(c),
    ;

    /// The union case that carries a given payload.
    spec fn spec_make(v: Self::Type) -> Self::Enum;

    /// Wrapping a payload yields this kind's case, with that payload: the
    /// kind read off a union value always agrees with the payload it holds.
    proof fn case_agrees(v: Self::Type)
        ensures
            Self::is_case(Self::spec_make(v)),
            Self::spec_value(Self::spec_make(v)) == v,
    ;

    /// A union value carrying this kind's case is nothing but its payload,
    /// wrapped.
    proof fn case_roundtrip(c: Self::Enum)
        requires
            Self::is_case(c),
        ensures
            Self::spec_make(Self::spec_value(c)) == c,
    ;

    /// The kind's textual name, for reporting misuse.
    spec fn spec_name() -> Seq<char>;

    /// Returns the storage key of this kind.
    fn key() -> (k: u64)
        ensures
            k == Self::spec_key(),
    ;

    /// Returns the kind's textual name.
    fn name() -> (n: &'static str)
        ensures
            n@ == Self::spec_name(),
    ;

    /// Wraps a payload into this kind's union case.
    fn new(v: Self::Type) -> (c: Self::Enum)
        ensures
            c == Self::spec_make(v),
    ;

    /// The payload of a union value, if the value carries this kind's case.
    fn try_val(c: &Self::Enum) -> (r: Option<&Self::Type>)
        ensures
            match r {
                Some(v) => Self::is_case(*c) && *v == Self::spec_value(*c),
                None => !Self::is_case(*c),
            },
    ;

    /// Mutable access to the payload of a union value, if the value carries
    /// this kind's case. Writing through the reference rewraps the payload in
    /// the same case.
    fn try_val_mut(c: &mut Self::Enum) -> (r: Option<&mut Self::Type>)
        ensures
            r.is_some() ==> Self::is_case(*old(c)) && *r.unwrap() == Self::spec_value(*old(c))
                && *final(c) == Self::spec_make(*final(r.unwrap())),
            r.is_none() ==> !Self::is_case(*old(c)) && *final(c) == *old(c),
    ;

    /// The payload of an owned union value, if it carries this kind's case.
    fn into_val(c: Self::Enum) -> (r: Option<Self::Type>)
        ensures
            match r {
                Some(v) => Self::is_case(c) && v == Self::spec_value(c),
                None => !Self::is_case(c),
            },
    ;
}

} // verus!
