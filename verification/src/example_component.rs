//! An example component declaration.
//!
//! Declaring component kinds takes one tag type per kind, a closed union with
//! one case per kind, and a [`Component`] impl tying each tag to its case,
//! its payload type, and a storage key no other kind of the union uses. This
//! module declares three kinds — `Position` and `Speed`, each carrying an
//! `isize`, and the payload-free marker `Special` — the way a user of the
//! store would.

use vstd::prelude::*;

use crate::component::Component;

verus! {

/// The closed union of the example kinds: each case carries one kind's
/// payload, and absence of a kind is modelled by absence from the entity, so
/// no case stands for "empty".
pub enum Comp {
    /// Payload of [`Position`].
    Position(isize),
    /// Payload of [`Speed`].
    Speed(isize),
    /// Payload of [`Special`].
    Special(()),
}

/// Tag of the example kind `Position`, an `isize` coordinate.
pub struct Position {}

/// Tag of the example kind `Speed`, an `isize` velocity.
pub struct Speed {}

/// Tag of the example kind `Special`, a payload-free marker.
pub struct Special {}

impl Component for Position {
    type Type = isize;

    type Enum = Comp;

    open spec fn spec_key() -> u64 {
        1
    }

    open spec fn is_case(c: Comp) -> bool {
        c is Position
    }

    open spec fn spec_value(c: Comp) -> isize {
        c->Position_0
    }

    open spec fn spec_make(v: isize) -> Comp {
        Comp::Position(v)
    }

    proof fn case_agrees(v: isize) {
    }

    proof fn case_roundtrip(c: Comp) {
    }

    open spec fn spec_name() -> Seq<char> {
        "Position"@
    }

    fn key() -> u64 {
        1
    }

    fn name() -> &'static str {
        "Position"
    }

    fn new(v: isize) -> Comp {
        Comp::Position(v)
    }

    fn try_val(c: &Comp) -> Option<&isize> {
        match c {
            Comp::Position(v) => Some(v),
            _ => None,
        }
    }

    fn try_val_mut(c: &mut Comp) -> Option<&mut isize> {
        match c {
            Comp::Position(v) => Some(v),
            _ => None,
        }
    }

    fn into_val(c: Comp) -> Option<isize> {
        match c {
            Comp::Position(v) => Some(v),
            _ => None,
        }
    }
}

impl Component for Speed {
    type Type = isize;

    type Enum = Comp;

    open spec fn spec_key() -> u64 {
        2
    }

    open spec fn is_case(c: Comp) -> bool {
        c is Speed
    }

    open spec fn spec_value(c: Comp) -> isize {
        c->Speed_0
    }

    open spec fn spec_make(v: isize) -> Comp {
        Comp::Speed(v)
    }

    proof fn case_agrees(v: isize) {
    }

    proof fn case_roundtrip(c: Comp) {
    }

    open spec fn spec_name() -> Seq<char> {
        "Speed"@
    }

    fn key() -> u64 {
        2
    }

    fn name() -> &'static str {
        "Speed"
    }

    fn new(v: isize) -> Comp {
        Comp::Speed(v)
    }

    fn try_val(c: &Comp) -> Option<&isize> {
        match c {
            Comp::Speed(v) => Some(v),
            _ => None,
        }
    }

    fn try_val_mut(c: &mut Comp) -> Option<&mut isize> {
        match c {
            Comp::Speed(v) => Some(v),
            _ => None,
        }
    }

    fn into_val(c: Comp) -> Option<isize> {
        match c {
            Comp::Speed(v) => Some(v),
            _ => None,
        }
    }
}

impl Component for Special {
    type Type = ();

    type Enum = Comp;

    open spec fn spec_key() -> u64 {
        3
    }

    open spec fn is_case(c: Comp) -> bool {
        c is Special
    }

    open spec fn spec_value(c: Comp) -> () {
        c->Special_0
    }

    open spec fn spec_make(v: ()) -> Comp {
        Comp::Special(v)
    }

    proof fn case_agrees(v: ()) {
    }

    proof fn case_roundtrip(c: Comp) {
    }

    open spec fn spec_name() -> Seq<char> {
        "Special"@
    }

    fn key() -> u64 {
        3
    }

    fn name() -> &'static str {
        "Special"
    }

    fn new(v: ()) -> Comp {
        Comp::Special(v)
    }

    fn try_val(c: &Comp) -> Option<&()> {
        match c {
            Comp::Special(v) => Some(v),
            _ => None,
        }
    }

    fn try_val_mut(c: &mut Comp) -> Option<&mut ()> {
        match c {
            Comp::Special(v) => Some(v),
            _ => None,
        }
    }

    fn into_val(c: Comp) -> Option<()> {
        match c {
            Comp::Special(v) => Some(v),
            _ => None,
        }
    }
}

} // verus!
