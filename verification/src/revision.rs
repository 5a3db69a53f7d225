//! Revision messages: every successful `add` or `update` of an entry is
//! paired with exactly one revision, whose message follows the fixed
//! template `<name>: <action> config file`.

use vstd::prelude::*;

use crate::bytes::{copy_bytes, push_all};

verus! {

/// The action a revision records.
#[derive(Clone, Copy, Debug, PartialEq, Eq, Structural)]
pub enum Action {
    Add,
    Update,
}

/// The label of an action inside a revision message: `add` or `update`.
pub open spec fn action_label(a: Action) -> Seq<u8> {
    match a {
        Action::Add => seq![97u8, 100u8, 100u8],
        Action::Update => seq![117u8, 112u8, 100u8, 97u8, 116u8, 101u8],
    }
}

/// The revision message for `name` and `a`: `<name>: <label> config file`.
pub open spec fn message_spec(name: Seq<u8>, a: Action) -> Seq<u8> {
    name + seq![58u8, 32u8] + action_label(a) + seq![
        32u8,
        99u8,
        111u8,
        110u8,
        102u8,
        105u8,
        103u8,
        32u8,
        102u8,
        105u8,
        108u8,
        101u8,
    ]
}

/// Build the revision message for one action on the entry called `name`.
pub fn commit_message(name: &Vec<u8>, action: Action) -> (r: Vec<u8>)
    ensures
        r@ == message_spec(name@, action),
{
    let mut r = copy_bytes(name);
    r.push(58);
    r.push(32);
    match action {
        Action::Add => {
            r.push(97);
            r.push(100);
            r.push(100);
        },
        Action::Update => {
            r.push(117);
            r.push(112);
            r.push(100);
            r.push(97);
            r.push(116);
            r.push(101);
        },
    }
    r.push(32);
    r.push(99);
    r.push(111);
    r.push(110);
    r.push(102);
    r.push(105);
    r.push(103);
    r.push(32);
    r.push(102);
    r.push(105);
    r.push(108);
    r.push(101);
    proof {
        assert(r@ =~= message_spec(name@, action));
    }
    r
}

} // verus!
