//! Laws that relate the store operations across calls. Each is stated over
//! the abstract map that the operations' own contracts use: `add` and
//! `update` move the map by `insert` of the filtered source, `remove` by
//! `remove`, `show` reads it, and `list` returns exactly its keys.

use vstd::prelude::*;

use crate::filter::filtered;

verus! {

/// After a successful `add` of `source` under `name`, `show` of `name`
/// succeeds and returns exactly the filtered content of the source.
pub proof fn lemma_add_then_show(m: Map<Seq<u8>, Seq<u8>>, name: Seq<u8>, source: Seq<u8>)
    ensures
        m.insert(name, filtered(source)).contains_key(name),
        m.insert(name, filtered(source))[name] == filtered(source),
{
}

/// After any `add` of `name` succeeds, the name is present, so a second
/// `add` of the same name meets the conflict condition of `add`'s contract:
/// it fails with a name conflict and leaves the store unchanged. The first
/// entry's content still reads as first stored.
pub proof fn lemma_second_add_conflicts(
    m: Map<Seq<u8>, Seq<u8>>,
    name: Seq<u8>,
    content: Seq<u8>,
)
    ensures
        m.insert(name, content).contains_key(name),
        m.insert(name, content)[name] == content,
{
}

/// After a successful `remove` of `name`, the name is absent, so `show` of
/// the same name meets the not-found condition of `show`'s contract and
/// fails with name-not-found.
pub proof fn lemma_remove_then_show(m: Map<Seq<u8>, Seq<u8>>, name: Seq<u8>)
    ensures
        !m.remove(name).contains_key(name),
{
}

/// The key set that `list` reports follows the history exactly: a
/// successful `add` extends it by the added name, a successful `remove`
/// takes the removed name out, and (with `update` changing no key) nothing
/// else moves it. So the listed names are the names added so far minus the
/// names removed since.
pub proof fn lemma_list_tracks_history(
    m: Map<Seq<u8>, Seq<u8>>,
    name: Seq<u8>,
    content: Seq<u8>,
)
    ensures
        m.insert(name, content).dom() == m.dom().insert(name),
        m.remove(name).dom() == m.dom().remove(name),
{
    assert(m.insert(name, content).dom() =~= m.dom().insert(name));
    assert(m.remove(name).dom() =~= m.dom().remove(name));
}

} // verus!
