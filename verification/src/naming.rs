//! Entry naming: every entry of the store lives in a file called
//! `<name>.config`. This module derives a default entry name from a source
//! path (its file-name stem), builds an entry's file name, and recovers the
//! entry name from a file name found in the store directory.

use vstd::prelude::*;

use crate::bytes::{copy_bytes, push_all};

verus! {

/// Path separator byte (`/`).
pub const SLASH: u8 = 47;

/// Dot byte (`.`).
pub const DOT: u8 = 46;

/// The file-name suffix of every entry: `.config`.
pub open spec fn config_suffix() -> Seq<u8> {
    seq![46u8, 99u8, 111u8, 110u8, 102u8, 105u8, 103u8]
}

/// The `.config` suffix as a byte vector.
pub fn config_suffix_vec() -> (v: Vec<u8>)
    ensures
        v@ == config_suffix(),
{
    let mut v: Vec<u8> = Vec::new();
    v.push(46);
    v.push(99);
    v.push(111);
    v.push(110);
    v.push(102);
    v.push(105);
    v.push(103);
    proof {
        assert(v@ =~= config_suffix());
    }
    v
}

/// The index of the last occurrence of `b` in `s`, or `-1` if `b` does not
/// occur.
pub open spec fn last_index_of(s: Seq<u8>, b: u8) -> int
    decreases s.len(),
{
    if s.len() == 0 {
        -1
    } else if s[s.len() - 1] == b {
        s.len() - 1
    } else {
        last_index_of(s.drop_last(), b)
    }
}

/// `last_index_of` points at an occurrence and nothing later is one.
proof fn lemma_last_index_of(s: Seq<u8>, b: u8)
    ensures
        -1 <= last_index_of(s, b) < s.len(),
        last_index_of(s, b) >= 0 ==> s[last_index_of(s, b)] == b,
        forall|j: int| last_index_of(s, b) < j < s.len() ==> s[j] != b,
    decreases s.len(),
{
    if s.len() > 0 && s[s.len() - 1] != b {
        lemma_last_index_of(s.drop_last(), b);
        assert(forall|j: int|
            0 <= j < s.len() - 1 ==> s.drop_last()[j] == s[j]);
    }
}

/// The last component of a path: everything after the last separator, or
/// the whole path if it has none.
pub open spec fn last_component(p: Seq<u8>) -> Seq<u8> {
    p.skip(last_index_of(p, SLASH) + 1)
}

/// The stem of a path's last component: the component without its last
/// `.`-suffix, where a dot at the very front (a hidden file) starts no
/// suffix.
pub open spec fn stem_spec(p: Seq<u8>) -> Seq<u8> {
    let c = last_component(p);
    let d = last_index_of(c, DOT);
    if d > 0 {
        c.take(d)
    } else {
        c
    }
}

/// Scan backwards for the last occurrence of `b` in `v`; the result is the
/// index just after it, or `0` if `b` does not occur.
fn scan_after_last(v: &Vec<u8>, b: u8) -> (k: usize)
    ensures
        k == last_index_of(v@, b) + 1,
        k <= v@.len(),
{
    let mut k: usize = v.len();
    while k > 0 && v[k - 1] != b
        invariant
            k <= v.len(),
            forall|j: int| k <= j < v@.len() ==> v@[j] != b,
        decreases k,
    {
        k -= 1;
    }
    proof {
        lemma_last_index_of(v@, b);
        let r = last_index_of(v@, b);
        if k > 0 {
            assert(v@[k - 1] == b);
            assert(r >= k - 1);
            assert(r < k);
        } else {
            assert(forall|j: int| 0 <= j < v@.len() ==> v@[j] != b);
            assert(r == -1) by {
                if r >= 0 {
                    assert(v@[r] == b);
                }
            }
        }
    }
    k
}

/// The default entry name for a source path: the stem of its file name, as
/// `with_extension("")` leaves it.
pub fn stem_of_path(path: &Vec<u8>) -> (r: Vec<u8>)
    ensures
        r@ == stem_spec(path@),
{
    let start = scan_after_last(path, SLASH);
    let mut comp: Vec<u8> = Vec::new();
    let mut j: usize = start;
    while j < path.len()
        invariant
            start <= j <= path.len(),
            comp@ == path@.subrange(start as int, j as int),
        decreases path.len() - j,
    {
        comp.push(path[j]);
        proof {
            assert(path@.subrange(start as int, j as int).push(path@[j as int]) =~= path@
                .subrange(start as int, j + 1));
        }
        j += 1;
    }
    proof {
        assert(comp@ =~= last_component(path@));
    }
    let t = scan_after_last(&comp, DOT);
    if t > 1 {
        comp.truncate(t - 1);
    }
    comp
}

/// Whether a file name is an entry file name: longer than the `.config`
/// suffix and ending in it. A bare `.config` names no entry.
pub open spec fn has_config_suffix(s: Seq<u8>) -> bool {
    s.len() > config_suffix().len() && s.skip(s.len() - config_suffix().len())
        == config_suffix()
}

/// The entry name inside an entry file name: the file name without its
/// `.config` suffix.
pub open spec fn config_stem(s: Seq<u8>) -> Seq<u8> {
    s.take(s.len() - config_suffix().len())
}

/// The file name of the entry called `name`: `<name>.config`.
pub fn entry_file_name(name: &Vec<u8>) -> (r: Vec<u8>)
    ensures
        r@ == name@ + config_suffix(),
{
    let mut r = copy_bytes(name);
    let suffix = config_suffix_vec();
    push_all(&mut r, &suffix);
    r
}

/// Recover the entry name from a file name found in the store directory:
/// `Some` of the name for `<name>.config` with a non-empty name, `None` for
/// any other file name.
pub fn strip_config_suffix(file: &Vec<u8>) -> (r: Option<Vec<u8>>)
    ensures
        match r {
            Some(name) => has_config_suffix(file@) && name@ == config_stem(file@),
            None => !has_config_suffix(file@),
        },
{
    let suffix = config_suffix_vec();
    if file.len() <= suffix.len() {
        return None;
    }
    let base = file.len() - suffix.len();
    let mut k: usize = base;
    while k < file.len()
        invariant
            base <= k <= file@.len(),
            suffix@ == config_suffix(),
            base == file@.len() - suffix@.len(),
            file@.len() > suffix@.len(),
            forall|m: int| base <= m < k ==> file@[m] == suffix@[m - base],
        decreases file.len() - k,
    {
        if file[k] != suffix[k - base] {
            proof {
                assert(file@.skip(base as int)[k - base] != config_suffix()[k - base]);
            }
            return None;
        }
        k += 1;
    }
    proof {
        assert(file@.skip(base as int) =~= config_suffix());
    }
    let mut name: Vec<u8> = Vec::new();
    let mut k: usize = 0;
    while k < base
        invariant
            k <= base,
            base <= file@.len(),
            name@ == file@.take(k as int),
        decreases base - k,
    {
        name.push(file[k]);
        proof {
            assert(file@.take(k as int).push(file@[k as int]) =~= file@.take(k + 1));
        }
        k += 1;
    }
    Some(name)
}

} // verus!
