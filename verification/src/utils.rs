//! Keyboard-state decoding and DLL path resolution.

use vstd::prelude::*;
use vstd::string::*;
use crate::status::RTStatus;
use crate::text::str_chars;

verus! {

/// The key was pressed since the previous query: the least significant bit
/// of the state word reported for it is set.
pub open spec fn pressed_since_last_query(state: i16) -> bool {
    state % 2 == 1
}

/// The key is held down: the most significant bit of the state word
/// reported for it is set.
pub open spec fn held_down(state: i16) -> bool {
    state < 0
}

/// Checks if a key was pressed, given the state word that the system
/// reported for it.
pub fn key_state(state: i16) -> (pressed: bool)
    ensures
        pressed == pressed_since_last_query(state),
{
    assert((state & 1i16 == 1i16) == (state % 2 == 1)) by (bit_vector);
    state & 1 == 1
}

/// Check if a key is currently held down, given the state word that the
/// system reported for it.
pub fn key_held_state(state: i16) -> (held: bool)
    ensures
        held == held_down(state),
{
    state < 0
}

/// Checks if a key combination was executed (ex: `Ctrl + 1`): the first key
/// is held down and the second was pressed, given the two state words.
pub fn key_combo_state(state1: i16, state2: i16) -> (executed: bool)
    ensures
        executed == (held_down(state1) && pressed_since_last_query(state2)),
{
    let held = key_held_state(state1);
    let pressed = key_state(state2);
    held && pressed
}

/// A character that separates the components of a Windows path.
pub open spec fn is_path_separator(c: char) -> bool {
    c == '\\' || c == '/'
}

/// The last component of a path: the characters after its last separator.
pub open spec fn path_leaf(path: Seq<char>) -> Seq<char>
    decreases path.len(),
{
    if path.len() == 0 || is_path_separator(path.last()) {
        Seq::empty()
    } else {
        path_leaf(path.drop_last()).push(path.last())
    }
}

proof fn lemma_path_leaf_from(path: Seq<char>, k: int)
    requires
        0 <= k <= path.len(),
        forall|j: int| k <= j < path.len() ==> !is_path_separator(path[j]),
        k == 0 || is_path_separator(path[k - 1]),
    ensures
        path_leaf(path) == path.subrange(k, path.len() as int),
    decreases path.len() - k,
{
    if path.len() == k {
        assert(path.subrange(k, k) =~= Seq::<char>::empty());
    } else {
        let shorter = path.drop_last();
        lemma_path_leaf_from(shorter, k);
        assert(shorter.subrange(k, shorter.len() as int).push(path.last()) =~= path.subrange(k, path.len() as int));
    }
}

/// The file name (last component) of a path.
pub fn file_leaf(path: &str) -> (leaf: String)
    ensures
        leaf@ == path_leaf(path@),
{
    let chars = str_chars(path);
    let n = chars.len();
    let mut k: usize = n;
    while k > 0 && chars[k - 1] != '\\' && chars[k - 1] != '/'
        invariant
            n == chars@.len(),
            chars@ == path@,
            k <= n,
            forall|j: int| k <= j < n ==> !is_path_separator(path@[j]),
        decreases k,
    {
        k = k - 1;
    }
    proof {
        lemma_path_leaf_from(path@, k as int);
    }
    path.substring_char(k, n).to_owned()
}

/// The file name of a path holds no separator and ends the path: the path
/// is some directory prefix followed by its file name.
pub proof fn lemma_path_leaf_is_last_component(path: Seq<char>)
    ensures
        path_leaf(path).len() <= path.len(),
        path.subrange(path.len() - path_leaf(path).len(), path.len() as int) == path_leaf(path),
        forall|j: int| 0 <= j < path_leaf(path).len() ==> !is_path_separator(#[trigger] path_leaf(path)[j]),
    decreases path.len(),
{
    if path.len() > 0 && !is_path_separator(path.last()) {
        let shorter = path.drop_last();
        lemma_path_leaf_is_last_component(shorter);
        let leaf = path_leaf(shorter);
        assert(path.subrange(path.len() - leaf.len() - 1, path.len() as int)
            =~= shorter.subrange(shorter.len() - leaf.len(), shorter.len() as int).push(path.last()));
        assert forall|j: int| 0 <= j < leaf.len() + 1 implies !is_path_separator(#[trigger] leaf.push(path.last())[j]) by {
            if j < leaf.len() {
                assert(leaf.push(path.last())[j] == leaf[j]);
            }
        }
    } else {
        assert(path.subrange(path.len() as int, path.len() as int) =~= path_leaf(path));
    }
}

/// Checks if the given file is valid and returns the file name (leaf).
/// `canonical` is the canonical form of the path the user gave (`None` when
/// it could not be canonicalized) and `is_file` tells whether it names a
/// regular file.
pub fn resolve_file(canonical: Option<&str>, is_file: bool) -> (resolved: Result<String, RTStatus>)
    ensures
        if canonical is Some && is_file {
            resolved matches Ok(leaf) && leaf@ == path_leaf(canonical->Some_0@)
        } else {
            resolved == Err::<String, RTStatus>(RTStatus::InvalidFilePath)
        },
{
    match canonical {
        Some(path) => {
            if is_file {
                Ok(file_leaf(path))
            } else {
                Err(RTStatus::InvalidFilePath)
            }
        },
        None => Err(RTStatus::InvalidFilePath),
    }
}

} // verus!
