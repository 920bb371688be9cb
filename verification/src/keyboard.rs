use vstd::prelude::*;

verus! {

/// Whether key index `k` occurs among the pressed indices.
fn contains_key(indices: &Vec<u8>, k: u8) -> (r: bool)
    ensures
        r == indices@.contains(k),
{
    let mut j: usize = 0;
    let mut found: bool = false;
    while j < indices.len()
        invariant
            j <= indices@.len(),
            found == exists|t: int| 0 <= t < j && #[trigger] indices@[t] == k,
        decreases indices@.len() - j,
    {
        if indices[j] == k {
            found = true;
        }
        j += 1;
    }
    found
}

/// The 16-entry key state holding exactly the listed key indices: entry
/// `k` is true precisely when `k` occurs in `indices`. Indices of 16 or
/// more name no key and are ignored.
#[verifier::rlimit(60)]
pub fn key_state_from_indices(indices: &Vec<u8>) -> (r: [bool; 16])
    ensures
        forall|k: int| 0 <= k < 16 ==> #[trigger] r@[k] == indices@.contains(k as u8),
{
    let r: [bool; 16] = [
        contains_key(indices, 0),
        contains_key(indices, 1),
        contains_key(indices, 2),
        contains_key(indices, 3),
        contains_key(indices, 4),
        contains_key(indices, 5),
        contains_key(indices, 6),
        contains_key(indices, 7),
        contains_key(indices, 8),
        contains_key(indices, 9),
        contains_key(indices, 10),
        contains_key(indices, 11),
        contains_key(indices, 12),
        contains_key(indices, 13),
        contains_key(indices, 14),
        contains_key(indices, 15),
    ];
    r
}

} // verus!

