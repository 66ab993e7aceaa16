//! The inclusion search policy, separated from the filesystem: the
//! caller probes which candidate paths exist and reports the outcome;
//! the policy here picks the path to read. An absolute name, or one that
//! exists as given, is used as is; otherwise the first search root under
//! which the name exists wins; failing all of those the name is kept as
//! given, so that the open that follows fails and surfaces the error.

use vstd::prelude::*;

verus! {

/// `root` and `name` joined with a single separator byte.
pub open spec fn joined_spec(root: Seq<u8>, name: Seq<u8>) -> Seq<u8> {
    if root.len() == 0 {
        name
    } else if root[root.len() - 1] == 47u8 {
        root + name
    } else {
        root + seq![47u8] + name
    }
}

/// The first index from `k` on whose candidate exists.
pub open spec fn first_root_from(root_exists: Seq<bool>, k: int) -> Option<int>
    decreases root_exists.len() - k,
{
    if k < 0 || k >= root_exists.len() {
        None
    } else if root_exists[k] {
        Some(k)
    } else {
        first_root_from(root_exists, k + 1)
    }
}

/// The path the policy picks, given the name, whether it is absolute,
/// whether it exists as given, the search roots, and which joined
/// candidates exist.
pub open spec fn resolved_spec(
    name: Seq<u8>,
    absolute: bool,
    exists_as_given: bool,
    roots: Seq<Seq<u8>>,
    root_exists: Seq<bool>,
) -> Seq<u8> {
    if absolute || exists_as_given {
        name
    } else {
        match first_root_from(root_exists, 0) {
            Some(k) => joined_spec(roots[k], name),
            None => name,
        }
    }
}

/// `root` and `name` joined with a single `/` separator.
pub fn join_path(root: &Vec<u8>, name: &Vec<u8>) -> (r: Vec<u8>)
    ensures
        r@ == joined_spec(root@, name@),
{
    let mut r = crate::text::clone_bytes(root);
    if root.len() > 0 && root[root.len() - 1] != 47u8 {
        r.push(47u8);
    }
    let mut i: usize = 0;
    while i < name.len()
        invariant
            i <= name@.len(),
            r@ == (if root@.len() == 0 || root@[root@.len() - 1] == 47u8 {
                root@
            } else {
                root@ + seq![47u8]
            }) + name@.subrange(0, i as int),
        decreases name@.len() - i,
    {
        r.push(name[i]);
        proof {
            assert(name@.subrange(0, i + 1 as int) =~= name@.subrange(0, i as int) + seq![
                name@[i as int],
            ]);
        }
        i = i + 1;
    }
    proof {
        assert(name@.subrange(0, name@.len() as int) =~= name@);
        assert(r@ =~= joined_spec(root@, name@));
    }
    r
}

/// Pick the path to read for an inclusion named `name`: exactly what
/// `resolved_spec` denotes on the reported probe outcomes.
pub fn resolve(
    name: &Vec<u8>,
    absolute: bool,
    exists_as_given: bool,
    roots: &Vec<Vec<u8>>,
    root_exists: &Vec<bool>,
) -> (r: Vec<u8>)
    requires
        roots@.len() == root_exists@.len(),
    ensures
        r@ == resolved_spec(
            name@,
            absolute,
            exists_as_given,
            roots@.map_values(|v: Vec<u8>| v@),
            root_exists@,
        ),
{
    if absolute || exists_as_given {
        return crate::text::clone_bytes(name);
    }
    let mut k: usize = 0;
    while k < root_exists.len()
        invariant
            k <= root_exists@.len(),
            roots@.len() == root_exists@.len(),
            first_root_from(root_exists@, 0) == first_root_from(root_exists@, k as int),
        decreases root_exists@.len() - k,
    {
        if root_exists[k] {
            let joined = join_path(&roots[k], name);
            proof {
                assert(first_root_from(root_exists@, k as int) == Some(k as int));
                assert(roots@.map_values(|v: Vec<u8>| v@)[k as int] == roots@[k as int]@);
            }
            return joined;
        }
        k = k + 1;
    }
    crate::text::clone_bytes(name)
}

} // verus!
