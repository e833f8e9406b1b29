//! Relative-path computation: the in-archive path of a file is its path
//! with the archive root's parent directory stripped off the front.

use vstd::prelude::*;

verus! {

/// The byte that separates path components.
pub const SEPARATOR: u8 = 0x2F;  // '/'

/// Whether `path` lies under the directory `root`: it is `root`, then the
/// separator, then at least nothing.
pub open spec fn spec_under_root(path: Seq<u8>, root: Seq<u8>) -> bool {
    path.len() > root.len() && path.subrange(0, root.len() as int) == root && path[root.len() as int]
        == SEPARATOR
}

/// Strips the leading `root` directory and its separator from `path`,
/// yielding the path relative to `root`; `None` when `path` does not lie
/// under `root`.
pub fn relative_to_root(path: &Vec<u8>, root: &Vec<u8>) -> (r: Option<Vec<u8>>)
    ensures
        r is Some <==> spec_under_root(path@, root@),
        r matches Some(rel) ==> rel@ == path@.subrange(root@.len() as int + 1, path@.len() as int)
            && path@ == root@ + seq![SEPARATOR] + rel@,
{
    let plen = path.len();
    let rlen = root.len();
    if plen <= rlen {
        return None;
    }
    let mut i: usize = 0;
    while i < rlen
        invariant
            i <= rlen,
            rlen < plen,
            plen == path@.len(),
            rlen == root@.len(),
            forall|j: int| 0 <= j < i ==> path@[j] == root@[j],
        decreases rlen - i,
    {
        if path[i] != root[i] {
            proof {
                assert(path@.subrange(0, root@.len() as int)[i as int] != root@[i as int]);
            }
            return None;
        }
        i = i + 1;
    }
    if path[rlen] != SEPARATOR {
        return None;
    }
    proof {
        assert(path@.subrange(0, root@.len() as int) =~= root@);
    }
    let mut rel: Vec<u8> = Vec::new();
    let mut k: usize = rlen + 1;
    while k < plen
        invariant
            rlen + 1 <= k <= plen,
            plen == path@.len(),
            rlen == root@.len(),
            rel@ == path@.subrange(rlen as int + 1, k as int),
        decreases plen - k,
    {
        rel.push(path[k]);
        k = k + 1;
        assert(rel@ =~= path@.subrange(rlen as int + 1, k as int));
    }
    proof {
        assert(path@ =~= root@ + seq![SEPARATOR] + path@.subrange(
            root@.len() as int + 1,
            path@.len() as int,
        ));
    }
    Some(rel)
}

} // verus!
