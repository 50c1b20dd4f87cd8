//! Path-traversal defense: deciding whether an archive entry path stays
//! inside the destination root.

use vstd::prelude::*;

verus! {

/// How a finished path component changes the directory depth: `""` and `"."`
/// stay, `".."` goes up one level, anything else goes down one level.
pub open spec fn comp_delta(c: Seq<u8>) -> int {
    if c.len() == 0 || c == seq![46u8] {
        0
    } else if c == seq![46u8, 46u8] {
        -1
    } else {
        1
    }
}

/// Scanning the remaining bytes `p` with the unfinished component `cur` and
/// `depth` directory levels already entered: does the walk stay at or below
/// the root at every separator and at the end?
pub open spec fn safe_scan(p: Seq<u8>, cur: Seq<u8>, depth: int) -> bool
    decreases p.len(),
{
    if p.len() == 0 {
        depth + comp_delta(cur) >= 0
    } else if p[0] == 47u8 {
        &&& depth + comp_delta(cur) >= 0
        &&& safe_scan(p.skip(1), Seq::empty(), depth + comp_delta(cur))
    } else {
        safe_scan(p.skip(1), cur.push(p[0]), depth)
    }
}

/// A path is safe when it is non-empty, relative, and never walks above the
/// root through `..` components.
pub open spec fn path_is_safe(p: Seq<u8>) -> bool {
    &&& p.len() > 0
    &&& p[0] != 47u8
    &&& safe_scan(p, Seq::empty(), 0)
}

fn comp_delta_exec(cur: &Vec<u8>) -> (d: i8)
    ensures
        d as int == comp_delta(cur@),
{
    if cur.len() == 0 {
        0
    } else if cur.len() == 1 && cur[0] == 46 {
        proof {
            assert(cur@ =~= seq![46u8]);
        }
        0
    } else if cur.len() == 2 && cur[0] == 46 && cur[1] == 46 {
        proof {
            assert(cur@ =~= seq![46u8, 46u8]);
        }
        -1
    } else {
        proof {
            assert(cur@ != seq![46u8] && cur@ != seq![46u8, 46u8] && cur@.len() > 0) by {
                if cur@ =~= seq![46u8] {
                    assert(cur@.len() == 1 && cur@[0] == 46);
                }
                if cur@ =~= seq![46u8, 46u8] {
                    assert(cur@.len() == 2 && cur@[0] == 46 && cur@[1] == 46);
                }
            }
        }
        1
    }
}

/// Decides `path_is_safe` for an entry path.
pub fn check_path_safe(p: &[u8]) -> (r: bool)
    ensures
        r == path_is_safe(p@),
{
    if p.len() == 0 {
        return false;
    }
    if p[0] == 47 {
        return false;
    }
    let ghost full = p@;
    proof {
        assert(full.skip(0) =~= full);
    }
    let mut i: usize = 0;
    let mut depth: usize = 0;
    let mut cur: Vec<u8> = Vec::new();
    while i < p.len()
        invariant
            i <= full.len(),
            full.len() > 0,
            full[0] != 47u8,
            depth <= i,
            p@ == full,
            safe_scan(full, Seq::empty(), 0) == safe_scan(full.skip(i as int), cur@, depth as int),
        decreases full.len() - i,
    {
        let c = p[i];
        proof {
            assert(full.skip(i as int)[0] == full[i as int]);
        }
        if c == 47 {
            let d = comp_delta_exec(&cur);
            proof {
                assert(full.skip(i as int).skip(1) =~= full.skip(i as int + 1));
            }
            if d == -1 {
                if depth == 0 {
                    proof {
                        assert(!safe_scan(full.skip(i as int), cur@, depth as int));
                    }
                    return false;
                }
                depth = depth - 1;
            } else if d == 1 {
                depth = depth + 1;
            }
            cur = Vec::new();
        } else {
            proof {
                assert(full.skip(i as int).skip(1) =~= full.skip(i as int + 1));
            }
            cur.push(c);
        }
        i = i + 1;
    }
    proof {
        assert(full.skip(i as int) =~= Seq::<u8>::empty());
    }
    let d = comp_delta_exec(&cur);
    if d == -1 {
        depth > 0
    } else {
        true
    }
}

} // verus!
