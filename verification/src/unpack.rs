//! The layer unpacker: gzip decompression, tar decoding, path-traversal
//! defense, and application of the entries to the sandbox root.

use vstd::prelude::*;

use crate::err::Fault;
use crate::gzip::gunzip;
use crate::gzip::gunzip_of;
use crate::paths::check_path_safe;
use crate::paths::path_is_safe;
use crate::sandbox::ancestors_clear;
use crate::sandbox::apply_all;
use crate::sandbox::lemma_apply_all_new_keys;
use crate::sandbox::views_of;
use crate::sandbox::FsEntry;
use crate::sandbox::FsEntryView;
use crate::sandbox::FsNode;
use crate::sandbox::FsNodeView;
use crate::sandbox::SandboxRoot;
use crate::tar::parse_tar;
use crate::tar::tar_parse;

verus! {

/// A hard link's target must itself stay inside the root and be free of
/// symbolic-link ancestors: creating the link resolves the target at once.
pub open spec fn hardlink_target_ok(
    m: Map<Seq<u8>, FsNodeView>,
    es: Seq<FsEntryView>,
    e: FsEntryView,
) -> bool {
    match e.node {
        FsNodeView::Hardlink(t) => path_is_safe(t) && ancestors_clear(m, es, t),
        _ => true,
    }
}

/// Every entry can be applied: its path stays inside the destination root,
/// no ancestor of it is a symbolic link of the root or of this layer, and
/// a hard link's target is held to the same rules.
pub open spec fn entries_ok(m: Map<Seq<u8>, FsNodeView>, es: Seq<FsEntryView>) -> bool {
    forall|k: int|
        0 <= k < es.len() ==> path_is_safe(#[trigger] es[k].path) && ancestors_clear(
            m,
            es,
            es[k].path,
        ) && hardlink_target_ok(m, es, es[k])
}

/// What unpacking one compressed layer does to the root map: the decoded
/// entries are applied in archive order, or the whole layer is refused.
pub open spec fn unpack_step(m: Map<Seq<u8>, FsNodeView>, gz: Seq<u8>) -> Result<
    Map<Seq<u8>, FsNodeView>,
    Fault,
> {
    match gunzip_of(gz) {
        Option::None => Err(Fault::ArchiveError),
        Option::Some(t) => match tar_parse(t) {
            Option::None => Err(Fault::ArchiveError),
            Option::Some(es) => if entries_ok(m, es) {
                Ok(apply_all(m, es))
            } else {
                Err(Fault::ArchiveError)
            },
        },
    }
}

/// Decompresses a layer blob, decodes its tar entries, refuses any entry
/// whose path or hard-link target would escape the root directly or
/// through a symbolic-link ancestor, and applies the entries in listed
/// order. On success the entry count is returned; on failure the root is
/// left untouched. No entry ever adds a path that escapes the root.
pub fn unpack(gz: &Vec<u8>, root: &mut SandboxRoot) -> (r: Result<usize, Fault>)
    requires
        !old(root).is_sealed(),
    ensures
        !final(root).is_sealed(),
        match unpack_step(old(root)@, gz@) {
            Result::Ok(m2) => r is Ok && final(root)@ == m2 && r->Ok_0 == tar_parse(
                gunzip_of(gz@)->Some_0,
            )->Some_0.len(),
            Result::Err(e) => r is Err && r->Err_0 == e && *final(root) == *old(root),
        },
        forall|p: Seq<u8>|
            final(root)@.contains_key(p) && !old(root)@.contains_key(p) ==> path_is_safe(p),
{
    let tar_bytes = match gunzip(gz) {
        Result::Ok(t) => t,
        Result::Err(_) => {
            return Err(Fault::ArchiveError);
        },
    };
    let entries = match parse_tar(tar_bytes.as_slice()) {
        Result::Ok(es) => es,
        Result::Err(e) => {
            return Err(e);
        },
    };
    let ghost evs = views_of(entries@);
    let mut k: usize = 0;
    while k < entries.len()
        invariant
            k <= entries@.len(),
            evs == views_of(entries@),
            forall|i: int|
                0 <= i < k ==> path_is_safe(#[trigger] evs[i].path) && ancestors_clear(
                    root@,
                    evs,
                    evs[i].path,
                ) && hardlink_target_ok(root@, evs, evs[i]),
            *root == *old(root),
            !root.is_sealed(),
            gunzip_of(gz@) == Some(tar_bytes@),
            tar_parse(tar_bytes@) == Some(evs),
        decreases entries@.len() - k,
    {
        proof {
            assert(evs[k as int] == entries@[k as int]@);
        }
        if !check_path_safe(entries[k].path.as_slice()) {
            proof {
                assert(!path_is_safe(evs[k as int].path));
            }
            return Err(Fault::ArchiveError);
        }
        if !root.clear_for(&entries, entries[k].path.as_slice()) {
            proof {
                assert(!ancestors_clear(root@, evs, evs[k as int].path));
            }
            return Err(Fault::ArchiveError);
        }
        match &entries[k].node {
            FsNode::Hardlink(t) => {
                if !check_path_safe(t.as_slice()) {
                    proof {
                        assert(!hardlink_target_ok(root@, evs, evs[k as int]));
                        assert(path_is_safe(evs[k as int].path));
                        assert(!entries_ok(root@, evs));
                    }
                    return Err(Fault::ArchiveError);
                }
                if !root.clear_for(&entries, t.as_slice()) {
                    proof {
                        assert(!hardlink_target_ok(root@, evs, evs[k as int]));
                        assert(path_is_safe(evs[k as int].path));
                        assert(!entries_ok(root@, evs));
                    }
                    return Err(Fault::ArchiveError);
                }
                proof {
                    assert(evs[k as int].node == FsNodeView::Hardlink(t@));
                    assert(hardlink_target_ok(root@, evs, evs[k as int]));
                }
            },
            _ => {
                proof {
                    assert(!(evs[k as int].node is Hardlink));
                    assert(hardlink_target_ok(root@, evs, evs[k as int]));
                }
            },
        }
        proof {
            assert(path_is_safe(evs[k as int].path));
            assert(ancestors_clear(root@, evs, evs[k as int].path));
            assert(hardlink_target_ok(root@, evs, evs[k as int]));
            assert forall|i: int|
                0 <= i < k + 1 implies path_is_safe(#[trigger] evs[i].path) && ancestors_clear(
                root@,
                evs,
                evs[i].path,
            ) && hardlink_target_ok(root@, evs, evs[i]) by {
                if i < k {
                    assert(path_is_safe(evs[i].path) && ancestors_clear(root@, evs, evs[i].path)
                        && hardlink_target_ok(root@, evs, evs[i]));
                }
            };
        }
        k = k + 1;
    }
    proof {
        assert(entries_ok(root@, evs));
    }
    let n = entries.len();
    let ghost m0 = root@;
    root.apply_entries(entries);
    proof {
        assert forall|p: Seq<u8>| root@.contains_key(p) && !m0.contains_key(p) implies path_is_safe(
            p,
        ) by {
            lemma_apply_all_new_keys(m0, evs, p);
            let i = choose|i: int| 0 <= i < evs.len() && evs[i].path == p;
            assert(path_is_safe(evs[i].path));
        };
    }
    Ok(n)
}

} // verus!
