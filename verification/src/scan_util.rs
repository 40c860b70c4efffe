//! Folders shared by the scanners.
use vstd::prelude::*;

use crate::paths::{file_name, file_name_of, join, join_path};
use crate::settings::DirProbe;
use crate::text::{str_eq, views};

verus! {

/// The folders under a mods root that may hold zip archives: the root
/// itself, then `packed` and `unpacked`, each when it is a directory.
pub open spec fn zip_dirs_of(mods_root: Seq<char>, fs: DirProbe) -> Seq<Seq<char>> {
    let a = if fs.has_dir(mods_root) {
        seq![mods_root]
    } else {
        Seq::empty()
    };
    let b = if fs.has_dir(join(mods_root, "packed"@)) {
        seq![join(mods_root, "packed"@)]
    } else {
        Seq::empty()
    };
    let c = if fs.has_dir(join(mods_root, "unpacked"@)) {
        seq![join(mods_root, "unpacked"@)]
    } else {
        Seq::empty()
    };
    a + b + c
}

/// The folders under a mods root that may hold zip archives.
pub fn mod_zip_dirs(mods_root: &str, fs: &DirProbe) -> (r: Vec<String>)
    ensures
        views(r@) == zip_dirs_of(mods_root@, *fs),
{
    let mut dirs: Vec<String> = Vec::new();
    if fs.is_dir(mods_root) {
        dirs.push(mods_root.to_owned());
    }
    let ghost a = views(dirs@);
    let packed = join_path(mods_root, "packed");
    if fs.is_dir(packed.as_str()) {
        dirs.push(packed);
    }
    let ghost ab = views(dirs@);
    let unpacked = join_path(mods_root, "unpacked");
    if fs.is_dir(unpacked.as_str()) {
        dirs.push(unpacked);
    }
    assert(views(dirs@) =~= zip_dirs_of(mods_root@, *fs));
    dirs
}

/// The folders of `dirs` not named `unpacked`, in order.
pub open spec fn except_unpacked(dirs: Seq<Seq<char>>) -> Seq<Seq<char>>
    decreases dirs.len(),
{
    if dirs.len() == 0 {
        Seq::empty()
    } else if file_name(dirs.last()) == Some("unpacked"@) {
        except_unpacked(dirs.drop_last())
    } else {
        except_unpacked(dirs.drop_last()).push(dirs.last())
    }
}

/// The folders under a mods root whose zip archives are scanned: those of
/// [`mod_zip_dirs`] except the one named `unpacked`.
pub fn zip_scan_dirs(mods_root: &str, fs: &DirProbe) -> (r: Vec<String>)
    ensures
        views(r@) == except_unpacked(zip_dirs_of(mods_root@, *fs)),
{
    let dirs = mod_zip_dirs(mods_root, fs);
    let ghost ds = views(dirs@);
    let mut out: Vec<String> = Vec::new();
    let mut i: usize = 0;
    while i < dirs.len()
        invariant
            i <= dirs@.len(),
            ds == views(dirs@),
            views(out@) == except_unpacked(ds.take(i as int)),
        decreases dirs@.len() - i,
    {
        proof {
            assert(ds.take(i + 1).drop_last() =~= ds.take(i as int));
            assert(ds.take(i + 1).last() == dirs@[i as int]@);
        }
        let skip = match file_name_of(dirs[i].as_str()) {
            Some(n) => str_eq(n.as_str(), "unpacked"),
            None => false,
        };
        if !skip {
            let ghost o0 = views(out@);
            out.push(dirs[i].clone());
            assert(views(out@) =~= o0.push(dirs@[i as int]@));
        }
        i = i + 1;
    }
    assert(ds.take(dirs@.len() as int) =~= ds);
    out
}

} // verus!
