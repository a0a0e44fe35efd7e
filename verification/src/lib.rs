//! Prepares interface definition files for a schema compiler, and lays out
//! what the compiler generates as a tree of modules.

pub mod ascii;
pub mod children;
pub mod grammar;
pub mod lexer;
pub mod modgen;
pub mod namespace;
pub mod patcher;
pub mod path;
pub mod scanning;
pub mod streaming;
pub mod theorems;
pub mod tree;

use crate::path::{copy, extension, get_join, get_relative, has_extension, join, relative_to, views};
use vstd::prelude::*;

verus! {

/// The ways in which planning the patched tree can fail.
#[derive(Debug, PartialEq, Eq)]
pub enum Error {
    /// An entry does not lie below this source directory.
    PathResolve(Vec<u8>),
}

/// What a walk of a directory found at one path.
#[derive(Debug, PartialEq, Eq)]
pub struct Entry {
    pub path: Vec<u8>,
    pub is_dir: bool,
    pub is_file: bool,
}

/// One source file to patch, and the file to create for the result.
#[derive(Debug, PartialEq, Eq)]
pub struct Patch {
    pub source: Vec<u8>,
    pub output: Vec<u8>,
}

/// What is to be done for a source tree: the directories to create, then
/// the files to patch.
#[derive(Debug, PartialEq, Eq)]
pub struct Plan {
    pub dirs: Vec<Vec<u8>>,
    pub files: Vec<Patch>,
}

/// The extension of the source files to patch, `proto`.
pub open spec fn proto_extension() -> Seq<u8> {
    seq![0x70u8, 0x72u8, 0x6fu8, 0x74u8, 0x6fu8]
}

/// Tells whether an entry is a source file to patch: not a directory, and
/// with the extension `proto`.
pub open spec fn proto_file(e: Entry) -> bool {
    !e.is_dir && extension(e.path@) == Some(proto_extension())
}

/// Tells whether every directory and every source file to patch among
/// `entries` lies below `src_dir`.
pub open spec fn resolvable(src_dir: Seq<u8>, entries: Seq<Entry>) -> bool {
    forall|i: int|
        0 <= i < entries.len() && ((#[trigger] entries[i]).is_dir || proto_file(entries[i]))
            ==> relative_to(entries[i].path@, src_dir) is Some
}

/// The directories that mirror below `dst_dir` the directories among
/// `entries`, in their order.
pub open spec fn mirrored(src_dir: Seq<u8>, dst_dir: Seq<u8>, entries: Seq<Entry>) -> Seq<Seq<u8>>
    decreases entries.len(),
{
    if entries.len() == 0 {
        Seq::empty()
    } else {
        let before = mirrored(src_dir, dst_dir, entries.drop_last());
        let e = entries.last();
        match relative_to(e.path@, src_dir) {
            Some(rel) if e.is_dir => before.push(join(dst_dir, rel)),
            _ => before,
        }
    }
}

/// The source files to patch among `entries`, in their order, each with the
/// file that mirrors it below `dst_dir`.
pub open spec fn patches(src_dir: Seq<u8>, dst_dir: Seq<u8>, entries: Seq<Entry>) -> Seq<
    (Seq<u8>, Seq<u8>),
>
    decreases entries.len(),
{
    if entries.len() == 0 {
        Seq::empty()
    } else {
        let before = patches(src_dir, dst_dir, entries.drop_last());
        let e = entries.last();
        match relative_to(e.path@, src_dir) {
            Some(rel) if proto_file(e) => before.push((e.path@, join(dst_dir, rel))),
            _ => before,
        }
    }
}

/// The views of some patches.
pub open spec fn patch_views(files: Seq<Patch>) -> Seq<(Seq<u8>, Seq<u8>)> {
    Seq::new(files.len(), |i: int| (files[i].source@, files[i].output@))
}

/// Plans the patched copy of a source tree. `entries` is what a walk of
/// `src_dir` found, a directory before what lies in it. Every directory is
/// mirrored below `dst_dir`; of the other entries those with the extension
/// `proto` are patched into the file that mirrors them, and the rest is left
/// out. An entry that does not lie below `src_dir` fails the plan.
pub fn patch_protos(src_dir: &[u8], dst_dir: &[u8], entries: &Vec<Entry>) -> (plan: Result<
    Plan,
    Error,
>)
    ensures
        match plan {
            Ok(plan) => {
                &&& resolvable(src_dir@, entries@)
                &&& views(plan.dirs@) == mirrored(src_dir@, dst_dir@, entries@)
                &&& patch_views(plan.files@) == patches(src_dir@, dst_dir@, entries@)
            },
            Err(Error::PathResolve(dir)) => !resolvable(src_dir@, entries@) && dir@ == src_dir@,
        },
{
    let mut proto: Vec<u8> = Vec::new();
    proto.push(0x70);
    proto.push(0x72);
    proto.push(0x6f);
    proto.push(0x74);
    proto.push(0x6f);
    let mut dirs: Vec<Vec<u8>> = Vec::new();
    let mut files: Vec<Patch> = Vec::new();
    let mut i: usize = 0;
    while i < entries.len()
        invariant
            i <= entries.len(),
            proto@ == proto_extension(),
            resolvable(src_dir@, entries@.subrange(0, i as int)),
            views(dirs@) == mirrored(src_dir@, dst_dir@, entries@.subrange(0, i as int)),
            patch_views(files@) == patches(src_dir@, dst_dir@, entries@.subrange(0, i as int)),
        decreases entries.len() - i,
    {
        let entry = &entries[i];
        let ghost seen = entries@.subrange(0, i as int);
        let ghost next = entries@.subrange(0, i + 1);
        let ghost old_files = patch_views(files@);
        proof {
            assert(next.drop_last() =~= seen);
        }
        let wanted = entry.is_dir || has_extension(entry.path.as_slice(), proto.as_slice());
        if wanted {
            match get_relative(entry.path.as_slice(), src_dir) {
                None => {
                    return Err(Error::PathResolve(copy(src_dir)));
                },
                Some(rel) => {
                    let target = get_join(dst_dir, rel.as_slice());
                    if entry.is_dir {
                        dirs.push(target);
                    } else {
                        let source = copy(entry.path.as_slice());
                        files.push(Patch { source, output: target });
                        assert(patch_views(files@) =~= old_files.push(
                            (entry.path@, join(dst_dir@, rel@)),
                        ));
                    }
                },
            }
        }
        proof {
            assert forall|k: int|
                0 <= k < next.len() && ((#[trigger] next[k]).is_dir || proto_file(
                    next[k],
                )) implies relative_to(next[k].path@, src_dir@) is Some by {}
        }
        i += 1;
    }
    assert(entries@.subrange(0, i as int) =~= entries@);
    Ok(Plan { dirs, files })
}

} // verus!
