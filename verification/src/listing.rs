//! Directory listing over a snapshot of a directory tree.
//!
//! The caller walks the real filesystem and hands the library an
//! `FsNode` snapshot: file sizes, seconds since each file was
//! modified, and an `Unreadable` marker wherever metadata could not be
//! read. The library classifies the immediate children, computes
//! recursive directory sizes (only leaf files count), formats sizes
//! and coarse "time since modified" labels, and aborts the whole
//! listing on the first unreadable entry rather than returning partial
//! results.

use vstd::prelude::*;

use crate::digests::{format_size, size_label_of};
use crate::errors::FsError;
use crate::numfmt::{dec_str, u64_to_dec};

verus! {

broadcast use vstd::std_specs::vec::axiom_vec_index_decreases, vstd::std_specs::vec::axiom_vec_decreases_to_view;

/// One node of a directory-tree snapshot.
pub enum FsNode {
    /// A file with its byte length and the seconds elapsed since it
    /// was last modified.
    File { size: u64, modified_secs: u64 },
    /// A directory with its immediate children.
    Dir { entries: Vec<FsEntry> },
    /// A node whose metadata could not be read.
    Unreadable,
}

/// A named child of a directory.
pub struct FsEntry {
    /// Name relative to the directory that holds the entry.
    pub name: String,
    /// The child itself.
    pub node: FsNode,
}

/// Whether every node of the tree could be read.
pub open spec fn tree_readable(node: FsNode) -> bool
    decreases node,
{
    match node {
        FsNode::File { .. } => true,
        FsNode::Unreadable => false,
        FsNode::Dir { entries } => all_readable(entries@),
    }
}

/// Whether every entry of a sequence heads a fully readable tree.
pub open spec fn all_readable(entries: Seq<FsEntry>) -> bool
    decreases entries,
{
    if entries.len() == 0 {
        true
    } else {
        tree_readable(entries.first().node) && all_readable(entries.drop_first())
    }
}

/// Recursive byte size of a tree: files count their length, directories
/// the sum of their children, and nothing else contributes.
pub open spec fn spec_dir_size(node: FsNode) -> int
    decreases node,
{
    match node {
        FsNode::File { size, .. } => size as int,
        FsNode::Unreadable => 0,
        FsNode::Dir { entries } => sum_sizes(entries@),
    }
}

/// Sum of the recursive sizes of a sequence of entries.
pub open spec fn sum_sizes(entries: Seq<FsEntry>) -> int
    decreases entries,
{
    if entries.len() == 0 {
        0
    } else {
        spec_dir_size(entries.first().node) + sum_sizes(entries.drop_first())
    }
}

pub proof fn lemma_sum_sizes_nonneg(entries: Seq<FsEntry>)
    ensures
        sum_sizes(entries) >= 0,
        spec_dir_size_nonneg_all(entries),
    decreases entries,
{
    if entries.len() > 0 {
        lemma_dir_size_nonneg(entries.first().node);
        lemma_sum_sizes_nonneg(entries.drop_first());
        assert forall|i: int| 0 <= i < entries.len() implies spec_dir_size(
            #[trigger] entries[i].node,
        ) >= 0 by {
            if i == 0 {
                assert(entries[0] == entries.first());
            } else {
                assert(entries.drop_first()[i - 1] == entries[i]);
            }
        }
    }
}

/// Every entry of the sequence has a nonnegative recursive size.
pub open spec fn spec_dir_size_nonneg_all(entries: Seq<FsEntry>) -> bool {
    forall|i: int| 0 <= i < entries.len() ==> spec_dir_size(#[trigger] entries[i].node) >= 0
}

pub proof fn lemma_dir_size_nonneg(node: FsNode)
    ensures
        spec_dir_size(node) >= 0,
    decreases node,
{
    match node {
        FsNode::File { .. } => {},
        FsNode::Unreadable => {},
        FsNode::Dir { entries } => {
            lemma_sum_sizes_nonneg(entries@);
        },
    }
}

/// Computes the recursive size of a tree: the exact sum when the whole
/// tree is readable and the sum fits a 64-bit count, and otherwise the
/// first failure the walk meets.
#[verifier::loop_isolation(false)]
pub fn dir_size(node: &FsNode) -> (r: Result<u64, FsError>)
    ensures
        match r {
            Ok(n) => tree_readable(*node) && n as int == spec_dir_size(*node) && spec_dir_size(
                *node,
            ) <= u64::MAX,
            Err(FsError::UnreadableEntry) => !tree_readable(*node),
            Err(FsError::SizeOverflow) => spec_dir_size(*node) > u64::MAX,
            Err(_) => false,
        },
    decreases *node,
{
    match node {
        FsNode::File { size, .. } => Ok(*size),
        FsNode::Unreadable => Err(FsError::UnreadableEntry),
        FsNode::Dir { entries } => {
            let mut acc: u64 = 0;
            let mut i: usize = 0;
            let ghost all = entries@;
            while i < entries.len()
                invariant
                    all == entries@,
                    0 <= i <= all.len(),
                    acc as int == sum_sizes(all.subrange(0, i as int)),
                    all_readable(all.subrange(0, i as int)),
                decreases all.len() - i,
            {
                proof {
                    assert(all[i as int] == entries@[i as int]);
                }
                let child = dir_size(&entries[i].node);
                let add = match child {
                    Ok(n) => n,
                    Err(e) => {
                        proof {
                            lemma_prefix_unreadable_or_big(all, i as int);
                        }
                        return Err(e);
                    },
                };
                let new_acc = match acc.checked_add(add) {
                    Some(v) => v,
                    None => {
                        proof {
                            lemma_prefix_unreadable_or_big(all, i as int);
                        }
                        return Err(FsError::SizeOverflow);
                    },
                };
                proof {
                    lemma_sum_prefix_step(all, i as int);
                }
                acc = new_acc;
                i += 1;
            }
            proof {
                assert(all.subrange(0, all.len() as int) =~= all);
            }
            Ok(acc)
        },
    }
}

/// Extending a readable prefix by one readable entry keeps the running
/// sum in step with the specification.
pub proof fn lemma_sum_prefix_step(entries: Seq<FsEntry>, i: int)
    requires
        0 <= i < entries.len(),
    ensures
        sum_sizes(entries.subrange(0, i + 1)) == sum_sizes(entries.subrange(0, i))
            + spec_dir_size(entries[i].node),
        all_readable(entries.subrange(0, i)) && tree_readable(entries[i].node) ==> all_readable(
            entries.subrange(0, i + 1),
        ),
    decreases i,
{
    if i == 0 {
        assert(entries.subrange(0, 0) =~= Seq::<FsEntry>::empty());
        let one = entries.subrange(0, 1);
        assert(one.first() == entries[0]);
        assert(one.drop_first() =~= Seq::<FsEntry>::empty());
    } else {
        lemma_sum_prefix_step(entries.drop_first(), i - 1);
        let a = entries.subrange(0, i + 1);
        let b = entries.subrange(0, i);
        assert(a.first() == entries[0] && b.first() == entries[0]);
        assert(a.drop_first() =~= entries.drop_first().subrange(0, i));
        assert(b.drop_first() =~= entries.drop_first().subrange(0, i - 1));
        assert(entries.drop_first()[i - 1] == entries[i]);
    }
}

/// The coarse "time since modified" label: the elapsed seconds
/// bucketed into the largest unit strictly exceeding one of it, as
/// `"<integer> <unit>(s)"`. The thresholds are deliberately strict:
/// exactly one day reports hours, exactly one hour reports minutes,
/// and exactly one minute reports seconds.
pub open spec fn spec_modified_label(secs: u64) -> Seq<char> {
    let minutes = secs as nat / 60;
    let hours = minutes / 60;
    let days = hours / 24;
    if days > 1 {
        dec_str(days) + seq![' ', 'd', 'a', 'y', '(', 's', ')']
    } else if hours > 1 {
        dec_str(hours) + seq![' ', 'h', 'o', 'u', 'r', '(', 's', ')']
    } else if minutes > 1 {
        dec_str(minutes) + seq![' ', 'm', 'i', 'n', 'u', 't', 'e', '(', 's', ')']
    } else {
        dec_str(secs as nat) + seq![' ', 's', 'e', 'c', 'o', 'n', 'd', '(', 's', ')']
    }
}

/// Renders the "time since modified" bucket of an elapsed duration.
pub fn modified_label(secs: u64) -> (r: String)
    ensures
        r@ == spec_modified_label(secs),
{
    proof {
        reveal_strlit(" day(s)");
        reveal_strlit(" hour(s)");
        reveal_strlit(" minute(s)");
        reveal_strlit(" second(s)");
    }
    let minutes = secs / 60;
    let hours = minutes / 60;
    let days = hours / 24;
    let r = if days > 1 {
        u64_to_dec(days).concat(" day(s)")
    } else if hours > 1 {
        u64_to_dec(hours).concat(" hour(s)")
    } else if minutes > 1 {
        u64_to_dec(minutes).concat(" minute(s)")
    } else {
        u64_to_dec(secs).concat(" second(s)")
    };
    assert(r@ =~= spec_modified_label(secs));
    r
}

/// A listed file: name, formatted size, and modified bucket.
pub struct FileInfo {
    pub name: String,
    pub size: String,
    pub modified: String,
}

/// A listed subdirectory: name and formatted recursive size.
pub struct DirInfo {
    pub name: String,
    pub size: String,
}

/// The immediate children of a listed directory, classified.
pub struct ListResponse {
    pub files: Vec<FileInfo>,
    pub dirs: Vec<DirInfo>,
}

/// The file children of a directory, in order: name, byte length, and
/// seconds since modified.
pub open spec fn spec_files(entries: Seq<FsEntry>) -> Seq<(Seq<char>, u64, u64)>
    decreases entries,
{
    if entries.len() == 0 {
        Seq::empty()
    } else {
        let rest = spec_files(entries.drop_first());
        match entries.first().node {
            FsNode::File { size, modified_secs } => seq![
                (entries.first().name@, size, modified_secs),
            ] + rest,
            _ => rest,
        }
    }
}

/// The directory children of a directory, in order: name and recursive
/// byte size.
pub open spec fn spec_dirs(entries: Seq<FsEntry>) -> Seq<(Seq<char>, int)>
    decreases entries,
{
    if entries.len() == 0 {
        Seq::empty()
    } else {
        let rest = spec_dirs(entries.drop_first());
        match entries.first().node {
            FsNode::Dir { .. } => seq![
                (entries.first().name@, spec_dir_size(entries.first().node)),
            ] + rest,
            _ => rest,
        }
    }
}

/// The children of a directory node; empty for any other node.
pub open spec fn node_entries(node: FsNode) -> Seq<FsEntry> {
    match node {
        FsNode::Dir { entries } => entries@,
        _ => Seq::empty(),
    }
}

/// Every directory child's recursive size fits a 64-bit byte count.
pub open spec fn sizes_fit(entries: Seq<FsEntry>) -> bool {
    forall|i: int|
        0 <= i < entries.len() && #[trigger] entries[i].node is Dir ==> spec_dir_size(
            entries[i].node,
        ) <= u64::MAX
}

/// The classified children match the two projections pointwise, with
/// sizes and buckets rendered for display.
pub open spec fn listing_matches(resp: ListResponse, entries: Seq<FsEntry>) -> bool {
    &&& resp.files@.len() == spec_files(entries).len()
    &&& forall|i: int|
        0 <= i < spec_files(entries).len() ==> {
            &&& (#[trigger] resp.files@[i]).name@ == spec_files(entries)[i].0
            &&& resp.files@[i].size@ == size_label_of(spec_files(entries)[i].1 as nat)
            &&& resp.files@[i].modified@ == spec_modified_label(spec_files(entries)[i].2)
        }
    &&& resp.dirs@.len() == spec_dirs(entries).len()
    &&& forall|i: int|
        0 <= i < spec_dirs(entries).len() ==> {
            &&& (#[trigger] resp.dirs@[i]).name@ == spec_dirs(entries)[i].0
            &&& resp.dirs@[i].size@ == size_label_of(spec_dirs(entries)[i].1 as nat)
        }
}

/// Appending one entry extends the two projections by that entry's
/// classification.
pub proof fn lemma_projections_step(entries: Seq<FsEntry>, i: int)
    requires
        0 <= i < entries.len(),
    ensures
        spec_files(entries.subrange(0, i + 1)) == spec_files(entries.subrange(0, i)) + (
        match entries[i].node {
            FsNode::File { size, modified_secs } => seq![(entries[i].name@, size, modified_secs)],
            _ => Seq::<(Seq<char>, u64, u64)>::empty(),
        }),
        spec_dirs(entries.subrange(0, i + 1)) == spec_dirs(entries.subrange(0, i)) + (
        match entries[i].node {
            FsNode::Dir { .. } => seq![(entries[i].name@, spec_dir_size(entries[i].node))],
            _ => Seq::<(Seq<char>, int)>::empty(),
        }),
    decreases i,
{
    if i == 0 {
        assert(entries.subrange(0, 0) =~= Seq::<FsEntry>::empty());
        let one = entries.subrange(0, 1);
        assert(one.first() == entries[0]);
        assert(one.drop_first() =~= Seq::<FsEntry>::empty());
        assert(spec_files(one) =~= spec_files(entries.subrange(0, 0)) + (
        match entries[0].node {
            FsNode::File { size, modified_secs } => seq![(entries[0].name@, size, modified_secs)],
            _ => Seq::<(Seq<char>, u64, u64)>::empty(),
        }));
        assert(spec_dirs(one) =~= spec_dirs(entries.subrange(0, 0)) + (
        match entries[0].node {
            FsNode::Dir { .. } => seq![(entries[0].name@, spec_dir_size(entries[0].node))],
            _ => Seq::<(Seq<char>, int)>::empty(),
        }));
    } else {
        lemma_projections_step(entries.drop_first(), i - 1);
        let a = entries.subrange(0, i + 1);
        let b = entries.subrange(0, i);
        assert(a.first() == entries[0] && b.first() == entries[0]);
        assert(a.drop_first() =~= entries.drop_first().subrange(0, i));
        assert(b.drop_first() =~= entries.drop_first().subrange(0, i - 1));
        assert(entries.drop_first()[i - 1] == entries[i]);
        assert(spec_files(a) =~= spec_files(b) + (
        match entries[i].node {
            FsNode::File { size, modified_secs } => seq![(entries[i].name@, size, modified_secs)],
            _ => Seq::<(Seq<char>, u64, u64)>::empty(),
        }));
        assert(spec_dirs(a) =~= spec_dirs(b) + (
        match entries[i].node {
            FsNode::Dir { .. } => seq![(entries[i].name@, spec_dir_size(entries[i].node))],
            _ => Seq::<(Seq<char>, int)>::empty(),
        }));
    }
}

/// Classifies the immediate children of a directory snapshot: files
/// with formatted size and modified bucket, subdirectories with their
/// formatted recursive size. Succeeds exactly on a fully readable
/// directory whose subdirectory sizes fit 64 bits; otherwise reports
/// the failure, never a partial listing.
#[verifier::loop_isolation(false)]
pub fn list(node: &FsNode) -> (r: Result<ListResponse, FsError>)
    ensures
        match r {
            Ok(resp) => {
                &&& *node is Dir
                &&& tree_readable(*node)
                &&& sizes_fit(node_entries(*node))
                &&& listing_matches(resp, node_entries(*node))
            },
            Err(FsError::NotADirectory) => *node is File,
            Err(FsError::DirectoryNotFound) => *node is Unreadable,
            Err(FsError::UnreadableEntry) => *node is Dir && !tree_readable(*node),
            Err(FsError::SizeOverflow) => *node is Dir && !sizes_fit(node_entries(*node)),
        },
{
    let entries = match node {
        FsNode::File { .. } => {
            return Err(FsError::NotADirectory);
        },
        FsNode::Unreadable => {
            return Err(FsError::DirectoryNotFound);
        },
        FsNode::Dir { entries } => entries,
    };
    let ghost all = entries@;
    let mut files: Vec<FileInfo> = Vec::new();
    let mut dirs: Vec<DirInfo> = Vec::new();
    let mut i: usize = 0;
    while i < entries.len()
        invariant
            all == entries@,
            *node is Dir && node_entries(*node) == all,
            0 <= i <= all.len(),
            all_readable(all.subrange(0, i as int)),
            sizes_fit(all.subrange(0, i as int)),
            files@.len() == spec_files(all.subrange(0, i as int)).len(),
            forall|j: int|
                0 <= j < spec_files(all.subrange(0, i as int)).len() ==> {
                    &&& (#[trigger] files@[j]).name@ == spec_files(all.subrange(0, i as int))[j].0
                    &&& files@[j].size@ == size_label_of(
                        spec_files(all.subrange(0, i as int))[j].1 as nat,
                    )
                    &&& files@[j].modified@ == spec_modified_label(
                        spec_files(all.subrange(0, i as int))[j].2,
                    )
                },
            dirs@.len() == spec_dirs(all.subrange(0, i as int)).len(),
            forall|j: int|
                0 <= j < spec_dirs(all.subrange(0, i as int)).len() ==> {
                    &&& (#[trigger] dirs@[j]).name@ == spec_dirs(all.subrange(0, i as int))[j].0
                    &&& dirs@[j].size@ == size_label_of(
                        spec_dirs(all.subrange(0, i as int))[j].1 as nat,
                    )
                },
        decreases all.len() - i,
    {
        let entry = &entries[i];
        proof {
            lemma_projections_step(all, i as int);
            lemma_sum_prefix_step(all, i as int);
        }
        match &entry.node {
            FsNode::File { size, modified_secs } => {
                let info = FileInfo {
                    name: entry.name.clone(),
                    size: format_size(*size),
                    modified: modified_label(*modified_secs),
                };
                files.push(info);
            },
            FsNode::Unreadable => {
                proof {
                    lemma_prefix_unreadable_or_big(all, i as int);
                }
                return Err(FsError::UnreadableEntry);
            },
            FsNode::Dir { .. } => {
                let size = match dir_size(&entry.node) {
                    Ok(n) => n,
                    Err(FsError::UnreadableEntry) => {
                        proof {
                            lemma_prefix_unreadable_or_big(all, i as int);
                        }
                        return Err(FsError::UnreadableEntry);
                    },
                    Err(_) => {
                        proof {
                            assert(all[i as int].node is Dir);
                            assert(spec_dir_size(all[i as int].node) > u64::MAX);
                            assert(!sizes_fit(all));
                        }
                        return Err(FsError::SizeOverflow);
                    },
                };
                let info = DirInfo { name: entry.name.clone(), size: format_size(size) };
                dirs.push(info);
            },
        }
        proof {
            assert(all.subrange(0, i + 1 as int) =~= all.subrange(0, i as int).push(
                all[i as int],
            ));
        }
        i += 1;
    }
    proof {
        assert(all.subrange(0, all.len() as int) =~= all);
    }
    Ok(ListResponse { files, dirs })
}

/// A failed walk of a prefix dooms the whole sequence: an unreadable
/// entry makes the sequence unreadable, and a too-large child or
/// running sum keeps the total too large.
pub proof fn lemma_prefix_unreadable_or_big(entries: Seq<FsEntry>, i: int)
    requires
        0 <= i < entries.len(),
    ensures
        !tree_readable(entries[i].node) ==> !all_readable(entries),
        sum_sizes(entries) >= sum_sizes(entries.subrange(0, i)) + spec_dir_size(entries[i].node),
    decreases entries.len(),
{
    lemma_sum_sizes_nonneg(entries);
    if i == 0 {
        assert(entries.subrange(0, 0) =~= Seq::<FsEntry>::empty());
        assert(entries.first() == entries[0]);
        lemma_sum_sizes_nonneg(entries.drop_first());
    } else {
        lemma_prefix_unreadable_or_big(entries.drop_first(), i - 1);
        assert(entries.drop_first()[i - 1] == entries[i]);
        assert(entries.subrange(0, i).first() == entries[0]);
        assert(entries.subrange(0, i).drop_first() =~= entries.drop_first().subrange(0, i - 1));
        lemma_dir_size_nonneg(entries[0].node);
    }
}

} // verus!
