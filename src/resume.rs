//! Facts about resuming: how the skip tree computed from local state and the
//! plan derived from it fit together.
use crate::model::{
    roots_match, same_entry,
    all_well_formed_upto, find_entry, find_skip, full_plan, full_plan_upto,
    lemma_skippable_roots, option_bytes, option_skip, plan_bytes_upto, plan_entries_upto,
    plan_for, remaining, remaining_child, remaining_upto, skip_for, skippable, skippable_child,
    skippable_upto, skips_nothing_upto, total_size_upto, total_skip_upto, unique_names,
    EntryView, PlanView, SkipView,
};
use vstd::prelude::*;

verus! {

broadcast use vstd::seq::group_seq_axioms;

// ---------------------------------------------------------------------------
// Helpers on sequences

proof fn lemma_well_formed_at(files: Seq<EntryView>, n: int, k: int)
    requires
        0 <= k < n <= files.len(),
        all_well_formed_upto(files, n),
    ensures
        files[k].well_formed(),
    decreases n,
{
    if k < n - 1 {
        lemma_well_formed_at(files, n - 1, k);
    }
}

proof fn lemma_plan_bytes_prefix(s: Seq<PlanView>, t: Seq<PlanView>, n: int)
    requires
        0 <= n <= s.len(),
        n <= t.len(),
        forall|i: int| 0 <= i < n ==> s[i] == t[i],
    ensures
        plan_bytes_upto(s, n) == plan_bytes_upto(t, n),
    decreases n,
{
    if n > 0 {
        lemma_plan_bytes_prefix(s, t, n - 1);
    }
}

proof fn lemma_plan_bytes_push(s: Seq<PlanView>, x: PlanView)
    ensures
        plan_bytes_upto(s.push(x), s.len() + 1int) == plan_bytes_upto(s, s.len() as int) + x.bytes(),
{
    lemma_plan_bytes_prefix(s, s.push(x), s.len() as int);
}

proof fn lemma_total_skip_prefix(s: Seq<SkipView>, t: Seq<SkipView>, n: int)
    requires
        0 <= n <= s.len(),
        n <= t.len(),
        forall|i: int| 0 <= i < n ==> s[i] == t[i],
    ensures
        total_skip_upto(s, n) == total_skip_upto(t, n),
    decreases n,
{
    if n > 0 {
        lemma_total_skip_prefix(s, t, n - 1);
    }
}

proof fn lemma_total_skip_push(s: Seq<SkipView>, x: SkipView)
    ensures
        total_skip_upto(s.push(x), s.len() + 1int) == total_skip_upto(s, s.len() as int)
            + x.total_skip(),
{
    lemma_total_skip_prefix(s, s.push(x), s.len() as int);
}

proof fn lemma_find_skip_push(e: EntryView, s: Seq<SkipView>, x: SkipView, i: int)
    requires
        0 <= i <= s.len(),
    ensures
        find_skip(e, s.push(x), i) == (if find_skip(e, s, i) is Some {
            find_skip(e, s, i)
        } else if skip_for(e, x) {
            Some(x)
        } else {
            None
        }),
    decreases s.len() - i,
{
    if i < s.len() {
        assert(s.push(x)[i] == s[i]);
        lemma_find_skip_push(e, s, x, i + 1);
    } else {
        assert(s.push(x)[i] == x);
        assert(find_skip(e, s.push(x), i + 1) == None::<SkipView>);
    }
}

proof fn lemma_find_skip_empty(e: EntryView, s: Seq<SkipView>)
    requires
        s.len() == 0,
    ensures
        find_skip(e, s, 0) == None::<SkipView>,
{
}

/// Each offered child finds, among the skip nodes of its siblings, exactly
/// the node computed for it.
proof fn lemma_skip_lookup(files: Seq<EntryView>, lfiles: Seq<EntryView>, n: int)
    requires
        0 <= n <= files.len(),
        unique_names(files),
    ensures
        forall|k: int|
            0 <= k < files.len() ==> #[trigger] find_skip(
                files[k],
                skippable_upto(files, lfiles, n),
                0,
            ) == (if k < n {
                skippable_child(files[k], lfiles)
            } else {
                None
            }),
    decreases n,
{
    if n == 0 {
        assert forall|k: int| 0 <= k < files.len() implies #[trigger] find_skip(
            files[k],
            skippable_upto(files, lfiles, n),
            0,
        ) == None::<SkipView> by {
            lemma_find_skip_empty(files[k], skippable_upto(files, lfiles, n));
        }
    } else {
        lemma_skip_lookup(files, lfiles, n - 1);
        let prev = skippable_upto(files, lfiles, n - 1);
        let c = files[n - 1];
        match skippable_child(c, lfiles) {
            Some(s) => {
                let l = find_entry(c, lfiles, 0)->0;
                lemma_skippable_roots(c, l);
                assert(skippable_upto(files, lfiles, n) == prev.push(s));
                assert forall|k: int| 0 <= k < files.len() implies #[trigger] find_skip(
                    files[k],
                    skippable_upto(files, lfiles, n),
                    0,
                ) == (if k < n {
                    skippable_child(files[k], lfiles)
                } else {
                    None
                }) by {
                    lemma_find_skip_push(files[k], prev, s, 0);
                    assert(find_skip(files[k], prev, 0) == (if k < n - 1 {
                        skippable_child(files[k], lfiles)
                    } else {
                        None
                    }));
                    if k != n - 1 {
                        assert(files[k].name() != files[n - 1].name());
                        assert(!skip_for(files[k], s));
                    }
                }
            },
            None => {
                assert(skippable_upto(files, lfiles, n) == prev);
            },
        }
    }
}

// ---------------------------------------------------------------------------
// The whole plan

proof fn lemma_full_plan_upto_index(files: Seq<EntryView>, n: int)
    requires
        0 <= n <= files.len(),
    ensures
        full_plan_upto(files, n).len() == n,
        forall|i: int| 0 <= i < n ==> #[trigger] full_plan_upto(files, n)[i] == full_plan(files[i]),
    decreases n,
{
    if n > 0 {
        lemma_full_plan_upto_index(files, n - 1);
    }
}

/// The plan that sends a tree whole carries every byte of it, covers the
/// same entries, and skips nothing.
pub proof fn lemma_full_plan(o: EntryView)
    ensures
        full_plan(o).bytes() == o.total_size(),
        full_plan(o).entries() == o,
        full_plan(o).skips_nothing(),
    decreases o, 0int,
{
    match o {
        EntryView::File { .. } => {},
        EntryView::Dir { name, files } => {
            let fp = full_plan_upto(files, files.len() as int);
            lemma_full_plan_upto_index(files, files.len() as int);
            lemma_full_plan_prefix(files, fp, files.len() as int);
            assert(plan_entries_upto(fp, files.len() as int) =~= files);
        },
    }
}

proof fn lemma_full_plan_prefix(files: Seq<EntryView>, fp: Seq<PlanView>, k: int)
    requires
        0 <= k <= files.len(),
        fp == full_plan_upto(files, files.len() as int),
        fp.len() == files.len(),
        forall|i: int| 0 <= i < files.len() ==> #[trigger] fp[i] == full_plan(files[i]),
    ensures
        plan_bytes_upto(fp, k) == total_size_upto(files, k),
        plan_entries_upto(fp, k) == files.subrange(0, k),
        skips_nothing_upto(fp, k),
    decreases files, k,
{
    if k > 0 {
        lemma_full_plan_prefix(files, fp, k - 1);
        lemma_full_plan(files[k - 1]);
        assert(files.subrange(0, k) =~= files.subrange(0, k - 1).push(files[k - 1]));
    } else {
        assert(files.subrange(0, 0) =~= Seq::<EntryView>::empty());
    }
}

/// Without a skip tree the plan is the whole offered tree, every file from
/// its first byte.
pub proof fn lemma_plan_without_skip(o: EntryView)
    ensures
        plan_for(o, None) is Some,
        plan_for(o, None)->0.entries() == o,
        plan_for(o, None)->0.skips_nothing(),
        option_bytes(plan_for(o, None)) == o.total_size(),
{
    lemma_full_plan(o);
}

// ---------------------------------------------------------------------------
// Conservation of bytes

/// The plan derived from the skip tree carries exactly the offered bytes
/// minus the skipped ones, whatever exists locally.
pub proof fn lemma_plan_conserves_bytes(o: EntryView, l: EntryView)
    requires
        o.well_formed(),
    ensures
        option_bytes(plan_for(o, skippable(o, l))) == o.total_size() - option_skip(skippable(o, l)),
    decreases o, 0int,
{
    lemma_full_plan(o);
    match (o, l) {
        (EntryView::Dir { name, files }, EntryView::Dir { name: lname, files: lfiles }) => {
            if name == lname {
                let n = files.len() as int;
                let sk = skippable_upto(files, lfiles, n);
                lemma_skip_lookup(files, lfiles, n);
                lemma_conserve_prefix(files, lfiles, sk, n);
                if sk.len() != 0 {
                    let s = SkipView::Dir { name, files: sk };
                    assert(skippable(o, l) == Some(s));
                    let kids = remaining_upto(files, sk, n);
                    assert(remaining(o, s) == (if kids.len() == 0 {
                        None
                    } else {
                        Some(PlanView::Dir { name, files: kids })
                    }));
                }
            }
        },
        _ => {},
    }
}

proof fn lemma_conserve_prefix(
    files: Seq<EntryView>,
    lfiles: Seq<EntryView>,
    sk: Seq<SkipView>,
    k: int,
)
    requires
        0 <= k <= files.len(),
        unique_names(files),
        all_well_formed_upto(files, files.len() as int),
        sk == skippable_upto(files, lfiles, files.len() as int),
        forall|j: int|
            0 <= j < files.len() ==> #[trigger] find_skip(files[j], sk, 0) == skippable_child(
                files[j],
                lfiles,
            ),
    ensures
        plan_bytes_upto(remaining_upto(files, sk, k), remaining_upto(files, sk, k).len() as int)
            == total_size_upto(files, k) - total_skip_upto(
            skippable_upto(files, lfiles, k),
            skippable_upto(files, lfiles, k).len() as int,
        ),
    decreases files, k,
{
    if k > 0 {
        lemma_conserve_prefix(files, lfiles, sk, k - 1);
        let c = files[k - 1];
        let r = remaining_upto(files, sk, k - 1);
        let s = skippable_upto(files, lfiles, k - 1);
        lemma_well_formed_at(files, files.len() as int, k - 1);
        assert(find_skip(c, sk, 0) == skippable_child(c, lfiles));
        match skippable_child(c, lfiles) {
            Some(x) => {
                let l = find_entry(c, lfiles, 0)->0;
                lemma_plan_conserves_bytes(c, l);
                assert(remaining_child(c, sk) == remaining(c, x));
                lemma_total_skip_push(s, x);
                match remaining(c, x) {
                    Some(p) => {
                        lemma_plan_bytes_push(r, p);
                    },
                    None => {},
                }
            },
            None => {
                lemma_full_plan(c);
                lemma_plan_bytes_push(r, full_plan(c));
            },
        }
    }
}

// ---------------------------------------------------------------------------
// Boundary cases

/// With an empty local directory of the same name nothing can be skipped.
pub proof fn lemma_empty_local_skips_nothing(o: EntryView)
    ensures
        skippable(o, EntryView::Dir { name: o.name(), files: Seq::empty() }) == None::<SkipView>,
{
    match o {
        EntryView::Dir { name, files } => {
            lemma_nothing_found_upto(files, files.len() as int);
        },
        _ => {},
    }
}

proof fn lemma_nothing_found_upto(files: Seq<EntryView>, n: int)
    requires
        0 <= n <= files.len(),
    ensures
        skippable_upto(files, Seq::empty(), n).len() == 0,
    decreases n,
{
    if n > 0 {
        lemma_nothing_found_upto(files, n - 1);
        assert(find_entry(files[n - 1], Seq::<EntryView>::empty(), 0) == None::<EntryView>);
        assert(skippable_child(files[n - 1], Seq::<EntryView>::empty()) == None::<SkipView>);
    }
}

/// An offered entry and a local entry of the other kind skip nothing, and
/// the offered entry is then sent whole.
pub proof fn lemma_kind_mismatch_sends_whole(o: EntryView, l: EntryView)
    requires
        (o is File && l is Dir) || (o is Dir && l is File),
    ensures
        skippable(o, l) == None::<SkipView>,
        plan_for(o, skippable(o, l)) == Some(full_plan(o)),
        option_bytes(plan_for(o, skippable(o, l))) == o.total_size(),
{
    lemma_full_plan(o);
}

/// Inside matching directories, an offered file whose name belongs locally
/// to no file (only to a directory, or to nothing) gets no skip node, and the
/// plan sends it whole.
pub proof fn lemma_child_kind_mismatch_sends_whole(
    files: Seq<EntryView>,
    lfiles: Seq<EntryView>,
    k: int,
)
    requires
        unique_names(files),
        0 <= k < files.len(),
        files[k] is File,
        forall|j: int|
            0 <= j < lfiles.len() ==> !((#[trigger] lfiles[j]) is File && lfiles[j].name()
                == files[k].name()),
    ensures
        skippable_child(files[k], lfiles) == None::<SkipView>,
        remaining_child(files[k], skippable_upto(files, lfiles, files.len() as int)) == Some(
            full_plan(files[k]),
        ),
{
    assert forall|j: int| 0 <= j < lfiles.len() implies !same_entry(files[k], #[trigger] lfiles[j]) by {
        assert(!(lfiles[j] is File && lfiles[j].name() == files[k].name()));
    }
    lemma_find_entry_absent(files[k], lfiles, 0);
    lemma_skip_lookup(files, lfiles, files.len() as int);
}

/// Inside matching directories, an offered file whose local namesake is a
/// larger file gets no skip node, and the plan sends it whole from its first
/// byte.
pub proof fn lemma_child_larger_local_rewritten(
    files: Seq<EntryView>,
    lfiles: Seq<EntryView>,
    k: int,
)
    requires
        unique_names(files),
        0 <= k < files.len(),
        files[k] is File,
        find_entry(files[k], lfiles, 0) matches Some(l) && l is File && l->File_size
            > files[k]->File_size,
    ensures
        skippable_child(files[k], lfiles) == None::<SkipView>,
        remaining_child(files[k], skippable_upto(files, lfiles, files.len() as int)) == Some(
            full_plan(files[k]),
        ),
{
    lemma_skip_lookup(files, lfiles, files.len() as int);
}

proof fn lemma_find_entry_absent(e: EntryView, s: Seq<EntryView>, i: int)
    requires
        0 <= i,
        forall|j: int| 0 <= j < s.len() ==> !same_entry(e, #[trigger] s[j]),
    ensures
        find_entry(e, s, i) == None::<EntryView>,
    decreases s.len() - i,
{
    if i < s.len() {
        lemma_find_entry_absent(e, s, i + 1);
    }
}

/// Directory roots of different names, or roots of different kinds, cannot
/// be combined: `remove_skipped` does not accept them, and `plan_send`
/// rejects a skip tree holding them.
pub proof fn lemma_mismatched_roots_rejected(o: EntryView, s: SkipView)
    requires
        (o is Dir && s is Dir && o.name() != s.name()) || (o is File && s is Dir) || (o is Dir
            && s is File),
    ensures
        !roots_match(o, s),
{
}

/// A file whose skip covers its whole size is left out of the plan.
pub proof fn lemma_fully_skipped_file_dropped(name: Seq<char>, size: nat)
    ensures
        remaining(EntryView::File { name, size }, SkipView::File { name, skip: size }) == None::<
            PlanView,
        >,
{
}

/// An empty offered file with nothing skipped stays in the plan and
/// carries no bytes.
pub proof fn lemma_empty_file_planned(name: Seq<char>)
    ensures
        plan_for(EntryView::File { name, size: 0 }, None) == Some(
            PlanView::File { name, skip: 0, size: 0 },
        ),
        option_bytes(plan_for(EntryView::File { name, size: 0 }, None)) == 0,
{
}

/// A local file larger than the offered one asks to skip nothing: the file
/// is sent whole and rewritten from its first byte (the destination is not
/// truncated first).
pub proof fn lemma_larger_local_file_rewritten(name: Seq<char>, size: nat, local_size: nat)
    requires
        local_size > size,
    ensures
        skippable(EntryView::File { name, size }, EntryView::File { name, size: local_size })
            == None::<SkipView>,
        plan_for(
            EntryView::File { name, size },
            skippable(EntryView::File { name, size }, EntryView::File { name, size: local_size }),
        ) == Some(PlanView::File { name, skip: 0, size }),
{
}

} // verus!
