//! Mathematical model of the three trees that a transfer works with: what
//! the sender offers, what the receiver asks to skip, and what is actually
//! streamed. The executable trees in `tree` are viewed as these values.
use vstd::prelude::*;

verus! {

broadcast use vstd::seq::group_seq_axioms;

/// An offered (or locally available) file or directory.
pub enum EntryView {
    File { name: Seq<char>, size: nat },
    Dir { name: Seq<char>, files: Seq<EntryView> },
}

/// What the receiver asks the sender to leave out.
pub enum SkipView {
    File { name: Seq<char>, skip: nat },
    Dir { name: Seq<char>, files: Seq<SkipView> },
}

/// What travels on the payload stream: `size - skip` bytes of each file.
pub enum PlanView {
    File { name: Seq<char>, skip: nat, size: nat },
    Dir { name: Seq<char>, files: Seq<PlanView> },
}

impl EntryView {
    pub open spec fn name(self) -> Seq<char> {
        match self {
            EntryView::File { name, .. } => name,
            EntryView::Dir { name, .. } => name,
        }
    }

    /// Sum of the sizes of all files in the tree.
    pub open spec fn total_size(self) -> nat
        decreases self, 0int,
    {
        match self {
            EntryView::File { size, .. } => size,
            EntryView::Dir { files, .. } => total_size_upto(files, files.len() as int),
        }
    }

    /// Sibling names are unique in every directory of the tree.
    pub open spec fn well_formed(self) -> bool
        decreases self, 0int,
    {
        match self {
            EntryView::File { .. } => true,
            EntryView::Dir { files, .. } => {
                &&& unique_names(files)
                &&& all_well_formed_upto(files, files.len() as int)
            }
        }
    }
}

pub open spec fn total_size_upto(s: Seq<EntryView>, n: int) -> nat
    decreases s, n,
{
    if 0 < n <= s.len() {
        total_size_upto(s, n - 1) + s[n - 1].total_size()
    } else {
        0
    }
}

pub open spec fn all_well_formed_upto(s: Seq<EntryView>, n: int) -> bool
    decreases s, n,
{
    if 0 < n <= s.len() {
        all_well_formed_upto(s, n - 1) && s[n - 1].well_formed()
    } else {
        true
    }
}

pub open spec fn unique_names(s: Seq<EntryView>) -> bool {
    forall|i: int, j: int|
        0 <= i < s.len() && 0 <= j < s.len() && i != j ==> s[i].name() != s[j].name()
}

impl SkipView {
    pub open spec fn name(self) -> Seq<char> {
        match self {
            SkipView::File { name, .. } => name,
            SkipView::Dir { name, .. } => name,
        }
    }

    /// Bytes skipped over the whole tree, fully skipped files included.
    pub open spec fn total_skip(self) -> nat
        decreases self, 0int,
    {
        match self {
            SkipView::File { skip, .. } => skip,
            SkipView::Dir { files, .. } => total_skip_upto(files, files.len() as int),
        }
    }
}

pub open spec fn total_skip_upto(s: Seq<SkipView>, n: int) -> nat
    decreases s, n,
{
    if 0 < n <= s.len() {
        total_skip_upto(s, n - 1) + s[n - 1].total_skip()
    } else {
        0
    }
}

/// Bytes skipped by an optional skip tree; none skips nothing.
pub open spec fn option_skip(s: Option<SkipView>) -> nat {
    match s {
        Some(t) => t.total_skip(),
        None => 0,
    }
}

impl PlanView {
    pub open spec fn name(self) -> Seq<char> {
        match self {
            PlanView::File { name, .. } => name,
            PlanView::Dir { name, .. } => name,
        }
    }

    /// Sum of the total lengths of the files in the plan.
    pub open spec fn total_size(self) -> nat
        decreases self, 0int,
    {
        match self {
            PlanView::File { size, .. } => size,
            PlanView::Dir { files, .. } => plan_size_upto(files, files.len() as int),
        }
    }

    /// Sum of the skipped prefixes of the files in the plan.
    pub open spec fn total_skip(self) -> nat
        decreases self, 0int,
    {
        match self {
            PlanView::File { skip, .. } => skip,
            PlanView::Dir { files, .. } => plan_skip_upto(files, files.len() as int),
        }
    }

    /// Bytes that the payload stream carries for this plan.
    pub open spec fn bytes(self) -> int
        decreases self, 0int,
    {
        match self {
            PlanView::File { skip, size, .. } => size - skip,
            PlanView::Dir { files, .. } => plan_bytes_upto(files, files.len() as int),
        }
    }

    /// The tree of entries that this plan covers, as the sender offered it.
    pub open spec fn entries(self) -> EntryView
        decreases self, 0int,
    {
        match self {
            PlanView::File { name, size, .. } => EntryView::File { name, size },
            PlanView::Dir { name, files } => EntryView::Dir {
                name,
                files: plan_entries_upto(files, files.len() as int),
            },
        }
    }

    /// Every file in the plan starts at byte zero.
    pub open spec fn skips_nothing(self) -> bool
        decreases self, 0int,
    {
        match self {
            PlanView::File { skip, .. } => skip == 0,
            PlanView::Dir { files, .. } => skips_nothing_upto(files, files.len() as int),
        }
    }
}

pub open spec fn plan_size_upto(s: Seq<PlanView>, n: int) -> nat
    decreases s, n,
{
    if 0 < n <= s.len() {
        plan_size_upto(s, n - 1) + s[n - 1].total_size()
    } else {
        0
    }
}

pub open spec fn plan_skip_upto(s: Seq<PlanView>, n: int) -> nat
    decreases s, n,
{
    if 0 < n <= s.len() {
        plan_skip_upto(s, n - 1) + s[n - 1].total_skip()
    } else {
        0
    }
}

pub open spec fn plan_bytes_upto(s: Seq<PlanView>, n: int) -> int
    decreases s, n,
{
    if 0 < n <= s.len() {
        plan_bytes_upto(s, n - 1) + s[n - 1].bytes()
    } else {
        0
    }
}

pub open spec fn plan_entries_upto(s: Seq<PlanView>, n: int) -> Seq<EntryView>
    decreases s, n,
{
    if 0 < n <= s.len() {
        plan_entries_upto(s, n - 1).push(s[n - 1].entries())
    } else {
        Seq::empty()
    }
}

pub open spec fn skips_nothing_upto(s: Seq<PlanView>, n: int) -> bool
    decreases s, n,
{
    if 0 < n <= s.len() {
        skips_nothing_upto(s, n - 1) && s[n - 1].skips_nothing()
    } else {
        true
    }
}

/// Bytes streamed for an optional plan; none streams nothing.
pub open spec fn option_bytes(p: Option<PlanView>) -> int {
    match p {
        Some(t) => t.bytes(),
        None => 0,
    }
}

// ---------------------------------------------------------------------------
// Matching siblings by name and kind

/// Two entries are the same node when both are files, or both directories,
/// with the same name.
pub open spec fn same_entry(a: EntryView, b: EntryView) -> bool {
    match (a, b) {
        (EntryView::File { name: x, .. }, EntryView::File { name: y, .. }) => x == y,
        (EntryView::Dir { name: x, .. }, EntryView::Dir { name: y, .. }) => x == y,
        _ => false,
    }
}

/// A skip node stands for an entry when both are files, or both directories,
/// with the same name.
pub open spec fn skip_for(a: EntryView, b: SkipView) -> bool {
    match (a, b) {
        (EntryView::File { name: x, .. }, SkipView::File { name: y, .. }) => x == y,
        (EntryView::Dir { name: x, .. }, SkipView::Dir { name: y, .. }) => x == y,
        _ => false,
    }
}

/// First entry of `s`, from position `i` on, that is the same node as `e`.
pub open spec fn find_entry(e: EntryView, s: Seq<EntryView>, i: int) -> Option<EntryView>
    decreases s.len() - i,
{
    if 0 <= i < s.len() {
        if same_entry(e, s[i]) {
            Some(s[i])
        } else {
            find_entry(e, s, i + 1)
        }
    } else {
        None
    }
}

/// First skip node of `s`, from position `i` on, that stands for `e`.
pub open spec fn find_skip(e: EntryView, s: Seq<SkipView>, i: int) -> Option<SkipView>
    decreases s.len() - i,
{
    if 0 <= i < s.len() {
        if skip_for(e, s[i]) {
            Some(s[i])
        } else {
            find_skip(e, s, i + 1)
        }
    } else {
        None
    }
}

// ---------------------------------------------------------------------------
// The algebra

/// The skip tree for an offered tree, given what exists locally. A local
/// file of the same name skips its length when it is no longer than the
/// offered file; a longer one skips nothing, so the file is rewritten from
/// its first byte.
pub open spec fn skippable(o: EntryView, l: EntryView) -> Option<SkipView>
    decreases o, 0int,
{
    match (o, l) {
        (EntryView::File { name, size }, EntryView::File { name: lname, size: lsize }) => {
            if name == lname && lsize <= size {
                Some(SkipView::File { name, skip: lsize })
            } else {
                None
            }
        },
        (EntryView::Dir { name, files }, EntryView::Dir { name: lname, files: lfiles }) => {
            if name != lname {
                None
            } else {
                let kids = skippable_upto(files, lfiles, files.len() as int);
                if kids.len() == 0 {
                    None
                } else {
                    Some(SkipView::Dir { name, files: kids })
                }
            }
        },
        _ => None,
    }
}

/// The skip node for one offered child, looked up among the local siblings.
pub open spec fn skippable_child(c: EntryView, local: Seq<EntryView>) -> Option<SkipView>
    decreases c, 1int,
{
    match find_entry(c, local, 0) {
        Some(l) => skippable(c, l),
        None => None,
    }
}

/// Skip nodes of the first `n` offered children, in offer order.
pub open spec fn skippable_upto(files: Seq<EntryView>, local: Seq<EntryView>, n: int) -> Seq<
    SkipView,
>
    decreases files, n,
{
    if 0 < n <= files.len() {
        let prev = skippable_upto(files, local, n - 1);
        match skippable_child(files[n - 1], local) {
            Some(s) => prev.push(s),
            None => prev,
        }
    } else {
        Seq::empty()
    }
}

/// The plan that sends an offered tree whole.
pub open spec fn full_plan(o: EntryView) -> PlanView
    decreases o, 0int,
{
    match o {
        EntryView::File { name, size } => PlanView::File { name, skip: 0, size },
        EntryView::Dir { name, files } => PlanView::Dir {
            name,
            files: full_plan_upto(files, files.len() as int),
        },
    }
}

pub open spec fn full_plan_upto(files: Seq<EntryView>, n: int) -> Seq<PlanView>
    decreases files, n,
{
    if 0 < n <= files.len() {
        full_plan_upto(files, n - 1).push(full_plan(files[n - 1]))
    } else {
        Seq::empty()
    }
}

/// The two roots may be combined: same kind, and same name for directories.
pub open spec fn roots_match(o: EntryView, s: SkipView) -> bool {
    match (o, s) {
        (EntryView::File { .. }, SkipView::File { .. }) => true,
        (EntryView::Dir { name, .. }, SkipView::Dir { name: sname, .. }) => name == sname,
        _ => false,
    }
}

/// The plan for an offered tree once the skip tree is taken off it.
pub open spec fn remaining(o: EntryView, s: SkipView) -> Option<PlanView>
    decreases o, 0int,
{
    match (o, s) {
        (EntryView::File { name, size }, SkipView::File { name: sname, skip }) => {
            if name == sname && size <= skip {
                None
            } else {
                Some(PlanView::File { name, skip, size })
            }
        },
        (EntryView::Dir { name, files }, SkipView::Dir { files: sfiles, .. }) => {
            let kids = remaining_upto(files, sfiles, files.len() as int);
            if kids.len() == 0 {
                None
            } else {
                Some(PlanView::Dir { name, files: kids })
            }
        },
        _ => None,
    }
}

/// The plan for one offered child: cut by its skip node if it has one,
/// whole otherwise.
pub open spec fn remaining_child(c: EntryView, sk: Seq<SkipView>) -> Option<PlanView>
    decreases c, 1int,
{
    match find_skip(c, sk, 0) {
        Some(s) => remaining(c, s),
        None => Some(full_plan(c)),
    }
}

pub open spec fn remaining_upto(files: Seq<EntryView>, sk: Seq<SkipView>, n: int) -> Seq<PlanView>
    decreases files, n,
{
    if 0 < n <= files.len() {
        let prev = remaining_upto(files, sk, n - 1);
        match remaining_child(files[n - 1], sk) {
            Some(p) => prev.push(p),
            None => prev,
        }
    } else {
        Seq::empty()
    }
}

/// The plan for an offered tree and the optional skip tree the receiver sent.
pub open spec fn plan_for(o: EntryView, s: Option<SkipView>) -> Option<PlanView> {
    match s {
        Some(t) => remaining(o, t),
        None => Some(full_plan(o)),
    }
}

// ---------------------------------------------------------------------------
// Lookup facts

pub proof fn lemma_find_skip_for(e: EntryView, s: Seq<SkipView>, i: int)
    requires
        find_skip(e, s, i) is Some,
    ensures
        skip_for(e, find_skip(e, s, i)->0),
        roots_match(e, find_skip(e, s, i)->0),
    decreases s.len() - i,
{
    if 0 <= i < s.len() && !skip_for(e, s[i]) {
        lemma_find_skip_for(e, s, i + 1);
    }
}

/// A skip tree computed for an entry may be taken off that entry.
pub proof fn lemma_skippable_roots(o: EntryView, l: EntryView)
    requires
        skippable(o, l) is Some,
    ensures
        roots_match(o, skippable(o, l)->0),
        skip_for(o, skippable(o, l)->0),
{
}

} // verus!
