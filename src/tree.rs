//! The offered tree, the skip tree and the send plan, with the two
//! operations that relate them: `get_skippable` and `remove_skipped`.
use crate::model::{
    all_well_formed_upto, unique_names,
    find_entry, find_skip, lemma_find_skip_for, remaining_child, skippable_child, full_plan, full_plan_upto, plan_size_upto, plan_skip_upto, remaining,
    remaining_upto, roots_match, same_entry, skip_for, skippable, skippable_upto, total_size_upto,
    total_skip_upto, EntryView, PlanView, SkipView,
};
use vstd::prelude::*;

verus! {

broadcast use vstd::seq::group_seq_axioms, vstd::std_specs::vec::group_vec_axioms;

/// Tree structure that represents the files that are available (offered by
/// the sender, or present at the receiver).
#[derive(Debug, PartialEq, Eq, Hash)]
pub enum FilesAvailable {
    File { name: String, size: u64 },
    Dir { name: String, files: Vec<FilesAvailable> },
}

/// Tree structure that represents files that have been requested for skipping.
#[derive(Debug, PartialEq, Eq, Hash)]
pub enum FilesToSkip {
    File { name: String, skip: u64 },
    Dir { name: String, files: Vec<FilesToSkip> },
}

/// Tree structure that represents the files that are being sent/received.
#[derive(Debug, PartialEq, Eq, Hash)]
pub enum FileSendRecvTree {
    File { name: String, skip: u64, size: u64 },
    Dir { name: String, files: Vec<FileSendRecvTree> },
}

pub open spec fn avail_views(s: Seq<FilesAvailable>, n: int) -> Seq<EntryView>
    decreases s, n,
{
    if 0 < n <= s.len() {
        avail_views(s, n - 1).push(s[n - 1].model())
    } else {
        Seq::empty()
    }
}

pub open spec fn skip_views(s: Seq<FilesToSkip>, n: int) -> Seq<SkipView>
    decreases s, n,
{
    if 0 < n <= s.len() {
        skip_views(s, n - 1).push(s[n - 1].model())
    } else {
        Seq::empty()
    }
}

pub open spec fn plan_views(s: Seq<FileSendRecvTree>, n: int) -> Seq<PlanView>
    decreases s, n,
{
    if 0 < n <= s.len() {
        plan_views(s, n - 1).push(s[n - 1].model())
    } else {
        Seq::empty()
    }
}

impl View for FilesAvailable {
    type V = EntryView;

    open spec fn view(&self) -> EntryView {
        self.model()
    }
}

impl FilesAvailable {
    /// The tree as a mathematical value.
    pub open spec fn model(&self) -> EntryView
        decreases self, 0int,
    {
        match self {
            FilesAvailable::File { name, size } => EntryView::File { name: name@, size: *size as nat },
            FilesAvailable::Dir { name, files } => EntryView::Dir {
                name: name@,
                files: avail_views(files@, files@.len() as int),
            },
        }
    }
}

impl View for FilesToSkip {
    type V = SkipView;

    open spec fn view(&self) -> SkipView {
        self.model()
    }
}

impl FilesToSkip {
    /// The tree as a mathematical value.
    pub open spec fn model(&self) -> SkipView
        decreases self, 0int,
    {
        match self {
            FilesToSkip::File { name, skip } => SkipView::File { name: name@, skip: *skip as nat },
            FilesToSkip::Dir { name, files } => SkipView::Dir {
                name: name@,
                files: skip_views(files@, files@.len() as int),
            },
        }
    }
}

impl View for FileSendRecvTree {
    type V = PlanView;

    open spec fn view(&self) -> PlanView {
        self.model()
    }
}

impl FileSendRecvTree {
    /// The tree as a mathematical value.
    pub open spec fn model(&self) -> PlanView
        decreases self, 0int,
    {
        match self {
            FileSendRecvTree::File { name, skip, size } => PlanView::File {
                name: name@,
                skip: *skip as nat,
                size: *size as nat,
            },
            FileSendRecvTree::Dir { name, files } => PlanView::Dir {
                name: name@,
                files: plan_views(files@, files@.len() as int),
            },
        }
    }
}

/// View of an optional skip tree.
pub open spec fn skip_opt_view(o: Option<FilesToSkip>) -> Option<SkipView> {
    match o {
        Some(t) => Some(t@),
        None => None,
    }
}

/// View of an optional plan.
pub open spec fn plan_opt_view(o: Option<FileSendRecvTree>) -> Option<PlanView> {
    match o {
        Some(t) => Some(t@),
        None => None,
    }
}

pub proof fn lemma_avail_views(s: Seq<FilesAvailable>, n: int)
    requires
        0 <= n <= s.len(),
    ensures
        avail_views(s, n).len() == n,
        forall|i: int| 0 <= i < n ==> #[trigger] avail_views(s, n)[i] == s[i]@,
    decreases n,
{
    if n > 0 {
        lemma_avail_views(s, n - 1);
    }
}

pub proof fn lemma_skip_views(s: Seq<FilesToSkip>, n: int)
    requires
        0 <= n <= s.len(),
    ensures
        skip_views(s, n).len() == n,
        forall|i: int| 0 <= i < n ==> #[trigger] skip_views(s, n)[i] == s[i]@,
    decreases n,
{
    if n > 0 {
        lemma_skip_views(s, n - 1);
    }
}

pub proof fn lemma_plan_views(s: Seq<FileSendRecvTree>, n: int)
    requires
        0 <= n <= s.len(),
    ensures
        plan_views(s, n).len() == n,
        forall|i: int| 0 <= i < n ==> #[trigger] plan_views(s, n)[i] == s[i]@,
    decreases n,
{
    if n > 0 {
        lemma_plan_views(s, n - 1);
    }
}

pub proof fn lemma_skip_views_push(s: Seq<FilesToSkip>, x: FilesToSkip)
    ensures
        skip_views(s.push(x), s.len() + 1int) == skip_views(s, s.len() as int).push(x@),
{
    lemma_skip_views(s, s.len() as int);
    lemma_skip_views(s.push(x), s.len() + 1int);
    assert(skip_views(s.push(x), s.len() + 1int) =~= skip_views(s, s.len() as int).push(x@));
}

proof fn lemma_plan_views_push(s: Seq<FileSendRecvTree>, x: FileSendRecvTree)
    ensures
        plan_views(s.push(x), s.len() + 1int) == plan_views(s, s.len() as int).push(x@),
{
    lemma_plan_views(s, s.len() as int);
    lemma_plan_views(s.push(x), s.len() + 1int);
    assert(plan_views(s.push(x), s.len() + 1int) =~= plan_views(s, s.len() as int).push(x@));
}

proof fn lemma_total_size_mono(s: Seq<EntryView>, i: int, n: int)
    requires
        0 <= i <= n <= s.len(),
    ensures
        total_size_upto(s, i) <= total_size_upto(s, n),
    decreases n - i,
{
    if i < n {
        lemma_total_size_mono(s, i, n - 1);
    }
}

proof fn lemma_total_skip_mono(s: Seq<SkipView>, i: int, n: int)
    requires
        0 <= i <= n <= s.len(),
    ensures
        total_skip_upto(s, i) <= total_skip_upto(s, n),
    decreases n - i,
{
    if i < n {
        lemma_total_skip_mono(s, i, n - 1);
    }
}

pub proof fn lemma_plan_size_mono(s: Seq<PlanView>, i: int, n: int)
    requires
        0 <= i <= n <= s.len(),
    ensures
        plan_size_upto(s, i) <= plan_size_upto(s, n),
        plan_skip_upto(s, i) <= plan_skip_upto(s, n),
    decreases n - i,
{
    if i < n {
        lemma_plan_size_mono(s, i, n - 1);
    }
}

/// Same node: both files or both directories, with the same name.
fn same_available(a: &FilesAvailable, b: &FilesAvailable) -> (r: bool)
    ensures
        r == same_entry(a@, b@),
{
    match (a, b) {
        (FilesAvailable::File { name: x, .. }, FilesAvailable::File { name: y, .. }) => *x == *y,
        (FilesAvailable::Dir { name: x, .. }, FilesAvailable::Dir { name: y, .. }) => *x == *y,
        _ => false,
    }
}

/// The skip node stands for the entry: same kind and same name.
fn skip_stands_for(a: &FilesAvailable, b: &FilesToSkip) -> (r: bool)
    ensures
        r == skip_for(a@, b@),
{
    match (a, b) {
        (FilesAvailable::File { name: x, .. }, FilesToSkip::File { name: y, .. }) => *x == *y,
        (FilesAvailable::Dir { name: x, .. }, FilesToSkip::Dir { name: y, .. }) => *x == *y,
        _ => false,
    }
}

/// Position of the first entry of `s` that is the same node as `e`.
fn position_of_entry(e: &FilesAvailable, s: &Vec<FilesAvailable>) -> (r: Option<usize>)
    ensures
        match r {
            Some(j) => j < s.len() && find_entry(e@, avail_views(s@, s@.len() as int), 0) == Some(
                s@[j as int]@,
            ),
            None => find_entry(e@, avail_views(s@, s@.len() as int), 0) == None::<EntryView>,
        },
{
    let ghost sv = avail_views(s@, s@.len() as int);
    proof {
        lemma_avail_views(s@, s@.len() as int);
    }
    let mut j: usize = 0;
    while j < s.len()
        invariant
            j <= s.len(),
            sv == avail_views(s@, s@.len() as int),
            sv.len() == s.len(),
            forall|i: int| 0 <= i < s.len() ==> #[trigger] sv[i] == s@[i]@,
            find_entry(e@, sv, 0) == find_entry(e@, sv, j as int),
        decreases s.len() - j,
    {
        if same_available(e, &s[j]) {
            return Some(j);
        }
        j += 1;
    }
    None
}

/// Position of the first skip node of `s` that stands for `e`.
fn position_of_skip(e: &FilesAvailable, s: &Vec<FilesToSkip>) -> (r: Option<usize>)
    ensures
        match r {
            Some(j) => j < s.len() && find_skip(e@, skip_views(s@, s@.len() as int), 0) == Some(
                s@[j as int]@,
            ),
            None => find_skip(e@, skip_views(s@, s@.len() as int), 0) == None::<SkipView>,
        },
{
    let ghost sv = skip_views(s@, s@.len() as int);
    proof {
        lemma_skip_views(s@, s@.len() as int);
    }
    let mut j: usize = 0;
    while j < s.len()
        invariant
            j <= s.len(),
            sv == skip_views(s@, s@.len() as int),
            sv.len() == s.len(),
            forall|i: int| 0 <= i < s.len() ==> #[trigger] sv[i] == s@[i]@,
            find_skip(e@, sv, 0) == find_skip(e@, sv, j as int),
        decreases s.len() - j,
    {
        if skip_stands_for(e, &s[j]) {
            return Some(j);
        }
        j += 1;
    }
    None
}

impl FileSendRecvTree {
    /// Name of the file or directory
    pub fn name(&self) -> (r: &str)
        ensures
            r@ == self@.name(),
    {
        match self {
            FileSendRecvTree::File { name, .. } => name.as_str(),
            FileSendRecvTree::Dir { name, .. } => name.as_str(),
        }
    }

    /// Size of the tree in bytes
    pub fn size(&self) -> (r: u64)
        requires
            self@.total_size() <= u64::MAX,
        ensures
            r == self@.total_size(),
        decreases self,
    {
        match self {
            FileSendRecvTree::File { size, .. } => *size,
            FileSendRecvTree::Dir { files, .. } => {
                let ghost fv = plan_views(files@, files@.len() as int);
                proof {
                    lemma_plan_views(files@, files@.len() as int);
                }
                let mut sum: u64 = 0;
                let mut i: usize = 0;
                while i < files.len()
                    invariant
                        i <= files.len(),
                        decreases_to!(*self => *files),
                        fv == plan_views(files@, files@.len() as int),
                        fv.len() == files.len(),
                        forall|k: int| 0 <= k < files.len() ==> #[trigger] fv[k] == files@[k]@,
                        plan_size_upto(fv, files.len() as int) <= u64::MAX,
                        sum == plan_size_upto(fv, i as int),
                    decreases files.len() - i,
                {
                    proof {
                        lemma_plan_size_mono(fv, i + 1, files.len() as int);
                    }
                    proof {
                        assert(decreases_to!(*files => files[i as int]));
                    }
                    let s = files[i].size();
                    sum = sum + s;
                    i += 1;
                }
                sum
            },
        }
    }

    /// Number of bytes being partially skipped; fully skipped files are
    /// not part of this tree.
    pub fn skip(&self) -> (r: u64)
        requires
            self@.total_skip() <= u64::MAX,
        ensures
            r == self@.total_skip(),
        decreases self,
    {
        match self {
            FileSendRecvTree::File { skip, .. } => *skip,
            FileSendRecvTree::Dir { files, .. } => {
                let ghost fv = plan_views(files@, files@.len() as int);
                proof {
                    lemma_plan_views(files@, files@.len() as int);
                }
                let mut sum: u64 = 0;
                let mut i: usize = 0;
                while i < files.len()
                    invariant
                        i <= files.len(),
                        decreases_to!(*self => *files),
                        fv == plan_views(files@, files@.len() as int),
                        fv.len() == files.len(),
                        forall|k: int| 0 <= k < files.len() ==> #[trigger] fv[k] == files@[k]@,
                        plan_skip_upto(fv, files.len() as int) <= u64::MAX,
                        sum == plan_skip_upto(fv, i as int),
                    decreases files.len() - i,
                {
                    proof {
                        lemma_plan_size_mono(fv, i + 1, files.len() as int);
                    }
                    proof {
                        assert(decreases_to!(*files => files[i as int]));
                    }
                    let s = files[i].skip();
                    sum = sum + s;
                    i += 1;
                }
                sum
            },
        }
    }
}

impl FilesToSkip {
    /// Name of the file or directory
    pub fn name(&self) -> (r: &str)
        ensures
            r@ == self@.name(),
    {
        match self {
            FilesToSkip::File { name, .. } => name.as_str(),
            FilesToSkip::Dir { name, .. } => name.as_str(),
        }
    }

    /// Number of bytes being skipped, fully skipped files included.
    pub fn skip(&self) -> (r: u64)
        requires
            self@.total_skip() <= u64::MAX,
        ensures
            r == self@.total_skip(),
        decreases self,
    {
        match self {
            FilesToSkip::File { skip, .. } => *skip,
            FilesToSkip::Dir { files, .. } => {
                let ghost fv = skip_views(files@, files@.len() as int);
                proof {
                    lemma_skip_views(files@, files@.len() as int);
                }
                let mut sum: u64 = 0;
                let mut i: usize = 0;
                while i < files.len()
                    invariant
                        i <= files.len(),
                        decreases_to!(*self => *files),
                        fv == skip_views(files@, files@.len() as int),
                        fv.len() == files.len(),
                        forall|k: int| 0 <= k < files.len() ==> #[trigger] fv[k] == files@[k]@,
                        total_skip_upto(fv, files.len() as int) <= u64::MAX,
                        sum == total_skip_upto(fv, i as int),
                        self@.total_skip() == total_skip_upto(fv, files.len() as int),
                    decreases files.len() - i,
                {
                    proof {
                        lemma_total_skip_mono(fv, i + 1, files.len() as int);
                    }
                    proof {
                        assert(decreases_to!(*files => files[i as int]));
                    }
                    let s = files[i].skip();
                    sum = sum + s;
                    i += 1;
                }
                sum
            },
        }
    }
}

impl FilesToSkip {
    /// Number of bytes being skipped, or `None` when it does not fit in a u64.
    pub fn checked_skip(&self) -> (r: Option<u64>)
        ensures
            r == (if self@.total_skip() <= u64::MAX {
                Some(self@.total_skip() as u64)
            } else {
                None
            }),
        decreases self,
    {
        match self {
            FilesToSkip::File { skip, .. } => Some(*skip),
            FilesToSkip::Dir { files, .. } => {
                let ghost fv = skip_views(files@, files@.len() as int);
                proof {
                    lemma_skip_views(files@, files@.len() as int);
                }
                let mut sum: u64 = 0;
                let mut i: usize = 0;
                while i < files.len()
                    invariant
                        i <= files.len(),
                        decreases_to!(*self => *files),
                        fv == skip_views(files@, files@.len() as int),
                        fv.len() == files.len(),
                        forall|k: int| 0 <= k < files.len() ==> #[trigger] fv[k] == files@[k]@,
                        sum == total_skip_upto(fv, i as int),
                        self@.total_skip() == total_skip_upto(fv, files.len() as int),
                    decreases files.len() - i,
                {
                    proof {
                        assert(decreases_to!(*files => files[i as int]));
                        lemma_total_skip_mono(fv, i + 1, files.len() as int);
                    }
                    match files[i].checked_skip() {
                        Some(s) => match sum.checked_add(s) {
                            Some(t) => {
                                sum = t;
                            },
                            None => {
                                return None;
                            },
                        },
                        None => {
                            return None;
                        },
                    }
                    i += 1;
                }
                Some(sum)
            },
        }
    }
}

impl FilesAvailable {
    /// Size of the tree in bytes, or `None` when it does not fit in a u64.
    pub fn checked_size(&self) -> (r: Option<u64>)
        ensures
            r == (if self@.total_size() <= u64::MAX {
                Some(self@.total_size() as u64)
            } else {
                None
            }),
        decreases self,
    {
        match self {
            FilesAvailable::File { size, .. } => Some(*size),
            FilesAvailable::Dir { files, .. } => {
                let ghost fv = avail_views(files@, files@.len() as int);
                proof {
                    lemma_avail_views(files@, files@.len() as int);
                }
                let mut sum: u64 = 0;
                let mut i: usize = 0;
                while i < files.len()
                    invariant
                        i <= files.len(),
                        decreases_to!(*self => *files),
                        fv == avail_views(files@, files@.len() as int),
                        fv.len() == files.len(),
                        forall|k: int| 0 <= k < files.len() ==> #[trigger] fv[k] == files@[k]@,
                        sum == total_size_upto(fv, i as int),
                        self@.total_size() == total_size_upto(fv, files.len() as int),
                    decreases files.len() - i,
                {
                    proof {
                        assert(decreases_to!(*files => files[i as int]));
                        lemma_total_size_mono(fv, i + 1, files.len() as int);
                    }
                    match files[i].checked_size() {
                        Some(s) => match sum.checked_add(s) {
                            Some(t) => {
                                sum = t;
                            },
                            None => {
                                return None;
                            },
                        },
                        None => {
                            return None;
                        },
                    }
                    i += 1;
                }
                Some(sum)
            },
        }
    }
}

impl FilesAvailable {
    /// Whether sibling names are unique in every directory of the tree.
    pub fn has_unique_names(&self) -> (r: bool)
        ensures
            r == self@.well_formed(),
        decreases self,
    {
        match self {
            FilesAvailable::File { .. } => true,
            FilesAvailable::Dir { files, .. } => {
                let ghost fv = avail_views(files@, files@.len() as int);
                proof {
                    lemma_avail_views(files@, files@.len() as int);
                }
                let mut i: usize = 0;
                while i < files.len()
                    invariant
                        i <= files.len(),
                        decreases_to!(*self => *files),
                        fv == avail_views(files@, files@.len() as int),
                        fv.len() == files.len(),
                        forall|k: int| 0 <= k < files.len() ==> #[trigger] fv[k] == files@[k]@,
                        self@ == (EntryView::Dir { name: self@.name(), files: fv }),
                        forall|a: int, b: int|
                            0 <= a < i && 0 <= b < i && a != b ==> fv[a].name() != fv[b].name(),
                        all_well_formed_upto(fv, i as int),
                    decreases files.len() - i,
                {
                    proof {
                        assert(decreases_to!(*files => files[i as int]));
                    }
                    let mut j: usize = 0;
                    while j < i
                        invariant
                            j <= i < files.len(),
                            fv.len() == files.len(),
                            forall|k: int| 0 <= k < files.len() ==> #[trigger] fv[k] == files@[k]@,
                            forall|b: int| 0 <= b < j ==> fv[b].name() != fv[i as int].name(),
                            self@ == (EntryView::Dir { name: self@.name(), files: fv }),
                        decreases i - j,
                    {
                        if same_name(&files[j], &files[i]) {
                            proof {
                                lemma_not_unique(fv, j as int, i as int);
                            }
                            return false;
                        }
                        j += 1;
                    }
                    if !files[i].has_unique_names() {
                        proof {
                            lemma_not_all_well_formed(fv, files.len() as int, i as int);
                        }
                        return false;
                    }
                    i += 1;
                }
                true
            },
        }
    }
}

/// Both entries have the same name, whatever their kinds.
fn same_name(a: &FilesAvailable, b: &FilesAvailable) -> (r: bool)
    ensures
        r == (a@.name() == b@.name()),
{
    let x = match a {
        FilesAvailable::File { name, .. } => name,
        FilesAvailable::Dir { name, .. } => name,
    };
    let y = match b {
        FilesAvailable::File { name, .. } => name,
        FilesAvailable::Dir { name, .. } => name,
    };
    *x == *y
}

proof fn lemma_not_unique(s: Seq<EntryView>, a: int, b: int)
    requires
        0 <= a < b < s.len(),
        s[a].name() == s[b].name(),
    ensures
        !unique_names(s),
{
}

proof fn lemma_not_all_well_formed(s: Seq<EntryView>, n: int, k: int)
    requires
        0 <= k < n <= s.len(),
        !s[k].well_formed(),
    ensures
        !all_well_formed_upto(s, n),
    decreases n,
{
    if k < n - 1 {
        lemma_not_all_well_formed(s, n - 1, k);
    }
}

impl FilesAvailable {
    /// Name of the file or directory
    pub fn name(&self) -> (r: &str)
        ensures
            r@ == self@.name(),
    {
        match self {
            FilesAvailable::File { name, .. } => name.as_str(),
            FilesAvailable::Dir { name, .. } => name.as_str(),
        }
    }

    /// Size of the tree in bytes
    pub fn size(&self) -> (r: u64)
        requires
            self@.total_size() <= u64::MAX,
        ensures
            r == self@.total_size(),
        decreases self,
    {
        match self {
            FilesAvailable::File { size, .. } => *size,
            FilesAvailable::Dir { files, .. } => {
                let ghost fv = avail_views(files@, files@.len() as int);
                proof {
                    lemma_avail_views(files@, files@.len() as int);
                }
                let mut sum: u64 = 0;
                let mut i: usize = 0;
                while i < files.len()
                    invariant
                        i <= files.len(),
                        decreases_to!(*self => *files),
                        fv == avail_views(files@, files@.len() as int),
                        fv.len() == files.len(),
                        forall|k: int| 0 <= k < files.len() ==> #[trigger] fv[k] == files@[k]@,
                        total_size_upto(fv, files.len() as int) <= u64::MAX,
                        sum == total_size_upto(fv, i as int),
                        self@.total_size() == total_size_upto(fv, files.len() as int),
                    decreases files.len() - i,
                {
                    proof {
                        lemma_total_size_mono(fv, i + 1, files.len() as int);
                    }
                    proof {
                        assert(decreases_to!(*files => files[i as int]));
                    }
                    let s = files[i].size();
                    sum = sum + s;
                    i += 1;
                }
                sum
            },
        }
    }

    /// Convert the tree to a [FileSendRecvTree] that sends every byte.
    pub fn to_send_recv_tree(&self) -> (r: FileSendRecvTree)
        ensures
            r@ == full_plan(self@),
        decreases self,
    {
        match self {
            FilesAvailable::File { name, size } => FileSendRecvTree::File {
                name: name.clone(),
                skip: 0,
                size: *size,
            },
            FilesAvailable::Dir { name, files } => {
                let ghost fv = avail_views(files@, files@.len() as int);
                proof {
                    lemma_avail_views(files@, files@.len() as int);
                }
                let mut out: Vec<FileSendRecvTree> = Vec::new();
                let mut i: usize = 0;
                while i < files.len()
                    invariant
                        i <= files.len(),
                        decreases_to!(*self => *files),
                        fv == avail_views(files@, files@.len() as int),
                        fv.len() == files.len(),
                        forall|k: int| 0 <= k < files.len() ==> #[trigger] fv[k] == files@[k]@,
                        plan_views(out@, out@.len() as int) == full_plan_upto(fv, i as int),
                    decreases files.len() - i,
                {
                    proof {
                        assert(decreases_to!(*files => files[i as int]));
                    }
                    let t = files[i].to_send_recv_tree();
                    proof {
                        lemma_plan_views_push(out@, t);
                    }
                    out.push(t);
                    i += 1;
                }
                FileSendRecvTree::Dir { name: name.clone(), files: out }
            },
        }
    }

    /// Fully or partially remove skipped files from the tree.
    /// Returns `None` when the whole tree is skipped. The two roots must be
    /// of the same kind, and directories must have the same name.
    pub fn remove_skipped(&self, to_skip: &FilesToSkip) -> (r: Option<FileSendRecvTree>)
        requires
            roots_match(self@, to_skip@),
        ensures
            plan_opt_view(r) == remaining(self@, to_skip@),
        decreases self,
    {
        match (self, to_skip) {
            (FilesAvailable::File { name, size }, FilesToSkip::File { name: skip_name, skip }) => {
                if *name == *skip_name && *size <= *skip {
                    None
                } else {
                    Some(FileSendRecvTree::File { name: name.clone(), skip: *skip, size: *size })
                }
            },
            (FilesAvailable::Dir { name, files }, FilesToSkip::Dir { files: skip_files, .. }) => {
                let ghost fv = avail_views(files@, files@.len() as int);
                let ghost sv = skip_views(skip_files@, skip_files@.len() as int);
                proof {
                    lemma_avail_views(files@, files@.len() as int);
                    lemma_skip_views(skip_files@, skip_files@.len() as int);
                }
                let mut out: Vec<FileSendRecvTree> = Vec::new();
                let mut i: usize = 0;
                while i < files.len()
                    invariant
                        i <= files.len(),
                        decreases_to!(*self => *files),
                        fv == avail_views(files@, files@.len() as int),
                        fv.len() == files.len(),
                        forall|k: int| 0 <= k < files.len() ==> #[trigger] fv[k] == files@[k]@,
                        sv == skip_views(skip_files@, skip_files@.len() as int),
                        sv.len() == skip_files.len(),
                        forall|k: int|
                            0 <= k < skip_files.len() ==> #[trigger] sv[k] == skip_files@[k]@,
                        plan_views(out@, out@.len() as int) == remaining_upto(fv, sv, i as int),
                    decreases files.len() - i,
                {
                    proof {
                        assert(decreases_to!(*files => files[i as int]));
                    }
                    let file = &files[i];
                    let ghost prev = remaining_upto(fv, sv, i as int);
                    proof {
                        assert(fv[i as int] == file@);
                        assert(remaining_upto(fv, sv, i + 1) == match remaining_child(file@, sv) {
                            Some(p) => prev.push(p),
                            None => prev,
                        });
                    }
                    match position_of_skip(file, skip_files) {
                        Some(j) => {
                            proof {
                                lemma_find_skip_for(fv[i as int], sv, 0);
                            }
                            if let Some(t) = file.remove_skipped(&skip_files[j]) {
                                proof {
                                    lemma_plan_views_push(out@, t);
                                }
                                out.push(t);
                            }
                        },
                        None => {
                            let t = file.to_send_recv_tree();
                            proof {
                                lemma_plan_views_push(out@, t);
                            }
                            out.push(t);
                        },
                    }
                    i += 1;
                }
                proof {
                    lemma_plan_views(out@, out@.len() as int);
                }
                if out.len() == 0 {
                    None
                } else {
                    Some(FileSendRecvTree::Dir { name: name.clone(), files: out })
                }
            },
            _ => None,
        }
    }

    /// Compare the offered tree with what exists locally and return what
    /// can be skipped during the transfer; `None` when nothing can.
    /// Entries are matched by name and kind; a file and a directory of the
    /// same name skip nothing.
    pub fn get_skippable(&self, local_files: &FilesAvailable) -> (r: Option<FilesToSkip>)
        ensures
            skip_opt_view(r) == skippable(self@, local_files@),
        decreases self,
    {
        match (self, local_files) {
            (FilesAvailable::File { name, size }, FilesAvailable::File { name: local_name, size: local_size }) => {
                if *name == *local_name && *local_size <= *size {
                    Some(FilesToSkip::File { name: name.clone(), skip: *local_size })
                } else {
                    None
                }
            },
            (FilesAvailable::Dir { name, files }, FilesAvailable::Dir { name: local_name, files: local_files }) => {
                if !(*name == *local_name) {
                    return None;
                }
                let ghost fv = avail_views(files@, files@.len() as int);
                let ghost lv = avail_views(local_files@, local_files@.len() as int);
                proof {
                    lemma_avail_views(files@, files@.len() as int);
                    lemma_avail_views(local_files@, local_files@.len() as int);
                }
                let mut out: Vec<FilesToSkip> = Vec::new();
                let mut i: usize = 0;
                while i < files.len()
                    invariant
                        i <= files.len(),
                        decreases_to!(*self => *files),
                        fv == avail_views(files@, files@.len() as int),
                        fv.len() == files.len(),
                        forall|k: int| 0 <= k < files.len() ==> #[trigger] fv[k] == files@[k]@,
                        lv == avail_views(local_files@, local_files@.len() as int),
                        lv.len() == local_files.len(),
                        forall|k: int|
                            0 <= k < local_files.len() ==> #[trigger] lv[k] == local_files@[k]@,
                        skip_views(out@, out@.len() as int) == skippable_upto(fv, lv, i as int),
                    decreases files.len() - i,
                {
                    proof {
                        assert(decreases_to!(*files => files[i as int]));
                    }
                    let file = &files[i];
                    let ghost prev = skippable_upto(fv, lv, i as int);
                    proof {
                        assert(fv[i as int] == file@);
                        assert(skippable_upto(fv, lv, i + 1) == match skippable_child(file@, lv) {
                            Some(p) => prev.push(p),
                            None => prev,
                        });
                    }
                    if let Some(j) = position_of_entry(file, local_files) {
                        if let Some(t) = file.get_skippable(&local_files[j]) {
                            proof {
                                lemma_skip_views_push(out@, t);
                            }
                            out.push(t);
                        }
                    }
                    i += 1;
                }
                proof {
                    lemma_skip_views(out@, out@.len() as int);
                }
                if out.len() == 0 {
                    None
                } else {
                    Some(FilesToSkip::Dir { name: name.clone(), files: out })
                }
            },
            _ => None,
        }
    }
}

} // verus!
