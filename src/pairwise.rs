//! The positional variant of the tree algebra: children of two directories
//! are paired by position rather than looked up by name.
use crate::model::{PlanView, SkipView};
use crate::protocol::ProtocolError;
use crate::tree::{lemma_plan_size_mono, lemma_skip_views, lemma_skip_views_push, skip_opt_view, skip_views, FilesToSkip};
use vstd::prelude::*;

verus! {

broadcast use vstd::seq::group_seq_axioms, vstd::std_specs::vec::group_vec_axioms;

/// A file or directory, with the prefix of each file that is already in place.
#[derive(Debug, PartialEq, Eq, Hash)]
pub enum FileRecvSendTree {
    File { name: String, skip: u64, size: u64 },
    Dir { name: String, files: Vec<FileRecvSendTree> },
}

pub open spec fn recv_views(s: Seq<FileRecvSendTree>, n: int) -> Seq<PlanView>
    decreases s, n,
{
    if 0 < n <= s.len() {
        recv_views(s, n - 1).push(s[n - 1].model())
    } else {
        Seq::empty()
    }
}

impl View for FileRecvSendTree {
    type V = PlanView;

    open spec fn view(&self) -> PlanView {
        self.model()
    }
}

impl FileRecvSendTree {
    /// The tree as a mathematical value.
    pub open spec fn model(&self) -> PlanView
        decreases self, 0int,
    {
        match self {
            FileRecvSendTree::File { name, skip, size } => PlanView::File {
                name: name@,
                skip: *skip as nat,
                size: *size as nat,
            },
            FileRecvSendTree::Dir { name, files } => PlanView::Dir {
                name: name@,
                files: recv_views(files@, files@.len() as int),
            },
        }
    }
}

/// View of an optional tree.
pub open spec fn recv_opt_view(o: Option<FileRecvSendTree>) -> Option<PlanView> {
    match o {
        Some(t) => Some(t@),
        None => None,
    }
}

pub proof fn lemma_recv_views(s: Seq<FileRecvSendTree>, n: int)
    requires
        0 <= n <= s.len(),
    ensures
        recv_views(s, n).len() == n,
        forall|i: int| 0 <= i < n ==> #[trigger] recv_views(s, n)[i] == s[i]@,
    decreases n,
{
    if n > 0 {
        lemma_recv_views(s, n - 1);
    }
}

proof fn lemma_recv_views_push(s: Seq<FileRecvSendTree>, x: FileRecvSendTree)
    ensures
        recv_views(s.push(x), s.len() + 1int) == recv_views(s, s.len() as int).push(x@),
{
    lemma_recv_views(s, s.len() as int);
    lemma_recv_views(s.push(x), s.len() + 1int);
    assert(recv_views(s.push(x), s.len() + 1int) =~= recv_views(s, s.len() as int).push(x@));
}

// ---------------------------------------------------------------------------
// Model

/// Skip tree from the local tree and the remote one, pairing children by
/// position. A local file of the same name skips its length when it is no
/// longer than the remote one; a directory of the same name yields a node
/// only when some child does.
pub open spec fn paired_skip(local: PlanView, remote: PlanView) -> Option<SkipView>
    decreases local, 0int,
{
    match (local, remote) {
        (
            PlanView::File { name: lname, size: lsize, .. },
            PlanView::File { name: rname, size: rsize, .. },
        ) => {
            if lname == rname && lsize <= rsize {
                Some(SkipView::File { name: rname, skip: lsize })
            } else {
                None
            }
        },
        (PlanView::Dir { name: lname, files: lfiles }, PlanView::Dir { name: rname, files: rfiles }) => {
            let kids = paired_skip_upto(
                lfiles,
                rfiles,
                if lfiles.len() <= rfiles.len() {
                    lfiles.len() as int
                } else {
                    rfiles.len() as int
                },
            );
            if lname == rname && kids.len() > 0 {
                Some(SkipView::Dir { name: rname, files: kids })
            } else {
                None
            }
        },
        _ => None,
    }
}

pub open spec fn paired_skip_upto(l: Seq<PlanView>, r: Seq<PlanView>, n: int) -> Seq<SkipView>
    decreases l, n,
{
    if 0 < n <= l.len() && n <= r.len() {
        let prev = paired_skip_upto(l, r, n - 1);
        match paired_skip(l[n - 1], r[n - 1]) {
            Some(s) => prev.push(s),
            None => prev,
        }
    } else {
        Seq::empty()
    }
}

/// The roots may be combined: same kind, and same name for directories.
pub open spec fn paired_roots_match(o: PlanView, s: SkipView) -> bool {
    match (o, s) {
        (PlanView::File { .. }, SkipView::File { .. }) => true,
        (PlanView::Dir { name, .. }, SkipView::Dir { name: sname, .. }) => name == sname,
        _ => false,
    }
}

/// The skip tree never has more children than the offered tree at the same
/// position, so that each skip node has an offered partner.
pub open spec fn paired_applicable(o: PlanView, s: SkipView) -> bool
    decreases o, 0int,
{
    match (o, s) {
        (PlanView::Dir { name, files }, SkipView::Dir { name: sname, files: sfiles }) => {
            name == sname ==> (sfiles.len() <= files.len() && paired_applicable_upto(
                files,
                sfiles,
                sfiles.len() as int,
            ))
        },
        _ => true,
    }
}

pub open spec fn paired_applicable_upto(o: Seq<PlanView>, s: Seq<SkipView>, n: int) -> bool
    decreases o, n,
{
    if 0 < n <= o.len() && n <= s.len() {
        paired_applicable_upto(o, s, n - 1) && paired_applicable(o[n - 1], s[n - 1])
    } else {
        true
    }
}

/// The offered tree with the skip tree applied, pairing children by position.
pub open spec fn paired_apply(o: PlanView, s: SkipView) -> Option<PlanView>
    decreases o, 0int,
{
    match (o, s) {
        (PlanView::File { name, size, .. }, SkipView::File { name: sname, skip }) => {
            if name == sname {
                if size != skip {
                    Some(PlanView::File { name, skip, size })
                } else {
                    None
                }
            } else {
                Some(PlanView::File { name, skip: 0, size })
            }
        },
        (PlanView::Dir { name, files }, SkipView::Dir { name: sname, files: sfiles }) => {
            if name == sname {
                let kids = paired_apply_upto(files, sfiles, files.len() as int);
                if kids.len() == 0 {
                    None
                } else {
                    Some(PlanView::Dir { name, files: kids })
                }
            } else {
                Some(o)
            }
        },
        _ => None,
    }
}

pub open spec fn paired_apply_upto(o: Seq<PlanView>, s: Seq<SkipView>, n: int) -> Seq<PlanView>
    decreases o, n,
{
    if 0 < n <= o.len() {
        let prev = paired_apply_upto(o, s, n - 1);
        if n <= s.len() {
            match paired_apply(o[n - 1], s[n - 1]) {
                Some(p) => prev.push(p),
                None => prev,
            }
        } else {
            prev.push(o[n - 1])
        }
    } else {
        Seq::empty()
    }
}

// ---------------------------------------------------------------------------
// Executable

impl FileRecvSendTree {
    /// Total size of the tree in bytes
    pub fn size(&self) -> (r: u64)
        requires
            self@.total_size() <= u64::MAX,
        ensures
            r == self@.total_size(),
        decreases self,
    {
        match self {
            FileRecvSendTree::File { size, .. } => *size,
            FileRecvSendTree::Dir { files, .. } => {
                let ghost fv = recv_views(files@, files@.len() as int);
                proof {
                    lemma_recv_views(files@, files@.len() as int);
                }
                let mut sum: u64 = 0;
                let mut i: usize = 0;
                while i < files.len()
                    invariant
                        i <= files.len(),
                        decreases_to!(*self => *files),
                        fv == recv_views(files@, files@.len() as int),
                        fv.len() == files.len(),
                        forall|k: int| 0 <= k < files.len() ==> #[trigger] fv[k] == files@[k]@,
                        crate::model::plan_size_upto(fv, files.len() as int) <= u64::MAX,
                        sum == crate::model::plan_size_upto(fv, i as int),
                    decreases files.len() - i,
                {
                    proof {
                        assert(decreases_to!(*files => files[i as int]));
                        lemma_plan_size_mono(fv, i + 1, files.len() as int);
                    }
                    let s = files[i].size();
                    sum = sum + s;
                    i += 1;
                }
                sum
            },
        }
    }

    /// Name of the file or directory
    pub fn name(&self) -> (r: String)
        ensures
            r@ == self@.name(),
    {
        match self {
            FileRecvSendTree::File { name, .. } => name.clone(),
            FileRecvSendTree::Dir { name, .. } => name.clone(),
        }
    }

    /// Bytes of the files already in place
    pub fn skip(&self) -> (r: u64)
        requires
            self@.total_skip() <= u64::MAX,
        ensures
            r == self@.total_skip(),
        decreases self,
    {
        match self {
            FileRecvSendTree::File { skip, .. } => *skip,
            FileRecvSendTree::Dir { files, .. } => {
                let ghost fv = recv_views(files@, files@.len() as int);
                proof {
                    lemma_recv_views(files@, files@.len() as int);
                }
                let mut sum: u64 = 0;
                let mut i: usize = 0;
                while i < files.len()
                    invariant
                        i <= files.len(),
                        decreases_to!(*self => *files),
                        fv == recv_views(files@, files@.len() as int),
                        fv.len() == files.len(),
                        forall|k: int| 0 <= k < files.len() ==> #[trigger] fv[k] == files@[k]@,
                        crate::model::plan_skip_upto(fv, files.len() as int) <= u64::MAX,
                        sum == crate::model::plan_skip_upto(fv, i as int),
                    decreases files.len() - i,
                {
                    proof {
                        assert(decreases_to!(*files => files[i as int]));
                        lemma_plan_size_mono(fv, i + 1, files.len() as int);
                    }
                    let s = files[i].skip();
                    sum = sum + s;
                    i += 1;
                }
                sum
            },
        }
    }

    /// A copy of the tree.
    pub fn duplicate(&self) -> (r: FileRecvSendTree)
        ensures
            r@ == self@,
        decreases self,
    {
        match self {
            FileRecvSendTree::File { name, skip, size } => FileRecvSendTree::File {
                name: name.clone(),
                skip: *skip,
                size: *size,
            },
            FileRecvSendTree::Dir { name, files } => {
                let mut out: Vec<FileRecvSendTree> = Vec::new();
                let mut i: usize = 0;
                proof {
                    lemma_recv_views(files@, files@.len() as int);
                }
                while i < files.len()
                    invariant
                        i <= files.len(),
                        decreases_to!(*self => *files),
                        recv_views(files@, files@.len() as int).len() == files.len(),
                        forall|k: int|
                            0 <= k < files.len() ==> #[trigger] recv_views(
                                files@,
                                files@.len() as int,
                            )[k] == files@[k]@,
                        out.len() == i,
                        forall|k: int| 0 <= k < i ==> #[trigger] out@[k]@ == files@[k]@,
                    decreases files.len() - i,
                {
                    proof {
                        assert(decreases_to!(*files => files[i as int]));
                    }
                    let t = files[i].duplicate();
                    out.push(t);
                    i += 1;
                }
                proof {
                    lemma_recv_views(out@, out@.len() as int);
                    assert(recv_views(out@, out@.len() as int) =~= recv_views(
                        files@,
                        files@.len() as int,
                    ));
                }
                FileRecvSendTree::Dir { name: name.clone(), files: out }
            },
        }
    }
}

/// Get a tree that represents the files that should be skipped (or
/// partially skipped); `None` means nothing is to be skipped.
pub fn get_files_to_skip_tree(local: &FileRecvSendTree, remote: &FileRecvSendTree) -> (r: Option<
    FilesToSkip,
>)
    ensures
        skip_opt_view(r) == paired_skip(local@, remote@),
    decreases local,
{
    match (local, remote) {
        (
            FileRecvSendTree::File { name: local_name, size: local_size, .. },
            FileRecvSendTree::File { name: remote_name, size: remote_size, .. },
        ) => {
            if !(*local_name == *remote_name) || *local_size > *remote_size {
                return None;
            }
            Some(FilesToSkip::File { name: remote_name.clone(), skip: *local_size })
        },
        (
            FileRecvSendTree::Dir { name: local_name, files: local_files },
            FileRecvSendTree::Dir { name: remote_name, files: remote_files },
        ) => {
            if *local_name == *remote_name {
                let ghost lv = recv_views(local_files@, local_files@.len() as int);
                let ghost rv = recv_views(remote_files@, remote_files@.len() as int);
                proof {
                    lemma_recv_views(local_files@, local_files@.len() as int);
                    lemma_recv_views(remote_files@, remote_files@.len() as int);
                }
                let mut files: Vec<FilesToSkip> = Vec::new();
                let mut i: usize = 0;
                while i < local_files.len() && i < remote_files.len()
                    invariant
                        i <= local_files.len(),
                        i <= remote_files.len(),
                        decreases_to!(*local => *local_files),
                        lv == recv_views(local_files@, local_files@.len() as int),
                        lv.len() == local_files.len(),
                        forall|k: int|
                            0 <= k < local_files.len() ==> #[trigger] lv[k] == local_files@[k]@,
                        rv == recv_views(remote_files@, remote_files@.len() as int),
                        rv.len() == remote_files.len(),
                        forall|k: int|
                            0 <= k < remote_files.len() ==> #[trigger] rv[k] == remote_files@[k]@,
                        skip_views(files@, files@.len() as int) == paired_skip_upto(
                            lv,
                            rv,
                            i as int,
                        ),
                    decreases local_files.len() - i,
                {
                    proof {
                        assert(decreases_to!(*local_files => local_files[i as int]));
                        assert(lv[i as int] == local_files@[i as int]@);
                        assert(rv[i as int] == remote_files@[i as int]@);
                    }
                    if let Some(file) = get_files_to_skip_tree(&local_files[i], &remote_files[i]) {
                        proof {
                            lemma_skip_views_push(files@, file);
                        }
                        files.push(file);
                    }
                    i += 1;
                }
                proof {
                    lemma_skip_views(files@, files@.len() as int);
                }
                if files.len() == 0 {
                    None
                } else {
                    Some(FilesToSkip::Dir { name: remote_name.clone(), files })
                }
            } else {
                None
            }
        },
        _ => None,
    }
}

/// Apply the skip tree to the offered tree and return what is left to
/// transfer; `None` means everything is skipped. Children are paired by
/// position; offered children without a partner are kept whole. The roots
/// must be of the same kind, and directories must have the same name.
pub fn apply_files_to_skip_tree(offered: &FileRecvSendTree, receiver_skipped: &FilesToSkip) -> (r:
    Option<FileRecvSendTree>)
    requires
        paired_roots_match(offered@, receiver_skipped@),
        paired_applicable(offered@, receiver_skipped@),
    ensures
        recv_opt_view(r) == paired_apply(offered@, receiver_skipped@),
{
    apply_paired(offered, receiver_skipped)
}

/// The skip tree applied below the roots, where a child whose partner has
/// another name is kept whole.
fn apply_paired(offered: &FileRecvSendTree, receiver_skipped: &FilesToSkip) -> (r:
    Option<FileRecvSendTree>)
    requires
        paired_applicable(offered@, receiver_skipped@),
    ensures
        recv_opt_view(r) == paired_apply(offered@, receiver_skipped@),
    decreases offered,
{
    match (offered, receiver_skipped) {
        (
            FileRecvSendTree::File { name: local_name, size: local_size, .. },
            FilesToSkip::File { name: remote_name, skip },
        ) => {
            if *local_name == *remote_name {
                if *local_size != *skip {
                    Some(
                        FileRecvSendTree::File {
                            name: local_name.clone(),
                            skip: *skip,
                            size: *local_size,
                        },
                    )
                } else {
                    None
                }
            } else {
                Some(FileRecvSendTree::File { name: local_name.clone(), skip: 0, size: *local_size })
            }
        },
        (
            FileRecvSendTree::Dir { name: local_name, files: local_files },
            FilesToSkip::Dir { name: remote_name, files: remote_files },
        ) => {
            if *local_name == *remote_name {
                let ghost ov = recv_views(local_files@, local_files@.len() as int);
                let ghost sv = skip_views(remote_files@, remote_files@.len() as int);
                proof {
                    lemma_recv_views(local_files@, local_files@.len() as int);
                    lemma_skip_views(remote_files@, remote_files@.len() as int);
                }
                let mut files: Vec<FileRecvSendTree> = Vec::new();
                let mut i: usize = 0;
                while i < local_files.len()
                    invariant
                        i <= local_files.len(),
                        remote_files.len() <= local_files.len(),
                        decreases_to!(*offered => *local_files),
                        ov == recv_views(local_files@, local_files@.len() as int),
                        ov.len() == local_files.len(),
                        forall|k: int|
                            0 <= k < local_files.len() ==> #[trigger] ov[k] == local_files@[k]@,
                        sv == skip_views(remote_files@, remote_files@.len() as int),
                        sv.len() == remote_files.len(),
                        forall|k: int|
                            0 <= k < remote_files.len() ==> #[trigger] sv[k] == remote_files@[k]@,
                        paired_applicable_upto(ov, sv, sv.len() as int),
                        recv_views(files@, files@.len() as int) == paired_apply_upto(
                            ov,
                            sv,
                            i as int,
                        ),
                    decreases local_files.len() - i,
                {
                    proof {
                        assert(decreases_to!(*local_files => local_files[i as int]));
                        assert(ov[i as int] == local_files@[i as int]@);
                    }
                    if i < remote_files.len() {
                        proof {
                            assert(sv[i as int] == remote_files@[i as int]@);
                            lemma_applicable_at(ov, sv, sv.len() as int, i as int);
                        }
                        if let Some(file) = apply_paired(
                            &local_files[i],
                            &remote_files[i],
                        ) {
                            proof {
                                lemma_recv_views_push(files@, file);
                            }
                            files.push(file);
                        }
                    } else {
                        let file = local_files[i].duplicate();
                        proof {
                            lemma_recv_views_push(files@, file);
                        }
                        files.push(file);
                    }
                    i += 1;
                }
                proof {
                    lemma_recv_views(files@, files@.len() as int);
                }
                if files.len() == 0 {
                    None
                } else {
                    Some(FileRecvSendTree::Dir { name: local_name.clone(), files })
                }
            } else {
                Some(offered.duplicate())
            }
        },
        _ => None,
    }
}

proof fn lemma_applicable_at(o: Seq<PlanView>, s: Seq<SkipView>, n: int, k: int)
    requires
        0 <= k < n <= s.len(),
        n <= o.len(),
        paired_applicable_upto(o, s, n),
    ensures
        paired_applicable(o[k], s[k]),
    decreases n,
{
    if k < n - 1 {
        lemma_applicable_at(o, s, n - 1, k);
    }
}

// ---------------------------------------------------------------------------
// Packets and planning of the positional protocol

/// All packets sent from the sender to the receiver
#[derive(Debug, PartialEq, Eq)]
pub enum Sender2Receiver {
    /// Initial connection request
    ConnRequest { version_num: String },
    /// The files the sender wants to send
    FileInfo { files: Vec<FileRecvSendTree> },
}

/// All packets sent from the receiver to the sender
#[derive(Debug, PartialEq, Eq)]
pub enum Receiver2Sender {
    /// The version number is wrong
    WrongVersion { expected: String },
    /// The connection request is accepted
    VersionOk,
    /// The files are rejected
    RejectFiles,
    /// The files are accepted; for each offered entry, what to skip
    AcceptFilesSkip { files: Vec<Option<FilesToSkip>> },
}

/// Whether the roots may be combined.
fn paired_roots_agree(offered: &FileRecvSendTree, skip: &FilesToSkip) -> (r: bool)
    ensures
        r == paired_roots_match(offered@, skip@),
{
    match (offered, skip) {
        (FileRecvSendTree::File { .. }, FilesToSkip::File { .. }) => true,
        (FileRecvSendTree::Dir { name, .. }, FilesToSkip::Dir { name: skip_name, .. }) => *name
            == *skip_name,
        _ => false,
    }
}

/// Whether the skip tree can be applied to the offered tree.
pub fn paired_applies(offered: &FileRecvSendTree, skip: &FilesToSkip) -> (r: bool)
    ensures
        r == paired_applicable(offered@, skip@),
    decreases offered,
{
    match (offered, skip) {
        (
            FileRecvSendTree::Dir { name, files },
            FilesToSkip::Dir { name: skip_name, files: skip_files },
        ) => {
            if !(*name == *skip_name) {
                return true;
            }
            let ghost ov = recv_views(files@, files@.len() as int);
            let ghost sv = skip_views(skip_files@, skip_files@.len() as int);
            proof {
                lemma_recv_views(files@, files@.len() as int);
                lemma_skip_views(skip_files@, skip_files@.len() as int);
            }
            if skip_files.len() > files.len() {
                return false;
            }
            let mut i: usize = 0;
            while i < skip_files.len()
                invariant
                    i <= skip_files.len(),
                    skip_files.len() <= files.len(),
                    decreases_to!(*offered => *files),
                    ov == recv_views(files@, files@.len() as int),
                    ov.len() == files.len(),
                    forall|k: int| 0 <= k < files.len() ==> #[trigger] ov[k] == files@[k]@,
                    sv == skip_views(skip_files@, skip_files@.len() as int),
                    sv.len() == skip_files.len(),
                    forall|k: int| 0 <= k < skip_files.len() ==> #[trigger] sv[k] == skip_files@[k]@,
                    paired_applicable_upto(ov, sv, i as int),
                    name@ == skip_name@,
                    offered@ == (PlanView::Dir { name: name@, files: ov }),
                    skip@ == (SkipView::Dir { name: skip_name@, files: sv }),
                decreases skip_files.len() - i,
            {
                proof {
                    assert(decreases_to!(*files => files[i as int]));
                    assert(ov[i as int] == files@[i as int]@);
                    assert(sv[i as int] == skip_files@[i as int]@);
                }
                if !paired_applies(&files[i], &skip_files[i]) {
                    proof {
                        lemma_applicable_upto_at_fails(ov, sv, sv.len() as int, i as int);
                    }
                    return false;
                }
                i += 1;
            }
            true
        },
        _ => true,
    }
}

proof fn lemma_applicable_upto_at_fails(o: Seq<PlanView>, s: Seq<SkipView>, n: int, k: int)
    requires
        0 <= k < n <= s.len(),
        n <= o.len(),
        !paired_applicable(o[k], s[k]),
    ensures
        !paired_applicable_upto(o, s, n),
    decreases n,
{
    if k < n - 1 {
        lemma_applicable_upto_at_fails(o, s, n - 1, k);
    }
}

/// The entry with the skip tree applied, or whole without one.
pub open spec fn paired_plan_for(o: PlanView, s: Option<SkipView>) -> Option<PlanView> {
    match s {
        Some(t) => paired_apply(o, t),
        None => Some(o),
    }
}

/// The skip trees can be applied: one per entry, each applicable.
pub open spec fn paired_line_up(offered: Seq<FileRecvSendTree>, to_skip: Seq<Option<FilesToSkip>>) -> bool {
    &&& to_skip.len() == offered.len()
    &&& forall|i: int|
        0 <= i < offered.len() && (#[trigger] to_skip[i]) is Some ==> paired_roots_match(
            offered[i]@,
            to_skip[i]->0@,
        ) && paired_applicable(offered[i]@, to_skip[i]->0@)
}

/// What travels on the payload stream for each offered entry. Fails,
/// without panicking, when a skip tree's root does not match its entry or
/// the skip tree cannot be applied.
pub fn plan_pairwise(offered: &Vec<FileRecvSendTree>, to_skip: &Vec<Option<FilesToSkip>>) -> (r: Result<
    Vec<Option<FileRecvSendTree>>,
    ProtocolError,
>)
    ensures
        r is Ok <==> paired_line_up(offered@, to_skip@),
        r is Err ==> r == Err::<Vec<Option<FileRecvSendTree>>, ProtocolError>(
            ProtocolError::SkipTreeMismatch,
        ),
        r is Ok ==> r->Ok_0.len() == offered.len() && forall|i: int|
            0 <= i < offered.len() ==> recv_opt_view(#[trigger] r->Ok_0@[i]) == paired_plan_for(
                offered@[i]@,
                skip_opt_view(to_skip@[i]),
            ),
{
    if to_skip.len() != offered.len() {
        return Err(ProtocolError::SkipTreeMismatch);
    }
    let mut out: Vec<Option<FileRecvSendTree>> = Vec::new();
    let mut i: usize = 0;
    while i < offered.len()
        invariant
            i <= offered.len(),
            to_skip.len() == offered.len(),
            out.len() == i,
            forall|k: int|
                0 <= k < i && (#[trigger] to_skip@[k]) is Some ==> paired_roots_match(
                    offered@[k]@,
                    to_skip@[k]->0@,
                ) && paired_applicable(offered@[k]@, to_skip@[k]->0@),
            forall|k: int|
                0 <= k < i ==> recv_opt_view(#[trigger] out@[k]) == paired_plan_for(
                    offered@[k]@,
                    skip_opt_view(to_skip@[k]),
                ),
        decreases offered.len() - i,
    {
        let plan = match &to_skip[i] {
            Some(s) => {
                if !paired_roots_agree(&offered[i], s) || !paired_applies(&offered[i], s) {
                    return Err(ProtocolError::SkipTreeMismatch);
                }
                apply_files_to_skip_tree(&offered[i], s)
            },
            None => Some(offered[i].duplicate()),
        };
        out.push(plan);
        i += 1;
    }
    Ok(out)
}

pub open spec fn opt_recv(o: Option<FileRecvSendTree>) -> Option<PlanView> {
    match o {
        Some(t) => Some(t@),
        None => None,
    }
}

/// The skip trees a receiver asks for: with `resume`, each offered entry is
/// paired with what exists locally under its name; without it nothing is
/// skipped.
pub fn skips_pairwise(offered: &Vec<FileRecvSendTree>, available: &Vec<Option<FileRecvSendTree>>, resume: bool) -> (r: Vec<Option<FilesToSkip>>)
    requires
        available.len() == offered.len(),
    ensures
        r.len() == offered.len(),
        forall|i: int|
            0 <= i < offered.len() ==> skip_opt_view(#[trigger] r@[i]) == (if resume {
                match opt_recv(available@[i]) {
                    Some(l) => paired_skip(l, offered@[i]@),
                    None => None,
                }
            } else {
                None
            }),
{
    let mut out: Vec<Option<FilesToSkip>> = Vec::new();
    let mut i: usize = 0;
    while i < offered.len()
        invariant
            i <= offered.len(),
            available.len() == offered.len(),
            out.len() == i,
            forall|k: int|
                0 <= k < i ==> skip_opt_view(#[trigger] out@[k]) == (if resume {
                    match opt_recv(available@[k]) {
                        Some(l) => paired_skip(l, offered@[k]@),
                        None => None,
                    }
                } else {
                    None
                }),
        decreases offered.len() - i,
    {
        let skip = if resume {
            match &available[i] {
                Some(local) => get_files_to_skip_tree(local, &offered[i]),
                None => None,
            }
        } else {
            None
        };
        out.push(skip);
        i += 1;
    }
    out
}

/// With an empty local directory of the same name, the positional pairing
/// finds nothing to skip.
pub proof fn lemma_paired_empty_local_skips_nothing(name: Seq<char>, remote: Seq<PlanView>)
    ensures
        paired_skip(
            PlanView::Dir { name, files: Seq::empty() },
            PlanView::Dir { name, files: remote },
        ) == None::<SkipView>,
{
}

/// A local file larger than the remote one of the same name skips nothing.
pub proof fn lemma_paired_larger_local_skips_nothing(name: Seq<char>, size: nat, local_size: nat)
    requires
        local_size > size,
    ensures
        forall|ls: nat, rs: nat|
            paired_skip(
                PlanView::File { name, skip: ls, size: local_size },
                PlanView::File { name, skip: rs, size },
            ) == None::<SkipView>,
{
}

} // verus!
