//! The payload stream as a flat list of steps: the send plan walked depth
//! first, in pre-order. Both peers walk the same plan, so the byte ranges
//! line up without any delimiter on the stream.
use crate::model::PlanView;
use crate::tree::{lemma_plan_views, plan_opt_view, plan_views, FileSendRecvTree};
use vstd::prelude::*;

verus! {

broadcast use vstd::seq::group_seq_axioms, vstd::std_specs::vec::group_vec_axioms;

/// Size of the buffer used when streaming file contents.
pub const BUF_SIZE: usize = 8192;

/// One step of the payload walk.
pub enum StepView {
    Dir { root: nat, path: Seq<Seq<char>> },
    File { root: nat, path: Seq<Seq<char>>, skip: nat, size: nat },
}

/// One step of the payload walk. `root` is the position of the top-level
/// entry the step belongs to; `path` names the entry from that top-level
/// entry down, its first element being the top-level name.
#[derive(Debug, PartialEq, Eq)]
pub enum PayloadStep {
    /// Make sure the directory exists
    Dir { root: usize, path: Vec<String> },
    /// Bytes `skip..size` of the file travel on the stream
    File { root: usize, path: Vec<String>, skip: u64, size: u64 },
}

pub open spec fn names_view(v: Seq<String>) -> Seq<Seq<char>> {
    Seq::new(v.len(), |i: int| v[i]@)
}

impl View for PayloadStep {
    type V = StepView;

    open spec fn view(&self) -> StepView {
        match self {
            PayloadStep::Dir { root, path } => StepView::Dir {
                root: *root as nat,
                path: names_view(path@),
            },
            PayloadStep::File { root, path, skip, size } => StepView::File {
                root: *root as nat,
                path: names_view(path@),
                skip: *skip as nat,
                size: *size as nat,
            },
        }
    }
}

pub open spec fn steps_view(s: Seq<PayloadStep>) -> Seq<StepView> {
    Seq::new(s.len(), |i: int| s[i]@)
}

/// The steps for one plan, below the names in `prefix`.
pub open spec fn plan_steps(p: PlanView, root: nat, prefix: Seq<Seq<char>>) -> Seq<StepView>
    decreases p, 0int,
{
    match p {
        PlanView::File { name, skip, size } => seq![
            StepView::File { root, path: prefix.push(name), skip, size },
        ],
        PlanView::Dir { name, files } => seq![StepView::Dir { root, path: prefix.push(name) }]
            + steps_upto(files, root, prefix.push(name), files.len() as int),
    }
}

pub open spec fn steps_upto(s: Seq<PlanView>, root: nat, prefix: Seq<Seq<char>>, n: int) -> Seq<
    StepView,
>
    decreases s, n,
{
    if 0 < n <= s.len() {
        steps_upto(s, root, prefix, n - 1) + plan_steps(s[n - 1], root, prefix)
    } else {
        Seq::empty()
    }
}

/// The steps for the plans of all top-level entries, in order; an entry
/// with nothing to transfer has no steps.
pub open spec fn all_steps(plans: Seq<Option<PlanView>>, n: int) -> Seq<StepView>
    decreases n,
{
    if 0 < n <= plans.len() {
        all_steps(plans, n - 1) + match plans[n - 1] {
            Some(p) => plan_steps(p, (n - 1) as nat, Seq::empty()),
            None => Seq::empty(),
        }
    } else {
        Seq::empty()
    }
}

/// Bytes carried by the file steps.
pub open spec fn step_bytes(s: Seq<StepView>) -> int
    decreases s.len(),
{
    if s.len() == 0 {
        0
    } else {
        step_bytes(s.drop_last()) + match s.last() {
            StepView::File { skip, size, .. } => size - skip,
            StepView::Dir { .. } => 0,
        }
    }
}

fn copy_names(v: &Vec<String>) -> (r: Vec<String>)
    ensures
        names_view(r@) == names_view(v@),
{
    let mut out: Vec<String> = Vec::new();
    let mut i: usize = 0;
    while i < v.len()
        invariant
            i <= v.len(),
            out.len() == i,
            forall|k: int| 0 <= k < i ==> #[trigger] out@[k]@ == v@[k]@,
        decreases v.len() - i,
    {
        out.push(v[i].clone());
        i += 1;
    }
    assert(names_view(out@) =~= names_view(v@));
    out
}

fn extended(prefix: &Vec<String>, name: &String) -> (r: Vec<String>)
    ensures
        names_view(r@) == names_view(prefix@).push(name@),
{
    let mut out = copy_names(prefix);
    let ghost before = out@;
    out.push(name.clone());
    assert(names_view(out@) =~= names_view(before).push(name@));
    out
}

proof fn lemma_steps_view_push(s: Seq<PayloadStep>, x: PayloadStep)
    ensures
        steps_view(s.push(x)) == steps_view(s).push(x@),
{
    assert(steps_view(s.push(x)) =~= steps_view(s).push(x@));
}

/// Appends the steps of `t`, below `prefix`, to `out`.
fn push_steps(t: &FileSendRecvTree, root: usize, prefix: &Vec<String>, out: &mut Vec<PayloadStep>)
    ensures
        steps_view(final(out)@) == steps_view(old(out)@) + plan_steps(
            t@,
            root as nat,
            names_view(prefix@),
        ),
    decreases t,
{
    let ghost start = steps_view(out@);
    match t {
        FileSendRecvTree::File { name, skip, size } => {
            let path = extended(prefix, name);
            let step = PayloadStep::File { root, path, skip: *skip, size: *size };
            proof {
                lemma_steps_view_push(out@, step);
            }
            out.push(step);
            assert(steps_view(out@) =~= start + plan_steps(t@, root as nat, names_view(prefix@)));
        },
        FileSendRecvTree::Dir { name, files } => {
            let path = extended(prefix, name);
            let step = PayloadStep::Dir { root, path: copy_names(&path) };
            proof {
                lemma_steps_view_push(out@, step);
            }
            out.push(step);
            let ghost fv = plan_views(files@, files@.len() as int);
            let ghost below = names_view(path@);
            proof {
                lemma_plan_views(files@, files@.len() as int);
                assert(steps_view(out@) =~= start + seq![
                    StepView::Dir { root: root as nat, path: below },
                ] + steps_upto(fv, root as nat, below, 0));
            }
            let mut i: usize = 0;
            while i < files.len()
                invariant
                    i <= files.len(),
                    decreases_to!(*t => *files),
                    fv == plan_views(files@, files@.len() as int),
                    fv.len() == files.len(),
                    forall|k: int| 0 <= k < files.len() ==> #[trigger] fv[k] == files@[k]@,
                    below == names_view(path@),
                    steps_view(out@) == start + seq![
                        StepView::Dir { root: root as nat, path: below },
                    ] + steps_upto(fv, root as nat, below, i as int),
                decreases files.len() - i,
            {
                proof {
                    assert(decreases_to!(*files => files[i as int]));
                    assert(fv[i as int] == files@[i as int]@);
                }
                push_steps(&files[i], root, &path, out);
                i += 1;
                proof {
                    assert(steps_upto(fv, root as nat, below, i as int) == steps_upto(
                        fv,
                        root as nat,
                        below,
                        i - 1,
                    ) + plan_steps(fv[i - 1], root as nat, below));
                    assert(steps_view(out@) =~= start + seq![
                        StepView::Dir { root: root as nat, path: below },
                    ] + steps_upto(fv, root as nat, below, i as int));
                }
            }
            assert(steps_view(out@) =~= start + plan_steps(t@, root as nat, names_view(prefix@)));
        },
    }
}

/// View of a list of optional plans.
pub open spec fn plans_view(v: Seq<Option<FileSendRecvTree>>) -> Seq<Option<PlanView>> {
    Seq::new(v.len(), |i: int| plan_opt_view(v[i]))
}

/// The steps of the payload walk for the plans of all top-level entries.
pub fn payload_steps(plans: &Vec<Option<FileSendRecvTree>>) -> (r: Vec<PayloadStep>)
    ensures
        steps_view(r@) == all_steps(plans_view(plans@), plans@.len() as int),
{
    let ghost pv = plans_view(plans@);
    let mut out: Vec<PayloadStep> = Vec::new();
    let empty: Vec<String> = Vec::new();
    let mut i: usize = 0;
    assert(steps_view(out@) =~= all_steps(pv, 0));
    while i < plans.len()
        invariant
            i <= plans.len(),
            pv == plans_view(plans@),
            empty@.len() == 0,
            steps_view(out@) == all_steps(pv, i as int),
        decreases plans.len() - i,
    {
        let ghost before = steps_view(out@);
        match &plans[i] {
            Some(t) => {
                assert(names_view(empty@) =~= Seq::<Seq<char>>::empty());
                push_steps(t, i, &empty, &mut out);
            },
            None => {},
        }
        i += 1;
        assert(steps_view(out@) =~= all_steps(pv, i as int));
    }
    out
}

/// Number of bytes to move in the next chunk of a file, `done` bytes of
/// `size` being through.
pub fn next_chunk_len(done: u64, size: u64) -> (r: usize)
    requires
        done < size,
    ensures
        r as int == if size - done < BUF_SIZE {
            size - done
        } else {
            BUF_SIZE as int
        },
        0 < r <= BUF_SIZE,
{
    let left = size - done;
    if left < BUF_SIZE as u64 {
        left as usize
    } else {
        BUF_SIZE
    }
}

// ---------------------------------------------------------------------------
// What the stream carries

proof fn lemma_step_bytes_concat(a: Seq<StepView>, b: Seq<StepView>)
    ensures
        step_bytes(a + b) == step_bytes(a) + step_bytes(b),
    decreases b.len(),
{
    if b.len() > 0 {
        lemma_step_bytes_concat(a, b.drop_last());
        assert((a + b).drop_last() =~= a + b.drop_last());
    } else {
        assert(a + b =~= a);
    }
}

/// The walk of a plan carries exactly the plan's bytes.
pub proof fn lemma_steps_carry_plan(p: PlanView, root: nat, prefix: Seq<Seq<char>>)
    ensures
        step_bytes(plan_steps(p, root, prefix)) == p.bytes(),
    decreases p, 0int,
{
    match p {
        PlanView::File { name, skip, size } => {
            lemma_step_bytes_one(StepView::File { root, path: prefix.push(name), skip, size });
        },
        PlanView::Dir { name, files } => {
            let head = seq![StepView::Dir { root, path: prefix.push(name) }];
            lemma_step_bytes_one(head[0]);
            lemma_step_bytes_concat(
                head,
                steps_upto(files, root, prefix.push(name), files.len() as int),
            );
            lemma_steps_upto_carry(files, root, prefix.push(name), files.len() as int);
        },
    }
}

/// A single step carries the bytes of its file, or none for a directory.
proof fn lemma_step_bytes_one(x: StepView)
    ensures
        step_bytes(seq![x]) == match x {
            StepView::File { skip, size, .. } => size - skip,
            StepView::Dir { .. } => 0,
        },
{
    let s = seq![x];
    assert(s.drop_last() =~= Seq::<StepView>::empty());
    assert(step_bytes(s.drop_last()) == 0);
    assert(s.last() == x);
}

proof fn lemma_steps_upto_carry(s: Seq<PlanView>, root: nat, prefix: Seq<Seq<char>>, n: int)
    requires
        0 <= n <= s.len(),
    ensures
        step_bytes(steps_upto(s, root, prefix, n)) == crate::model::plan_bytes_upto(s, n),
    decreases s, n,
{
    if n > 0 {
        lemma_steps_upto_carry(s, root, prefix, n - 1);
        lemma_steps_carry_plan(s[n - 1], root, prefix);
        lemma_step_bytes_concat(
            steps_upto(s, root, prefix, n - 1),
            plan_steps(s[n - 1], root, prefix),
        );
    }
}

/// Bytes planned over all top-level entries.
pub open spec fn plans_bytes(plans: Seq<Option<PlanView>>, n: int) -> int
    decreases n,
{
    if 0 < n <= plans.len() {
        plans_bytes(plans, n - 1) + crate::model::option_bytes(plans[n - 1])
    } else {
        0
    }
}

/// The payload stream of a whole transfer carries exactly the planned bytes
/// of every top-level entry, in order, and nothing else.
pub proof fn lemma_stream_carries_plans(plans: Seq<Option<PlanView>>, n: int)
    requires
        0 <= n <= plans.len(),
    ensures
        step_bytes(all_steps(plans, n)) == plans_bytes(plans, n),
    decreases n,
{
    if n > 0 {
        lemma_stream_carries_plans(plans, n - 1);
        let tail = match plans[n - 1] {
            Some(p) => plan_steps(p, (n - 1) as nat, Seq::empty()),
            None => Seq::<StepView>::empty(),
        };
        lemma_step_bytes_concat(all_steps(plans, n - 1), tail);
        match plans[n - 1] {
            Some(p) => {
                lemma_steps_carry_plan(p, (n - 1) as nat, Seq::empty());
            },
            None => {
                assert(step_bytes(tail) == 0);
            },
        }
    }
}

} // verus!
