//! The messages that two peers exchange, and the decisions each side takes
//! on them: the version handshake, the offer, the verdict and the plan of
//! what the payload stream carries.
use crate::model::{option_skip, plan_for, roots_match, skippable, EntryView, SkipView};
use crate::tree::{plan_opt_view, skip_opt_view, FileSendRecvTree, FilesAvailable, FilesToSkip};
use vstd::prelude::*;

verus! {

/// Version of the peer protocol; peers must agree on it byte for byte.
pub const QS_VERSION: &'static str = "0.4.0";

/// All packets sent from the sender to the receiver
#[derive(Debug, PartialEq, Eq)]
pub enum SenderToReceiver {
    /// Initial connection request
    ConnRequest { version_num: String },
    /// The files the sender wants to send
    FileInfo { files: Vec<FilesAvailable> },
}

/// All packets sent from the receiver to the sender
#[derive(Debug, PartialEq, Eq)]
pub enum ReceiverToSender {
    /// The version number is wrong
    WrongVersion { expected: String },
    /// The connection request is accepted
    VersionOk,
    /// The files are rejected
    RejectFiles,
    /// The files are accepted; for each offered entry, what to skip
    AcceptFilesSkip { files: Vec<Option<FilesToSkip>> },
}

/// Why a transfer stops at the protocol level.
#[derive(Debug, PartialEq, Eq)]
pub enum ProtocolError {
    /// The peers speak different versions
    WrongVersion { expected: String, got: String },
    /// A packet arrived that the current step does not expect
    UnexpectedPacket,
    /// The receiver rejected the files
    FilesRejected,
    /// The skip trees do not line up with the offered entries
    SkipTreeMismatch,
}

/// Arguments for the sender
pub struct SenderArgs {
    /// Files and directories to send
    pub files: Vec<String>,
}

/// Arguments for the receiver
pub struct ReceiverArgs {
    /// Resume interrupted transfers
    pub resume: bool,
}

/// How a receiver treats files that already exist.
#[derive(Debug, Clone, Copy, PartialEq, Eq, Structural)]
pub enum SaveMode {
    /// If the file already exists, skip it
    SkipIfNotExists,
    /// Overwrite files
    Overwrite,
    /// Resume a download
    Resume,
    /// Ask for each file
    PerFile,
}

impl SaveMode {
    /// Exactly one flag picks its mode; anything else keeps existing files.
    pub fn from_flags(overwrite: bool, append: bool, per_file: bool) -> (r: SaveMode)
        ensures
            r == (if overwrite && !append && !per_file {
                SaveMode::Overwrite
            } else if !overwrite && append && !per_file {
                SaveMode::Resume
            } else if !overwrite && !append && per_file {
                SaveMode::PerFile
            } else {
                SaveMode::SkipIfNotExists
            }),
    {
        match (overwrite, append, per_file) {
            (true, false, false) => SaveMode::Overwrite,
            (false, true, false) => SaveMode::Resume,
            (false, false, true) => SaveMode::PerFile,
            _ => SaveMode::SkipIfNotExists,
        }
    }
}

fn copy_string(s: &String) -> (r: String)
    ensures
        r@ == s@,
{
    s.clone()
}

// ---------------------------------------------------------------------------
// Receiver side

/// The receiver's answer to the first packet: the reply to send, if any, and
/// whether the transfer goes on. Versions must be equal byte for byte.
pub fn answer_conn_request(packet: &SenderToReceiver, ours: &str) -> (r: (
    Option<ReceiverToSender>,
    Result<(), ProtocolError>,
))
    ensures
        match packet {
            SenderToReceiver::ConnRequest { version_num } => if version_num@ == ours@ {
                r.0 matches Some(ReceiverToSender::VersionOk) && r.1 is Ok
            } else {
                &&& r.0 matches Some(ReceiverToSender::WrongVersion { expected })
                    && expected@ == ours@
                &&& r.1 matches Err(ProtocolError::WrongVersion { expected, got }) && expected@
                    == ours@ && got@ == version_num@
            },
            SenderToReceiver::FileInfo { .. } => r.0 is None && r.1 == Err::<(), ProtocolError>(
                ProtocolError::UnexpectedPacket,
            ),
        },
{
    match packet {
        SenderToReceiver::ConnRequest { version_num } => {
            let ours_owned = ours.to_string();
            if *version_num == ours_owned {
                (Some(ReceiverToSender::VersionOk), Ok(()))
            } else {
                (
                    Some(ReceiverToSender::WrongVersion { expected: ours.to_string() }),
                    Err(
                        ProtocolError::WrongVersion {
                            expected: ours.to_string(),
                            got: copy_string(version_num),
                        },
                    ),
                )
            }
        },
        SenderToReceiver::FileInfo { .. } => (None, Err(ProtocolError::UnexpectedPacket)),
    }
}

/// The offered entries, from the packet that should carry them.
pub fn read_offer(packet: SenderToReceiver) -> (r: Result<Vec<FilesAvailable>, ProtocolError>)
    ensures
        match packet {
            SenderToReceiver::FileInfo { files } => r == Ok::<Vec<FilesAvailable>, ProtocolError>(
                files,
            ),
            SenderToReceiver::ConnRequest { .. } => r == Err::<Vec<FilesAvailable>, ProtocolError>(
                ProtocolError::UnexpectedPacket,
            ),
        },
{
    match packet {
        SenderToReceiver::FileInfo { files } => Ok(files),
        SenderToReceiver::ConnRequest { .. } => Err(ProtocolError::UnexpectedPacket),
    }
}

/// The skip tree the receiver asks for, for one offered entry.
pub open spec fn requested_skip(o: EntryView, local: Option<EntryView>, resume: bool) -> Option<
    SkipView,
> {
    if resume {
        match local {
            Some(l) => skippable(o, l),
            None => None,
        }
    } else {
        None
    }
}

pub open spec fn opt_entry(o: Option<FilesAvailable>) -> Option<EntryView> {
    match o {
        Some(t) => Some(t@),
        None => None,
    }
}

/// What the receiver sends back and what it then expects on the payload
/// stream, one element per offered entry.
pub struct ReceivePlan {
    /// Skip trees to send back in the acceptance
    pub files_to_skip: Vec<Option<FilesToSkip>>,
    /// What arrives on the payload stream for each offered entry
    pub to_receive: Vec<Option<FileSendRecvTree>>,
}

/// Plans a reception. `available[i]` is what exists locally under the name of
/// `offered[i]`. With `resume` each entry skips what exists locally;
/// without it nothing is skipped.
pub fn plan_receive(offered: &Vec<FilesAvailable>, available: &Vec<Option<FilesAvailable>>, resume: bool) -> (r: ReceivePlan)
    requires
        available.len() == offered.len(),
    ensures
        r.files_to_skip.len() == offered.len(),
        r.to_receive.len() == offered.len(),
        forall|i: int|
            0 <= i < offered.len() ==> skip_opt_view(#[trigger] r.files_to_skip@[i])
                == requested_skip(offered@[i]@, opt_entry(available@[i]), resume),
        forall|i: int|
            0 <= i < offered.len() ==> plan_opt_view(#[trigger] r.to_receive@[i]) == plan_for(
                offered@[i]@,
                skip_opt_view(r.files_to_skip@[i]),
            ),
{
    let mut files_to_skip: Vec<Option<FilesToSkip>> = Vec::new();
    let mut to_receive: Vec<Option<FileSendRecvTree>> = Vec::new();
    let mut i: usize = 0;
    while i < offered.len()
        invariant
            i <= offered.len(),
            available.len() == offered.len(),
            files_to_skip.len() == i,
            to_receive.len() == i,
            forall|k: int|
                0 <= k < i ==> skip_opt_view(#[trigger] files_to_skip@[k]) == requested_skip(
                    offered@[k]@,
                    opt_entry(available@[k]),
                    resume,
                ),
            forall|k: int|
                0 <= k < i ==> plan_opt_view(#[trigger] to_receive@[k]) == plan_for(
                    offered@[k]@,
                    skip_opt_view(files_to_skip@[k]),
                ),
        decreases offered.len() - i,
    {
        let o = &offered[i];
        let skip: Option<FilesToSkip> = if resume {
            match &available[i] {
                Some(local) => o.get_skippable(local),
                None => None,
            }
        } else {
            None
        };
        let plan = match &skip {
            Some(s) => {
                proof {
                    if let Some(l) = opt_entry(available@[i as int]) {
                        crate::model::lemma_skippable_roots(o@, l);
                    }
                }
                o.remove_skipped(s)
            },
            None => Some(o.to_send_recv_tree()),
        };
        files_to_skip.push(skip);
        to_receive.push(plan);
        i += 1;
    }
    ReceivePlan { files_to_skip, to_receive }
}

// ---------------------------------------------------------------------------
// Sender side

/// The sender's reading of the reply to its connection request.
pub fn check_version_reply(reply: ReceiverToSender, ours: &str) -> (r: Result<(), ProtocolError>)
    ensures
        match reply {
            ReceiverToSender::VersionOk => r is Ok,
            ReceiverToSender::WrongVersion { expected } => r matches Err(
                ProtocolError::WrongVersion { expected: e, got },
            ) && e@ == expected@ && got@ == ours@,
            _ => r == Err::<(), ProtocolError>(ProtocolError::UnexpectedPacket),
        },
{
    match reply {
        ReceiverToSender::VersionOk => Ok(()),
        ReceiverToSender::WrongVersion { expected } => Err(
            ProtocolError::WrongVersion { expected, got: ours.to_string() },
        ),
        _ => Err(ProtocolError::UnexpectedPacket),
    }
}

/// The sender's reading of the receiver's verdict on the offer.
pub fn read_decision(reply: ReceiverToSender) -> (r: Result<Vec<Option<FilesToSkip>>, ProtocolError>)
    ensures
        match reply {
            ReceiverToSender::AcceptFilesSkip { files } => r == Ok::<
                Vec<Option<FilesToSkip>>,
                ProtocolError,
            >(files),
            ReceiverToSender::RejectFiles => r == Err::<Vec<Option<FilesToSkip>>, ProtocolError>(
                ProtocolError::FilesRejected,
            ),
            _ => r == Err::<Vec<Option<FilesToSkip>>, ProtocolError>(
                ProtocolError::UnexpectedPacket,
            ),
        },
{
    match reply {
        ReceiverToSender::AcceptFilesSkip { files } => Ok(files),
        ReceiverToSender::RejectFiles => Err(ProtocolError::FilesRejected),
        _ => Err(ProtocolError::UnexpectedPacket),
    }
}

/// The skip trees line up with the offered entries: one per entry, and each
/// present one has a root that matches its entry.
pub open spec fn skips_line_up(offered: Seq<FilesAvailable>, to_skip: Seq<Option<FilesToSkip>>) -> bool {
    &&& to_skip.len() == offered.len()
    &&& forall|i: int|
        0 <= i < offered.len() && (#[trigger] to_skip[i]) is Some ==> roots_match(
            offered[i]@,
            to_skip[i]->0@,
        )
}

/// The plan of what the sender streams. Fails, without panicking, when the
/// skip trees sent by the receiver do not line up with the offer.
pub fn plan_send(offered: &Vec<FilesAvailable>, to_skip: &Vec<Option<FilesToSkip>>) -> (r: Result<
    Vec<Option<FileSendRecvTree>>,
    ProtocolError,
>)
    ensures
        r is Ok <==> skips_line_up(offered@, to_skip@),
        r is Err ==> r == Err::<Vec<Option<FileSendRecvTree>>, ProtocolError>(
            ProtocolError::SkipTreeMismatch,
        ),
        r is Ok ==> r->Ok_0.len() == offered.len() && forall|i: int|
            0 <= i < offered.len() ==> plan_opt_view(#[trigger] r->Ok_0@[i]) == plan_for(
                offered@[i]@,
                skip_opt_view(to_skip@[i]),
            ),
{
    if to_skip.len() != offered.len() {
        return Err(ProtocolError::SkipTreeMismatch);
    }
    let mut out: Vec<Option<FileSendRecvTree>> = Vec::new();
    let mut i: usize = 0;
    while i < offered.len()
        invariant
            i <= offered.len(),
            to_skip.len() == offered.len(),
            out.len() == i,
            forall|k: int|
                0 <= k < i && (#[trigger] to_skip@[k]) is Some ==> roots_match(
                    offered@[k]@,
                    to_skip@[k]->0@,
                ),
            forall|k: int|
                0 <= k < i ==> plan_opt_view(#[trigger] out@[k]) == plan_for(
                    offered@[k]@,
                    skip_opt_view(to_skip@[k]),
                ),
        decreases offered.len() - i,
    {
        let plan = match &to_skip[i] {
            Some(s) => {
                if !roots_agree(&offered[i], s) {
                    return Err(ProtocolError::SkipTreeMismatch);
                }
                offered[i].remove_skipped(s)
            },
            None => Some(offered[i].to_send_recv_tree()),
        };
        out.push(plan);
        i += 1;
    }
    Ok(out)
}

/// The two roots may be combined.
fn roots_agree(o: &FilesAvailable, s: &FilesToSkip) -> (r: bool)
    ensures
        r == roots_match(o@, s@),
{
    match (o, s) {
        (FilesAvailable::File { .. }, FilesToSkip::File { .. }) => true,
        (FilesAvailable::Dir { name, .. }, FilesToSkip::Dir { name: skip_name, .. }) => *name
            == *skip_name,
        _ => false,
    }
}

/// One row of initial progress: name, bytes already in place, total bytes.
pub fn initial_progress(offered: &Vec<FilesAvailable>, to_skip: &Vec<Option<FilesToSkip>>) -> (r: Vec<
    (String, u64, u64),
>)
    requires
        to_skip.len() == offered.len(),
        forall|i: int| 0 <= i < offered.len() ==> (#[trigger] offered@[i])@.total_size() <= u64::MAX,
        forall|i: int|
            0 <= i < offered.len() ==> option_skip(skip_opt_view(#[trigger] to_skip@[i]))
                <= u64::MAX,
    ensures
        r.len() == offered.len(),
        forall|i: int|
            0 <= i < offered.len() ==> {
                &&& (#[trigger] r@[i]).0@ == offered@[i]@.name()
                &&& r@[i].1 == option_skip(skip_opt_view(to_skip@[i]))
                &&& r@[i].2 == offered@[i]@.total_size()
            },
{
    let mut out: Vec<(String, u64, u64)> = Vec::new();
    let mut i: usize = 0;
    while i < offered.len()
        invariant
            i <= offered.len(),
            to_skip.len() == offered.len(),
            forall|i: int|
                0 <= i < offered.len() ==> (#[trigger] offered@[i])@.total_size() <= u64::MAX,
            forall|i: int|
                0 <= i < offered.len() ==> option_skip(skip_opt_view(#[trigger] to_skip@[i]))
                    <= u64::MAX,
            out.len() == i,
            forall|k: int|
                0 <= k < i ==> {
                    &&& (#[trigger] out@[k]).0@ == offered@[k]@.name()
                    &&& out@[k].1 == option_skip(skip_opt_view(to_skip@[k]))
                    &&& out@[k].2 == offered@[k]@.total_size()
                },
        decreases offered.len() - i,
    {
        let o = &offered[i];
        let skipped: u64 = match &to_skip[i] {
            Some(s) => s.skip(),
            None => 0,
        };
        let row = (o.name().to_string(), skipped, o.size());
        out.push(row);
        i += 1;
    }
    out
}

/// The skip trees that a receiver plans always line up with the offer, so
/// the sender accepts them and plans, entry by entry, the same stream as
/// the receiver expects.
pub proof fn lemma_peers_agree(
    offered: Seq<FilesAvailable>,
    available: Seq<Option<FilesAvailable>>,
    resume: bool,
    to_skip: Seq<Option<FilesToSkip>>,
)
    requires
        available.len() == offered.len(),
        to_skip.len() == offered.len(),
        forall|i: int|
            0 <= i < offered.len() ==> skip_opt_view(#[trigger] to_skip[i]) == requested_skip(
                offered[i]@,
                opt_entry(available[i]),
                resume,
            ),
    ensures
        skips_line_up(offered, to_skip),
{
    assert forall|i: int| 0 <= i < offered.len() && (#[trigger] to_skip[i]) is Some implies roots_match(
        offered[i]@,
        to_skip[i]->0@,
    ) by {
        assert(skip_opt_view(to_skip[i]) == requested_skip(offered[i]@, opt_entry(available[i]), resume));
        crate::model::lemma_skippable_roots(offered[i]@, opt_entry(available[i])->0);
    }
}

} // verus!
