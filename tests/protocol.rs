use quic_send::protocol::{
    answer_conn_request, check_version_reply, initial_progress, plan_receive, plan_send,
    read_decision, read_offer, ProtocolError, ReceiverToSender, SaveMode, SenderToReceiver,
    QS_VERSION,
};
use quic_send::tree::{FileSendRecvTree, FilesAvailable, FilesToSkip};

fn file(name: &str, size: u64) -> FilesAvailable {
    FilesAvailable::File { name: name.to_string(), size }
}

#[test]
fn single_file_full_send() {
    let offered = vec![file("hello.txt", 13)];
    let plan = plan_receive(&offered, &vec![None], true);
    assert_eq!(plan.files_to_skip, vec![None]);
    let expected = FileSendRecvTree::File { name: "hello.txt".to_string(), skip: 0, size: 13 };
    assert_eq!(plan.to_receive, vec![Some(expected)]);
    let sent = plan_send(&offered, &plan.files_to_skip).unwrap();
    assert_eq!(sent, plan.to_receive);
    let t = sent[0].as_ref().unwrap();
    assert_eq!(t.size() - t.skip(), 13);
}

#[test]
fn resume_middle_of_file() {
    let offered = vec![file("big.bin", 100)];
    let plan = plan_receive(&offered, &vec![Some(file("big.bin", 40))], true);
    let skip = FilesToSkip::File { name: "big.bin".to_string(), skip: 40 };
    assert_eq!(plan.files_to_skip, vec![Some(skip)]);
    let t = plan.to_receive[0].as_ref().unwrap();
    assert_eq!(t, &FileSendRecvTree::File { name: "big.bin".to_string(), skip: 40, size: 100 });
    assert_eq!(t.size() - t.skip(), 60);
    let sent = plan_send(&offered, &plan.files_to_skip).unwrap();
    assert_eq!(sent, plan.to_receive);
    let progress = initial_progress(&offered, &plan.files_to_skip);
    assert_eq!(progress, vec![("big.bin".to_string(), 40, 100)]);
}

#[test]
fn overwrite_requests_no_skip() {
    let offered = vec![file("big.bin", 100)];
    let plan = plan_receive(&offered, &vec![Some(file("big.bin", 40))], false);
    assert_eq!(plan.files_to_skip, vec![None]);
    let whole = FileSendRecvTree::File { name: "big.bin".to_string(), skip: 0, size: 100 };
    assert_eq!(plan.to_receive, vec![Some(whole)]);
}

#[test]
fn fully_present_file_is_not_received() {
    let offered = vec![file("a", 7), file("b", 3)];
    let plan = plan_receive(&offered, &vec![Some(file("a", 7)), None], true);
    assert_eq!(plan.to_receive[0], None);
    assert!(plan.to_receive[1].is_some());
}

#[test]
fn reject_surfaces_as_error() {
    assert_eq!(read_decision(ReceiverToSender::RejectFiles), Err(ProtocolError::FilesRejected));
    assert_eq!(read_decision(ReceiverToSender::VersionOk), Err(ProtocolError::UnexpectedPacket));
    let accepted = read_decision(ReceiverToSender::AcceptFilesSkip { files: vec![None] });
    assert_eq!(accepted, Ok(vec![None]));
}

#[test]
fn version_mismatch_both_sides() {
    let request = SenderToReceiver::ConnRequest { version_num: "0.3.0".to_string() };
    let (reply, outcome) = answer_conn_request(&request, "0.4.0");
    assert_eq!(reply, Some(ReceiverToSender::WrongVersion { expected: "0.4.0".to_string() }));
    assert_eq!(
        outcome,
        Err(ProtocolError::WrongVersion { expected: "0.4.0".to_string(), got: "0.3.0".to_string() })
    );
    let seen = check_version_reply(reply.unwrap(), "0.3.0");
    assert_eq!(
        seen,
        Err(ProtocolError::WrongVersion { expected: "0.4.0".to_string(), got: "0.3.0".to_string() })
    );
}

#[test]
fn matching_version_is_accepted() {
    let request = SenderToReceiver::ConnRequest { version_num: QS_VERSION.to_string() };
    let (reply, outcome) = answer_conn_request(&request, QS_VERSION);
    assert_eq!(reply, Some(ReceiverToSender::VersionOk));
    assert_eq!(outcome, Ok(()));
    assert_eq!(check_version_reply(ReceiverToSender::VersionOk, QS_VERSION), Ok(()));
    assert_eq!(check_version_reply(ReceiverToSender::RejectFiles, QS_VERSION), Err(ProtocolError::UnexpectedPacket));
}

#[test]
fn offer_before_request_is_unexpected() {
    let offer = SenderToReceiver::FileInfo { files: vec![] };
    let (reply, outcome) = answer_conn_request(&offer, QS_VERSION);
    assert_eq!(reply, None);
    assert_eq!(outcome, Err(ProtocolError::UnexpectedPacket));
    let request = SenderToReceiver::ConnRequest { version_num: "x".to_string() };
    assert_eq!(read_offer(request), Err(ProtocolError::UnexpectedPacket));
    let offer = SenderToReceiver::FileInfo { files: vec![file("a", 1)] };
    assert_eq!(read_offer(offer), Ok(vec![file("a", 1)]));
}

#[test]
fn misaligned_skip_trees_fail() {
    let offered = vec![FilesAvailable::Dir { name: "root".to_string(), files: vec![] }];
    let wrong_root = vec![Some(FilesToSkip::Dir { name: "other".to_string(), files: vec![] })];
    assert_eq!(plan_send(&offered, &wrong_root), Err(ProtocolError::SkipTreeMismatch));
    let wrong_kind = vec![Some(FilesToSkip::File { name: "root".to_string(), skip: 0 })];
    assert_eq!(plan_send(&offered, &wrong_kind), Err(ProtocolError::SkipTreeMismatch));
    assert_eq!(plan_send(&offered, &vec![]), Err(ProtocolError::SkipTreeMismatch));
}

#[test]
fn save_mode_flags() {
    assert_eq!(SaveMode::from_flags(true, false, false), SaveMode::Overwrite);
    assert_eq!(SaveMode::from_flags(false, true, false), SaveMode::Resume);
    assert_eq!(SaveMode::from_flags(false, false, true), SaveMode::PerFile);
    assert_eq!(SaveMode::from_flags(false, false, false), SaveMode::SkipIfNotExists);
    assert_eq!(SaveMode::from_flags(true, true, false), SaveMode::SkipIfNotExists);
}

#[test]
fn larger_local_file_requests_no_skip() {
    let offered = vec![file("big.bin", 100)];
    let plan = plan_receive(&offered, &vec![Some(file("big.bin", 150))], true);
    assert_eq!(plan.files_to_skip, vec![None]);
    let whole = FileSendRecvTree::File { name: "big.bin".to_string(), skip: 0, size: 100 };
    assert_eq!(plan.to_receive, vec![Some(whole)]);
}
