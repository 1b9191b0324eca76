use quic_send::pairwise::{plan_pairwise, skips_pairwise, FileRecvSendTree};
use quic_send::payload::{next_chunk_len, payload_steps, PayloadStep, BUF_SIZE};
use quic_send::protocol::ProtocolError;
use quic_send::tree::{FileSendRecvTree, FilesToSkip};

fn names(v: &[&str]) -> Vec<String> {
    v.iter().map(|s| s.to_string()).collect()
}

#[test]
fn steps_follow_plan_in_pre_order() {
    let plan = vec![
        Some(FileSendRecvTree::Dir {
            name: "root".to_string(),
            files: vec![FileSendRecvTree::Dir {
                name: "dir1".to_string(),
                files: vec![
                    FileSendRecvTree::File { name: "file2".to_string(), skip: 15, size: 20 },
                    FileSendRecvTree::File { name: "file3".to_string(), skip: 0, size: 30 },
                ],
            }],
        }),
        None,
        Some(FileSendRecvTree::File { name: "hello.txt".to_string(), skip: 0, size: 13 }),
    ];
    let steps = payload_steps(&plan);
    assert_eq!(
        steps,
        vec![
            PayloadStep::Dir { root: 0, path: names(&["root"]) },
            PayloadStep::Dir { root: 0, path: names(&["root", "dir1"]) },
            PayloadStep::File { root: 0, path: names(&["root", "dir1", "file2"]), skip: 15, size: 20 },
            PayloadStep::File { root: 0, path: names(&["root", "dir1", "file3"]), skip: 0, size: 30 },
            PayloadStep::File { root: 2, path: names(&["hello.txt"]), skip: 0, size: 13 },
        ]
    );
    let bytes: u64 = steps
        .iter()
        .map(|s| match s {
            PayloadStep::File { skip, size, .. } => size - skip,
            PayloadStep::Dir { .. } => 0,
        })
        .sum();
    assert_eq!(bytes, 35 + 13);
}

#[test]
fn empty_file_has_a_step_with_no_bytes() {
    let plan = vec![Some(FileSendRecvTree::File { name: "empty".to_string(), skip: 0, size: 0 })];
    let steps = payload_steps(&plan);
    assert_eq!(steps, vec![PayloadStep::File { root: 0, path: names(&["empty"]), skip: 0, size: 0 }]);
}

#[test]
fn chunk_lengths() {
    assert_eq!(next_chunk_len(0, 13), 13);
    assert_eq!(next_chunk_len(0, 100_000), BUF_SIZE);
    assert_eq!(next_chunk_len(40, 100), 60);
    assert_eq!(next_chunk_len(8192, 8193), 1);
}

#[test]
fn pairwise_planning() {
    let offered = vec![
        FileRecvSendTree::File { name: "a".to_string(), skip: 0, size: 10 },
        FileRecvSendTree::File { name: "b".to_string(), skip: 0, size: 8 },
    ];
    let available = vec![Some(FileRecvSendTree::File { name: "a".to_string(), skip: 0, size: 4 }), None];
    let skips = skips_pairwise(&offered, &available, true);
    assert_eq!(skips, vec![Some(FilesToSkip::File { name: "a".to_string(), skip: 4 }), None]);
    assert_eq!(skips_pairwise(&offered, &available, false), vec![None, None]);
    let plan = plan_pairwise(&offered, &skips).unwrap();
    assert_eq!(
        plan,
        vec![
            Some(FileRecvSendTree::File { name: "a".to_string(), skip: 4, size: 10 }),
            Some(FileRecvSendTree::File { name: "b".to_string(), skip: 0, size: 8 }),
        ]
    );
}

#[test]
fn pairwise_planning_rejects_overlong_skip() {
    let offered = vec![FileRecvSendTree::Dir { name: "d".to_string(), files: vec![] }];
    let skips = vec![Some(FilesToSkip::Dir {
        name: "d".to_string(),
        files: vec![FilesToSkip::File { name: "x".to_string(), skip: 1 }],
    })];
    assert_eq!(plan_pairwise(&offered, &skips), Err(ProtocolError::SkipTreeMismatch));
    assert_eq!(plan_pairwise(&offered, &vec![]), Err(ProtocolError::SkipTreeMismatch));
}

#[test]
fn empty_offer_plans_nothing() {
    let offered: Vec<quic_send::tree::FilesAvailable> = vec![];
    let plan = quic_send::protocol::plan_receive(&offered, &vec![], true);
    assert!(plan.files_to_skip.is_empty());
    assert!(plan.to_receive.is_empty());
    assert_eq!(quic_send::protocol::plan_send(&offered, &vec![]), Ok(vec![]));
    assert!(payload_steps(&plan.to_receive).is_empty());
}
