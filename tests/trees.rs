use quic_send::pairwise::{apply_files_to_skip_tree, get_files_to_skip_tree, plan_pairwise, FileRecvSendTree};
use quic_send::protocol::ProtocolError;
use quic_send::tree::{FileSendRecvTree, FilesAvailable, FilesToSkip};

fn file(name: &str, size: u64) -> FilesAvailable {
    FilesAvailable::File { name: name.to_string(), size }
}

fn dir(name: &str, files: Vec<FilesAvailable>) -> FilesAvailable {
    FilesAvailable::Dir { name: name.to_string(), files }
}

fn skip_file(name: &str, skip: u64) -> FilesToSkip {
    FilesToSkip::File { name: name.to_string(), skip }
}

fn skip_dir(name: &str, files: Vec<FilesToSkip>) -> FilesToSkip {
    FilesToSkip::Dir { name: name.to_string(), files }
}

fn plan_file(name: &str, skip: u64, size: u64) -> FileSendRecvTree {
    FileSendRecvTree::File { name: name.to_string(), skip, size }
}

fn plan_dir(name: &str, files: Vec<FileSendRecvTree>) -> FileSendRecvTree {
    FileSendRecvTree::Dir { name: name.to_string(), files }
}

#[test]
fn test_file_trees() {
    let files_offered = dir(
        "root",
        vec![file("file1", 10), dir("dir1", vec![file("file2", 20), file("file3", 30)])],
    );
    let already_installed = dir("root", vec![file("file1", 10), dir("dir1", vec![file("file2", 15)])]);

    let to_skip = files_offered.get_skippable(&already_installed).unwrap();
    assert_eq!(
        to_skip,
        skip_dir("root", vec![skip_file("file1", 10), skip_dir("dir1", vec![skip_file("file2", 15)])])
    );

    let new_tree_expected = plan_dir(
        "root",
        vec![plan_dir("dir1", vec![plan_file("file2", 15, 20), plan_file("file3", 0, 30)])],
    );
    let new_tree = files_offered.remove_skipped(&to_skip).unwrap();
    assert_eq!(new_tree, new_tree_expected);
    assert_eq!(new_tree.size(), 50);
    assert_eq!(new_tree.skip(), 15);
}

#[test]
fn test_no_files_to_skip() {
    let offered = dir(
        "root",
        vec![file("file1", 10), dir("dir1", vec![file("file2", 20), file("file3", 30)])],
    );
    let installed = dir("root", vec![]);
    let to_skip = offered.get_skippable(&installed);
    assert_eq!(to_skip, None);
}

#[test]
fn larger_directory() {
    let offered = dir(
        "root",
        vec![
            file("file1", 10),
            dir(
                "dir1",
                vec![file("file2", 20), file("file3", 30), dir("dir2", vec![file("file4", 40)])],
            ),
            dir("dir3", vec![file("file5", 50)]),
        ],
    );
    let installed = dir(
        "root",
        vec![file("file1", 10), dir("dir1", vec![file("file2", 5), dir("dir2", vec![])])],
    );

    let to_skip = offered.get_skippable(&installed).unwrap();
    assert_eq!(
        to_skip,
        skip_dir("root", vec![skip_file("file1", 10), skip_dir("dir1", vec![skip_file("file2", 5)])])
    );

    let new_tree = offered.remove_skipped(&to_skip).unwrap();
    let new_tree_expected = plan_dir(
        "root",
        vec![
            plan_dir(
                "dir1",
                vec![
                    plan_file("file2", 5, 20),
                    plan_file("file3", 0, 30),
                    plan_dir("dir2", vec![plan_file("file4", 0, 40)]),
                ],
            ),
            plan_dir("dir3", vec![plan_file("file5", 0, 50)]),
        ],
    );
    assert_eq!(new_tree, new_tree_expected);
}

fn recv_file(name: &str, skip: u64, size: u64) -> FileRecvSendTree {
    FileRecvSendTree::File { name: name.to_string(), skip, size }
}

fn recv_dir(name: &str, files: Vec<FileRecvSendTree>) -> FileRecvSendTree {
    FileRecvSendTree::Dir { name: name.to_string(), files }
}

#[test]
fn common_test_file_trees() {
    let to_send = recv_dir(
        "root",
        vec![
            recv_file("file1", 0, 10),
            recv_dir("dir1", vec![recv_file("file2", 0, 20), recv_file("file3", 0, 30)]),
        ],
    );
    let already_installed = recv_dir(
        "root",
        vec![recv_file("file1", 0, 10), recv_dir("dir1", vec![recv_file("file2", 0, 15)])],
    );

    let to_skip = get_files_to_skip_tree(&already_installed, &to_send).unwrap();
    assert_eq!(
        to_skip,
        skip_dir("root", vec![skip_file("file1", 10), skip_dir("dir1", vec![skip_file("file2", 15)])])
    );

    let new_tree_expected = recv_dir(
        "root",
        vec![recv_dir("dir1", vec![recv_file("file2", 15, 20), recv_file("file3", 0, 30)])],
    );
    let new_tree = apply_files_to_skip_tree(&to_send, &to_skip).unwrap();
    assert_eq!(new_tree, new_tree_expected);
}

#[test]
fn names_sizes_and_skips() {
    let offered = dir("root", vec![file("a", 3), dir("b", vec![file("c", 4)])]);
    assert_eq!(offered.name(), "root");
    assert_eq!(offered.size(), 7);
    let skip = skip_dir("root", vec![skip_file("a", 3), skip_dir("b", vec![skip_file("c", 1)])]);
    assert_eq!(skip.name(), "root");
    assert_eq!(skip.skip(), 4);
    let plan = plan_dir("root", vec![plan_file("c", 1, 4)]);
    assert_eq!(plan.name(), "root");
    assert_eq!(plan.size(), 4);
    assert_eq!(plan.skip(), 1);
    let recv = recv_dir("root", vec![recv_file("x", 2, 9), recv_file("y", 1, 1)]);
    assert_eq!(recv.name(), "root".to_string());
    assert_eq!(recv.size(), 10);
    assert_eq!(recv.skip(), 3);
}

#[test]
fn whole_plan_skips_nothing() {
    let offered = dir("root", vec![file("a", 3), dir("b", vec![file("c", 0)])]);
    let plan = offered.to_send_recv_tree();
    assert_eq!(plan, plan_dir("root", vec![plan_file("a", 0, 3), plan_dir("b", vec![plan_file("c", 0, 0)])]));
    assert_eq!(plan.size(), offered.size());
    assert_eq!(plan.skip(), 0);
}

#[test]
fn conserved_bytes_on_resume() {
    let offered = dir(
        "root",
        vec![file("file1", 10), dir("dir1", vec![file("file2", 20), file("file3", 30)])],
    );
    let local = dir("root", vec![file("file1", 10), dir("dir1", vec![file("file2", 15)])]);
    let skip = offered.get_skippable(&local).unwrap();
    let plan = offered.remove_skipped(&skip).unwrap();
    assert_eq!(plan.size() - plan.skip(), offered.size() - skip.skip());
    assert_eq!(plan.size() - plan.skip(), 35);
}

#[test]
fn single_file_skip_and_plan() {
    let offered = file("big.bin", 100);
    let local = file("big.bin", 40);
    let skip = offered.get_skippable(&local);
    assert_eq!(skip, Some(skip_file("big.bin", 40)));
    let plan = offered.remove_skipped(&skip.unwrap());
    assert_eq!(plan, Some(plan_file("big.bin", 40, 100)));
}

#[test]
fn fully_skipped_file_is_dropped() {
    let offered = file("a", 12);
    assert_eq!(offered.remove_skipped(&skip_file("a", 12)), None);
    let offered = dir("d", vec![file("a", 12)]);
    assert_eq!(offered.remove_skipped(&skip_dir("d", vec![skip_file("a", 12)])), None);
}

#[test]
fn larger_local_file_is_rewritten() {
    let offered = file("a", 10);
    let local = file("a", 25);
    assert_eq!(offered.get_skippable(&local), None);
    assert_eq!(offered.to_send_recv_tree(), plan_file("a", 0, 10));
    let offered = dir("root", vec![file("a", 10), file("b", 8)]);
    let local = dir("root", vec![file("a", 25), file("b", 3)]);
    let skip = offered.get_skippable(&local).unwrap();
    assert_eq!(skip, skip_dir("root", vec![skip_file("b", 3)]));
    let plan = offered.remove_skipped(&skip).unwrap();
    assert_eq!(plan, plan_dir("root", vec![plan_file("a", 0, 10), plan_file("b", 3, 8)]));
    assert_eq!(plan.size() - plan.skip(), offered.size() - skip.skip());
}

#[test]
fn equal_local_file_is_skipped_whole() {
    let skip = file("a", 10).get_skippable(&file("a", 10));
    assert_eq!(skip, Some(skip_file("a", 10)));
    assert_eq!(file("a", 10).remove_skipped(&skip.unwrap()), None);
}

#[test]
fn child_file_against_local_directory_is_sent_whole() {
    let offered = dir("root", vec![file("x", 10), file("y", 4)]);
    let local = dir("root", vec![dir("x", vec![]), file("y", 2)]);
    let skip = offered.get_skippable(&local).unwrap();
    assert_eq!(skip, skip_dir("root", vec![skip_file("y", 2)]));
    let plan = offered.remove_skipped(&skip).unwrap();
    assert_eq!(plan, plan_dir("root", vec![plan_file("x", 0, 10), plan_file("y", 2, 4)]));
}

#[test]
fn kind_mismatch_skips_nothing() {
    let offered = dir("root", vec![file("x", 10)]);
    let local = dir("root", vec![dir("x", vec![file("y", 3)])]);
    assert_eq!(offered.get_skippable(&local), None);
    assert_eq!(file("x", 5).get_skippable(&dir("x", vec![])), None);
    assert_eq!(dir("x", vec![]).get_skippable(&file("x", 5)), None);
}

#[test]
fn different_root_names_skip_nothing() {
    assert_eq!(file("a", 5).get_skippable(&file("b", 5)), None);
    assert_eq!(dir("a", vec![file("f", 1)]).get_skippable(&dir("b", vec![file("f", 1)])), None);
}

#[test]
fn file_with_other_name_keeps_skip() {
    let plan = file("a", 10).remove_skipped(&skip_file("b", 4));
    assert_eq!(plan, Some(plan_file("a", 4, 10)));
}

#[test]
fn pairwise_keeps_unpaired_children() {
    let offered = recv_dir("root", vec![recv_file("a", 0, 5), recv_file("b", 0, 6)]);
    let skip = skip_dir("root", vec![skip_file("a", 5)]);
    let applied = apply_files_to_skip_tree(&offered, &skip).unwrap();
    assert_eq!(applied, recv_dir("root", vec![recv_file("b", 0, 6)]));
    let renamed = plan_pairwise(&vec![offered], &vec![Some(skip_dir("other", vec![]))]);
    assert_eq!(renamed, Err(ProtocolError::SkipTreeMismatch));
    let wrong_kind = plan_pairwise(&vec![recv_file("a", 0, 5)], &vec![Some(skip_dir("a", vec![]))]);
    assert_eq!(wrong_kind, Err(ProtocolError::SkipTreeMismatch));
    assert_eq!(
        apply_files_to_skip_tree(&recv_file("a", 0, 5), &skip_file("z", 2)),
        Some(recv_file("a", 0, 5))
    );
    let nested = recv_dir("root", vec![recv_dir("x", vec![recv_file("f", 0, 3)])]);
    let applied = apply_files_to_skip_tree(&nested, &skip_dir("root", vec![skip_dir("y", vec![])]));
    assert_eq!(applied, Some(nested.duplicate()));
}

#[test]
fn pairwise_empty_local_directory_skips_nothing() {
    let local = recv_dir("root", vec![]);
    let remote = recv_dir("root", vec![recv_file("a", 0, 5)]);
    assert_eq!(get_files_to_skip_tree(&local, &remote), None);
    assert_eq!(get_files_to_skip_tree(&recv_file("a", 0, 1), &recv_dir("a", vec![])), None);
}

#[test]
fn pairwise_larger_local_file_skips_nothing() {
    assert_eq!(get_files_to_skip_tree(&recv_file("a", 0, 9), &recv_file("a", 0, 5)), None);
    assert_eq!(
        get_files_to_skip_tree(&recv_file("a", 0, 5), &recv_file("a", 0, 5)),
        Some(skip_file("a", 5))
    );
    let local = recv_dir("root", vec![recv_file("a", 0, 9), recv_file("b", 0, 2)]);
    let remote = recv_dir("root", vec![recv_file("a", 0, 5), recv_file("b", 0, 6)]);
    assert_eq!(get_files_to_skip_tree(&local, &remote), Some(skip_dir("root", vec![skip_file("b", 2)])));
}

#[test]
fn duplicate_copies_tree() {
    let t = recv_dir("root", vec![recv_file("a", 1, 5), recv_dir("d", vec![])]);
    assert_eq!(t.duplicate(), t);
}

#[test]
fn checked_sizes() {
    let offered = dir("root", vec![file("a", 3), dir("b", vec![file("c", 4)])]);
    assert_eq!(offered.checked_size(), Some(7));
    let huge = dir("root", vec![file("a", u64::MAX), file("b", 1)]);
    assert_eq!(huge.checked_size(), None);
    let skip = skip_dir("root", vec![skip_file("a", 3), skip_file("b", 2)]);
    assert_eq!(skip.checked_skip(), Some(5));
    let huge = skip_dir("root", vec![skip_file("a", u64::MAX), skip_dir("d", vec![skip_file("b", 1)])]);
    assert_eq!(huge.checked_skip(), None);
}

#[test]
fn unique_sibling_names() {
    let good = dir("root", vec![file("a", 1), dir("b", vec![file("a", 2)])]);
    assert!(good.has_unique_names());
    let clash = dir("root", vec![file("a", 1), dir("a", vec![])]);
    assert!(!clash.has_unique_names());
    let nested = dir("root", vec![dir("d", vec![file("x", 1), file("x", 2)])]);
    assert!(!nested.has_unique_names());
    assert!(file("a", 1).has_unique_names());
}
