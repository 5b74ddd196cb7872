use octoget::chunks::{Chunk, ChunkStatus};
use octoget::lifecycle::{
    accept_resolution, display_file_name, settle_resolution, find_task_by_url, finish_status, initial_file_name, missing_file_status,
    pause_status, piece_size_for, removes_file_on_delete, reset_by_file, reset_by_size, resolved_file_name,
    resume_status, select_pending_starts, status_label, worker_should_stop, TaskError,
};
use octoget::task::{restore_task, ChunkState, ChunkStatusState, TaskState, TaskStatus, TaskStatusState};

fn chunk(index: usize, start: u64, end: u64, status: ChunkStatus, retries: u32) -> Chunk {
    Chunk { index, start, end, status, retries }
}

#[test]
fn pausing_and_resuming() {
    assert_eq!(pause_status(&TaskStatus::Running), Ok(TaskStatus::Paused));
    assert_eq!(pause_status(&TaskStatus::Pending), Ok(TaskStatus::Paused));
    assert_eq!(pause_status(&TaskStatus::Resolving), Ok(TaskStatus::Paused));
    assert_eq!(pause_status(&TaskStatus::Paused), Err(TaskError::NotRunning));
    assert_eq!(pause_status(&TaskStatus::Completed), Err(TaskError::NotRunning));
    assert_eq!(resume_status(&TaskStatus::Paused), Ok(TaskStatus::Pending));
    assert_eq!(resume_status(&TaskStatus::Failed("x".to_string())), Ok(TaskStatus::Pending));
    assert_eq!(resume_status(&TaskStatus::Running), Err(TaskError::NotResumable));
    assert_eq!(TaskError::NotRunning.message(), "Task is not running or pending");
    assert_eq!(TaskError::NotResumable.message(), "Task is not paused or failed");
    assert_eq!(TaskError::NotFound.message(), "Task not found");
}

#[test]
fn deleting_keeps_completed_files_unless_asked() {
    assert!(removes_file_on_delete(&TaskStatus::Running, false));
    assert!(!removes_file_on_delete(&TaskStatus::Completed, false));
    assert!(removes_file_on_delete(&TaskStatus::Completed, true));
}

#[test]
fn pending_tasks_start_up_to_the_limit() {
    let s = vec![
        TaskStatus::Running,
        TaskStatus::Pending,
        TaskStatus::Paused,
        TaskStatus::Resolving,
        TaskStatus::Pending,
        TaskStatus::Pending,
    ];
    assert_eq!(select_pending_starts(&s, 3), vec![1]);
    assert_eq!(select_pending_starts(&s, 16), vec![1, 4, 5]);
    assert_eq!(select_pending_starts(&s, 2), Vec::<usize>::new());
    assert_eq!(select_pending_starts(&s, 1), Vec::<usize>::new());
}

#[test]
fn finding_tasks_by_address() {
    let urls = vec!["http://a/1".to_string(), "http://b/2".to_string(), "http://a/1".to_string()];
    assert_eq!(find_task_by_url(&urls, "http://a/1"), Some(0));
    assert_eq!(find_task_by_url(&urls, "http://b/2"), Some(1));
    assert_eq!(find_task_by_url(&urls, "http://c"), None);
}

#[test]
fn naming_new_tasks() {
    assert_eq!(initial_file_name(&None, "http://h/dir/file.iso?token=1"), "file.iso");
    assert_eq!(initial_file_name(&None, "http://h/dir/"), "download");
    assert_eq!(initial_file_name(&Some("  ".to_string()), "http://h/a.bin"), "a.bin");
    assert_eq!(initial_file_name(&Some("mine.bin".to_string()), "http://h/a.bin"), "mine.bin");
}

#[test]
fn naming_resolved_tasks() {
    assert_eq!(resolved_file_name(&None, "http://h/get?id=3", "http://cdn/real.tar.gz"), "get");
    assert_eq!(resolved_file_name(&None, "http://h/", "http://cdn/real.tar.gz?sig=1"), "real.tar.gz");
    assert_eq!(resolved_file_name(&None, "http://h/download", "http://cdn/x.zip"), "x.zip");
    assert_eq!(resolved_file_name(&None, "http://h/", "http://cdn/"), "download");
    assert_eq!(resolved_file_name(&Some("n".to_string()), "http://h/", "http://cdn/"), "n");
}

#[test]
fn deciding_to_restart_progress() {
    assert!(reset_by_size(0, 10));
    assert!(reset_by_size(10, 11));
    assert!(!reset_by_size(10, 10));
    assert!(reset_by_file(10, None));
    assert!(reset_by_file(10, Some(0)));
    assert!(reset_by_file(5000, Some(100)));
    assert!(!reset_by_file(5000, Some(2000)));
    assert!(!reset_by_file(50, Some(50)));
    assert_eq!(piece_size_for(true, 99), 5 * 1024 * 1024);
    assert_eq!(piece_size_for(false, 99), 99);
    assert_eq!(accept_resolution(Some(3)), Ok(3));
    assert_eq!(accept_resolution(Some(0)), Err(TaskError::ResolveFailed));
    assert_eq!(accept_resolution(None), Err(TaskError::ResolveFailed));
}

#[test]
fn finishing_a_run() {
    let done = vec![chunk(0, 0, 9, ChunkStatus::Done, 1)];
    let open = vec![chunk(0, 0, 9, ChunkStatus::Idle, 1)];
    assert_eq!(finish_status(&TaskStatus::Running, &done), Some(TaskStatus::Completed));
    assert_eq!(
        finish_status(&TaskStatus::Running, &open),
        Some(TaskStatus::Failed("All peers disconnected".to_string()))
    );
    assert_eq!(finish_status(&TaskStatus::Paused, &done), None);
}

#[test]
fn missing_files_fail_tasks() {
    assert_eq!(
        missing_file_status(&TaskStatus::Running, false, 10),
        Some((TaskStatus::Failed("Save file missing".to_string()), true))
    );
    assert_eq!(
        missing_file_status(&TaskStatus::Completed, false, 10),
        Some((TaskStatus::Failed("Completed file missing".to_string()), false))
    );
    assert_eq!(missing_file_status(&TaskStatus::Resolving, false, 10), None);
    assert_eq!(missing_file_status(&TaskStatus::Running, true, 10), None);
    assert_eq!(missing_file_status(&TaskStatus::Running, false, 0), None);
}

#[test]
fn showing_tasks() {
    assert_eq!(status_label(&TaskStatus::Running), "Running");
    assert_eq!(status_label(&TaskStatus::Failed("boom".to_string())), "Failed: boom");
    assert_eq!(display_file_name(&None, &Some("f.bin".to_string())), "f.bin");
    assert_eq!(display_file_name(&None, &None), "unknown");
    assert_eq!(display_file_name(&Some("c".to_string()), &Some("f.bin".to_string())), "c");
}

#[test]
fn workers_stop_when_told() {
    assert!(!worker_should_stop(false, &TaskStatus::Running, 9));
    assert!(worker_should_stop(false, &TaskStatus::Running, 10));
    assert!(worker_should_stop(true, &TaskStatus::Running, 0));
    assert!(worker_should_stop(false, &TaskStatus::Paused, 0));
}

#[test]
fn saving_and_restoring_a_task() {
    let chunks = vec![
        chunk(0, 0, 9, ChunkStatus::Done, 1),
        chunk(1, 10, 19, ChunkStatus::InProgress(77), 4),
        chunk(2, 20, 29, ChunkStatus::Idle, 2),
    ];
    let st = TaskState::capture(
        &"t1".to_string(),
        &"http://a".to_string(),
        &"http://b".to_string(),
        &"/tmp/f".to_string(),
        30,
        &chunks,
        &TaskStatus::Running,
        &None,
        &Some("f".to_string()),
    );
    assert_eq!(st.status, TaskStatusState::Running);
    assert_eq!(st.chunks[0], ChunkState { index: 0, start: 0, end: 9, status: ChunkStatusState::Done });
    assert_eq!(st.chunks[1].status, ChunkStatusState::Idle);
    let back = restore_task(&st.chunks, &st.status, st.file_size, true);
    assert_eq!(back.status, TaskStatus::Pending);
    assert_eq!(back.chunks, vec![
        chunk(0, 0, 9, ChunkStatus::Done, 0),
        chunk(1, 10, 19, ChunkStatus::Idle, 0),
        chunk(2, 20, 29, ChunkStatus::Idle, 0),
    ]);
    let gone = restore_task(&st.chunks, &TaskStatusState::Completed, 30, false);
    assert_eq!(gone.status, TaskStatus::Paused);
    assert!(gone.chunks.iter().all(|c| c.status == ChunkStatus::Idle));
    let sizeless = restore_task(&st.chunks, &TaskStatusState::Paused, 0, false);
    assert_eq!(sizeless.status, TaskStatus::Pending);
    assert_eq!(sizeless.chunks[0].status, ChunkStatus::Done);
    let failed = restore_task(&st.chunks, &TaskStatusState::Failed("e".to_string()), 30, true);
    assert_eq!(failed.status, TaskStatus::Failed("e".to_string()));
}

#[test]
fn how_resolution_ends() {
    assert_eq!(settle_resolution(false, Some(7)).ok(), Some(7));
    let stop = settle_resolution(false, Some(0)).err().unwrap();
    assert_eq!(stop.status, TaskStatus::Failed("Failed to resolve URL or size is 0".to_string()));
    assert_eq!(stop.error, TaskError::ResolveFailed);
    let stop = settle_resolution(false, None).err().unwrap();
    assert_eq!(stop.status, TaskStatus::Failed("Failed to resolve URL or size is 0".to_string()));
    let stop = settle_resolution(true, Some(7)).err().unwrap();
    assert_eq!(stop.status, TaskStatus::Paused);
    assert_eq!(stop.error, TaskError::PausedWhileResolving);
}
