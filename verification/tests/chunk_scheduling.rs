use octoget::chunks::{
    all_done, downloaded_bytes, get_next_chunk, mark_done, next_chunk_at, plan_chunks, release_after_failure,
    release_in_progress, restart_in_progress, vet_claim, Chunk, ChunkStatus, ClaimVerdict, PIECE_SIZE,
};

fn chunk(index: usize, start: u64, end: u64, status: ChunkStatus, retries: u32) -> Chunk {
    Chunk { index, start, end, status, retries }
}

#[test]
fn first_idle_chunk_is_claimed() {
    let mut v = vec![
        chunk(0, 0, 9, ChunkStatus::Done, 1),
        chunk(1, 10, 19, ChunkStatus::InProgress(100), 1),
        chunk(2, 20, 29, ChunkStatus::Idle, 0),
        chunk(3, 30, 39, ChunkStatus::Idle, 0),
    ];
    let got = next_chunk_at(&mut v, 1000).unwrap();
    assert_eq!(got, chunk(2, 20, 29, ChunkStatus::InProgress(1000), 1));
    assert_eq!(v[2], got);
    assert_eq!(v[3].status, ChunkStatus::Idle);
    assert_eq!(v[1].status, ChunkStatus::InProgress(100));
}

#[test]
fn overdue_chunk_is_reissued() {
    let mut v = vec![
        chunk(0, 0, 9, ChunkStatus::InProgress(5000), 1),
        chunk(1, 10, 19, ChunkStatus::InProgress(1000), 2),
        chunk(2, 20, 29, ChunkStatus::Done, 1),
    ];
    let got = next_chunk_at(&mut v, 16001).unwrap();
    assert_eq!(got, chunk(1, 10, 19, ChunkStatus::InProgress(16001), 3));
    assert_eq!(v[1], got);
    assert_eq!(v[0].status, ChunkStatus::InProgress(5000));
}

#[test]
fn chunk_not_yet_overdue_is_left_alone() {
    let mut v = vec![chunk(0, 0, 9, ChunkStatus::InProgress(1000), 1)];
    assert_eq!(next_chunk_at(&mut v, 16000), None);
    assert_eq!(v[0], chunk(0, 0, 9, ChunkStatus::InProgress(1000), 1));
}

#[test]
fn equal_start_times_pick_the_first() {
    let mut v = vec![
        chunk(0, 0, 9, ChunkStatus::InProgress(10), 1),
        chunk(1, 10, 19, ChunkStatus::InProgress(10), 1),
    ];
    let got = next_chunk_at(&mut v, 20000).unwrap();
    assert_eq!(got.index, 0);
    assert_eq!(v[1].status, ChunkStatus::InProgress(10));
}

#[test]
fn finished_download_hands_out_nothing() {
    let mut v = vec![chunk(0, 0, 9, ChunkStatus::Done, 1), chunk(1, 10, 19, ChunkStatus::Done, 1)];
    assert_eq!(next_chunk_at(&mut v, 99999), None);
    assert!(all_done(&v));
}

#[test]
fn clock_driven_claim_marks_chunk_in_progress() {
    let mut v = vec![chunk(0, 0, 9, ChunkStatus::Idle, 0)];
    let got = get_next_chunk(&mut v).unwrap();
    assert!(matches!(got.status, ChunkStatus::InProgress(_)));
    assert_eq!(got.retries, 1);
}

#[test]
fn plan_cuts_file_into_pieces() {
    let size = 12 * 1024 * 1024;
    let v = plan_chunks(size, PIECE_SIZE);
    assert_eq!(v.len(), 3);
    assert_eq!(v[0], chunk(0, 0, PIECE_SIZE - 1, ChunkStatus::Idle, 0));
    assert_eq!(v[1], chunk(1, PIECE_SIZE, 2 * PIECE_SIZE - 1, ChunkStatus::Idle, 0));
    assert_eq!(v[2], chunk(2, 2 * PIECE_SIZE, size - 1, ChunkStatus::Idle, 0));
}

#[test]
fn plan_without_ranges_is_one_piece() {
    let v = plan_chunks(1234, 1234);
    assert_eq!(v, vec![chunk(0, 0, 1233, ChunkStatus::Idle, 0)]);
    assert_eq!(plan_chunks(0, PIECE_SIZE).len(), 0);
}

#[test]
fn finished_plan_counts_whole_file() {
    let mut v = plan_chunks(11, 4);
    for i in 0..v.len() {
        mark_done(&mut v, i);
    }
    assert_eq!(downloaded_bytes(&v), Some(11));
}

#[test]
fn downloaded_bytes_counts_done_chunks() {
    let v = vec![
        chunk(0, 0, 9, ChunkStatus::Done, 1),
        chunk(1, 10, 19, ChunkStatus::Idle, 0),
        chunk(2, 20, 24, ChunkStatus::Done, 1),
    ];
    assert_eq!(downloaded_bytes(&v), Some(15));
    let bad = vec![chunk(0, 9, 0, ChunkStatus::Done, 1)];
    assert_eq!(downloaded_bytes(&bad), None);
    let full = vec![chunk(0, 0, u64::MAX, ChunkStatus::Done, 1)];
    assert_eq!(downloaded_bytes(&full), None);
    let too_many = vec![chunk(0, 0, u64::MAX - 1, ChunkStatus::Done, 1), chunk(1, 0, 0, ChunkStatus::Done, 1)];
    assert_eq!(downloaded_bytes(&too_many), None);
}

#[test]
fn release_and_restart_reset_in_progress_chunks() {
    let v = vec![
        chunk(0, 0, 9, ChunkStatus::InProgress(5), 3),
        chunk(1, 10, 19, ChunkStatus::Done, 2),
        chunk(2, 20, 29, ChunkStatus::Idle, 1),
    ];
    let mut a = v.clone();
    release_in_progress(&mut a);
    assert_eq!(a[0], chunk(0, 0, 9, ChunkStatus::Idle, 3));
    assert_eq!(a[1], v[1]);
    assert_eq!(a[2], v[2]);
    let mut b = v.clone();
    restart_in_progress(&mut b);
    assert_eq!(b[0], chunk(0, 0, 9, ChunkStatus::Idle, 0));
    assert_eq!(b[2], v[2]);
}

#[test]
fn exhausted_claim_is_given_up() {
    let mut v = vec![chunk(0, 0, 9, ChunkStatus::InProgress(5), 6)];
    let claimed = v[0];
    assert_eq!(vet_claim(&mut v, &claimed), ClaimVerdict::GiveUp);
    assert_eq!(v[0], chunk(0, 0, 9, ChunkStatus::Idle, 0));
    let mut w = vec![chunk(0, 0, 9, ChunkStatus::InProgress(5), 5)];
    let claimed = w[0];
    assert_eq!(vet_claim(&mut w, &claimed), ClaimVerdict::Fetch);
    assert_eq!(w[0], claimed);
}

#[test]
fn failed_transfer_releases_chunk() {
    let mut v = vec![chunk(0, 0, 9, ChunkStatus::InProgress(5), 2), chunk(1, 10, 19, ChunkStatus::Done, 1)];
    release_after_failure(&mut v, 0);
    release_after_failure(&mut v, 1);
    assert_eq!(v[0].status, ChunkStatus::Idle);
    assert_eq!(v[0].retries, 2);
    assert_eq!(v[1].status, ChunkStatus::Done);
}

#[test]
fn huge_single_piece_plans() {
    let v = plan_chunks(u64::MAX, u64::MAX);
    assert_eq!(v.len(), 1);
    assert_eq!((v[0].start, v[0].end), (0, u64::MAX - 1));
    let w = plan_chunks(u64::MAX, u64::MAX / 2 + 1);
    assert_eq!(w.len(), 2);
    assert_eq!((w[1].start, w[1].end), (u64::MAX / 2 + 1, u64::MAX - 1));
}
