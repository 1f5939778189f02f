use termica::block::{BlockId, BlockMeta};
use termica::history::db::ChunkRow;
use termica::persist::chunk::{decode_chunk, ChunkError};
use termica::persist::gc::{
    count_live, is_temp_file, judge_lock_reply, plan, proves_dead, runs_over_cap, sessions_of,
    tally, GcCaps, GcReport, LockAttempt, LockReply,
};
use termica::persist::restore::{load_chunk, restore_blocks, LoadError};
use termica::persist::store::{session_dir, session_pane_dir, PaneRowId, SessionId, SessionRecord};
use termica::persist::writer::{chunk_file_name, PreparedChunk, SealedSnapshot, WriterCursor};
use termica::terminal::{Color, NamedColor, StyledCell, StyledLine};

const DAY_MS: i64 = 24 * 60 * 60 * 1000;

fn line(s: &str) -> StyledLine {
    StyledLine {
        cells: s
            .chars()
            .map(|c| StyledCell {
                c,
                fg: Color::Named(NamedColor::Foreground),
                bg: Color::Named(NamedColor::Background),
                flags: 0,
            })
            .collect(),
    }
}

fn text_of(line: &StyledLine) -> String {
    line.cells.iter().map(|c| c.c).collect()
}

fn snapshot(id: u64, lines: &[&str]) -> SealedSnapshot {
    SealedSnapshot {
        block_id: BlockId(id),
        lines: lines.iter().map(|s| line(s)).collect(),
        emit_cols: 80,
        start_time_ms: 1000,
        end_time_ms: 2000,
        meta: BlockMeta::default(),
    }
}

fn with_meta(mut block: SealedSnapshot, meta: BlockMeta) -> SealedSnapshot {
    block.meta = meta;
    block
}

type Chips = Vec<(String, String)>;

fn row(id: i64, session_id: i64, end_time: i64, byte_size: i64) -> ChunkRow {
    ChunkRow {
        id,
        session_id,
        path: format!("{id}"),
        start_line: 0,
        end_line: 0,
        start_time: end_time - 1,
        end_time,
        byte_size,
    }
}

fn row_of(id: i64, c: &PreparedChunk) -> ChunkRow {
    ChunkRow {
        id,
        session_id: 1,
        path: c.path.clone(),
        start_line: c.start_line,
        end_line: c.end_line,
        start_time: c.start_time,
        end_time: c.end_time,
        byte_size: c.byte_size,
    }
}

fn write_all(blocks: &[SealedSnapshot]) -> (Vec<ChunkRow>, Vec<Option<Vec<u8>>>, Vec<Chips>) {
    let mut cursor = WriterCursor::starting_at(0);
    let mut rows = Vec::new();
    let mut files = Vec::new();
    let mut chips = Vec::new();
    for (i, block) in blocks.iter().enumerate() {
        let chunk = cursor.prepare(SessionId(1), PaneRowId(2), block);
        rows.push(row_of(i as i64 + 1, &chunk));
        files.push(Some(chunk.bytes));
        chips.push(chunk.chips);
        cursor.advance(Some(block.lines.len() as u64));
    }
    (rows, files, chips)
}

#[test]
fn deletes_aged_chunks_of_dead_sessions() {
    let rows = vec![row(1, 1, 1000, 64)];
    let now = 1000 + 40 * DAY_MS;
    let doomed = plan(&rows, &vec![1], now, &GcCaps::default());
    assert_eq!(doomed, vec![true]);
    let (chunks, bytes) = tally(&rows, &doomed);
    let report =
        GcReport { chunks_deleted: chunks, bytes_reclaimed: bytes, ..GcReport::default() };
    assert_eq!(report.chunks_deleted, 1);
    assert_eq!(report.bytes_reclaimed, 64);
}

#[test]
fn never_deletes_a_live_sessions_chunks() {
    let rows = vec![row(1, 1, 1000, 64)];
    let now = 1000 + 999 * DAY_MS;
    let dead: Vec<i64> = Vec::new();
    let doomed = plan(&rows, &dead, now, &GcCaps::default());
    assert_eq!(tally(&rows, &doomed).0, 0, "a live session is never gc'd");
    assert_eq!(count_live(&rows, &dead), 1);
}

#[test]
fn enforces_total_byte_cap_oldest_first() {
    let rows = vec![row(1, 1, 10, 70), row(2, 1, 20, 71), row(3, 1, 30, 75)];
    let total: i64 = rows.iter().map(|r| r.byte_size).sum();
    let caps =
        GcCaps { total_bytes: total - 1, retention_ms: i64::MAX, ..GcCaps::default() };
    let doomed = plan(&rows, &vec![1], 1_000_000, &caps);
    assert_eq!(tally(&rows, &doomed).0, 1, "exactly the oldest chunk evicted");
    let survivors: Vec<i64> =
        rows.iter().zip(&doomed).filter(|(_, d)| !**d).map(|(r, _)| r.end_time).collect();
    assert_eq!(survivors, vec![20, 30]);
}

#[test]
fn runs_are_trimmed_only_past_their_cap() {
    let caps = GcCaps { runs: 2, ..GcCaps::default() };
    assert!(runs_over_cap(5, &caps));
    assert!(!runs_over_cap(2, &caps));
    assert!(!runs_over_cap(50_000, &GcCaps::default()));
    assert!(runs_over_cap(50_001, &GcCaps::default()));
}

#[test]
fn removes_torn_write_temp_files() {
    assert!(is_temp_file(".00000007.chunk.tmck.tmp"));
    for name in [
        "", "tmp", ".tmp", "a.tmp", "..tmp", "a.tmp.x", "00000001.chunk.tmck", ".lock", "x.TMP", "a.b.tmp",
    ] {
        let expected =
            std::path::Path::new(name).extension().and_then(|e| e.to_str()) == Some("tmp");
        assert_eq!(is_temp_file(name), expected, "{name:?}");
    }
}

#[test]
fn each_session_comes_down_to_its_own_cap() {
    let rows = vec![row(1, 1, 10, 60), row(2, 2, 11, 60), row(3, 1, 12, 60), row(4, 1, 13, 60)];
    let caps = GcCaps { session_bytes: 100, retention_ms: i64::MAX, ..GcCaps::default() };
    assert_eq!(plan(&rows, &vec![1, 2], 0, &caps), vec![true, false, true, false]);
    assert_eq!(plan(&rows, &vec![2], 0, &caps), vec![false; 4]);
}

#[test]
fn chunks_of_one_age_go_by_their_number() {
    let rows = vec![row(5, 1, 10, 1), row(4, 1, 10, 1)];
    let caps = GcCaps { total_bytes: 1, retention_ms: i64::MAX, ..GcCaps::default() };
    assert_eq!(plan(&rows, &vec![1], 0, &caps), vec![false, true]);
}

#[test]
fn the_cutoff_itself_is_kept() {
    let caps = GcCaps { retention_ms: 100, ..GcCaps::default() };
    let rows = vec![row(1, 1, 899, 1), row(2, 1, 900, 1)];
    assert_eq!(plan(&rows, &vec![1], 1000, &caps), vec![true, false]);
}

#[test]
fn the_default_caps_are_those_of_production() {
    let caps = GcCaps::default();
    assert_eq!(caps.retention_ms, 30 * DAY_MS);
    assert_eq!(caps.session_bytes, 200 * 1024 * 1024);
    assert_eq!(caps.total_bytes, 2 * 1024 * 1024 * 1024);
    assert_eq!(caps.runs, 50_000);
}

#[test]
fn only_a_free_lock_proves_a_session_dead() {
    assert!(proves_dead(LockAttempt::Acquired));
    assert!(!proves_dead(LockAttempt::Held));
    assert!(!proves_dead(LockAttempt::Failed));
    assert_eq!(judge_lock_reply(LockReply::Taken), Some(LockAttempt::Acquired));
    assert_eq!(judge_lock_reply(LockReply::Contended), Some(LockAttempt::Held));
    assert_eq!(judge_lock_reply(LockReply::Interrupted), None);
    assert_eq!(judge_lock_reply(LockReply::Fault), Some(LockAttempt::Failed));
}

#[test]
fn each_session_is_tried_once() {
    let rows = vec![row(1, 7, 1, 1), row(2, 3, 1, 1), row(3, 7, 1, 1)];
    assert_eq!(sessions_of(&rows), vec![7, 3]);
    assert_eq!(count_live(&rows, &vec![3]), 1);
}

#[test]
fn load_chunk_is_the_inverse_of_write_chunk() {
    let block = snapshot(0, &["alpha line", "bravo line"]);
    let chunk = WriterCursor::starting_at(0).prepare(SessionId(1), PaneRowId(2), &block);
    assert_eq!(load_chunk(&Some(chunk.bytes)).unwrap(), block.lines, "round-trips");
}

#[test]
fn restore_blocks_rebuilds_one_sealed_block_per_chunk_in_order() {
    let (rows, files, chips) =
        write_all(&[snapshot(0, &["first cmd out"]), snapshot(1, &["second", "lines"])]);
    let blocks = restore_blocks(&rows, &files, &chips);
    assert_eq!(blocks.len(), 2, "one block per chunk");
    assert_eq!(blocks[0].id, BlockId(0));
    assert_eq!(blocks[0].lines.len(), 1);
    assert_eq!(text_of(&blocks[0].lines[0]), "first cmd out");
    assert_eq!((blocks[0].start_time, blocks[0].end_time), (1000, 2000));
    assert!(blocks[0].meta.command.is_empty());
    assert_eq!(blocks[0].meta.exit, None);
    assert_eq!(blocks[1].id, BlockId(1));
    assert_eq!(blocks[1].lines.len(), 2);
}

/// The git state of a block as JSON.
fn git_json(branch: &str, ahead: u64, behind: u64, dirty: (u64, u64, u64)) -> serde_json::Value {
    let mut counts = serde_json::Map::new();
    counts.insert("files_changed".to_string(), dirty.0.into());
    counts.insert("lines_added".to_string(), dirty.1.into());
    counts.insert("lines_removed".to_string(), dirty.2.into());
    let mut git = serde_json::Map::new();
    git.insert("branch".to_string(), branch.into());
    git.insert("ahead".to_string(), ahead.into());
    git.insert("behind".to_string(), behind.into());
    git.insert("dirty".to_string(), counts.into());
    git.into()
}

#[test]
fn restored_block_carries_command_exit_and_git_from_chips() {
    let git = git_json("main", 1, 0, (2, 9, 3));
    let block = with_meta(
        snapshot(0, &["cargo build output"]),
        BlockMeta {
            command: "cargo build".to_string(),
            exit: Some(101),
            cwd: Some("/work/proj".to_string()),
            git: Some(git.to_string()),
        },
    );
    let (rows, files, chips) = write_all(&[block]);
    let blocks = restore_blocks(&rows, &files, &chips);
    assert_eq!(blocks.len(), 1);
    let meta = &blocks[0].meta;
    assert_eq!(meta.command, "cargo build", "command label restores from chips");
    assert_eq!(meta.exit, Some(101), "exit code restores");
    assert_eq!(meta.cwd.as_deref(), Some("/work/proj"));
    let back: serde_json::Value = serde_json::from_str(meta.git.as_deref().unwrap()).unwrap();
    assert_eq!(back, git, "full git context restores (JSON chip)");
}

#[test]
fn chips_are_read_in_any_order() {
    let meta = BlockMeta {
        command: "ls\n-la".to_string(),
        exit: Some(-9),
        cwd: Some(String::new()),
        git: None,
    };
    let mut chips = meta.to_chips();
    assert_eq!(
        chips,
        vec![
            ("command".to_string(), "ls\n-la".to_string()),
            ("exit".to_string(), "-9".to_string()),
            ("cwd".to_string(), String::new()),
        ]
    );
    chips.reverse();
    chips.push(("pr".to_string(), "7".to_string()));
    assert_eq!(BlockMeta::from_chips(&chips), meta);
    assert!(BlockMeta::default().to_chips().is_empty());
    let broken = vec![("exit".to_string(), "one".to_string())];
    assert_eq!(BlockMeta::from_chips(&broken), BlockMeta::default());
}

#[test]
fn skipped_middle_chunk_leaves_contiguous_block_ids() {
    let (rows, mut files, chips) =
        write_all(&[snapshot(0, &["first"]), snapshot(1, &["middle"]), snapshot(2, &["last"])]);
    files[1] = None;
    let blocks = restore_blocks(&rows, &files, &chips);
    assert_eq!(blocks.len(), 2, "the two readable chunks restore");
    let ids: Vec<u64> = blocks.iter().map(|b| b.id.0).collect();
    assert_eq!(ids, vec![0, 1], "ids are contiguous 0..n, not [0, 2]");
    assert_eq!(blocks[1].row, 2);
}

#[test]
fn missing_chunk_file_is_skipped_not_fatal() {
    let (rows, mut files, chips) = write_all(&[snapshot(0, &["kept"]), snapshot(1, &["gone"])]);
    files[1] = None;
    let blocks = restore_blocks(&rows, &files, &chips);
    assert_eq!(blocks.len(), 1, "the readable chunk still restores");
}

#[test]
fn restore_blocks_empty_for_pane_with_no_chunks() {
    assert!(restore_blocks(&Vec::new(), &Vec::new(), &Vec::new()).is_empty());
}

#[test]
fn pre_command_output_block_persists_and_restores_without_confusing_the_index() {
    let (rows, files, chips) =
        write_all(&[snapshot(0, &["init line 1", "init line 2"]), with_meta(
            snapshot(1, &["hello"]),
            BlockMeta {
                command: "echo hello".to_string(),
                exit: Some(0),
                cwd: None,
                git: None,
            },
        )]);
    assert_eq!(rows.len(), 2);
    assert_eq!((rows[0].start_line, rows[0].end_line), (0, 2), "init block covers [0,2)");
    assert_eq!((rows[1].start_line, rows[1].end_line), (2, 3), "no gap, no overlap");
    let blocks = restore_blocks(&rows, &files, &chips);
    assert_eq!(blocks.len(), 2);
    assert_eq!(blocks[0].id, BlockId(0));
    assert!(blocks[0].meta.command.is_empty(), "the init block restores with NO command label");
    assert_eq!(blocks[0].meta.exit, None, "and no exit chip");
    assert_eq!(blocks[0].lines.len(), 2, "its two init lines survive");
    assert_eq!(blocks[1].id, BlockId(1), "ids stay contiguous 0..n");
    assert_eq!(blocks[1].meta.command, "echo hello");
    assert_eq!(blocks[1].meta.exit, Some(0));
}

#[test]
fn a_chunk_that_cannot_be_loaded_says_why() {
    assert_eq!(load_chunk(&None), Err(LoadError::Io));
    assert_eq!(
        load_chunk(&Some(b"XXXX".to_vec())),
        Err(LoadError::Decode(ChunkError::BadMagic))
    );
}

#[test]
fn restart_resumes_the_pane_and_continues_the_logical_cursor() {
    let mut first = WriterCursor::starting_at(0);
    let a = first.prepare(SessionId(1), PaneRowId(5), &snapshot(1, &["a", "b"]));
    first.advance(Some(2));
    assert_eq!(first.line, 2, "cursor resumes at the pane's max end_line");
    let second = WriterCursor::starting_at(first.line);
    let b = second.prepare(SessionId(2), PaneRowId(5), &snapshot(2, &["c", "d", "e"]));
    assert_eq!(
        vec![(a.start_line, a.end_line), (b.start_line, b.end_line)],
        vec![(0, 2), (2, 5)],
        "chunks accumulate without overlap across restart"
    );
    assert_eq!(b.file_name, "00000001.chunk.tmck");
}

#[test]
fn write_chunk_creates_file_and_row_and_round_trips() {
    let snap = snapshot(1, &["hello world", "second line"]);
    let c = WriterCursor::starting_at(0).prepare(SessionId(4), PaneRowId(9), &snap);
    assert_eq!(c.file_name, "00000001.chunk.tmck");
    assert_eq!(c.temp_name, ".00000001.chunk.tmck.tmp");
    assert_eq!(decode_chunk(&c.bytes).unwrap(), snap.lines, "round-trips through the file");
    assert_eq!(c.path, "scrollback/session-4/pane-9/00000001.chunk.tmck");
    assert_eq!((c.start_line, c.end_line), (0, 2), "logical-line range [0, 2)");
    assert_eq!(c.emit_cols, 80);
    assert!(c.compressed);
    assert_eq!(c.byte_size, c.bytes.len() as i64);
}

#[test]
fn write_chunk_persists_empty_block_with_its_chips() {
    let mut cursor = WriterCursor::starting_at(4);
    let snap = with_meta(
        snapshot(1, &[]),
        BlockMeta { command: "false".to_string(), exit: Some(1), cwd: None, git: None },
    );
    let c = cursor.prepare(SessionId(1), PaneRowId(1), &snap);
    assert_eq!(c.end_line - c.start_line, 0, "no output lines");
    assert_eq!(c.file_name, "00000001.chunk.tmck", "a tiny chunk file is still written");
    assert!(decode_chunk(&c.bytes).unwrap().is_empty(), "decodes to zero lines");
    assert_eq!((c.start_line, c.end_line), (4, 4), "empty logical range");
    let mut chips = c.chips.clone();
    chips.sort();
    assert_eq!(
        chips,
        vec![
            ("command".to_string(), "false".to_string()),
            ("exit".to_string(), "1".to_string())
        ]
    );
    cursor.advance(Some(0));
    assert_eq!((cursor.line, cursor.next_seq), (4, 2), "cursor doesn't advance");
}

#[test]
fn writer_thread_sequences_chunks_and_advances_logical_cursor() {
    let mut cursor = WriterCursor::starting_at(0);
    let mut ranges = Vec::new();
    let mut names = Vec::new();
    for block in
        [snapshot(1, &["a", "b"]), snapshot(2, &[]), snapshot(3, &["c", "d", "e"])].iter()
    {
        let c = cursor.prepare(SessionId(1), PaneRowId(1), block);
        ranges.push((c.start_line, c.end_line));
        names.push(c.file_name);
        cursor.advance(Some(block.lines.len() as u64));
    }
    assert_eq!(names, vec!["00000001.chunk.tmck", "00000002.chunk.tmck", "00000003.chunk.tmck"]);
    assert_eq!(ranges, vec![(0, 2), (2, 2), (2, 5)], "empty block kept, cursor unbroken");
}

#[test]
fn a_chunk_that_was_not_written_leaves_its_place() {
    let mut cursor = WriterCursor::starting_at(7);
    cursor.advance(None);
    assert_eq!((cursor.line, cursor.next_seq), (7, 1));
}

#[test]
fn names_of_chunks_have_at_least_eight_digits() {
    assert_eq!(chunk_file_name(7), "00000007.chunk.tmck");
    assert_eq!(chunk_file_name(12_345_678), "12345678.chunk.tmck");
    assert_eq!(chunk_file_name(123_456_789), "123456789.chunk.tmck");
}

#[test]
fn a_session_record_names_its_directory() {
    let rec = SessionRecord::new("/data", PaneRowId(12), SessionId(34), 0);
    assert_eq!(rec.dir, "/data/scrollback/session-34/pane-12");
    assert_eq!(session_pane_dir("/data", SessionId(34), PaneRowId(12)), rec.dir);
    assert_eq!(session_dir("/data", SessionId(34)), "/data/scrollback/session-34");
}

#[test]
fn distinct_sessions_have_distinct_directories() {
    let a = SessionRecord::new("/data", PaneRowId(1), SessionId(1), 0);
    let b = SessionRecord::new("/data", PaneRowId(2), SessionId(2), 0);
    assert_ne!(a.dir, b.dir, "distinct sessions get distinct directories");
    assert_eq!(session_dir("/", SessionId(-3)), "/scrollback/session--3");
}

#[test]
fn a_whole_pass_keeps_both_caps() {
    let rows = vec![
        row(1, 1, 10, 50), row(2, 2, 20, 50), row(3, 1, 30, 50), row(4, 1, 40, 50), row(5, 3, 5, 50),
    ];
    let caps = GcCaps {
        session_bytes: 60,
        total_bytes: 200,
        retention_ms: i64::MAX,
        ..GcCaps::default()
    };
    let doomed = plan(&rows, &vec![1, 2], 1_000_000, &caps);
    // The oldest goes for the total cap, the next of its session for the session cap.
    assert_eq!(doomed, vec![true, false, true, false, false]);
    let left = |session: i64| -> i64 {
        rows.iter()
            .zip(&doomed)
            .filter(|(r, d)| !**d && r.session_id == session)
            .map(|(r, _)| r.byte_size)
            .sum()
    };
    assert_eq!((left(1), left(2), left(3)), (50, 50, 50));
    // A cap that cannot be kept takes all that is dead, and nothing else.
    let none = GcCaps { total_bytes: 0, ..caps };
    assert_eq!(plan(&rows, &vec![1, 2], 1_000_000, &none), vec![true, true, true, true, false]);
}
