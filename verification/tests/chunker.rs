use repo_link::model::ids::{TaskId, WorkspaceId};
use repo_link::search::chunker::{
    bounded_anchor, chunk_task, pack_body, split_paragraphs, ChunkKind, CommentTextRow,
    TaskTextRow, CHUNK_BUDGET_BYTES,
};
use sha2::Digest;

fn row(title: &str, body: &str) -> TaskTextRow {
    TaskTextRow {
        task_id: TaskId(1),
        workspace_id: WorkspaceId(2),
        repo_id: None,
        is_open: true,
        title: title.to_string(),
        body: body.to_string(),
        comments: Vec::new(),
    }
}

#[test]
fn short_body_is_one_core_chunk() {
    let r = row("Fix the retry loop", "It double-acks on timeout.");
    let chunks = chunk_task(&r);
    assert_eq!(chunks.len(), 1, "short task -> one core chunk");
    assert_eq!(chunks[0].kind, ChunkKind::Core);
    assert!(chunks[0]
        .text
        .starts_with("Title: Fix the retry loop\n\nDescription:"));
    assert_eq!(chunks[0].content_hash.len(), 32);
}

#[test]
fn empty_body_is_title_only() {
    let r = row("RFC-0002", "");
    let chunks = chunk_task(&r);
    assert_eq!(chunks.len(), 1);
    assert_eq!(chunks[0].text, "Title: RFC-0002\n\nDescription:");
}

#[test]
fn long_body_chunks_without_dropping_text() {
    let para = "word ".repeat(400);
    let r = row("T", &format!("{para}\n\n{para}"));
    let chunks = chunk_task(&r);
    assert!(
        chunks.len() >= 4,
        "long body -> multiple chunks: {}",
        chunks.len()
    );
    let joined: String = chunks
        .iter()
        .map(|c| c.text.as_str())
        .collect::<Vec<_>>()
        .join("");
    for _ in 0..2 {
        assert!(joined.contains("word word"));
    }
    for c in &chunks {
        assert!(c.text.len() <= CHUNK_BUDGET_BYTES + "…".len() + 8);
    }
}

#[test]
fn oversized_title_gets_own_chunk_and_bounded_anchor() {
    let long_title = "x".repeat(1500);
    let body = "body paragraph";
    let r = row(&long_title, body);
    let chunks = chunk_task(&r);
    assert!(chunks.len() >= 2);
    assert!(chunks[0].text.contains(&long_title));
    assert!(chunks[1].text.contains("…"));
    assert!(chunks[1].text.contains("body paragraph"));
}

#[test]
fn comments_are_separate_anchored_chunks() {
    let r = TaskTextRow {
        task_id: TaskId(1),
        workspace_id: WorkspaceId(2),
        repo_id: None,
        is_open: true,
        title: "T".into(),
        body: "B".into(),
        comments: vec![
            CommentTextRow {
                remote_comment_id: Some("123".into()),
                body: "first comment".into(),
            },
            CommentTextRow {
                remote_comment_id: Some("456".into()),
                body: "".into(),
            },
        ],
    };
    let chunks = chunk_task(&r);
    // core + one non-empty comment; the empty comment is skipped.
    assert_eq!(chunks.len(), 2);
    let comment = &chunks[1];
    assert_eq!(comment.kind, ChunkKind::Comment);
    assert!(comment.text.starts_with("Title: T\n\nComment:"));
    assert!(comment.text.contains("first comment"));
}

#[test]
fn chunking_is_deterministic() {
    let row = row("Same input", "Same body\n\nwith two paras");
    let a = chunk_task(&row);
    let b = chunk_task(&row);
    assert_eq!(a, b);
}

#[test]
fn content_hash_is_the_sha256_of_the_text() {
    let c = &chunk_task(&row("RFC-0002", ""))[0];
    let expected: [u8; 32] = {
        sha2::Sha256::digest(c.text.as_bytes()).into()
    };
    assert_eq!(c.content_hash, expected);
    assert_eq!(c.task_id, TaskId(1));
}

#[test]
fn paragraphs_are_split_at_blank_lines() {
    assert_eq!(
        split_paragraphs("one\n\ntwo\n\nthree"),
        vec!["one".to_string(), "two".to_string(), "three".to_string()]
    );
}

#[test]
fn every_scalar_but_newlines_survives_packing() {
    let body = format!("{}\n\n{}. {}", "é".repeat(700), "x".repeat(800), "y".repeat(900));
    let header = "Title: T\n\nDescription:";
    let chunks = pack_body(header, &body);
    let kept: String = chunks
        .iter()
        .map(|c| c.strip_prefix(header).unwrap_or(c))
        .collect::<Vec<_>>()
        .concat();
    let strip = |s: &str| s.chars().filter(|c| *c != '\n').collect::<String>();
    assert_eq!(strip(&kept).matches('é').count(), 700);
    assert_eq!(strip(&kept).matches('x').count(), 800);
    assert_eq!(strip(&kept).matches('y').count(), 900);
    for c in &chunks {
        assert!(c.len() <= CHUNK_BUDGET_BYTES, "{}", c.len());
    }
}

#[test]
fn anchor_leaves_room_for_the_body() {
    let anchor = bounded_anchor(&"é".repeat(2000), "Description");
    assert!(anchor.ends_with("…"));
    assert!("Title: \n\nDescription:\n".len() + anchor.len() + 300 <= CHUNK_BUDGET_BYTES);
    assert_eq!(bounded_anchor("short", "Description"), "short");
}

#[test]
fn paragraph_that_fits_on_its_own_is_kept_whole() {
    let body = format!("{}\n\nOne. Two", "a".repeat(890));
    assert_eq!(
        pack_body("H:", &body),
        vec![format!("H:{}", "a".repeat(890)), "H:One. Two".to_string()]
    );
    // Only a paragraph over the budget is cut, at the ends of its sentences.
    let long = format!("{}. Tail", "b".repeat(895));
    assert_eq!(
        pack_body("H:", &format!("Head.\n\n{long}")),
        vec![
            "H:Head.".to_string(),
            format!("H:{}.", "b".repeat(895)),
            "H: Tail".to_string()
        ]
    );
}

#[test]
fn short_paragraphs_share_a_chunk() {
    assert_eq!(pack_body("H:", "a\n\n\n\nb"), vec!["H:a\n\nb".to_string()]);
    assert!(pack_body("H:", "").is_empty());
}
