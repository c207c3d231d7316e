use repo_link::model::ids::{TaskId, WorkspaceId};
use repo_link::search::assemble::{
    collect_lanes, evidence, promote_literal, rank_results, LexicalRank, TaskIdentity,
};
use repo_link::search::chunker::{chunk_task, ChunkKind, CommentTextRow, TaskTextRow};
use repo_link::search::fingerprint::{content_fingerprint, projected_bytes, signature_of};
use repo_link::search::lane::{RankEntry, Weighted};
use repo_link::search::literal::{
    columns, literal_lane, literal_occurrence_ranking, Evidence, MatchedSourceKind, EXCERPT_LIMIT,
};
use repo_link::search::match_expr::build_match_expr;
use repo_link::search::query_mode::QueryMode;
use repo_link::search::session::{
    chunk_all, IndexMetadata, LexicalState, LexicalUnavailableReason, Phase, SearchError,
    SearchSession, SemanticSkippedReason, SemanticState,
};
use repo_link::search::vectors::{
    accepts_vectors, on_stored, plan_segments, FillOutcome, FillPass, FillStep, MissingInput,
};
use sha2::Digest;

fn row(id: u128, title: &str, body: &str) -> TaskTextRow {
    TaskTextRow {
        task_id: TaskId(id),
        workspace_id: WorkspaceId(9),
        repo_id: None,
        is_open: true,
        title: title.to_string(),
        body: body.to_string(),
        comments: Vec::new(),
    }
}

fn identity(name: &str) -> TaskIdentity {
    TaskIdentity {
        display_id: name.to_string(),
        workspace_id: WorkspaceId(9),
        workspace_name: "ws".to_string(),
        title: format!("title of {name}"),
    }
}

fn lex(id: u128, rank: usize) -> LexicalRank {
    LexicalRank {
        task_id: TaskId(id),
        rank,
        evidence: Evidence {
            kind: MatchedSourceKind::Core,
            remote_comment_id: None,
            excerpt: format!("chunk {id}"),
        },
    }
}

// ---------- match expression ----------

#[test]
fn match_expression_quotes_each_word() {
    assert_eq!(build_match_expr("retry loop"), "\"retry\" OR \"loop\"");
    assert_eq!(build_match_expr("say \"hi\""), "\"say\" OR \"\"\"hi\"\"\"");
}

#[test]
fn joined_queries_match_either() {
    let (a, b) = ("retry  loop", "say \"hi\" ");
    assert_eq!(
        build_match_expr(&format!("{a} {b}")),
        format!("{} OR {}", build_match_expr(a), build_match_expr(b))
    );
    assert_eq!(build_match_expr("a\"b"), "\"a\"\"b\"");
    assert_eq!(build_match_expr(" \t"), "");
}

#[test]
fn match_expression_is_immune_to_operators() {
    assert_eq!(build_match_expr("a AND b*"), "\"a\" OR \"AND\" OR \"b*\"");
}

#[test]
fn words_end_at_white_space_alone() {
    let spaces = [
        '\t', '\n', '\u{B}', '\u{C}', '\r', ' ', '\u{85}', '\u{A0}', '\u{1680}', '\u{2000}',
        '\u{2001}', '\u{2002}', '\u{2003}', '\u{2004}', '\u{2005}', '\u{2006}', '\u{2007}',
        '\u{2008}', '\u{2009}', '\u{200A}', '\u{2028}', '\u{2029}', '\u{202F}', '\u{205F}',
        '\u{3000}',
    ];
    for c in '\0'..=char::MAX {
        assert_eq!(
            build_match_expr(c.encode_utf8(&mut [0; 4])).is_empty(),
            spaces.contains(&c),
            "c={c:?}"
        );
    }
    for c in spaces {
        assert_eq!(build_match_expr(&format!("a{c}b")), "\"a\" OR \"b\"");
    }
}

#[test]
fn quotes_in_a_query_stay_inside_the_terms() {
    assert_eq!(
        build_match_expr("\" OR \"x\""),
        "\"\"\"\" OR \"OR\" OR \"\"\"x\"\"\""
    );
}

// ---------- literal lane ----------

#[test]
fn literal_lane_counts_over_all_columns() {
    let mut r = row(1, "retry the retry", "no hit");
    r.comments.push(CommentTextRow {
        remote_comment_id: Some("c1".into()),
        body: "Retry again".into(),
    });
    let lits = literal_lane(&vec![r, row(2, "other", "words")], "retry", QueryMode::Natural);
    assert_eq!(lits.len(), 2);
    assert_eq!(lits[0].occurrence, 3);
    assert!(lits[0].full_present && lits[0].contributed);
    assert_eq!(lits[0].evidence.kind, MatchedSourceKind::Core);
    assert_eq!(lits[1].occurrence, 0);
    assert!(!lits[1].contributed);
    assert_eq!(lits[1].evidence.excerpt, "other");
}

#[test]
fn literal_evidence_names_its_comment() {
    let mut r = row(1, "title", "body");
    r.comments.push(CommentTextRow {
        remote_comment_id: Some("c1".into()),
        body: "the needle is here".into(),
    });
    let lits = literal_lane(&vec![r], "needle", QueryMode::Exact);
    assert_eq!(lits[0].evidence.kind, MatchedSourceKind::Comment);
    assert_eq!(lits[0].evidence.remote_comment_id, Some("c1".to_string()));
    assert!(lits[0].evidence.excerpt.contains("needle"));
}

#[test]
fn empty_comments_are_no_columns() {
    let mut r = row(1, "title", "");
    for (id, body) in [("c1", ""), ("c2", "said"), ("c3", " ")] {
        r.comments.push(CommentTextRow {
            remote_comment_id: Some(id.into()),
            body: body.into(),
        });
    }
    let found: Vec<(String, MatchedSourceKind, Option<String>)> = columns(&r)
        .into_iter()
        .map(|c| (c.text, c.kind, c.remote_comment_id))
        .collect();
    assert_eq!(
        found,
        vec![
            ("title".to_string(), MatchedSourceKind::Core, None),
            (String::new(), MatchedSourceKind::Core, None),
            ("said".to_string(), MatchedSourceKind::Comment, Some("c2".to_string())),
            (" ".to_string(), MatchedSourceKind::Comment, Some("c3".to_string())),
        ]
    );
}

#[test]
fn identifier_tokens_may_stand_apart() {
    let r = row(1, "fix a_b", "see c::d");
    let both = literal_lane(&vec![r], "a_b c::d", QueryMode::Identifier);
    assert!(!both[0].full_present);
    assert!(both[0].all_tokens_present);
    assert!(both[0].contributed);
    let natural = literal_lane(&vec![row(1, "fix a_b", "see c::d")], "a_b c::d", QueryMode::Natural);
    assert!(!natural[0].all_tokens_present);
}

#[test]
fn long_evidence_is_cut_to_the_limit() {
    let text = format!("{} needle {}", "a".repeat(900), "b".repeat(900));
    let lits = literal_lane(&vec![row(1, "t", &text)], "needle", QueryMode::Natural);
    assert!(lits[0].evidence.excerpt.contains("needle"));
    assert!(lits[0].evidence.excerpt.len() <= EXCERPT_LIMIT + 2 * "\u{2026}".len());
}

#[test]
fn occurrence_ranking_leaves_out_tasks_without_a_hit() {
    let lits = literal_lane(
        &vec![row(3, "x", "none"), row(2, "hit", "hit hit"), row(1, "hit", "")],
        "hit",
        QueryMode::Natural,
    );
    assert_eq!(
        literal_occurrence_ranking(&lits),
        vec![
            RankEntry {
                task_id: TaskId(2),
                rank: 1
            },
            RankEntry {
                task_id: TaskId(1),
                rank: 2
            },
        ]
    );
}

// ---------- assembly ----------

#[test]
fn only_lanes_that_rank_are_fused() {
    let occurrence: Vec<RankEntry> = Vec::new();
    let lanes = collect_lanes(&vec![lex(4, 1)], &occurrence, &vec![TaskId(5), TaskId(4)]);
    assert_eq!(lanes.len(), 2);
    assert_eq!(lanes[0].len(), 1);
    assert_eq!(
        lanes[1],
        vec![
            RankEntry {
                task_id: TaskId(5),
                rank: 1
            },
            RankEntry {
                task_id: TaskId(4),
                rank: 2
            },
        ]
    );
}

#[test]
fn literal_matches_lead_in_exact_mode_only() {
    let lits = literal_lane(
        &vec![row(1, "zzz", ""), row(2, "needle", "")],
        "needle",
        QueryMode::Exact,
    );
    let order = vec![TaskId(1), TaskId(2)];
    assert_eq!(
        promote_literal(&order, &lits, QueryMode::Exact),
        vec![TaskId(2), TaskId(1)]
    );
    assert_eq!(promote_literal(&order, &lits, QueryMode::Natural), order);
}

#[test]
fn results_are_cut_to_the_limit() {
    let scores = vec![
        Weighted {
            task_id: TaskId(1),
            weight: 1,
        },
        Weighted {
            task_id: TaskId(2),
            weight: 3,
        },
        Weighted {
            task_id: TaskId(3),
            weight: 2,
        },
    ];
    assert_eq!(
        rank_results(&scores, &Vec::new(), QueryMode::Natural, 2),
        vec![TaskId(2), TaskId(3)]
    );
}

#[test]
fn evidence_prefers_literal_over_lexical_over_title() {
    let lits = literal_lane(&vec![row(1, "needle", "")], "needle", QueryMode::Natural);
    let l = lex(1, 1);
    let title = "shown".to_string();
    assert_eq!(evidence(Some(&lits[0]), Some(&l), &title).excerpt, "needle");
    assert_eq!(evidence(None, Some(&l), &title).excerpt, "chunk 1");
    let fallback = evidence(None, None, &title);
    assert_eq!(fallback.excerpt, "shown");
    assert_eq!(fallback.kind, MatchedSourceKind::Core);
}

// ---------- fingerprint ----------

#[test]
fn fingerprint_ignores_the_order_of_chunks() {
    let a = chunk_task(&row(1, "one", "first"));
    let b = chunk_task(&row(2, "two", "second"));
    let ab: Vec<_> = a.iter().chain(b.iter()).cloned().collect();
    let ba: Vec<_> = b.iter().chain(a.iter()).cloned().collect();
    assert_eq!(signature_of(&ab), signature_of(&ba));
    assert_eq!(content_fingerprint(&ab), content_fingerprint(&ba));
    assert_ne!(content_fingerprint(&ab), content_fingerprint(&a));
}

#[test]
fn fingerprint_is_the_sha256_of_the_signature() {
    let chunks = chunk_task(&row(1, "one", "first"));
    let expected: [u8; 32] = sha2::Sha256::digest(signature_of(&chunks)).into();
    assert_eq!(content_fingerprint(&chunks), expected);
}

#[test]
fn projection_counts_each_chunk() {
    let chunks = chunk_task(&row(1, "one", "first"));
    assert_eq!(projected_bytes(&chunks), 1200);
    assert_eq!(projected_bytes(&Vec::new()), 0);
}

#[test]
fn chunks_keep_their_task() {
    let all = chunk_all(&vec![row(1, "one", "first"), row(2, "two", "second")]);
    assert_eq!(all.len(), 2);
    assert_eq!(all[0].task_id, TaskId(1));
    assert_eq!(all[1].task_id, TaskId(2));
    assert_eq!(all[1].kind, ChunkKind::Core);
}

// ---------- vectors ----------

#[test]
fn fill_ends_complete_incomplete_or_failed() {
    let mut pass = FillPass::start(1);
    assert_eq!(pass.on_missing(Some(3)), FillStep::Embed);
    assert_eq!(pass.batches, 1);
    assert_eq!(
        pass.on_missing(Some(3)),
        FillStep::Done(FillOutcome::Incomplete)
    );
    assert_eq!(
        pass.on_missing(Some(0)),
        FillStep::Done(FillOutcome::Complete)
    );
    assert_eq!(pass.on_missing(None), FillStep::Done(FillOutcome::Failed));
}

#[test]
fn short_embed_reply_is_not_stored() {
    assert!(accepts_vectors(2, Some(2)));
    assert!(!accepts_vectors(2, Some(1)));
    assert!(!accepts_vectors(2, None));
    assert_eq!(on_stored(Some(1)), FillStep::ReadMissing);
    assert_eq!(on_stored(Some(0)), FillStep::Done(FillOutcome::Failed));
    assert_eq!(on_stored(None), FillStep::Done(FillOutcome::Failed));
}

#[test]
fn segments_carry_the_hash_of_their_input() {
    let missing = vec![MissingInput {
        search_chunk_id: 7,
        task_id: TaskId(1),
        content_hash: [3; 32],
        text: "whole".into(),
    }];
    let segs = plan_segments(&missing, &vec![vec!["who".to_string(), "le".to_string()]]);
    assert_eq!(segs.len(), 2);
    assert_eq!(segs[1].segment_index, 1);
    assert_eq!(segs[1].search_chunk_id, 7);
    let expected: [u8; 32] = sha2::Sha256::digest("le".as_bytes()).into();
    assert_eq!(segs[1].embedding_input_hash, expected);
}

// ---------- session ----------

fn meta(profile: Option<&str>) -> Option<IndexMetadata> {
    Some(IndexMetadata {
        schema_incompatible: false,
        embedding_profile_id: profile.map(str::to_string),
    })
}

fn session(embedder: Option<&str>) -> SearchSession {
    match SearchSession::start("  retry  ", false, 5, embedder.map(str::to_string)) {
        Ok(s) => s,
        Err(e) => panic!("{e:?}"),
    }
}

#[test]
fn blank_query_and_zero_limit_are_refused() {
    assert_eq!(
        SearchSession::start(" \t ", false, 5, None).err(),
        Some(SearchError::EmptyQuery)
    );
    assert_eq!(
        SearchSession::start("q", false, 0, None).err(),
        Some(SearchError::ZeroLimit)
    );
    assert_eq!(SearchError::EmptyQuery.message(), "empty query");
    assert_eq!(SearchError::ZeroLimit.message(), "--limit must be > 0");
    assert_eq!(
        SearchError::Source("down".into()).message(),
        "search backend: down"
    );
}

#[test]
fn all_three_lanes_reach_the_response() {
    let rows = vec![row(1, "retry loop", "body"), row(2, "other", "words")];
    let mut s = session(Some("p1"));
    assert_eq!(s.query, "retry");
    s.on_metadata(meta(Some("p1")));
    assert_eq!(s.phase, Phase::ReconcileRows);
    let (growth, print) = s.on_reconcile_rows(&rows);
    assert_eq!(growth, 2400);
    assert_eq!(print, content_fingerprint(&chunk_all(&rows)));
    s.on_begun(true);
    s.on_diffed(None);
    s.on_committed(true);
    assert_eq!(s.phase, Phase::FillVectors);
    s.on_filled(FillOutcome::Complete);
    s.on_result_rows(&rows);
    assert_eq!(s.phase, Phase::SearchLexical);
    assert_eq!(s.match_expression(), "\"retry\"");
    s.on_lexical(vec![lex(1, 1)]);
    s.on_query_planned(Some(1));
    s.on_query_embedded(true);
    s.on_semantic(Some(vec![TaskId(2), TaskId(1)]));
    assert_eq!(s.lanes().len(), 3);
    s.on_fused(&vec![
        Weighted {
            task_id: TaskId(1),
            weight: 10,
        },
        Weighted {
            task_id: TaskId(2),
            weight: 4,
        },
    ]);
    assert_eq!(s.order, vec![TaskId(1), TaskId(2)]);
    let r = s.finish(vec![identity("a"), identity("b")]);
    assert_eq!(r.lexical_unavailable, None);
    assert_eq!(r.semantic_skipped, None);
    assert_eq!(r.results.len(), 2);
    assert_eq!(r.results[0].rank, 1);
    assert_eq!(r.results[0].matched.lexical_rank, Some(1));
    assert_eq!(r.results[0].matched.semantic_rank, Some(2));
    assert_eq!(r.results[1].matched.lexical_rank, None);
    assert_eq!(r.results[1].matched_source.excerpt, "title of b");
}

#[test]
fn unreadable_index_closes_both_index_lanes() {
    let mut s = session(Some("p1"));
    s.on_metadata(None);
    assert_eq!(
        s.lexical,
        LexicalState::Unavailable(LexicalUnavailableReason::SidecarUnavailable)
    );
    assert_eq!(
        s.semantic,
        SemanticState::Skipped(SemanticSkippedReason::LexicalIndexUnavailable)
    );
    s.on_result_rows(&vec![row(1, "retry", "")]);
    assert_eq!(s.phase, Phase::Fuse);
    s.on_fused(&vec![Weighted {
        task_id: TaskId(1),
        weight: 1,
    }]);
    let r = s.finish(vec![identity("a")]);
    assert_eq!(
        r.lexical_unavailable,
        Some(LexicalUnavailableReason::SidecarUnavailable)
    );
    assert_eq!(r.results[0].matched_source.excerpt, "retry");
}

#[test]
fn refused_diff_and_failed_commit_are_rolled_back() {
    let mut s = session(None);
    s.on_metadata(meta(None));
    s.on_reconcile_rows(&Vec::new());
    s.on_begun(true);
    s.on_diffed(Some(LexicalUnavailableReason::Index("full".into())));
    assert_eq!(s.phase, Phase::Rollback);
    s.on_rolled_back();
    assert_eq!(s.phase, Phase::ResultRows);

    let mut s = session(None);
    s.on_metadata(meta(None));
    s.on_reconcile_rows(&Vec::new());
    s.on_begun(true);
    s.on_diffed(None);
    s.on_committed(false);
    assert_eq!(
        s.lexical,
        LexicalState::Unavailable(LexicalUnavailableReason::ReconciliationFailed)
    );
    assert_eq!(s.phase, Phase::Rollback);
}

#[test]
fn schema_mismatch_and_unopened_transaction_close_the_lexical_lane() {
    let mut s = session(None);
    s.on_metadata(Some(IndexMetadata {
        schema_incompatible: true,
        embedding_profile_id: None,
    }));
    assert_eq!(
        s.lexical,
        LexicalState::Unavailable(LexicalUnavailableReason::SchemaMismatch)
    );
    let mut s = session(None);
    s.on_metadata(meta(None));
    s.on_reconcile_rows(&Vec::new());
    s.on_begun(false);
    assert_eq!(
        s.lexical,
        LexicalState::Unavailable(LexicalUnavailableReason::SidecarUnavailable)
    );
}

fn committed(embedder: Option<&str>, profile: Option<&str>) -> SearchSession {
    let mut s = session(embedder);
    s.on_metadata(meta(profile));
    s.on_reconcile_rows(&Vec::new());
    s.on_begun(true);
    s.on_diffed(None);
    s.on_committed(true);
    s
}

#[test]
fn semantic_lane_is_skipped_with_its_reason() {
    assert_eq!(
        committed(None, Some("p1")).semantic,
        SemanticState::Skipped(SemanticSkippedReason::ModelNotPrepared)
    );
    assert_eq!(
        committed(Some("p1"), Some("p2")).semantic,
        SemanticState::Skipped(SemanticSkippedReason::ProfileMismatch)
    );
    let mut claim = committed(Some("p1"), None);
    assert_eq!(claim.phase, Phase::ClaimProfile);
    claim.on_profile_claimed(false);
    assert_eq!(
        claim.semantic,
        SemanticState::Skipped(SemanticSkippedReason::ProfileMismatch)
    );
    let mut partial = committed(Some("p1"), Some("p1"));
    partial.on_filled(FillOutcome::Incomplete);
    assert_eq!(
        partial.semantic,
        SemanticState::Skipped(SemanticSkippedReason::EmbeddingFailed)
    );
    let mut long = committed(Some("p1"), None);
    long.on_profile_claimed(true);
    long.on_filled(FillOutcome::Complete);
    long.on_result_rows(&Vec::new());
    long.on_lexical(Vec::new());
    long.on_query_planned(Some(2));
    assert_eq!(
        long.semantic,
        SemanticState::Skipped(SemanticSkippedReason::QueryTooLong)
    );
    let mut failed = committed(Some("p1"), Some("p1"));
    failed.on_filled(FillOutcome::Complete);
    failed.on_result_rows(&Vec::new());
    failed.on_lexical(Vec::new());
    failed.on_query_planned(Some(1));
    failed.on_query_embedded(false);
    assert_eq!(
        failed.semantic,
        SemanticState::Skipped(SemanticSkippedReason::EmbeddingFailed)
    );
}
