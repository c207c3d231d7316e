//! One search, from request to response.
//!
//! The session decides what to ask next of the index, the task store and the
//! embedder, and takes their replies. The lexical index is brought up to date
//! first; the semantic lane runs only over a usable index with complete vector
//! coverage; a failing lane is reported, never guessed at.

use super::assemble::{
    self, build_result, collect_lanes, rank_results, LexicalRank, SearchResult, TaskIdentity,
};
use super::chunker::{self, chunk_task, ChunkTarget, TaskTextRow};
use super::fingerprint::{self, content_fingerprint, projected_bytes};
use super::lane::{RankEntry, Weighted};
use super::literal::{self, literal_lane, literal_occurrence_ranking, TaskLiteral};
use super::match_expr::{self, build_match_expr};
use super::query_mode::{self, classify, QueryMode};
use super::vectors::FillOutcome;
use crate::model::ids::TaskId;
use crate::text::{self, trim_of};
use vstd::prelude::*;

verus! {

#[derive(Clone, Debug, PartialEq, Eq)]
pub enum SearchError {
    EmptyQuery,
    ZeroLimit,
    /// The task store or the index failed; the text is theirs.
    Source(String),
}

impl SearchError {
    /// The message shown to the user.
    pub fn message(&self) -> (out: String)
        ensures
            out@ == match *self {
                SearchError::EmptyQuery => "empty query"@,
                SearchError::ZeroLimit => "--limit must be > 0"@,
                SearchError::Source(e) => "search backend: "@ + e@,
            },
    {
        match self {
            SearchError::EmptyQuery => "empty query".to_owned(),
            SearchError::ZeroLimit => "--limit must be > 0".to_owned(),
            SearchError::Source(e) => {
                let mut out = "search backend: ".to_owned();
                out.append(e.as_str());
                out
            },
        }
    }
}

/// Why the lexical lane did not run.
#[derive(Clone, Debug, PartialEq, Eq)]
pub enum LexicalUnavailableReason {
    SidecarUnavailable,
    SchemaMismatch,
    ReconciliationFailed,
    /// A reason that the index itself gave.
    Index(String),
}

/// Why the semantic lane did not run.
#[derive(Clone, Copy, Debug, PartialEq, Eq, Structural)]
pub enum SemanticSkippedReason {
    ModelNotPrepared,
    LexicalIndexUnavailable,
    ProfileMismatch,
    EmbeddingFailed,
    QueryTooLong,
}

#[derive(Clone, Debug, PartialEq, Eq)]
pub enum LexicalState {
    Available,
    Unavailable(LexicalUnavailableReason),
}

#[derive(Clone, Copy, Debug, PartialEq, Eq, Structural)]
pub enum SemanticState {
    Undecided,
    Available,
    Skipped(SemanticSkippedReason),
}

/// What the session asks for next.
#[derive(Clone, Copy, Debug, PartialEq, Eq, Structural)]
pub enum Phase {
    /// Read the index metadata.
    Metadata,
    /// Load the text of every task.
    ReconcileRows,
    /// Open a reconcile transaction.
    BeginReconcile,
    /// Hand it the wanted chunks.
    DiffChunks,
    /// Commit it under the fingerprint.
    Commit,
    /// Roll it back.
    Rollback,
    /// Claim an index without an embedding profile for the embedder's.
    ClaimProfile,
    /// Fill missing vectors, one batch at most.
    FillVectors,
    /// Open the result snapshot and read its eligible rows.
    ResultRows,
    /// Run the match expression over the eligible tasks.
    SearchLexical,
    /// Plan the query's embedding inputs.
    PlanQuery,
    /// Embed the query.
    EmbedQuery,
    /// Rank the eligible tasks by the query's vector.
    SearchSemantic,
    /// Fuse the lanes.
    Fuse,
    /// Read the identities of the tasks to show.
    Identities,
}

/// What the session reads of the index metadata.
#[derive(Clone, Debug, PartialEq, Eq)]
pub struct IndexMetadata {
    /// The index was written under a schema that this one cannot read.
    pub schema_incompatible: bool,
    /// The embedding profile that the index was filled under.
    pub embedding_profile_id: Option<String>,
}

pub struct SearchSession {
    pub query: String,
    pub mode: QueryMode,
    pub limit: usize,
    /// The embedder's profile, where one is attached.
    pub embedder: Option<String>,
    pub phase: Phase,
    pub lexical: LexicalState,
    pub semantic: SemanticState,
    pub index_profile: Option<String>,
    pub targets: Vec<ChunkTarget>,
    pub eligible: Vec<TaskId>,
    pub literal: Vec<TaskLiteral>,
    pub lexical_ranks: Vec<LexicalRank>,
    pub semantic_ranks: Vec<TaskId>,
    pub order: Vec<TaskId>,
}

#[derive(Clone, Debug, PartialEq, Eq)]
pub struct TaskSearchResponse {
    pub query: String,
    pub query_mode: QueryMode,
    pub lexical_unavailable: Option<LexicalUnavailableReason>,
    pub semantic_skipped: Option<SemanticSkippedReason>,
    pub results: Vec<SearchResult>,
}

/// The chunks of a list of tasks, task after task.
pub open spec fn wanted_chunks(rows: Seq<TaskTextRow>) -> Seq<chunker::ChunkView>
    decreases rows.len(),
{
    if rows.len() == 0 {
        Seq::empty()
    } else {
        wanted_chunks(rows.drop_last()) + chunker::task_chunks(rows.last())
    }
}

/// The chunks that the index should hold for `rows`.
pub fn chunk_all(rows: &Vec<TaskTextRow>) -> (out: Vec<ChunkTarget>)
    ensures
        chunker::chunk_views(out@) == wanted_chunks(rows@),
{
    let mut out: Vec<ChunkTarget> = Vec::new();
    let mut i: usize = 0;
    assert(rows@.take(0) =~= Seq::empty());
    assert(chunker::chunk_views(out@) =~= wanted_chunks(rows@.take(0)));
    while i < rows.len()
        invariant
            i <= rows.len(),
            chunker::chunk_views(out@) == wanted_chunks(rows@.take(i as int)),
        decreases rows.len() - i,
    {
        let mut more = chunk_task(&rows[i]);
        let ghost before = out@;
        let ghost added = more@;
        out.append(&mut more);
        proof {
            let longer = rows@.take(i as int + 1);
            assert(longer.drop_last() =~= rows@.take(i as int));
            assert(longer.last() == rows@[i as int]);
            assert(out@ =~= before + added);
            assert(chunker::chunk_views(out@) =~= chunker::chunk_views(before)
                + chunker::chunk_views(added));
        }
        i += 1;
    }
    assert(rows@.take(i as int) =~= rows@);
    out
}

/// The tasks of a list of rows.
pub open spec fn row_ids(rows: Seq<TaskTextRow>) -> Seq<TaskId> {
    rows.map_values(|r: TaskTextRow| r.task_id)
}

fn ids_of(rows: &Vec<TaskTextRow>) -> (out: Vec<TaskId>)
    ensures
        out@ == row_ids(rows@),
{
    let mut out: Vec<TaskId> = Vec::new();
    let mut i: usize = 0;
    while i < rows.len()
        invariant
            i <= rows.len(),
            out@ == row_ids(rows@).take(i as int),
        decreases rows.len() - i,
    {
        out.push(rows[i].task_id);
        assert(out@ =~= row_ids(rows@).take(i as int + 1));
        i += 1;
    }
    assert(row_ids(rows@).take(i as int) =~= row_ids(rows@));
    out
}

/// What the semantic lane is once the lexical state is settled, and what is
/// asked next.
pub open spec fn semantic_start(
    lexical: LexicalState,
    embedder: Option<String>,
    index_profile: Option<String>,
) -> (SemanticState, Phase) {
    if lexical is Unavailable {
        (
            SemanticState::Skipped(SemanticSkippedReason::LexicalIndexUnavailable),
            Phase::ResultRows,
        )
    } else if embedder is None {
        (SemanticState::Skipped(SemanticSkippedReason::ModelNotPrepared), Phase::ResultRows)
    } else if index_profile is None {
        (SemanticState::Undecided, Phase::ClaimProfile)
    } else if index_profile->0@ == embedder->0@ {
        (SemanticState::Available, Phase::FillVectors)
    } else {
        (SemanticState::Skipped(SemanticSkippedReason::ProfileMismatch), Phase::ResultRows)
    }
}

/// What is asked once the rows, and the lexical lane where it runs, are read.
pub open spec fn after_lexical(semantic: SemanticState) -> Phase {
    if semantic == SemanticState::Available {
        Phase::PlanQuery
    } else {
        Phase::Fuse
    }
}

impl SearchSession {
    /// The semantic lane has been read or skipped.
    pub open spec fn past_semantic(self) -> bool {
        self.phase == Phase::Fuse || self.phase == Phase::Identities
    }

    /// The lexical lane has been read or skipped.
    pub open spec fn past_lexical(self) -> bool {
        ||| self.past_semantic()
        ||| self.phase == Phase::PlanQuery
        ||| self.phase == Phase::EmbedQuery
        ||| self.phase == Phase::SearchSemantic
    }

    /// What holds of a session in every phase: the semantic lane never runs
    /// without the lexical index, nothing is asked of a lane that is not
    /// available, and a lane that did not run ranks nothing.
    pub open spec fn wf(self) -> bool {
        &&& self.query@.len() > 0
        &&& self.limit > 0
        &&& self.semantic == SemanticState::Available ==> self.lexical is Available
            && self.embedder is Some
        &&& self.lexical is Unavailable ==> self.lexical_ranks@.len() == 0
        &&& self.semantic != SemanticState::Available ==> self.semantic_ranks@.len() == 0
        &&& !self.past_lexical() ==> self.lexical_ranks@.len() == 0
        &&& !self.past_semantic() ==> self.semantic_ranks@.len() == 0
        &&& match self.phase {
            Phase::Metadata
            | Phase::ReconcileRows
            | Phase::BeginReconcile
            | Phase::DiffChunks
            | Phase::Commit => self.lexical is Available && self.semantic
                == SemanticState::Undecided,
            Phase::Rollback => self.lexical is Unavailable && self.semantic
                == SemanticState::Undecided,
            Phase::ClaimProfile => self.lexical is Available && self.embedder is Some
                && self.index_profile is None && self.semantic == SemanticState::Undecided,
            Phase::FillVectors
            | Phase::PlanQuery
            | Phase::EmbedQuery
            | Phase::SearchSemantic => self.semantic == SemanticState::Available,
            Phase::SearchLexical => self.lexical is Available && self.semantic
                != SemanticState::Undecided,
            Phase::ResultRows | Phase::Fuse | Phase::Identities => self.semantic
                != SemanticState::Undecided,
        }
    }

    /// Begin a search. A blank query or a limit of zero is refused.
    pub fn start(query: &str, exact: bool, limit: usize, embedder: Option<String>) -> (out: Result<
        Self,
        SearchError,
    >)
        ensures
            match out {
                Err(SearchError::EmptyQuery) => text::trimmed(query@).len() == 0,
                Err(SearchError::ZeroLimit) => text::trimmed(query@).len() > 0 && limit == 0,
                Err(SearchError::Source(_)) => false,
                Ok(s) => {
                    &&& text::trimmed(query@).len() > 0
                    &&& limit > 0
                    &&& s.wf()
                    &&& s.query@ == text::trimmed(query@)
                    &&& s.limit == limit
                    &&& s.embedder == embedder
                    &&& s.phase == Phase::Metadata
                    &&& exact <==> s.mode == QueryMode::Exact
                    &&& s.mode == QueryMode::Identifier <==> !exact && exists|i: int|
                        0 <= i < text::words(s.query@).len() && query_mode::identifier_shape(
                            query_mode::classes(#[trigger] text::words(s.query@)[i]),
                        )
                    &&& s.order@.len() == 0
                },
            },
    {
        let query = trim_of(query);
        if query.as_str().is_empty() {
            return Err(SearchError::EmptyQuery);
        }
        if limit == 0 {
            return Err(SearchError::ZeroLimit);
        }
        let mode = classify(query.as_str(), exact);
        Ok(
            SearchSession {
                query,
                mode,
                limit,
                embedder,
                phase: Phase::Metadata,
                lexical: LexicalState::Available,
                semantic: SemanticState::Undecided,
                index_profile: None,
                targets: Vec::new(),
                eligible: Vec::new(),
                literal: Vec::new(),
                lexical_ranks: Vec::new(),
                semantic_ranks: Vec::new(),
                order: Vec::new(),
            },
        )
    }

    /// Settle whether the semantic lane runs, from the settled lexical state.
    fn enter_semantic(&mut self)
        requires
            old(self).semantic == SemanticState::Undecided,
        ensures
            *final(self) == (SearchSession {
                semantic: semantic_start(
                    old(self).lexical,
                    old(self).embedder,
                    old(self).index_profile,
                ).0,
                phase: semantic_start(
                    old(self).lexical,
                    old(self).embedder,
                    old(self).index_profile,
                ).1,
                ..*old(self)
            }),
    {
        let usable: bool = match &self.lexical {
            LexicalState::Available => true,
            LexicalState::Unavailable(_) => false,
        };
        if !usable {
            self.semantic = SemanticState::Skipped(SemanticSkippedReason::LexicalIndexUnavailable);
            self.phase = Phase::ResultRows;
            return ;
        }
        let settled: Option<bool> = match (&self.embedder, &self.index_profile) {
            (None, _) => {
                self.semantic = SemanticState::Skipped(SemanticSkippedReason::ModelNotPrepared);
                self.phase = Phase::ResultRows;
                return ;
            },
            (Some(_), None) => None,
            (Some(e), Some(p)) => Some(*e == *p),
        };
        match settled {
            None => {
                self.phase = Phase::ClaimProfile;
            },
            Some(true) => {
                self.semantic = SemanticState::Available;
                self.phase = Phase::FillVectors;
            },
            Some(false) => {
                self.semantic = SemanticState::Skipped(SemanticSkippedReason::ProfileMismatch);
                self.phase = Phase::ResultRows;
            },
        }
    }

    /// The metadata was read, or the read failed. An unreadable or
    /// incompatible index closes the lexical lane.
    pub fn on_metadata(&mut self, meta: Option<IndexMetadata>)
        requires
            old(self).wf(),
            old(self).phase == Phase::Metadata,
        ensures
            final(self).wf(),
            match meta {
                Some(m) => if m.schema_incompatible {
                    *final(self) == (SearchSession {
                        lexical: LexicalState::Unavailable(
                            LexicalUnavailableReason::SchemaMismatch,
                        ),
                        index_profile: m.embedding_profile_id,
                        semantic: SemanticState::Skipped(
                            SemanticSkippedReason::LexicalIndexUnavailable,
                        ),
                        phase: Phase::ResultRows,
                        ..*old(self)
                    })
                } else {
                    *final(self) == (SearchSession {
                        index_profile: m.embedding_profile_id,
                        phase: Phase::ReconcileRows,
                        ..*old(self)
                    })
                },
                None => *final(self) == (SearchSession {
                    lexical: LexicalState::Unavailable(
                        LexicalUnavailableReason::SidecarUnavailable,
                    ),
                    semantic: SemanticState::Skipped(
                        SemanticSkippedReason::LexicalIndexUnavailable,
                    ),
                    phase: Phase::ResultRows,
                    ..*old(self)
                }),
            },
    {
        match meta {
            None => {
                self.lexical = LexicalState::Unavailable(
                    LexicalUnavailableReason::SidecarUnavailable,
                );
                self.enter_semantic();
            },
            Some(m) => {
                self.index_profile = m.embedding_profile_id;
                if m.schema_incompatible {
                    self.lexical = LexicalState::Unavailable(
                        LexicalUnavailableReason::SchemaMismatch,
                    );
                    self.enter_semantic();
                } else {
                    self.phase = Phase::ReconcileRows;
                }
            },
        }
    }

    /// The text of every task was loaded. Returns the projected growth and the
    /// fingerprint of the chunks the index should hold.
    pub fn on_reconcile_rows(&mut self, rows: &Vec<TaskTextRow>) -> (out: (u64, [u8; 32]))
        requires
            old(self).wf(),
            old(self).phase == Phase::ReconcileRows,
        ensures
            final(self).wf(),
            *final(self) == (SearchSession {
                targets: final(self).targets,
                phase: Phase::BeginReconcile,
                ..*old(self)
            }),
            chunker::chunk_views(final(self).targets@) == wanted_chunks(rows@),
            out.0 == fingerprint::projection(final(self).targets@.len() as int),
            out.1@ == super::digest::sha256(fingerprint::signature(final(self).targets@)),
    {
        self.targets = chunk_all(rows);
        self.phase = Phase::BeginReconcile;
        (projected_bytes(&self.targets), content_fingerprint(&self.targets))
    }

    /// The reconcile transaction was opened, or could not be.
    pub fn on_begun(&mut self, opened: bool)
        requires
            old(self).wf(),
            old(self).phase == Phase::BeginReconcile,
        ensures
            final(self).wf(),
            opened ==> *final(self) == (SearchSession { phase: Phase::DiffChunks, ..*old(self) }),
            !opened ==> *final(self) == (SearchSession {
                lexical: LexicalState::Unavailable(LexicalUnavailableReason::SidecarUnavailable),
                semantic: SemanticState::Skipped(SemanticSkippedReason::LexicalIndexUnavailable),
                phase: Phase::ResultRows,
                ..*old(self)
            }),
    {
        if opened {
            self.phase = Phase::DiffChunks;
        } else {
            self.lexical = LexicalState::Unavailable(LexicalUnavailableReason::SidecarUnavailable);
            self.enter_semantic();
        }
    }

    /// The wanted chunks were handed over: `Some` is the reason they were
    /// refused for. A refused transaction is rolled back.
    pub fn on_diffed(&mut self, refused: Option<LexicalUnavailableReason>)
        requires
            old(self).wf(),
            old(self).phase == Phase::DiffChunks,
        ensures
            final(self).wf(),
            match refused {
                None => *final(self) == (SearchSession { phase: Phase::Commit, ..*old(self) }),
                Some(reason) => *final(self) == (SearchSession {
                    lexical: LexicalState::Unavailable(reason),
                    phase: Phase::Rollback,
                    ..*old(self)
                }),
            },
    {
        match refused {
            None => {
                self.phase = Phase::Commit;
            },
            Some(reason) => {
                self.lexical = LexicalState::Unavailable(reason);
                self.phase = Phase::Rollback;
            },
        }
    }

    /// The transaction was committed, or the commit failed. A failed commit is
    /// rolled back.
    pub fn on_committed(&mut self, committed: bool)
        requires
            old(self).wf(),
            old(self).phase == Phase::Commit,
        ensures
            final(self).wf(),
            !committed ==> *final(self) == (SearchSession {
                lexical: LexicalState::Unavailable(LexicalUnavailableReason::ReconciliationFailed),
                phase: Phase::Rollback,
                ..*old(self)
            }),
            committed ==> *final(self) == (SearchSession {
                semantic: semantic_start(
                    old(self).lexical,
                    old(self).embedder,
                    old(self).index_profile,
                ).0,
                phase: semantic_start(
                    old(self).lexical,
                    old(self).embedder,
                    old(self).index_profile,
                ).1,
                ..*old(self)
            }),
    {
        if committed {
            self.enter_semantic();
        } else {
            self.lexical = LexicalState::Unavailable(LexicalUnavailableReason::ReconciliationFailed);
            self.phase = Phase::Rollback;
        }
    }

    /// The transaction was rolled back; whether that succeeded changes nothing.
    pub fn on_rolled_back(&mut self)
        requires
            old(self).wf(),
            old(self).phase == Phase::Rollback,
        ensures
            final(self).wf(),
            *final(self) == (SearchSession {
                semantic: SemanticState::Skipped(SemanticSkippedReason::LexicalIndexUnavailable),
                phase: Phase::ResultRows,
                ..*old(self)
            }),
    {
        self.enter_semantic();
    }

    /// The index took the embedder's profile, or did not.
    pub fn on_profile_claimed(&mut self, claimed: bool)
        requires
            old(self).wf(),
            old(self).phase == Phase::ClaimProfile,
        ensures
            final(self).wf(),
            claimed ==> *final(self) == (SearchSession {
                semantic: SemanticState::Available,
                phase: Phase::FillVectors,
                ..*old(self)
            }),
            !claimed ==> *final(self) == (SearchSession {
                semantic: SemanticState::Skipped(SemanticSkippedReason::ProfileMismatch),
                phase: Phase::ResultRows,
                ..*old(self)
            }),
    {
        if claimed {
            self.semantic = SemanticState::Available;
            self.phase = Phase::FillVectors;
        } else {
            self.semantic = SemanticState::Skipped(SemanticSkippedReason::ProfileMismatch);
            self.phase = Phase::ResultRows;
        }
    }

    /// The fill pass ended. The lane runs only over complete coverage.
    pub fn on_filled(&mut self, outcome: FillOutcome)
        requires
            old(self).wf(),
            old(self).phase == Phase::FillVectors,
        ensures
            final(self).wf(),
            *final(self) == (SearchSession {
                semantic: if outcome == FillOutcome::Complete {
                    SemanticState::Available
                } else {
                    SemanticState::Skipped(SemanticSkippedReason::EmbeddingFailed)
                },
                phase: Phase::ResultRows,
                ..*old(self)
            }),
    {
        match outcome {
            FillOutcome::Complete => {},
            FillOutcome::Incomplete | FillOutcome::Failed => {
                self.semantic = SemanticState::Skipped(SemanticSkippedReason::EmbeddingFailed);
            },
        }
        self.phase = Phase::ResultRows;
    }

    /// The eligible rows of the result snapshot were read: the literal lane
    /// runs over them.
    pub fn on_result_rows(&mut self, rows: &Vec<TaskTextRow>)
        requires
            old(self).wf(),
            old(self).phase == Phase::ResultRows,
        ensures
            final(self).wf(),
            *final(self) == (SearchSession {
                eligible: final(self).eligible,
                literal: final(self).literal,
                phase: if old(self).lexical is Available {
                    Phase::SearchLexical
                } else {
                    after_lexical(old(self).semantic)
                },
                ..*old(self)
            }),
            final(self).eligible@ == row_ids(rows@),
            final(self).literal@.len() == rows@.len(),
            forall|i: int|
                0 <= i < rows@.len() ==> literal::finds(
                    #[trigger] final(self).literal@[i],
                    rows@[i],
                    old(self).query@,
                    old(self).mode,
                ),
    {
        self.eligible = ids_of(rows);
        self.literal = literal_lane(rows, self.query.as_str(), self.mode);
        let lexical: bool = match &self.lexical {
            LexicalState::Available => true,
            LexicalState::Unavailable(_) => false,
        };
        self.phase = if lexical {
            Phase::SearchLexical
        } else if self.semantic == SemanticState::Available {
            Phase::PlanQuery
        } else {
            Phase::Fuse
        };
    }

    /// The match expression of the lexical lane.
    pub fn match_expression(&self) -> (out: String)
        ensures
            out@ == match_expr::any_of(text::words(self.query@)),
    {
        build_match_expr(self.query.as_str())
    }

    /// The lexical lane was read.
    pub fn on_lexical(&mut self, ranks: Vec<LexicalRank>)
        requires
            old(self).wf(),
            old(self).phase == Phase::SearchLexical,
        ensures
            final(self).wf(),
            *final(self) == (SearchSession {
                lexical_ranks: ranks,
                phase: after_lexical(old(self).semantic),
                ..*old(self)
            }),
    {
        self.lexical_ranks = ranks;
        self.phase = if self.semantic == SemanticState::Available {
            Phase::PlanQuery
        } else {
            Phase::Fuse
        };
    }

    /// The query's embedding inputs were planned: how many, or `None` where
    /// the plan failed. A query of more than one input is too long.
    pub fn on_query_planned(&mut self, inputs: Option<usize>)
        requires
            old(self).wf(),
            old(self).phase == Phase::PlanQuery,
        ensures
            final(self).wf(),
            inputs is Some && inputs->0 <= 1 ==> *final(self) == (SearchSession {
                phase: Phase::EmbedQuery,
                ..*old(self)
            }),
            !(inputs is Some && inputs->0 <= 1) ==> *final(self) == (SearchSession {
                semantic: SemanticState::Skipped(SemanticSkippedReason::QueryTooLong),
                phase: Phase::Fuse,
                ..*old(self)
            }),
    {
        let single: bool = match inputs {
            Some(n) => n <= 1,
            None => false,
        };
        if single {
            self.phase = Phase::EmbedQuery;
        } else {
            self.semantic = SemanticState::Skipped(SemanticSkippedReason::QueryTooLong);
            self.phase = Phase::Fuse;
        }
    }

    /// The query was embedded, or that failed.
    pub fn on_query_embedded(&mut self, embedded: bool)
        requires
            old(self).wf(),
            old(self).phase == Phase::EmbedQuery,
        ensures
            final(self).wf(),
            embedded ==> *final(self) == (SearchSession {
                phase: Phase::SearchSemantic,
                ..*old(self)
            }),
            !embedded ==> *final(self) == (SearchSession {
                semantic: SemanticState::Skipped(SemanticSkippedReason::EmbeddingFailed),
                phase: Phase::Fuse,
                ..*old(self)
            }),
    {
        if embedded {
            self.phase = Phase::SearchSemantic;
        } else {
            self.semantic = SemanticState::Skipped(SemanticSkippedReason::EmbeddingFailed);
            self.phase = Phase::Fuse;
        }
    }

    /// The semantic lane was read, best first, or that failed.
    pub fn on_semantic(&mut self, ranks: Option<Vec<TaskId>>)
        requires
            old(self).wf(),
            old(self).phase == Phase::SearchSemantic,
        ensures
            final(self).wf(),
            match ranks {
                Some(r) => *final(self) == (SearchSession {
                    semantic_ranks: r,
                    phase: Phase::Fuse,
                    ..*old(self)
                }),
                None => *final(self) == (SearchSession {
                    semantic: SemanticState::Skipped(SemanticSkippedReason::EmbeddingFailed),
                    phase: Phase::Fuse,
                    ..*old(self)
                }),
            },
    {
        match ranks {
            Some(r) => {
                self.semantic_ranks = r;
            },
            None => {
                self.semantic = SemanticState::Skipped(SemanticSkippedReason::EmbeddingFailed);
            },
        }
        self.phase = Phase::Fuse;
    }

    /// The lanes to fuse.
    pub fn lanes(&self) -> (out: Vec<Vec<RankEntry>>)
        ensures
            assemble::lane_views(out@) == assemble::lanes_of(
                self.lexical_ranks@,
                literal::occurrence_places(self.literal@),
                self.semantic_ranks@,
            ),
    {
        let occurrence = literal_occurrence_ranking(&self.literal);
        collect_lanes(&self.lexical_ranks, &occurrence, &self.semantic_ranks)
    }

    /// The lanes were fused: the tasks to show are settled.
    pub fn on_fused(&mut self, scores: &Vec<Weighted>)
        requires
            old(self).wf(),
            old(self).phase == Phase::Fuse,
        ensures
            final(self).wf(),
            *final(self) == (SearchSession {
                order: final(self).order,
                phase: Phase::Identities,
                ..*old(self)
            }),
            final(self).order@ == assemble::shown_tasks(
                scores@,
                old(self).literal@,
                old(self).mode,
                old(self).limit as int,
            ),
            final(self).order@.len() <= old(self).limit,
    {
        self.order = rank_results(scores, &self.literal, self.mode, self.limit);
        self.phase = Phase::Identities;
    }

    /// Build the response from the identities of the tasks to show, in order.
    pub fn finish(self, identities: Vec<TaskIdentity>) -> (out: TaskSearchResponse)
        requires
            self.wf(),
            self.phase == Phase::Identities,
            identities@.len() == self.order@.len(),
        ensures
            out.query == self.query,
            out.query_mode == self.mode,
            out.lexical_unavailable == match self.lexical {
                LexicalState::Available => None,
                LexicalState::Unavailable(reason) => Some(reason),
            },
            out.semantic_skipped == match self.semantic {
                SemanticState::Skipped(reason) => Some(reason),
                _ => None,
            },
            out.semantic_skipped is None <==> self.semantic == SemanticState::Available,
            out.results@.len() == self.order@.len(),
            forall|i: int|
                0 <= i < self.order@.len() ==> #[trigger] out.results@[i] == assemble::result_of(
                    i,
                    self.order@[i],
                    identities@[i],
                    self.literal@,
                    self.lexical_ranks@,
                    self.semantic_ranks@,
                ),
    {
        let mut results: Vec<SearchResult> = Vec::new();
        let mut i: usize = 0;
        while i < self.order.len()
            invariant
                i <= self.order.len(),
                identities@.len() == self.order@.len(),
                results@.len() == i,
                forall|k: int|
                    0 <= k < i ==> #[trigger] results@[k] == assemble::result_of(
                        k,
                        self.order@[k],
                        identities@[k],
                        self.literal@,
                        self.lexical_ranks@,
                        self.semantic_ranks@,
                    ),
            decreases self.order.len() - i,
        {
            let identity = assemble::clone_identity(&identities[i]);
            results.push(
                build_result(
                    i,
                    self.order[i],
                    identity,
                    &self.literal,
                    &self.lexical_ranks,
                    &self.semantic_ranks,
                ),
            );
            i += 1;
        }
        let lexical_unavailable = match self.lexical {
            LexicalState::Available => None,
            LexicalState::Unavailable(reason) => Some(reason),
        };
        let semantic_skipped = match self.semantic {
            SemanticState::Skipped(reason) => Some(reason),
            SemanticState::Available => None,
            SemanticState::Undecided => None,
        };
        TaskSearchResponse {
            query: self.query,
            query_mode: self.mode,
            lexical_unavailable,
            semantic_skipped,
            results,
        }
    }
}

/// The index is to hold the chunks of every task, task after task: those of a
/// joined list are those of the one list, then those of the other, and those of
/// a single task are its own.
pub proof fn law_index_holds_every_task(a: Seq<TaskTextRow>, b: Seq<TaskTextRow>, row: TaskTextRow)
    ensures
        wanted_chunks(a + b) == wanted_chunks(a) + wanted_chunks(b),
        wanted_chunks(seq![row]) == chunker::task_chunks(row),
    decreases b.len(),
{
    lemma_one_task(row);
    if b.len() == 0 {
        assert(a + b =~= a);
        assert(wanted_chunks(a) + wanted_chunks(b) =~= wanted_chunks(a));
    } else {
        let front = b.drop_last();
        let own = chunker::task_chunks(b.last());
        assert((a + b).drop_last() =~= a + front);
        assert((a + b).last() == b.last());
        law_index_holds_every_task(a, front, row);
        assert((wanted_chunks(a) + wanted_chunks(front)) + own =~= wanted_chunks(a) + (
        wanted_chunks(front) + own));
    }
}

proof fn lemma_one_task(row: TaskTextRow)
    ensures
        wanted_chunks(seq![row]) == chunker::task_chunks(row),
{
    let one = seq![row];
    let own = chunker::task_chunks(row);
    assert(one.last() == row);
    assert(one.drop_last().len() == 0);
    assert(wanted_chunks(one.drop_last()) == Seq::<chunker::ChunkView>::empty());
    assert(wanted_chunks(one) == wanted_chunks(one.drop_last()) + own);
    assert(Seq::<chunker::ChunkView>::empty() + own =~= own);
}

/// Every row that was read is eligible, in order.
pub proof fn law_every_row_is_eligible(rows: Seq<TaskTextRow>, i: int)
    requires
        0 <= i < rows.len(),
    ensures
        row_ids(rows).len() == rows.len(),
        row_ids(rows)[i] == rows[i].task_id,
{
}

/// The semantic lane runs if and only if the lexical index is usable, an
/// embedder is attached and the index was filled under its profile; an index
/// without a profile is asked to take it. Else the reason is the first of these
/// that does not hold.
pub proof fn law_semantic_lane_needs_the_index(
    lexical: LexicalState,
    embedder: Option<String>,
    index_profile: Option<String>,
)
    ensures
        ({
            let (state, phase) = semantic_start(lexical, embedder, index_profile);
            &&& (state == SemanticState::Available && phase == Phase::FillVectors) <==> lexical
                == LexicalState::Available && embedder is Some && index_profile is Some
                && embedder->0@ == index_profile->0@
            &&& (state == SemanticState::Undecided && phase == Phase::ClaimProfile) <==> lexical
                == LexicalState::Available && embedder is Some && index_profile is None
            &&& lexical is Unavailable ==> state == SemanticState::Skipped(
                SemanticSkippedReason::LexicalIndexUnavailable,
            )
            &&& lexical == LexicalState::Available && embedder is None ==> state
                == SemanticState::Skipped(SemanticSkippedReason::ModelNotPrepared)
            &&& lexical == LexicalState::Available && embedder is Some && index_profile is Some
                && embedder->0@ != index_profile->0@ ==> state == SemanticState::Skipped(
                SemanticSkippedReason::ProfileMismatch,
            )
            &&& state is Skipped ==> phase == Phase::ResultRows
        }),
{
}

/// After the lexical lane the query is embedded if and only if the semantic
/// lane is available; else the lanes are fused.
pub proof fn law_query_is_embedded_for_the_semantic_lane(semantic: SemanticState)
    ensures
        after_lexical(semantic) == Phase::PlanQuery <==> semantic == SemanticState::Available,
        semantic != SemanticState::Available ==> after_lexical(semantic) == Phase::Fuse,
{
}

/// A blank query is refused, then a limit of zero; any other search begins with
/// the query without the whitespace around it.
pub proof fn law_blank_queries_are_refused(
    query: &str,
    exact: bool,
    limit: usize,
    embedder: Option<String>,
    out: Result<SearchSession, SearchError>,
)
    requires
        call_ensures(SearchSession::start, (query, exact, limit, embedder), out),
    ensures
        out matches Err(SearchError::EmptyQuery) <==> text::trimmed(query@).len() == 0,
        out matches Err(SearchError::ZeroLimit) <==> text::trimmed(query@).len() > 0 && limit == 0,
        out is Ok <==> text::trimmed(query@).len() > 0 && limit > 0,
        out matches Ok(s) ==> {
            &&& s.query@ == text::trimmed(query@)
            &&& s.limit == limit
            &&& s.embedder == embedder
            &&& s.phase == Phase::Metadata
            &&& exact <==> s.mode == QueryMode::Exact
            &&& s.lexical is Available
            &&& s.semantic == SemanticState::Undecided
        },
{
}

/// An index that cannot be read, or was written under another schema, closes the
/// lexical lane and with it the semantic one; the search goes on without them.
pub proof fn law_unreadable_index_closes_both_lanes(
    s: &mut SearchSession,
    meta: Option<IndexMetadata>,
)
    requires
        call_ensures(SearchSession::on_metadata, (s, meta), ()),
        old(s).lexical is Available,
    ensures
        ({
            let readable = meta is Some && !meta->0.schema_incompatible;
            let closed = SemanticState::Skipped(SemanticSkippedReason::LexicalIndexUnavailable);
            &&& readable ==> final(s).phase == Phase::ReconcileRows && final(s).lexical is Available
                && final(s).index_profile == meta->0.embedding_profile_id
            &&& !readable ==> final(s).phase == Phase::ResultRows && final(s).semantic == closed
            &&& meta is None ==> final(s).lexical == LexicalState::Unavailable(
                LexicalUnavailableReason::SidecarUnavailable,
            )
            &&& meta is Some && !readable ==> final(s).lexical == LexicalState::Unavailable(
                LexicalUnavailableReason::SchemaMismatch,
            )
            &&& final(s).query == old(s).query
            &&& final(s).mode == old(s).mode
            &&& final(s).limit == old(s).limit
        }),
{
}

/// The chunks of every task are handed to the index; a transaction that cannot be
/// opened, is refused or fails to commit closes the lexical lane, and one that
/// was opened is rolled back.
pub proof fn law_failed_reconcile_closes_the_lane(
    loaded: &mut SearchSession,
    begun: &mut SearchSession,
    diffed: &mut SearchSession,
    committed: &mut SearchSession,
    rolled: &mut SearchSession,
    rows: &Vec<TaskTextRow>,
    out: (u64, [u8; 32]),
    opened: bool,
    refused: Option<LexicalUnavailableReason>,
    ok: bool,
)
    requires
        call_ensures(SearchSession::on_reconcile_rows, (loaded, rows), out),
        call_ensures(SearchSession::on_begun, (begun, opened), ()),
        call_ensures(SearchSession::on_diffed, (diffed, refused), ()),
        call_ensures(SearchSession::on_committed, (committed, ok), ()),
        call_ensures(SearchSession::on_rolled_back, (rolled,), ()),
    ensures
        chunker::chunk_views(final(loaded).targets@) == wanted_chunks(rows@),
        final(loaded).phase == Phase::BeginReconcile,
        opened ==> final(begun).phase == Phase::DiffChunks && final(begun).lexical == old(
            begun).lexical,
        !opened ==> final(begun).lexical is Unavailable && final(begun).phase == Phase::ResultRows,
        refused is None ==> final(diffed).phase == Phase::Commit && final(diffed).lexical == old(
            diffed).lexical,
        refused matches Some(r) ==> final(diffed).phase == Phase::Rollback && final(diffed).lexical
            == LexicalState::Unavailable(r),
        !ok ==> final(committed).phase == Phase::Rollback && final(committed).lexical
            == LexicalState::Unavailable(LexicalUnavailableReason::ReconciliationFailed),
        ok && old(committed).lexical is Available && old(committed).embedder is None ==> final(
            committed).semantic == SemanticState::Skipped(SemanticSkippedReason::ModelNotPrepared)
            && final(committed).phase == Phase::ResultRows,
        ok && old(committed).lexical is Available && old(committed).embedder is Some && old(
            committed).index_profile is None ==> final(committed).phase == Phase::ClaimProfile,
        final(rolled).phase == Phase::ResultRows,
        final(rolled).lexical == old(rolled).lexical,
        final(rolled).semantic == SemanticState::Skipped(
            SemanticSkippedReason::LexicalIndexUnavailable,
        ),
{
}

/// The semantic lane runs only under the embedder's own profile and over complete
/// vectors.
pub proof fn law_semantic_lane_needs_complete_vectors(
    claimed: &mut SearchSession,
    filled: &mut SearchSession,
    yes: bool,
    outcome: FillOutcome,
)
    requires
        call_ensures(SearchSession::on_profile_claimed, (claimed, yes), ()),
        call_ensures(SearchSession::on_filled, (filled, outcome), ()),
    ensures
        yes ==> final(claimed).semantic == SemanticState::Available && final(claimed).phase
            == Phase::FillVectors,
        !yes ==> final(claimed).semantic == SemanticState::Skipped(
            SemanticSkippedReason::ProfileMismatch,
        ) && final(claimed).phase == Phase::ResultRows,
        final(filled).phase == Phase::ResultRows,
        final(filled).semantic == SemanticState::Available <==> outcome == FillOutcome::Complete,
        outcome != FillOutcome::Complete ==> final(filled).semantic == SemanticState::Skipped(
            SemanticSkippedReason::EmbeddingFailed,
        ),
{
}

/// The literal lane runs over every row that was read, whatever became of the
/// other lanes; the lexical lane is asked where the index is usable.
pub proof fn law_literal_lane_always_runs(s: &mut SearchSession, rows: &Vec<TaskTextRow>, i: int)
    requires
        call_ensures(SearchSession::on_result_rows, (s, rows), ()),
    ensures
        final(s).literal@.len() == rows@.len(),
        final(s).eligible@.len() == rows@.len(),
        0 <= i < rows@.len() ==> {
            &&& final(s).eligible@[i] == rows@[i].task_id
            &&& literal::finds(final(s).literal@[i], rows@[i], old(s).query@, old(s).mode)
        },
        old(s).lexical is Available ==> final(s).phase == Phase::SearchLexical,
        final(s).query == old(s).query,
        final(s).mode == old(s).mode,
        final(s).limit == old(s).limit,
{
    if 0 <= i < rows@.len() {
        assert(literal::finds(final(s).literal@[i], rows@[i], old(s).query@, old(s).mode));
    }
}

/// A query of more than one input is too long for the semantic lane, and one that
/// could not be embedded or ranked drops out of it; the other lanes still count.
pub proof fn law_failing_semantic_lane_is_dropped(
    lexical: &mut SearchSession,
    planned: &mut SearchSession,
    embedded: &mut SearchSession,
    ranked: &mut SearchSession,
    ranks: Vec<LexicalRank>,
    inputs: Option<usize>,
    ok: bool,
    places: Option<Vec<TaskId>>,
)
    requires
        call_ensures(SearchSession::on_lexical, (lexical, ranks), ()),
        call_ensures(SearchSession::on_query_planned, (planned, inputs), ()),
        call_ensures(SearchSession::on_query_embedded, (embedded, ok), ()),
        call_ensures(SearchSession::on_semantic, (ranked, places), ()),
    ensures
        final(lexical).lexical_ranks == ranks,
        old(lexical).semantic == SemanticState::Available ==> final(lexical).phase
            == Phase::PlanQuery,
        old(lexical).semantic != SemanticState::Available ==> final(lexical).phase == Phase::Fuse,
        final(planned).phase == Phase::EmbedQuery <==> inputs is Some && inputs->0 <= 1,
        final(planned).phase != Phase::EmbedQuery ==> final(planned).phase == Phase::Fuse && final(
            planned).semantic == SemanticState::Skipped(SemanticSkippedReason::QueryTooLong),
        final(planned).lexical_ranks == old(planned).lexical_ranks,
        ok ==> final(embedded).phase == Phase::SearchSemantic,
        !ok ==> final(embedded).phase == Phase::Fuse && final(embedded).semantic
            == SemanticState::Skipped(SemanticSkippedReason::EmbeddingFailed),
        final(embedded).lexical_ranks == old(embedded).lexical_ranks,
        final(ranked).phase == Phase::Fuse,
        places matches Some(r) ==> final(ranked).semantic_ranks == r && final(ranked).semantic
            == old(ranked).semantic,
        places is None ==> final(ranked).semantic == SemanticState::Skipped(
            SemanticSkippedReason::EmbeddingFailed,
        ) && final(ranked).semantic_ranks == old(ranked).semantic_ranks,
        final(ranked).lexical_ranks == old(ranked).lexical_ranks,
        final(ranked).literal == old(ranked).literal,
{
}

/// The response names the query and its mode and why a lane did not run, and
/// shows the tasks in the order that was settled, each with its identity.
pub proof fn law_response_shows_the_settled_order(
    s: &mut SearchSession,
    scores: &Vec<Weighted>,
    done: SearchSession,
    identities: Vec<TaskIdentity>,
    out: TaskSearchResponse,
    i: int,
)
    requires
        call_ensures(SearchSession::on_fused, (s, scores), ()),
        call_ensures(SearchSession::finish, (done, identities), out),
        identities@.len() == done.order@.len() <= u64::MAX,
    ensures
        final(s).order@ == assemble::shown_tasks(
            scores@,
            old(s).literal@,
            old(s).mode,
            old(s).limit as int,
        ),
        final(s).phase == Phase::Identities,
        out.query == done.query,
        out.query_mode == done.mode,
        done.lexical is Available ==> out.lexical_unavailable is None,
        done.lexical matches LexicalState::Unavailable(r) ==> out.lexical_unavailable == Some(r),
        done.semantic matches SemanticState::Skipped(r) ==> out.semantic_skipped == Some(r),
        done.semantic == SemanticState::Available ==> out.semantic_skipped is None,
        out.results@.len() == done.order@.len(),
        0 <= i < done.order@.len() ==> {
            &&& out.results@[i].rank as int == i + 1
            &&& out.results@[i].task_id == done.order@[i]
            &&& out.results@[i].identity == identities@[i]
        },
{
    if 0 <= i < done.order@.len() {
        assert(out.results@[i].task_id == done.order@[i]);
    }
}

/// The lexical lane is asked with the match expression of the query, and the
/// lanes fused are those that the search read.
pub proof fn law_lanes_are_those_of_the_search(
    s: &SearchSession,
    expr: String,
    lanes: Vec<Vec<RankEntry>>,
)
    requires
        call_ensures(SearchSession::match_expression, (s,), expr),
        call_ensures(SearchSession::lanes, (s,), lanes),
    ensures
        match_expr::terms_read(expr@) == text::words(s.query@),
        assemble::lane_views(lanes@) == assemble::lanes_of(
            s.lexical_ranks@,
            literal::occurrence_places(s.literal@),
            s.semantic_ranks@,
        ),
{
    match_expr::law_expression_reads_back(s.query@);
}

} // verus!
