//! Syncing notes: the decisions of one file's sync as a state machine that
//! asks for requests and takes their replies, and the summary of a run over
//! a vault.

use vstd::prelude::*;
use vstd::string::*;
use crate::config::Config;
use crate::frontmatter::{Entry, ParsedNote};
use crate::notion::{
    append_request, block_ids, create_request, delete_request, found_page_id, list_request,
    opt_view, query_request, refusal, spec_block_ids, spec_blocks, spec_found, spec_refusal,
    update_request, NotionClient, Reply, ReplyView, Request, RequestView,
};
use crate::frontmatter::strings_view;
use crate::text::{from_chars, lines, to_chars};

verus! {

/// What came of one request: its reply, or the text of the failure to get
/// one.
#[derive(Debug, PartialEq)]
pub enum Event {
    Replied(Reply),
    Failed(String),
}

/// What an `Event` holds.
pub enum EventView {
    Replied(ReplyView),
    Failed(Seq<char>),
}

impl View for Event {
    type V = EventView;

    open spec fn view(&self) -> EventView {
        match self {
            Event::Replied(r) => EventView::Replied(r@),
            Event::Failed(e) => EventView::Failed(e@),
        }
    }
}

/// How the sync of a file went.
#[derive(Debug, PartialEq)]
pub enum SyncOutcome {
    /// The note has no front matter.
    SkippedNoFrontmatter,
    /// A dry run changes nothing.
    SkippedDryRun,
    /// A page was created, with this id.
    Created(String),
    /// The page with this id was updated.
    Updated(String),
}

/// What a `SyncOutcome` holds.
pub enum OutcomeView {
    SkippedNoFrontmatter,
    SkippedDryRun,
    Created(Seq<char>),
    Updated(Seq<char>),
}

impl View for SyncOutcome {
    type V = OutcomeView;

    open spec fn view(&self) -> OutcomeView {
        match self {
            SyncOutcome::SkippedNoFrontmatter => OutcomeView::SkippedNoFrontmatter,
            SyncOutcome::SkippedDryRun => OutcomeView::SkippedDryRun,
            SyncOutcome::Created(s) => OutcomeView::Created(s@),
            SyncOutcome::Updated(s) => OutcomeView::Updated(s@),
        }
    }
}

/// Why the sync of a file failed.
#[derive(Debug, PartialEq)]
pub enum SyncError {
    /// A request got no reply that could be read; the text says why.
    Transport(String),
    /// Notion refused a request, with this message.
    Notion(String),
}

/// What a `SyncError` holds.
pub enum ErrorView {
    Transport(Seq<char>),
    Notion(Seq<char>),
}

impl View for SyncError {
    type V = ErrorView;

    open spec fn view(&self) -> ErrorView {
        match self {
            SyncError::Transport(s) => ErrorView::Transport(s@),
            SyncError::Notion(s) => ErrorView::Notion(s@),
        }
    }
}

/// The text that reports an error.
pub open spec fn spec_describe(e: ErrorView) -> Seq<char> {
    match e {
        ErrorView::Transport(s) => s,
        ErrorView::Notion(m) => "Notion error: "@ + m,
    }
}

impl SyncError {
    /// The text that reports the error.
    pub fn describe(&self) -> (r: String)
        ensures
            r@ == spec_describe(self@),
    {
        match self {
            SyncError::Transport(s) => s.clone(),
            SyncError::Notion(m) => {
                let mut r = String::new();
                r.append("Notion error: ");
                r.append(m.as_str());
                r
            },
        }
    }
}

/// The next thing to do: send a request and hand its event to
/// `SyncRun::advance`, or stop with the result.
#[derive(Debug, PartialEq)]
pub enum Step {
    Send(Request),
    Finish(Result<SyncOutcome, SyncError>),
}

/// What a `Step` holds.
pub enum StepView {
    Send(RequestView),
    Finish(Result<OutcomeView, ErrorView>),
}

impl View for Step {
    type V = StepView;

    open spec fn view(&self) -> StepView {
        match self {
            Step::Send(r) => StepView::Send(r@),
            Step::Finish(Ok(o)) => StepView::Finish(Ok(o@)),
            Step::Finish(Err(e)) => StepView::Finish(Err(e@)),
        }
    }
}

/// Where the sync of a file stands.
pub enum Phase {
    /// The query for the file's page is out.
    Query,
    /// The request that creates the page is out.
    Create,
    /// The request that sets the properties of this page is out.
    Update(String),
    /// The request that lists the blocks of this page is out.
    List(String),
    /// A block of this page is being deleted; these are left to delete.
    Delete(String, Vec<String>),
    /// The request that appends the new blocks to this page is out.
    Append(String),
    /// The sync is over.
    Done,
}

/// What a `Phase` holds.
pub enum PhaseView {
    Query,
    Create,
    Update(Seq<char>),
    List(Seq<char>),
    Delete(Seq<char>, Seq<Seq<char>>),
    Append(Seq<char>),
    Done,
}

impl View for Phase {
    type V = PhaseView;

    open spec fn view(&self) -> PhaseView {
        match self {
            Phase::Query => PhaseView::Query,
            Phase::Create => PhaseView::Create,
            Phase::Update(s) => PhaseView::Update(s@),
            Phase::List(s) => PhaseView::List(s@),
            Phase::Delete(s, rest) => PhaseView::Delete(s@, strings_view(rest@)),
            Phase::Append(s) => PhaseView::Append(s@),
            Phase::Done => PhaseView::Done,
        }
    }
}

/// The note a sync works on, by its views.
pub struct NoteView {
    pub meta: Seq<Entry>,
    pub file_name: Seq<char>,
    pub body: Seq<char>,
}

/// The view of a parsed note.
pub open spec fn note_view(n: &ParsedNote) -> NoteView {
    NoteView { meta: n.meta.seq(), file_name: n.file_name@, body: n.body@ }
}

/// The first step of a sync: a note without front matter is skipped, a dry
/// run changes nothing, any other note is looked up by its file name.
pub open spec fn spec_start(db: Seq<char>, note: NoteView, dry_run: bool) -> (PhaseView, StepView) {
    if note.meta.len() == 0 {
        (PhaseView::Done, StepView::Finish(Ok(OutcomeView::SkippedNoFrontmatter)))
    } else if dry_run {
        (PhaseView::Done, StepView::Finish(Ok(OutcomeView::SkippedDryRun)))
    } else {
        (PhaseView::Query, StepView::Send(query_request(db, note.file_name)))
    }
}

/// The step after the blocks `ids` are left to delete from page `id`: the
/// next deletion, else appending the note's blocks, else done.
pub open spec fn after_listing(id: Seq<char>, ids: Seq<Seq<char>>, note: NoteView) -> (
    PhaseView,
    StepView,
) {
    if ids.len() > 0 {
        (PhaseView::Delete(id, ids.drop_first()), StepView::Send(delete_request(ids[0])))
    } else if spec_blocks(note.body).len() > 0 {
        (PhaseView::Append(id), StepView::Send(append_request(id, note.body)))
    } else {
        (PhaseView::Done, StepView::Finish(Ok(OutcomeView::Updated(id))))
    }
}

/// A failed request ends the sync with its error.
pub open spec fn failed(e: Seq<char>) -> (PhaseView, StepView) {
    (PhaseView::Done, StepView::Finish(Err(ErrorView::Transport(e))))
}

/// A refused request ends the sync with Notion's message.
pub open spec fn refused(r: ReplyView) -> (PhaseView, StepView) {
    (PhaseView::Done, StepView::Finish(Err(ErrorView::Notion(spec_refusal(r)))))
}

/// The id a creation reply gives, or empty.
pub open spec fn created_id(r: ReplyView) -> Seq<char> {
    match r.id {
        Some(id) => id,
        None => seq![],
    }
}

/// The next phase and step of a sync in phase `phase` when `ev` comes:
/// - a query that found a page sets its properties, else creates it;
/// - a creation ends with the new page's id, or with Notion's refusal;
/// - a page whose properties are set has its blocks listed, each listed
///   block is deleted in turn whatever comes of it, and then the note's
///   blocks are appended if it has any;
/// - a failed request, other than a deletion, ends the sync;
/// - a finished sync takes no more events (`SyncRun::advance` requires that
///   it is not over).
pub open spec fn spec_advance(db: Seq<char>, note: NoteView, phase: PhaseView, ev: EventView) -> (
    PhaseView,
    StepView,
) {
    match phase {
        PhaseView::Query => match ev {
            EventView::Failed(e) => failed(e),
            EventView::Replied(r) => match spec_found(r) {
                None => (
                    PhaseView::Create,
                    StepView::Send(create_request(db, note.meta, note.file_name, note.body)),
                ),
                Some(id) => (
                    PhaseView::Update(id),
                    StepView::Send(update_request(id, note.meta, note.file_name)),
                ),
            },
        },
        PhaseView::Create => match ev {
            EventView::Failed(e) => failed(e),
            EventView::Replied(r) => if r.has_code {
                refused(r)
            } else {
                (PhaseView::Done, StepView::Finish(Ok(OutcomeView::Created(created_id(r)))))
            },
        },
        PhaseView::Update(id) => match ev {
            EventView::Failed(e) => failed(e),
            EventView::Replied(r) => if r.has_code {
                refused(r)
            } else {
                (PhaseView::List(id), StepView::Send(list_request(id)))
            },
        },
        PhaseView::List(id) => match ev {
            EventView::Failed(e) => failed(e),
            EventView::Replied(r) => after_listing(id, spec_block_ids(r), note),
        },
        PhaseView::Delete(id, rest) => after_listing(id, rest, note),
        PhaseView::Append(id) => match ev {
            EventView::Failed(e) => failed(e),
            EventView::Replied(_) => (
                PhaseView::Done,
                StepView::Finish(Ok(OutcomeView::Updated(id))),
            ),
        },
        PhaseView::Done => (PhaseView::Done, StepView::Finish(Ok(OutcomeView::SkippedDryRun))),
    }
}

/// The sync of one note with its page in Notion.
pub struct SyncRun {
    client: NotionClient,
    note: ParsedNote,
    phase: Phase,
}

impl SyncRun {
    /// The database the page goes to.
    pub closed spec fn db(&self) -> Seq<char> {
        self.client.database_view()
    }

    /// The token the requests are sent with.
    pub closed spec fn token(&self) -> Seq<char> {
        self.client.token_view()
    }

    /// The API version the requests are sent with.
    pub closed spec fn version(&self) -> Seq<char> {
        self.client.version_view()
    }

    /// The note being synced.
    pub closed spec fn note(&self) -> NoteView {
        note_view(&self.note)
    }

    /// Where the sync stands.
    pub closed spec fn phase(&self) -> PhaseView {
        self.phase@
    }

    /// The client whose database the page goes to.
    pub fn client(&self) -> (c: &NotionClient)
        ensures
            c.database_view() == self.db(),
            c.token_view() == self.token(),
            c.version_view() == self.version(),
    {
        &self.client
    }

    /// Whether the sync is over.
    pub fn is_done(&self) -> (b: bool)
        ensures
            b == (self.phase() is Done),
    {
        match self.phase {
            Phase::Done => true,
            _ => false,
        }
    }

    /// Starts the sync of `note` with the database of `client`.
    pub fn start(client: NotionClient, note: ParsedNote, dry_run: bool) -> (r: (SyncRun, Step))
        ensures
            r.0.db() == client.database_view(),
            r.0.token() == client.token_view(),
            r.0.version() == client.version_view(),
            r.0.note() == note_view(&note),
            (r.0.phase(), r.1@) == spec_start(client.database_view(), note_view(&note), dry_run),
            (r.1 is Send) == !(r.0.phase() is Done),
    {
        if note.meta.is_empty() {
            return (
                SyncRun { client, note, phase: Phase::Done },
                Step::Finish(Ok(SyncOutcome::SkippedNoFrontmatter)),
            );
        }
        if dry_run {
            return (
                SyncRun { client, note, phase: Phase::Done },
                Step::Finish(Ok(SyncOutcome::SkippedDryRun)),
            );
        }
        let req = client.find_by_filename(note.file_name.as_str());
        (SyncRun { client, note, phase: Phase::Query }, Step::Send(req))
    }

    /// The step after the blocks `ids` are left to delete from page `id`.
    fn after_listing(self, id: String, ids: Vec<String>) -> (r: (SyncRun, Step))
        ensures
            r.0.db() == self.db(),
            r.0.token() == self.token(),
            r.0.version() == self.version(),
            r.0.note() == self.note(),
            (r.0.phase(), r.1@) == after_listing(id@, strings_view(ids@), self.note()),
            (r.1 is Send) == !(r.0.phase() is Done),
    {
        if ids.len() > 0 {
            let mut rest = ids;
            let first = rest.remove(0);
            let req = self.client.delete_block(first.as_str());
            assert(strings_view(rest@) =~= strings_view(ids@).drop_first());
            (SyncRun { client: self.client, note: self.note, phase: Phase::Delete(id, rest) }, Step::Send(req))
        } else if !self.note.body.as_str().is_empty() {
            proof {
                crate::text::lemma_lines_nonempty(self.note.body@);
            }
            let req = self.client.append_children(id.as_str(), &self.note);
            (SyncRun { client: self.client, note: self.note, phase: Phase::Append(id) }, Step::Send(req))
        } else {
            assert(lines(self.note.body@).len() == 0);
            (
                SyncRun { client: self.client, note: self.note, phase: Phase::Done },
                Step::Finish(Ok(SyncOutcome::Updated(id))),
            )
        }
    }

    /// The next phase and step once `ev` comes.
    pub fn advance(self, ev: Event) -> (r: (SyncRun, Step))
        requires
            !(self.phase() is Done),
        ensures
            r.0.db() == self.db(),
            r.0.token() == self.token(),
            r.0.version() == self.version(),
            r.0.note() == self.note(),
            (r.0.phase(), r.1@) == spec_advance(self.db(), self.note(), self.phase(), ev@),
            (r.1 is Send) == !(r.0.phase() is Done),
    {
        let SyncRun { client, note, phase } = self;
        match phase {
            Phase::Query => match ev {
                Event::Failed(e) => (
                    SyncRun { client, note, phase: Phase::Done },
                    Step::Finish(Err(SyncError::Transport(e))),
                ),
                Event::Replied(r) => match found_page_id(&r) {
                    None => {
                        let req = client.create_page(&note);
                        (SyncRun { client, note, phase: Phase::Create }, Step::Send(req))
                    },
                    Some(id) => {
                        let req = client.update_page(id.as_str(), &note);
                        (SyncRun { client, note, phase: Phase::Update(id) }, Step::Send(req))
                    },
                },
            },
            Phase::Create => match ev {
                Event::Failed(e) => (
                    SyncRun { client, note, phase: Phase::Done },
                    Step::Finish(Err(SyncError::Transport(e))),
                ),
                Event::Replied(r) => {
                    if r.has_code {
                        let m = refusal(&r);
                        (
                            SyncRun { client, note, phase: Phase::Done },
                            Step::Finish(Err(SyncError::Notion(m))),
                        )
                    } else {
                        let id = match r.id {
                            Some(id) => id,
                            None => String::new(),
                        };
                        (
                            SyncRun { client, note, phase: Phase::Done },
                            Step::Finish(Ok(SyncOutcome::Created(id))),
                        )
                    }
                },
            },
            Phase::Update(id) => match ev {
                Event::Failed(e) => (
                    SyncRun { client, note, phase: Phase::Done },
                    Step::Finish(Err(SyncError::Transport(e))),
                ),
                Event::Replied(r) => {
                    if r.has_code {
                        let m = refusal(&r);
                        (
                            SyncRun { client, note, phase: Phase::Done },
                            Step::Finish(Err(SyncError::Notion(m))),
                        )
                    } else {
                        let req = client.clear_blocks(id.as_str());
                        (SyncRun { client, note, phase: Phase::List(id) }, Step::Send(req))
                    }
                },
            },
            Phase::List(id) => match ev {
                Event::Failed(e) => (
                    SyncRun { client, note, phase: Phase::Done },
                    Step::Finish(Err(SyncError::Transport(e))),
                ),
                Event::Replied(r) => {
                    let ids = block_ids(&r);
                    let run = SyncRun { client, note, phase: Phase::Done };
                    run.after_listing(id, ids)
                },
            },
            Phase::Delete(id, rest) => {
                let run = SyncRun { client, note, phase: Phase::Done };
                run.after_listing(id, rest)
            },
            Phase::Append(id) => match ev {
                Event::Failed(e) => (
                    SyncRun { client, note, phase: Phase::Done },
                    Step::Finish(Err(SyncError::Transport(e))),
                ),
                Event::Replied(_) => (
                    SyncRun { client, note, phase: Phase::Done },
                    Step::Finish(Ok(SyncOutcome::Updated(id))),
                ),
            },
            Phase::Done => (
                SyncRun { client, note, phase: Phase::Done },
                Step::Finish(Ok(SyncOutcome::SkippedDryRun)),
            ),
        }
    }
}


impl SyncOutcome {
    /// The word the outcome is reported with.
    pub fn label(&self) -> (r: String)
        ensures
            r@ == spec_label(self@),
    {
        match self {
            SyncOutcome::Created(_) => from_chars(&to_chars("created")),
            SyncOutcome::Updated(_) => from_chars(&to_chars("updated")),
            _ => from_chars(&to_chars("skipped")),
        }
    }
}

/// The word an outcome is reported with.
pub open spec fn spec_label(o: OutcomeView) -> Seq<char> {
    match o {
        OutcomeView::Created(_) => "created"@,
        OutcomeView::Updated(_) => "updated"@,
        _ => "skipped"@,
    }
}

/// The folder a sync scans: the vault, or its subfolder where one is set.
pub open spec fn spec_scan_path(vault: Seq<char>, sub: Option<Seq<char>>) -> Seq<char> {
    match sub {
        Some(s) => vault + "/"@ + s,
        None => vault,
    }
}

/// The folder a sync scans.
pub fn scan_path(cfg: &Config) -> (r: String)
    ensures
        r@ == spec_scan_path(cfg.vault_path@, opt_view(cfg.vault_subfolder)),
{
    match &cfg.vault_subfolder {
        Some(sub) => {
            let mut r = cfg.vault_path.clone();
            r.append("/");
            r.append(sub.as_str());
            r
        },
        None => cfg.vault_path.clone(),
    }
}

/// The views of the results of a run: each file's outcome, or none where
/// its sync failed.
pub open spec fn results_view(v: Seq<Option<SyncOutcome>>) -> Seq<Option<OutcomeView>> {
    v.map_values(|o: Option<SyncOutcome>| match o {
        Some(x) => Some(x@),
        None => None,
    })
}

/// How many of the results `v` satisfy `f`.
pub open spec fn count(v: Seq<Option<OutcomeView>>, f: spec_fn(Option<OutcomeView>) -> bool) -> nat
    decreases v.len(),
{
    if v.len() == 0 {
        0
    } else {
        count(v.drop_last(), f) + if f(v.last()) {
            1nat
        } else {
            0nat
        }
    }
}

/// A result of a created page.
pub open spec fn is_created(o: Option<OutcomeView>) -> bool {
    o matches Some(OutcomeView::Created(_))
}

/// A result of an updated page.
pub open spec fn is_updated(o: Option<OutcomeView>) -> bool {
    o matches Some(OutcomeView::Updated(_))
}

/// A result of a skipped file.
pub open spec fn is_skipped(o: Option<OutcomeView>) -> bool {
    o matches Some(OutcomeView::SkippedNoFrontmatter) || o matches Some(
        OutcomeView::SkippedDryRun,
    )
}

/// A failed sync.
pub open spec fn is_failed(o: Option<OutcomeView>) -> bool {
    o is None
}

/// The counts of a run's results.
#[derive(Debug, PartialEq)]
pub struct Tally {
    pub created: usize,
    pub updated: usize,
    pub skipped: usize,
    pub errors: usize,
}

/// Counts the results of a run by kind.
pub fn tally(results: &Vec<Option<SyncOutcome>>) -> (t: Tally)
    ensures
        t.created == count(results_view(results@), |o| is_created(o)),
        t.updated == count(results_view(results@), |o| is_updated(o)),
        t.skipped == count(results_view(results@), |o| is_skipped(o)),
        t.errors == count(results_view(results@), |o| is_failed(o)),
        t.created + t.updated + t.skipped + t.errors == results@.len(),
{
    let ghost all = results_view(results@);
    let mut t = Tally { created: 0, updated: 0, skipped: 0, errors: 0 };
    let mut i: usize = 0;
    while i < results.len()
        invariant
            i <= results@.len(),
            all == results_view(results@),
            t.created == count(all.take(i as int), |o| is_created(o)),
            t.updated == count(all.take(i as int), |o| is_updated(o)),
            t.skipped == count(all.take(i as int), |o| is_skipped(o)),
            t.errors == count(all.take(i as int), |o| is_failed(o)),
            t.created + t.updated + t.skipped + t.errors == i,
        decreases results@.len() - i,
    {
        assert(all.take(i + 1).drop_last() =~= all.take(i as int));
        assert(all.take(i + 1).last() == all[i as int]);
        match &results[i] {
            Some(SyncOutcome::Created(_)) => t.created = t.created + 1,
            Some(SyncOutcome::Updated(_)) => t.updated = t.updated + 1,
            Some(_) => t.skipped = t.skipped + 1,
            None => t.errors = t.errors + 1,
        }
        i = i + 1;
    }
    assert(all.take(results@.len() as int) =~= all);
    t
}

} // verus!
