//! One run of ingestion: what is decided between the calls to the store, and
//! what the run as a whole makes of a store and a page.
use crate::error::AppError;
use crate::models::{Candidate, Page, QuestionId, TagId};
use crate::store::{Insertion, StoreView};
use crate::tags::{left, TagCounter};
use crate::text_map::TextMap;
use vstd::prelude::*;

verus! {

/// A count raised by one, which stays where it is once it has reached the
/// largest number that it can hold.
pub open spec fn bump(n: usize) -> usize {
    if n < usize::MAX {
        (n + 1) as usize
    } else {
        n
    }
}

fn bumped(n: usize) -> (m: usize)
    ensures
        m == bump(n),
{
    if n < usize::MAX {
        n + 1
    } else {
        n
    }
}

/// What one run did, in counts: questions created, found as duplicates and
/// failed; links newly made and links that were there; tags left out because
/// their occurrences were used up, tags that did not resolve, and links that
/// the store failed to make.
#[derive(Debug, Clone, Copy, PartialEq, Eq, Structural)]
pub struct Report {
    pub created: usize,
    pub duplicates: usize,
    pub failed: usize,
    pub linked: usize,
    pub repeated: usize,
    pub throttled: usize,
    pub unresolved: usize,
    pub unlinked: usize,
}

impl Report {
    /// The report of a run that has done nothing yet.
    pub open spec fn zero() -> Report {
        Report {
            created: 0,
            duplicates: 0,
            failed: 0,
            linked: 0,
            repeated: 0,
            throttled: 0,
            unresolved: 0,
            unlinked: 0,
        }
    }
}

/// What to do with a tag of a question that was created.
#[derive(Debug, Clone, Copy, PartialEq, Eq, Structural)]
pub enum TagPlan {
    /// The occurrences of the tag are used up: make no link.
    Skip,
    /// The tag is not known in this run: ask the store for it, then link.
    Resolve,
    /// The tag is known in this run under this identifier: link to it.
    Link(i32),
}

/// `TagPlan` as a mathematical value.
pub enum Plan {
    Skip,
    Resolve,
    Link(int),
}

/// The state of a run as a mathematical value: what each tag has left, the
/// identifiers of the tags resolved in this run, and the counts so far.
pub struct RunView {
    pub budget: Map<Seq<char>, nat>,
    pub known: Map<Seq<char>, int>,
    pub report: Report,
}

impl RunView {
    /// The state at the start of a run with a table of occurrences.
    pub open spec fn start(budget: Map<Seq<char>, nat>) -> RunView {
        RunView { budget, known: Map::empty(), report: Report::zero() }
    }

    /// The state after the store answered the attempt to insert a question.
    pub open spec fn question_done(self, outcome: Insertion) -> RunView {
        RunView {
            report: match outcome {
                Insertion::Created(_) => Report { created: bump(self.report.created), ..self.report },
                Insertion::Duplicate => Report {
                    duplicates: bump(self.report.duplicates),
                    ..self.report
                },
                Insertion::Failed => Report { failed: bump(self.report.failed), ..self.report },
            },
            ..self
        }
    }

    /// What is planned for a tag: nothing where none of its occurrences is
    /// left, else a link, to the identifier known for it or after asking the
    /// store.
    pub open spec fn plan(self, tag: Seq<char>) -> Plan {
        if left(self.budget, tag) == 0 {
            Plan::Skip
        } else if self.known.dom().contains(tag) {
            Plan::Link(self.known[tag])
        } else {
            Plan::Resolve
        }
    }

    /// The state after planning for a tag: one occurrence less where one was
    /// left, one more tag left out where none was.
    pub open spec fn planned(self, tag: Seq<char>) -> RunView {
        if left(self.budget, tag) == 0 {
            RunView {
                report: Report { throttled: bump(self.report.throttled), ..self.report },
                ..self
            }
        } else {
            RunView {
                budget: self.budget.insert(tag, (left(self.budget, tag) - 1) as nat),
                ..self
            }
        }
    }

    /// The state after the store answered for a tag. The first identifier that
    /// a run learns for a tag stays.
    pub open spec fn tag_resolved(self, tag: Seq<char>, outcome: Option<int>) -> RunView {
        match outcome {
            Some(id) => if self.known.dom().contains(tag) {
                self
            } else {
                RunView { known: self.known.insert(tag, id), ..self }
            },
            None => RunView {
                report: Report { unresolved: bump(self.report.unresolved), ..self.report },
                ..self
            },
        }
    }

    /// The state after the store answered the attempt to make a link.
    pub open spec fn edge_done(self, outcome: Option<bool>) -> RunView {
        RunView {
            report: match outcome {
                Some(true) => Report { linked: bump(self.report.linked), ..self.report },
                Some(false) => Report { repeated: bump(self.report.repeated), ..self.report },
                None => Report { unlinked: bump(self.report.unlinked), ..self.report },
            },
            ..self
        }
    }
}

/// The store's answer to the insertion of a question, as it counts in a run.
pub open spec fn insertion_of(outcome: Result<Option<QuestionId>, AppError>) -> Insertion {
    match outcome {
        Ok(Some(id)) => Insertion::Created(id.question_id as int),
        Ok(None) => Insertion::Duplicate,
        Err(_) => Insertion::Failed,
    }
}

/// The store's answer for a tag: its identifier, or nothing after a failure.
pub open spec fn resolution_of(outcome: Result<TagId, AppError>) -> Option<int> {
    match outcome {
        Ok(id) => Some(id.tag_id as int),
        Err(_) => None,
    }
}

/// The store's answer to a link: whether it was new, or nothing after a failure.
pub open spec fn answer_of(outcome: Result<bool, AppError>) -> Option<bool> {
    match outcome {
        Ok(fresh) => Some(fresh),
        Err(_) => None,
    }
}

/// The state of one run. It belongs to the run and is never shared.
#[derive(Debug)]
pub struct Ingestion {
    budget: TagCounter,
    index_table: TextMap<i32>,
    report: Report,
}

impl View for Ingestion {
    type V = RunView;

    closed spec fn view(&self) -> RunView {
        RunView {
            budget: self.budget@,
            known: Map::new(
                |tag: Seq<char>| self.index_table@.dom().contains(tag),
                |tag: Seq<char>| self.index_table@[tag] as int,
            ),
            report: self.report,
        }
    }
}

impl Ingestion {
    pub closed spec fn wf(&self) -> bool {
        &&& self.budget.wf()
        &&& self.index_table.wf()
    }

    /// Starts a run with the occurrences of the tags of a page.
    pub fn new(unique_tags: TagCounter) -> (run: Self)
        requires
            unique_tags.wf(),
        ensures
            run.wf(),
            run@ == RunView::start(unique_tags@),
    {
        let run = Ingestion {
            budget: unique_tags,
            index_table: TextMap::new(),
            report: Report {
                created: 0,
                duplicates: 0,
                failed: 0,
                linked: 0,
                repeated: 0,
                throttled: 0,
                unresolved: 0,
                unlinked: 0,
            },
        };
        assert(run@.known =~= Map::<Seq<char>, int>::empty());
        run
    }

    /// The counts so far.
    pub fn report(&self) -> (report: Report)
        ensures
            report == self@.report,
    {
        self.report
    }

    /// What is left for a tag.
    pub fn remaining(&self, tag: &String) -> (n: usize)
        requires
            self.wf(),
        ensures
            n == left(self@.budget, tag@),
    {
        self.budget.remaining(tag)
    }

    /// Takes the store's answer to the insertion of a question. Gives the
    /// question's identifier where its tags are to be linked: for a question
    /// that was created, not for a duplicate nor after a failure.
    pub fn question_done(&mut self, outcome: &Result<Option<QuestionId>, AppError>) -> (created: Option<
        i32,
    >)
        requires
            old(self).wf(),
        ensures
            final(self).wf(),
            final(self)@ == old(self)@.question_done(insertion_of(*outcome)),
            created == match *outcome {
                Ok(Some(id)) => Some(id.question_id),
                _ => None,
            },
    {
        match outcome {
            Ok(Some(id)) => {
                self.report.created = bumped(self.report.created);
                assert(self@.known =~= old(self)@.known);
                Some(id.question_id)
            },
            Ok(None) => {
                self.report.duplicates = bumped(self.report.duplicates);
                assert(self@.known =~= old(self)@.known);
                None
            },
            Err(_) => {
                self.report.failed = bumped(self.report.failed);
                assert(self@.known =~= old(self)@.known);
                None
            },
        }
    }

    /// Decides what to do with a tag of a created question, and takes one of
    /// the tag's occurrences where a link is planned.
    pub fn plan_tag(&mut self, tag: &String) -> (plan: TagPlan)
        requires
            old(self).wf(),
        ensures
            final(self).wf(),
            final(self)@ == old(self)@.planned(tag@),
            match plan {
                TagPlan::Skip => old(self)@.plan(tag@) == Plan::Skip,
                TagPlan::Resolve => old(self)@.plan(tag@) == Plan::Resolve,
                TagPlan::Link(id) => old(self)@.plan(tag@) == Plan::Link(id as int),
            },
    {
        if !self.budget.spend(tag) {
            self.report.throttled = bumped(self.report.throttled);
            assert(self@.known =~= old(self)@.known);
            return TagPlan::Skip;
        }
        assert(self@.known =~= old(self)@.known);
        match self.index_table.get(tag) {
            Some(id) => TagPlan::Link(id),
            None => TagPlan::Resolve,
        }
    }

    /// Takes the store's answer for a tag and gives the identifier to link to:
    /// the one known for the tag in this run where there is one, else the
    /// store's, which the run keeps. Nothing after a failure.
    pub fn tag_resolved(&mut self, tag: &String, outcome: &Result<TagId, AppError>) -> (id: Option<i32>)
        requires
            old(self).wf(),
        ensures
            final(self).wf(),
            final(self)@ == old(self)@.tag_resolved(tag@, resolution_of(*outcome)),
            match *outcome {
                Ok(_) => final(self)@.known.dom().contains(tag@) && id.is_some() && id.unwrap()
                    == final(self)@.known[tag@],
                Err(_) => id.is_none(),
            },
    {
        match outcome {
            Ok(found) => {
                match self.index_table.get(tag) {
                    Some(known) => Some(known),
                    None => {
                        self.index_table.insert(tag.clone(), found.tag_id);
                        assert(self@.known =~= old(self)@.known.insert(tag@, found.tag_id as int));
                        Some(found.tag_id)
                    },
                }
            },
            Err(_) => {
                self.report.unresolved = bumped(self.report.unresolved);
                assert(self@.known =~= old(self)@.known);
                None
            },
        }
    }

    /// Takes the store's answer to the attempt to make a link.
    pub fn edge_done(&mut self, outcome: &Result<bool, AppError>)
        requires
            old(self).wf(),
        ensures
            final(self).wf(),
            final(self)@ == old(self)@.edge_done(answer_of(*outcome)),
    {
        match outcome {
            Ok(true) => {
                self.report.linked = bumped(self.report.linked);
            },
            Ok(false) => {
                self.report.repeated = bumped(self.report.repeated);
            },
            Err(_) => {
                self.report.unlinked = bumped(self.report.unlinked);
            },
        }
        assert(self@.known =~= old(self)@.known);
    }
}

/// How far a run has come: the store, the state of the run, and the links that
/// the run has asked the store for, each with its question and the tag's text,
/// in the order asked.
pub struct Progress {
    pub store: StoreView,
    pub run: RunView,
    pub asked: Seq<(int, Seq<char>)>,
}

/// The progress made of a store, a state and the links asked for.
pub open spec fn progress(store: StoreView, run: RunView, asked: Seq<(int, Seq<char>)>) -> Progress {
    Progress { store, run, asked }
}

/// A run after it asked the store to link a question to a tag.
pub open spec fn link_edge(now: Progress, question: int, tag: Seq<char>, tag_id: int) -> Progress {
    Progress {
        store: now.store.link(question, tag_id),
        run: now.run.edge_done(Some(!now.store.edges.contains((question, tag_id)))),
        asked: now.asked.push((question, tag)),
    }
}

/// A run after one tag of a created question: the tag is planned for; where a
/// link is planned, the tag is resolved, by the run or by the store, and the
/// store is asked for the link. A tag that the store fails to resolve gets none.
pub open spec fn link_tag(now: Progress, question: int, tag: Seq<char>) -> Progress {
    let planned = Progress { run: now.run.planned(tag), ..now };
    match now.run.plan(tag) {
        Plan::Skip => planned,
        Plan::Link(id) => link_edge(planned, question, tag, id),
        Plan::Resolve => match now.store.resolution(tag) {
            Some(id) => link_edge(
                Progress {
                    store: now.store.resolve_tag(tag),
                    run: planned.run.tag_resolved(tag, Some(id)),
                    ..planned
                },
                question,
                tag,
                id,
            ),
            None => Progress { run: planned.run.tag_resolved(tag, None), ..planned },
        },
    }
}

/// A run after the tags of a created question, taken in order.
pub open spec fn link_tags(now: Progress, question: int, tags: Seq<Seq<char>>) -> Progress
    decreases tags.len(),
{
    if tags.len() == 0 {
        now
    } else {
        link_tag(link_tags(now, question, tags.drop_last()), question, tags.last())
    }
}

/// A run after one question: the store is asked to insert it, and only the tags
/// of a question that was created are linked.
pub open spec fn ingest_question(now: Progress, question: Candidate) -> Progress {
    let outcome = now.store.insertion(question.stack_id);
    let next = Progress {
        store: now.store.insert_question(question.record()),
        run: now.run.question_done(outcome),
        ..now
    };
    match outcome {
        Insertion::Created(id) => link_tags(next, id, question.tags),
        _ => next,
    }
}

/// A run after the questions of a list, taken in order.
pub open spec fn ingest_questions(now: Progress, questions: Seq<Candidate>) -> Progress
    decreases questions.len(),
{
    if questions.len() == 0 {
        now
    } else {
        ingest_question(ingest_questions(now, questions.drop_last()), questions.last())
    }
}

/// The run that ingests a page into a store, from its start to its end.
pub open spec fn ingested(store: StoreView, page: Page) -> Progress {
    ingest_questions(
        Progress { store, run: RunView::start(page.unique_tags), asked: Seq::empty() },
        page.questions,
    )
}

} // verus!
