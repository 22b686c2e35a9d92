//! The coordinator of a run: it says what to ask the store next and takes the
//! store's answer, so that whoever talks to the store only does as told.
use crate::error::AppError;
use crate::ingest::{
    answer_of, ingest_question, ingest_questions, ingested, insertion_of, link_edge, link_tag,
    link_tags, progress, resolution_of, Ingestion, Plan, Progress, Report, RunView, TagPlan,
};
use crate::models::{candidates, Candidate, QuestionId, ScrapedQuestion, ScraperResult, TagId, TagQuestion};
use crate::store::{Insertion, MemoryStore};
use crate::text::texts;
use vstd::prelude::*;

verus! {

/// What a coordinator waits for.
#[derive(Debug, Clone, Copy, PartialEq, Eq, Structural)]
pub enum Waiting {
    /// The answer to the insertion of the current question.
    Insertion,
    /// The answer to the resolution of the current tag.
    Resolution,
    /// The answer to the link between the current question and the current tag.
    Link,
    /// Nothing: the run is over.
    Nothing,
}

/// What to ask the store next.
#[derive(Debug)]
pub enum Action {
    /// Insert the question at this place of the page, unless it is stored.
    Insert(usize),
    /// Find the tag of this text, or create it.
    Resolve(String),
    /// Link this question to this tag.
    Link(TagQuestion),
    /// Nothing is left to ask.
    Done,
}

/// What the store answered.
#[derive(Debug)]
pub enum Event {
    Inserted(Result<Option<QuestionId>, AppError>),
    Resolved(Result<TagId, AppError>),
    Linked(Result<bool, AppError>),
}

/// `Action` as a mathematical value; a link names its question, then its tag.
pub enum Step {
    Insert(int),
    Resolve(Seq<char>),
    Link(int, int),
    Done,
}

/// `Event` as a mathematical value.
pub enum Answer {
    Inserted(Insertion),
    Resolved(Option<int>),
    Linked(Option<bool>),
}

impl View for Action {
    type V = Step;

    open spec fn view(&self) -> Step {
        match *self {
            Action::Insert(place) => Step::Insert(place as int),
            Action::Resolve(tag) => Step::Resolve(tag@),
            Action::Link(edge) => Step::Link(edge.question_id as int, edge.tag_id as int),
            Action::Done => Step::Done,
        }
    }
}

impl View for Event {
    type V = Answer;

    open spec fn view(&self) -> Answer {
        match *self {
            Event::Inserted(outcome) => Answer::Inserted(insertion_of(outcome)),
            Event::Resolved(outcome) => Answer::Resolved(resolution_of(outcome)),
            Event::Linked(outcome) => Answer::Linked(answer_of(outcome)),
        }
    }
}

/// A coordinator as a mathematical value: the questions of the page, the state
/// of the run, the places of the current question and of its current tag, the
/// identifier of the current question once it is created, and what is awaited.
pub struct Course {
    pub questions: Seq<Candidate>,
    pub run: RunView,
    pub question: int,
    pub tag: int,
    pub question_id: int,
    pub waiting: Waiting,
}

impl Course {
    /// The places are within the page, and what is awaited has a place.
    pub open spec fn wf(self) -> bool {
        &&& 0 <= self.question <= self.questions.len()
        &&& 0 <= self.tag
        &&& self.waiting != Waiting::Nothing ==> self.question < self.questions.len()
        &&& self.waiting == Waiting::Insertion ==> self.tag == 0
        &&& (self.waiting == Waiting::Resolution || self.waiting == Waiting::Link) ==> self.tag
            < self.tags().len()
    }

    /// The tags of the current question.
    pub open spec fn tags(self) -> Seq<Seq<char>> {
        self.questions[self.question].tags
    }

    /// The coordinator at the start of a run over a page, and what it asks first.
    pub open spec fn start(questions: Seq<Candidate>, budget: Map<Seq<char>, nat>) -> (Course, Step) {
        Course {
            questions,
            run: RunView::start(budget),
            question: 0,
            tag: 0,
            question_id: 0,
            waiting: Waiting::Nothing,
        }.turn()
    }

    /// Turns to the current question: asks for its insertion, or ends the run
    /// where no question is left.
    pub open spec fn turn(self) -> (Course, Step) {
        if self.question < self.questions.len() {
            (Course { tag: 0, waiting: Waiting::Insertion, ..self }, Step::Insert(self.question))
        } else {
            (Course { waiting: Waiting::Nothing, ..self }, Step::Done)
        }
    }

    /// Goes through the tags of the current question, from the current one on,
    /// to the first for which a link is planned, and asks for what the link
    /// needs; turns to the next question where no such tag is left.
    pub open spec fn scan(self) -> (Course, Step)
        decreases self.tags().len() - self.tag,
    {
        if self.tag < 0 || self.tag >= self.tags().len() {
            (Course { question: self.question + 1, ..self }).turn()
        } else {
            let tag = self.tags()[self.tag];
            let run = self.run.planned(tag);
            match self.run.plan(tag) {
                Plan::Skip => (Course { run, tag: self.tag + 1, ..self }).scan(),
                Plan::Resolve => (
                    Course { run, waiting: Waiting::Resolution, ..self },
                    Step::Resolve(tag),
                ),
                Plan::Link(id) => (
                    Course { run, waiting: Waiting::Link, ..self },
                    Step::Link(self.question_id, id),
                ),
            }
        }
    }

    /// Takes an answer of the store and says what to ask next. An answer of
    /// another kind than the awaited one counts as a failure of what was asked.
    pub open spec fn step(self, answer: Answer) -> (Course, Step) {
        match self.waiting {
            Waiting::Nothing => (self, Step::Done),
            Waiting::Insertion => {
                let outcome = match answer {
                    Answer::Inserted(outcome) => outcome,
                    _ => Insertion::Failed,
                };
                let run = self.run.question_done(outcome);
                match outcome {
                    Insertion::Created(id) => (Course { run, question_id: id, tag: 0, ..self }).scan(),
                    _ => (Course { run, question: self.question + 1, ..self }).turn(),
                }
            },
            Waiting::Resolution => {
                let outcome = match answer {
                    Answer::Resolved(outcome) => outcome,
                    _ => None,
                };
                let tag = self.tags()[self.tag];
                let run = self.run.tag_resolved(tag, outcome);
                match outcome {
                    Some(_) => (
                        Course { run, waiting: Waiting::Link, ..self },
                        Step::Link(self.question_id, run.known[tag]),
                    ),
                    None => (Course { run, tag: self.tag + 1, ..self }).scan(),
                }
            },
            Waiting::Link => {
                let outcome = match answer {
                    Answer::Linked(outcome) => outcome,
                    _ => None,
                };
                (Course { run: self.run.edge_done(outcome), tag: self.tag + 1, ..self }).scan()
            },
        }
    }
}

/// The coordinator of one run over one page.
#[derive(Debug)]
pub struct Coordinator {
    questions: Vec<ScrapedQuestion>,
    state: Ingestion,
    question: usize,
    tag: usize,
    question_id: i32,
    waiting: Waiting,
}

impl View for Coordinator {
    type V = Course;

    closed spec fn view(&self) -> Course {
        Course {
            questions: candidates(self.questions@),
            run: self.state@,
            question: self.question as int,
            tag: self.tag as int,
            question_id: self.question_id as int,
            waiting: self.waiting,
        }
    }
}

impl Coordinator {
    pub closed spec fn wf(&self) -> bool {
        &&& self.state.wf()
        &&& self@.wf()
    }

    /// Whether the coordinator stands at a tag of a question, or behind its last.
    spec fn scanning(&self) -> bool {
        &&& self.state.wf()
        &&& self.question < self.questions@.len()
        &&& self.tag <= self.questions@[self.question as int].tags@.len()
    }

    /// Starts a run over a page and says what to ask first.
    pub fn start(page: ScraperResult) -> (begun: (Coordinator, Action))
        requires
            page.unique_tags.wf(),
        ensures
            begun.0.wf(),
            (begun.0@, begun.1@) == Course::start(page@.questions, page@.unique_tags),
    {
        let ScraperResult { questions, unique_tags, skipped: _ } = page;
        let mut coordinator = Coordinator {
            questions,
            state: Ingestion::new(unique_tags),
            question: 0,
            tag: 0,
            question_id: 0,
            waiting: Waiting::Nothing,
        };
        let action = coordinator.turn();
        (coordinator, action)
    }

    /// The question at a place of the page.
    pub fn question(&self, place: usize) -> (question: &ScrapedQuestion)
        requires
            place < self@.questions.len(),
        ensures
            question@ == self@.questions[place as int],
    {
        &self.questions[place]
    }

    /// How many questions the page has.
    pub fn len(&self) -> (n: usize)
        ensures
            n == self@.questions.len(),
    {
        self.questions.len()
    }

    /// The counts so far.
    pub fn report(&self) -> (report: Report)
        ensures
            report == self@.run.report,
    {
        self.state.report()
    }

    fn turn(&mut self) -> (action: Action)
        requires
            old(self).state.wf(),
            old(self).question <= old(self).questions@.len(),
        ensures
            final(self).wf(),
            (final(self)@, action@) == old(self)@.turn(),
    {
        if self.question < self.questions.len() {
            self.tag = 0;
            self.waiting = Waiting::Insertion;
            Action::Insert(self.question)
        } else {
            self.waiting = Waiting::Nothing;
            Action::Done
        }
    }

    fn scan(&mut self) -> (action: Action)
        requires
            old(self).scanning(),
        ensures
            final(self).wf(),
            (final(self)@, action@) == old(self)@.scan(),
    {
        loop
            invariant
                self.scanning(),
                self@.scan() == old(self)@.scan(),
            decreases self.questions@[self.question as int].tags@.len() - self.tag,
        {
            assert(self@.tags() == texts(self.questions@[self.question as int].tags@));
            let total = self.questions.len();
            if self.tag >= self.questions[self.question].tags.len() {
                self.question = self.question + 1;
                return self.turn();
            }
            match self.state.plan_tag(&self.questions[self.question].tags[self.tag]) {
                TagPlan::Skip => {
                    self.tag = self.tag + 1;
                },
                TagPlan::Resolve => {
                    self.waiting = Waiting::Resolution;
                    return Action::Resolve(self.questions[self.question].tags[self.tag].clone());
                },
                TagPlan::Link(tag_id) => {
                    self.waiting = Waiting::Link;
                    return Action::Link(TagQuestion { tag_id, question_id: self.question_id });
                },
            }
        }
    }

    /// Takes an answer of the store and says what to ask next.
    pub fn step(&mut self, event: Event) -> (action: Action)
        requires
            old(self).wf(),
        ensures
            final(self).wf(),
            (final(self)@, action@) == old(self)@.step(event@),
    {
        let total = self.questions.len();
        assert(self@.questions.len() == total);
        if self.question < total {
            let tags = self.questions[self.question].tags.len();
            assert(self@.tags().len() == tags);
        }
        match self.waiting {
            Waiting::Nothing => Action::Done,
            Waiting::Insertion => {
                let outcome = match event {
                    Event::Inserted(outcome) => outcome,
                    _ => Err(AppError::db_error(String::new())),
                };
                match self.state.question_done(&outcome) {
                    Some(question_id) => {
                        self.question_id = question_id;
                        self.tag = 0;
                        self.scan()
                    },
                    None => {
                        self.question = self.question + 1;
                        self.turn()
                    },
                }
            },
            Waiting::Resolution => {
                let outcome = match event {
                    Event::Resolved(outcome) => outcome,
                    _ => Err(AppError::db_error(String::new())),
                };
                assert(self@.tags() == texts(self.questions@[self.question as int].tags@));
                match self.state.tag_resolved(
                    &self.questions[self.question].tags[self.tag],
                    &outcome,
                ) {
                    Some(tag_id) => {
                        self.waiting = Waiting::Link;
                        Action::Link(TagQuestion { tag_id, question_id: self.question_id })
                    },
                    None => {
                        self.tag = self.tag + 1;
                        self.scan()
                    },
                }
            },
            Waiting::Link => {
                let outcome = match event {
                    Event::Linked(outcome) => outcome,
                    _ => Err(AppError::db_error(String::new())),
                };
                self.state.edge_done(&outcome);
                self.tag = self.tag + 1;
                self.scan()
            },
        }
    }
}

/// The run before the current question of a coordinator.
spec fn before(first: Progress, course: Course) -> Progress {
    ingest_questions(first, course.questions.take(course.question))
}

/// The run once the store has inserted the current question.
spec fn inserted(first: Progress, course: Course) -> Progress {
    let earlier = before(first, course);
    let question = course.questions[course.question];
    Progress {
        store: earlier.store.insert_question(question.record()),
        run: earlier.run.question_done(earlier.store.insertion(question.stack_id)),
        ..earlier
    }
}

/// The run before the current tag of the current question.
spec fn before_tag(first: Progress, course: Course) -> Progress {
    link_tags(inserted(first, course), course.question_id, course.tags().take(course.tag))
}

/// Whether the current question was created under the identifier that the
/// coordinator holds.
spec fn created(first: Progress, course: Course) -> bool {
    before(first, course).store.insertion(course.questions[course.question].stack_id)
        == Insertion::Created(course.question_id)
}

/// Whether a coordinator and what it asks next stand where the run stands: with
/// the run that began at `first` now at `now`, doing what is asked carries the
/// run on as the run goes.
spec fn on_course(first: Progress, now: Progress, course: Course, step: Step) -> bool {
    &&& course.wf()
    &&& now.run == course.run
    &&& match step {
        Step::Insert(place) => {
            &&& course.waiting == Waiting::Insertion
            &&& place == course.question
            &&& now == before(first, course)
        },
        Step::Resolve(tag) => {
            &&& course.waiting == Waiting::Resolution
            &&& created(first, course)
            &&& tag == course.tags()[course.tag]
            &&& before_tag(first, course).run.plan(tag) == Plan::Resolve
            &&& now == (Progress {
                run: before_tag(first, course).run.planned(tag),
                ..before_tag(first, course)
            })
        },
        Step::Link(question, tag_id) => {
            &&& course.waiting == Waiting::Link
            &&& created(first, course)
            &&& question == course.question_id
            &&& link_edge(now, question, course.tags()[course.tag], tag_id) == link_tag(
                before_tag(first, course),
                course.question_id,
                course.tags()[course.tag],
            )
        },
        Step::Done => {
            &&& course.waiting == Waiting::Nothing
            &&& course.question == course.questions.len()
            &&& now == ingest_questions(first, course.questions)
        },
    }
}

proof fn lemma_turn(first: Progress, now: Progress, course: Course)
    requires
        0 <= course.question <= course.questions.len(),
        0 <= course.tag,
        now == before(first, course),
        now.run == course.run,
    ensures
        on_course(first, now, course.turn().0, course.turn().1),
        course.turn().0.questions == course.questions,
        course.turn().0.question == course.question,
        course.turn().0.waiting == Waiting::Insertion || course.turn().0.waiting
            == Waiting::Nothing,
{
    if course.question == course.questions.len() {
        assert(course.questions.take(course.question) =~= course.questions);
    }
}

proof fn lemma_scan(first: Progress, now: Progress, course: Course)
    requires
        0 <= course.question < course.questions.len(),
        0 <= course.tag <= course.tags().len(),
        created(first, course),
        now == before_tag(first, course),
        now.run == course.run,
    ensures
        on_course(
            first,
            Progress { run: course.scan().0.run, ..now },
            course.scan().0,
            course.scan().1,
        ),
        course.scan().0.questions == course.questions,
        course.scan().0.waiting == Waiting::Resolution || course.scan().0.waiting == Waiting::Link
            ==> course.scan().0.question == course.question && course.scan().0.tag >= course.tag,
        course.scan().0.waiting == Waiting::Insertion || course.scan().0.waiting == Waiting::Nothing
            ==> course.scan().0.question == course.question + 1,
    decreases course.tags().len() - course.tag,
{
    let tags = course.tags();
    if course.tag >= tags.len() {
        let next = Course { question: course.question + 1, ..course };
        assert(tags.take(course.tag) =~= tags);
        assert(course.questions.take(course.question + 1).drop_last() =~= course.questions.take(
            course.question,
        ));
        assert(now == before(first, next));
        lemma_turn(first, now, next);
    } else {
        let tag = tags[course.tag];
        assert(tags.take(course.tag + 1).drop_last() =~= tags.take(course.tag));
        assert(tags.take(course.tag + 1).last() == tag);
        match course.run.plan(tag) {
            Plan::Skip => {
                let next = Course { run: course.run.planned(tag), tag: course.tag + 1, ..course };
                let then = Progress { run: course.run.planned(tag), ..now };
                assert(then == before_tag(first, next));
                lemma_scan(first, then, next);
            },
            _ => {},
        }
    }
}

/// How much of a run a coordinator has before it: the questions from the
/// current one on, the tags of the current question from the current one on, and
/// how far what is awaited is from the next tag.
spec fn ahead(course: Course) -> (int, int, int) {
    (
        course.questions.len() - course.question,
        if course.question < course.questions.len() {
            course.tags().len() - course.tag
        } else {
            0
        },
        match course.waiting {
            Waiting::Insertion => 3,
            Waiting::Resolution => 2,
            Waiting::Link => 1,
            Waiting::Nothing => 0,
        },
    )
}

/// Ingests a page into a store in memory, as the coordinator directs: each
/// question is inserted unless the store holds it already, and each question
/// that was created is linked to its tags, as far as the occurrences of each
/// tag on the page reach. A failure of the store is counted and leaves the rest
/// of the run as it was.
pub fn scrape_questions(store: &mut MemoryStore, page: ScraperResult) -> (report: Report)
    requires
        old(store).wf(),
        page.unique_tags.wf(),
    ensures
        final(store).wf(),
        final(store)@ == ingested(old(store)@, page@).store,
        report == ingested(old(store)@, page@).run.report,
{
    let ghost wanted = page@.questions;
    let ghost first = progress(store@, RunView::start(page@.unique_tags), Seq::empty());
    let ghost mut log: Seq<(int, Seq<char>)> = Seq::empty();
    let (mut coordinator, mut action) = Coordinator::start(page);
    proof {
        let begin = Course {
            questions: wanted,
            run: first.run,
            question: 0,
            tag: 0,
            question_id: 0,
            waiting: Waiting::Nothing,
        };
        assert(wanted.take(0) =~= Seq::<Candidate>::empty());
        lemma_turn(first, first, begin);
    }
    loop
        invariant
            store.wf(),
            coordinator.wf(),
            coordinator@.questions == wanted,
            first == progress(old(store)@, RunView::start(page@.unique_tags), Seq::empty()),
            wanted == page@.questions,
            on_course(first, progress(store@, coordinator@.run, log), coordinator@, action@),
        decreases ahead(coordinator@).0, ahead(coordinator@).1, ahead(coordinator@).2,
    {
        let ghost course = coordinator@;
        let ghost now = progress(store@, coordinator@.run, log);
        proof {
            store.lemma_view();
        }
        let event = match action {
            Action::Done => {
                return coordinator.report();
            },
            Action::Insert(place) => Event::Inserted(
                store.create_question_or_skip(coordinator.question(place)),
            ),
            Action::Resolve(tag) => Event::Resolved(store.get_or_create_tag(&tag)),
            Action::Link(edge) => {
                proof {
                    log = log.push((edge.question_id as int, course.tags()[course.tag]));
                }
                Event::Linked(store.create_edge(&edge))
            },
        };
        let ghost asked = action@;
        action = coordinator.step(event);
        proof {
            let tag = course.tags()[course.tag];
            match asked {
                Step::Insert(_) => {
                    let outcome = now.store.insertion(course.questions[course.question].stack_id);
                    let then = inserted(first, course);
                    assert(progress(store@, course.run.question_done(outcome), log) == then);
                    match outcome {
                        Insertion::Created(id) => {
                            let next = Course {
                                run: then.run,
                                question_id: id,
                                tag: 0,
                                ..course
                            };
                            assert(next.tags().take(0) =~= Seq::<Seq<char>>::empty());
                            lemma_scan(first, then, next);
                        },
                        _ => {
                            let next = Course {
                                run: then.run,
                                question: course.question + 1,
                                ..course
                            };
                            assert(next.questions.take(next.question).drop_last()
                                =~= course.questions.take(course.question));
                            lemma_turn(first, then, next);
                        },
                    }
                },
                Step::Resolve(_) => {
                    let base = before_tag(first, course);
                    match now.store.resolution(tag) {
                        Some(id) => {},
                        None => {
                            let then = link_tag(base, course.question_id, tag);
                            let next = Course { run: then.run, tag: course.tag + 1, ..course };
                            assert(next.tags().take(next.tag).drop_last() =~= course.tags().take(
                                course.tag,
                            ));
                            assert(then == before_tag(first, next));
                            lemma_scan(first, then, next);
                        },
                    }
                },
                Step::Link(_, _) => {
                    let base = before_tag(first, course);
                    let then = link_tag(base, course.question_id, tag);
                    let next = Course { run: then.run, tag: course.tag + 1, ..course };
                    assert(next.tags().take(next.tag).drop_last() =~= course.tags().take(
                        course.tag,
                    ));
                    assert(then == before_tag(first, next));
                    lemma_scan(first, then, next);
                },
                Step::Done => {},
            }
        }
    }
}

} // verus!
