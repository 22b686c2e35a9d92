//! The records of the question store and of one scraped page.
use crate::tags::TagCounter;
use crate::text::texts;
use vstd::prelude::*;
use vstd::string::StringExecFns;

verus! {

/// A stored question.
#[derive(Debug)]
pub struct Questions {
    pub question_id: i32,
    pub title: String,
    pub q_description: String,
    pub question_link: String,
    pub votes: i32,
    pub views: String,
    pub stack_id: i32,
    pub answer: i32,
}

/// A stored tag.
#[derive(Debug)]
pub struct Tag {
    pub tag_id: i32,
    pub tag_title: String,
}

/// The identifier that the store gave a tag.
#[derive(Debug, Clone, Copy, PartialEq, Eq, Structural)]
pub struct TagId {
    pub tag_id: i32,
}

/// A link between a stored question and a stored tag.
#[derive(Debug, Clone, Copy, PartialEq, Eq, Structural)]
pub struct TagQuestion {
    pub tag_id: i32,
    pub question_id: i32,
}

/// A stored question together with one of its tags.
#[derive(Debug)]
pub struct TagQuestionRelation {
    pub tag_id: i32,
    pub question_id: i32,
    pub q_title: String,
    pub q_description: String,
    pub question_link: String,
    pub votes: i32,
    pub views: String,
    pub tag_title: String,
    pub stack_id: i32,
    pub answer: i32,
}

/// A request to create a tag.
#[derive(Debug)]
pub struct CreateTag {
    pub tag_title: String,
}

/// What is written when a question is inserted.
#[derive(Debug)]
pub struct CreateQuestion {
    pub title: String,
    pub q_description: String,
    pub question_link: String,
    pub votes: i32,
    pub views: String,
    pub answer: i32,
    pub stack_id: i32,
}

/// The answer to a request that changes the store.
#[derive(Debug)]
pub struct ResultResponse {
    pub message: String,
    pub success: bool,
}

/// The identifier that the store gave a question.
#[derive(Debug, Clone, Copy, PartialEq, Eq, Structural)]
pub struct QuestionId {
    pub question_id: i32,
}

/// A question as read from a page, not yet held against the store. The view
/// count is kept as the page writes it; `stack_id` is the source's identifier
/// of the post; no tag is named twice.
#[derive(Debug)]
pub struct ScrapedQuestion {
    pub title: String,
    pub q_description: String,
    pub question_link: String,
    pub votes: i32,
    pub stack_id: i32,
    pub views: String,
    pub tags: Vec<String>,
    pub answer: i32,
}

/// What one page gave: its questions in page order, how many questions name each
/// tag, and how many blocks of the page were left out as malformed.
#[derive(Debug)]
pub struct ScraperResult {
    pub questions: Vec<ScrapedQuestion>,
    pub unique_tags: TagCounter,
    pub skipped: usize,
}

/// A scraped question as a mathematical value.
pub struct Candidate {
    pub title: Seq<char>,
    pub q_description: Seq<char>,
    pub question_link: Seq<char>,
    pub votes: int,
    pub stack_id: int,
    pub views: Seq<char>,
    pub tags: Seq<Seq<char>>,
    pub answer: int,
}

/// What a store keeps of a question, as a mathematical value: all of the
/// question but its tags.
pub struct Record {
    pub title: Seq<char>,
    pub q_description: Seq<char>,
    pub question_link: Seq<char>,
    pub votes: int,
    pub views: Seq<char>,
    pub answer: int,
    pub stack_id: int,
}

/// A scraped page as a mathematical value.
pub struct Page {
    pub questions: Seq<Candidate>,
    pub unique_tags: Map<Seq<char>, nat>,
    pub skipped: nat,
}

impl Candidate {
    /// What a store keeps of the question.
    pub open spec fn record(self) -> Record {
        Record {
            title: self.title,
            q_description: self.q_description,
            question_link: self.question_link,
            votes: self.votes,
            views: self.views,
            answer: self.answer,
            stack_id: self.stack_id,
        }
    }

    /// Counts are not negative and no tag is named twice.
    pub open spec fn wf(self) -> bool {
        &&& self.votes >= 0
        &&& self.answer >= 0
        &&& self.tags.no_duplicates()
    }
}

impl View for ScrapedQuestion {
    type V = Candidate;

    open spec fn view(&self) -> Candidate {
        Candidate {
            title: self.title@,
            q_description: self.q_description@,
            question_link: self.question_link@,
            votes: self.votes as int,
            stack_id: self.stack_id as int,
            views: self.views@,
            tags: texts(self.tags@),
            answer: self.answer as int,
        }
    }
}

impl View for CreateQuestion {
    type V = Record;

    open spec fn view(&self) -> Record {
        Record {
            title: self.title@,
            q_description: self.q_description@,
            question_link: self.question_link@,
            votes: self.votes as int,
            views: self.views@,
            answer: self.answer as int,
            stack_id: self.stack_id as int,
        }
    }
}

impl Questions {
    /// What the stored question holds beside its identifier.
    pub open spec fn record(&self) -> Record {
        Record {
            title: self.title@,
            q_description: self.q_description@,
            question_link: self.question_link@,
            votes: self.votes as int,
            views: self.views@,
            answer: self.answer as int,
            stack_id: self.stack_id as int,
        }
    }
}

impl ScrapedQuestion {
    pub open spec fn wf(&self) -> bool {
        self@.wf()
    }

    /// What is written when this question is inserted: all of it but its tags.
    pub fn to_create(&self) -> (row: CreateQuestion)
        ensures
            row@ == self@.record(),
    {
        CreateQuestion {
            title: self.title.clone(),
            q_description: self.q_description.clone(),
            question_link: self.question_link.clone(),
            votes: self.votes,
            views: self.views.clone(),
            answer: self.answer,
            stack_id: self.stack_id,
        }
    }
}

impl CreateQuestion {
    /// The stored question that this insertion makes under an identifier.
    pub fn stored(self, question_id: i32) -> (row: Questions)
        ensures
            row.question_id == question_id,
            row.record() == self@,
    {
        Questions {
            question_id,
            title: self.title,
            q_description: self.q_description,
            question_link: self.question_link,
            votes: self.votes,
            views: self.views,
            stack_id: self.stack_id,
            answer: self.answer,
        }
    }
}

impl CreateTag {
    /// Whether the request is valid: the title has one character at least.
    pub fn validate(&self) -> (valid: bool)
        ensures
            valid == (self.tag_title@.len() >= 1),
    {
        !self.tag_title.as_str().is_empty()
    }
}

impl ResultResponse {
    /// An answer with a message.
    pub fn new(message: &str, success: bool) -> (response: ResultResponse)
        ensures
            response.message@ == message@,
            response.success == success,
    {
        ResultResponse { message: String::from_str(message), success }
    }
}

/// The questions of a list as mathematical values.
pub open spec fn candidates(questions: Seq<ScrapedQuestion>) -> Seq<Candidate> {
    questions.map_values(|question: ScrapedQuestion| question@)
}

/// How many questions of a list name a tag.
pub open spec fn occurrences(questions: Seq<Candidate>, tag: Seq<char>) -> nat {
    questions.filter(|question: Candidate| question.tags.contains(tag)).len()
}

/// The tags that the questions of a list name, each with the number of questions
/// that name it.
pub open spec fn tag_frequency(questions: Seq<Candidate>) -> Map<Seq<char>, nat> {
    Map::new(
        |tag: Seq<char>| occurrences(questions, tag) > 0,
        |tag: Seq<char>| occurrences(questions, tag),
    )
}

impl View for ScraperResult {
    type V = Page;

    open spec fn view(&self) -> Page {
        Page {
            questions: candidates(self.questions@),
            unique_tags: self.unique_tags@,
            skipped: self.skipped as nat,
        }
    }
}

impl ScraperResult {
    /// Every question is well formed, and the counts are those of the questions.
    pub open spec fn wf(&self) -> bool {
        &&& self.unique_tags.wf()
        &&& self.unique_tags@ == tag_frequency(self@.questions)
        &&& forall|i: int| 0 <= i < self@.questions.len() ==> (#[trigger] self@.questions[i]).wf()
    }
}

} // verus!
