//! What the pipeline asks of a store of questions, tags and their links, and a
//! store in memory that answers as asked.
use crate::error::AppError;
use crate::models::{QuestionId, Questions, Record, ScrapedQuestion, TagId, TagQuestion};
use crate::text_map::TextMap;
use vstd::prelude::*;
use vstd::string::StringExecFns;

verus! {

/// A store as a mathematical value: for each source identifier the identifier
/// of the question stored for it and what is stored of the question, for each
/// tag title the tag stored for it, and the links between questions and tags as
/// pairs of question and tag.
pub struct StoreView {
    pub questions: Map<int, int>,
    pub rows: Map<int, Record>,
    pub tags: Map<Seq<char>, int>,
    pub edges: Set<(int, int)>,
}

/// What comes of the attempt to insert a question.
pub enum Insertion {
    /// The question was new and got this identifier.
    Created(int),
    /// A question with this source identifier is stored already.
    Duplicate,
    /// The store could not take the question.
    Failed,
}

impl StoreView {
    /// What comes of inserting a question with a source identifier. A new
    /// question gets the number of the questions stored so far, plus one.
    pub open spec fn insertion(self, source: int) -> Insertion {
        if self.questions.dom().contains(source) {
            Insertion::Duplicate
        } else if self.questions.dom().len() >= i32::MAX {
            Insertion::Failed
        } else {
            Insertion::Created(self.questions.dom().len() as int + 1)
        }
    }

    /// The store after the attempt to insert a question: a new question is
    /// stored as it is under its source identifier; a question whose source
    /// identifier is stored already changes nothing.
    pub open spec fn insert_question(self, question: Record) -> StoreView {
        match self.insertion(question.stack_id) {
            Insertion::Created(id) => StoreView {
                questions: self.questions.insert(question.stack_id, id),
                rows: self.rows.insert(question.stack_id, question),
                ..self
            },
            _ => self,
        }
    }

    /// The tag that a title resolves to: the stored tag of this title, else a
    /// new one, which gets the number of the tags stored so far, plus one. `None`
    /// where the title is new and the store has no identifier left to give.
    pub open spec fn resolution(self, title: Seq<char>) -> Option<int> {
        if self.tags.dom().contains(title) {
            Some(self.tags[title])
        } else if self.tags.dom().len() >= i32::MAX {
            None
        } else {
            Some(self.tags.dom().len() as int + 1)
        }
    }

    /// The store after a title was resolved.
    pub open spec fn resolve_tag(self, title: Seq<char>) -> StoreView {
        match self.resolution(title) {
            Some(id) => StoreView { tags: self.tags.insert(title, id), ..self },
            None => self,
        }
    }

    /// The store after a question was linked to a tag. A link that exists stays
    /// as it is.
    pub open spec fn link(self, question: int, tag: int) -> StoreView {
        StoreView { edges: self.edges.insert((question, tag)), ..self }
    }
}

/// A store in memory. Identifiers are given in order, from one.
#[derive(Debug)]
pub struct MemoryStore {
    rows: Vec<Questions>,
    tags: TextMap<i32>,
    edges: Vec<TagQuestion>,
}

impl View for MemoryStore {
    type V = StoreView;

    closed spec fn view(&self) -> StoreView {
        StoreView {
            questions: Map::new(
                |source: int| self.sources().contains(source),
                |source: int| self.sources().index_of(source) + 1,
            ),
            rows: Map::new(
                |source: int| self.sources().contains(source),
                |source: int| self.records()[self.sources().index_of(source)],
            ),
            tags: Map::new(
                |title: Seq<char>| self.tags@.dom().contains(title),
                |title: Seq<char>| self.tags@[title] as int,
            ),
            edges: self.links().to_set(),
        }
    }
}

impl MemoryStore {
    /// The source identifiers of the stored questions, in the order stored.
    pub closed spec fn sources(&self) -> Seq<int> {
        self.rows@.map_values(|row: Questions| row.stack_id as int)
    }

    /// What is stored of each question, in the order stored.
    pub closed spec fn records(&self) -> Seq<Record> {
        self.rows@.map_values(|row: Questions| row.record())
    }

    /// The stored links, in the order stored.
    pub closed spec fn links(&self) -> Seq<(int, int)> {
        self.edges@.map_values(|edge: TagQuestion| (edge.question_id as int, edge.tag_id as int))
    }

    /// No source identifier, tag title or link is stored twice, and questions
    /// and tags carry their place, counted from one, as identifier.
    pub closed spec fn wf(&self) -> bool {
        &&& self.rows@.len() <= i32::MAX
        &&& self.sources().no_duplicates()
        &&& forall|i: int| 0 <= i < self.rows@.len() ==> (#[trigger] self.rows@[i]).question_id == i + 1
        &&& self.tags.wf()
        &&& self.tags.keys().len() <= i32::MAX
        &&& forall|i: int|
            0 <= i < self.tags.keys().len() ==> #[trigger] self.tags.values()[i] == i + 1
        &&& self.links().no_duplicates()
    }

    /// What a well-formed store holds is finite, and the identifiers are the
    /// places: no two questions and no two tags share one.
    pub proof fn lemma_view(&self)
        requires
            self.wf(),
        ensures
            self@.questions.dom().finite(),
            self@.questions.dom().len() == self.sources().len(),
            self@.questions.dom().len() <= i32::MAX,
            self@.rows.dom() == self@.questions.dom(),
            forall|source: int| #[trigger]
                self@.rows.dom().contains(source) ==> self@.rows[source].stack_id == source,
            self@.tags.dom().finite(),
            self@.tags.dom().len() <= i32::MAX,
            self@.edges.finite(),
            self@.edges.len() == self.links().len(),
            forall|source: int| #[trigger]
                self@.questions.dom().contains(source) ==> 1 <= self@.questions[source]
                    <= self@.questions.dom().len(),
            forall|title: Seq<char>| #[trigger]
                self@.tags.dom().contains(title) ==> 1 <= self@.tags[title]
                    <= self@.tags.dom().len(),
            forall|a: int, b: int|
                self@.questions.dom().contains(a) && self@.questions.dom().contains(b)
                    && #[trigger] self@.questions[a] == #[trigger] self@.questions[b] ==> a == b,
            forall|a: Seq<char>, b: Seq<char>|
                self@.tags.dom().contains(a) && self@.tags.dom().contains(b) && #[trigger] self@.tags[a]
                    == #[trigger] self@.tags[b] ==> a == b,
    {
        assert(self@.questions.dom() =~= self.sources().to_set());
        assert(self@.rows.dom() =~= self@.questions.dom());
        assert forall|source: int| #[trigger] self@.rows.dom().contains(source) implies self@.rows[source].stack_id
            == source by {
            let i = self.sources().index_of(source);
            assert(self.sources()[i] == source);
        }
        self.sources().unique_seq_to_set();
        self.tags.lemma_domain();
        assert(self@.tags.dom() =~= self.tags@.dom());
        self.links().unique_seq_to_set();
        assert forall|title: Seq<char>| #[trigger] self@.tags.dom().contains(title) implies 1
            <= self@.tags[title] <= self@.tags.dom().len() by {
            let i = self.tags.keys().index_of(title);
            assert(self.tags.keys()[i] == title);
        }
        assert forall|a: Seq<char>, b: Seq<char>|
            self@.tags.dom().contains(a) && self@.tags.dom().contains(b) && #[trigger] self@.tags[a]
                == #[trigger] self@.tags[b] implies a == b by {
            let i = self.tags.keys().index_of(a);
            let j = self.tags.keys().index_of(b);
            assert(self.tags.keys()[i] == a);
            assert(self.tags.keys()[j] == b);
        }
    }

    /// An empty store.
    pub fn new() -> (store: Self)
        ensures
            store.wf(),
            store@.questions == Map::<int, int>::empty(),
            store@.rows == Map::<int, Record>::empty(),
            store@.tags == Map::<Seq<char>, int>::empty(),
            store@.edges == Set::<(int, int)>::empty(),
    {
        let store = MemoryStore { rows: Vec::new(), tags: TextMap::new(), edges: Vec::new() };
        proof {
            assert(store.sources() =~= Seq::<int>::empty());
            assert(store.links() =~= Seq::<(int, int)>::empty());
            assert(store@.questions =~= Map::<int, int>::empty());
            assert(store@.rows =~= Map::<int, Record>::empty());
            assert(store@.tags =~= Map::<Seq<char>, int>::empty());
            assert(store@.edges =~= Set::<(int, int)>::empty());
            store.tags.lemma_domain();
        }
        store
    }

    /// How many questions are stored.
    pub fn question_count(&self) -> (n: usize)
        requires
            self.wf(),
        ensures
            n == self@.questions.dom().len(),
    {
        proof {
            self.lemma_view();
        }
        self.rows.len()
    }

    /// How many tags are stored.
    pub fn tag_count(&self) -> (n: usize)
        requires
            self.wf(),
        ensures
            n == self@.tags.dom().len(),
    {
        proof {
            self.lemma_view();
            self.tags.lemma_domain();
            assert(self@.tags.dom() =~= self.tags@.dom());
        }
        self.tags.len()
    }

    /// How many links are stored.
    pub fn edge_count(&self) -> (n: usize)
        requires
            self.wf(),
        ensures
            n == self@.edges.len(),
    {
        proof {
            self.lemma_view();
        }
        self.edges.len()
    }

    /// Where the question with a source identifier is stored.
    fn find_source(&self, source: i32) -> (place: Option<usize>)
        ensures
            match place {
                Some(i) => i < self.sources().len() && self.sources()[i as int] == source,
                None => !self.sources().contains(source as int),
            },
    {
        let mut i: usize = 0;
        while i < self.rows.len()
            invariant
                i <= self.rows@.len(),
                forall|j: int| 0 <= j < i ==> self.sources()[j] != source,
            decreases self.rows@.len() - i,
        {
            if self.rows[i].stack_id == source {
                return Some(i);
            }
            i = i + 1;
        }
        None
    }

    /// The identifier of the question stored for a source identifier.
    pub fn question_id(&self, source: i32) -> (id: Option<i32>)
        requires
            self.wf(),
        ensures
            id.is_some() == self@.questions.dom().contains(source as int),
            id matches Some(found) ==> found == self@.questions[source as int],
    {
        match self.find_source(source) {
            Some(i) => Some(self.rows[i].question_id),
            None => None,
        }
    }

    /// The question stored for a source identifier.
    pub fn question(&self, source: i32) -> (row: Option<&Questions>)
        requires
            self.wf(),
        ensures
            row.is_some() == self@.questions.dom().contains(source as int),
            row matches Some(found) ==> found.question_id == self@.questions[source as int]
                && found.record() == self@.rows[source as int],
    {
        match self.find_source(source) {
            Some(i) => Some(&self.rows[i]),
            None => None,
        }
    }

    /// The identifier of the tag stored for a title.
    pub fn tag_id(&self, title: &String) -> (id: Option<i32>)
        requires
            self.wf(),
        ensures
            id.is_some() == self@.tags.dom().contains(title@),
            id matches Some(found) ==> found == self@.tags[title@],
    {
        self.tags.get(title)
    }

    /// Whether a question is linked to a tag.
    pub fn has_edge(&self, question_id: i32, tag_id: i32) -> (found: bool)
        ensures
            found == self@.edges.contains((question_id as int, tag_id as int)),
    {
        let mut i: usize = 0;
        while i < self.edges.len()
            invariant
                i <= self.edges@.len(),
                forall|j: int| 0 <= j < i ==> self.links()[j] != (question_id as int, tag_id as int),
            decreases self.edges@.len() - i,
        {
            if self.edges[i].question_id == question_id && self.edges[i].tag_id == tag_id {
                assert(self.links()[i as int] == (question_id as int, tag_id as int));
                return true;
            }
            i = i + 1;
        }
        false
    }

    /// Stores a question, all of it but its tags, unless one with its source
    /// identifier is stored already. Gives the new question's identifier, or
    /// nothing for a question that was there; fails with a storage failure
    /// where no identifier is left to give.
    pub fn create_question_or_skip(&mut self, question: &ScrapedQuestion) -> (outcome: Result<
        Option<QuestionId>,
        AppError,
    >)
        requires
            old(self).wf(),
        ensures
            final(self).wf(),
            final(self)@ == old(self)@.insert_question(question@.record()),
            match old(self)@.insertion(question.stack_id as int) {
                Insertion::Created(id) => outcome == Ok::<Option<QuestionId>, AppError>(
                    Some(QuestionId { question_id: id as i32 }),
                ),
                Insertion::Duplicate => outcome == Ok::<Option<QuestionId>, AppError>(None),
                Insertion::Failed => match outcome {
                    Err(error) => error.is_db_error(),
                    Ok(_) => false,
                },
            },
    {
        proof {
            self.lemma_view();
        }
        if self.find_source(question.stack_id).is_some() {
            return Ok(None);
        }
        if self.rows.len() >= 2147483647 {
            return Err(AppError::db_error(String::from_str("No question identifier is left")));
        }
        let ghost before = *self;
        let question_id = (self.rows.len() + 1) as i32;
        self.rows.push(question.to_create().stored(question_id));
        proof {
            let source = question.stack_id as int;
            let record = question@.record();
            let n = before.sources().len() as int;
            assert(self.sources() =~= before.sources().push(source));
            assert(self.records() =~= before.records().push(record));
            assert(self.links() == before.links());
            assert(self.sources()[n] == source);
            assert forall|s: int| #[trigger]
                self@.questions.dom().contains(s) == before@.insert_question(record).questions.dom().contains(
                    s,
                ) by {
                if self.sources().contains(s) {
                    let i = self.sources().index_of(s);
                    if i < n {
                        assert(before.sources()[i] == s);
                    }
                }
                if before.sources().contains(s) {
                    let i = before.sources().index_of(s);
                    assert(self.sources()[i] == s);
                }
            }
            assert forall|s: int| #[trigger] self@.questions.dom().contains(s) implies self@.questions[s]
                == before@.insert_question(record).questions[s] && self@.rows[s]
                == before@.insert_question(record).rows[s] by {
                let i = self.sources().index_of(s);
                if s != source {
                    assert(before.sources()[i] == s);
                    assert(before.sources().index_of(s) == i);
                }
            }
            assert(self@.questions =~= before@.insert_question(record).questions);
            assert(self@.rows =~= before@.insert_question(record).rows);
            assert(self@.tags =~= before@.tags);
        }
        Ok(Some(QuestionId { question_id }))
    }

    /// Gives the tag stored for a title, and stores one first where the title is
    /// new. Fails with a storage failure where the title is new and no
    /// identifier is left to give.
    pub fn get_or_create_tag(&mut self, title: &String) -> (outcome: Result<TagId, AppError>)
        requires
            old(self).wf(),
        ensures
            final(self).wf(),
            final(self)@ == old(self)@.resolve_tag(title@),
            match old(self)@.resolution(title@) {
                Some(id) => outcome == Ok::<TagId, AppError>(TagId { tag_id: id as i32 }),
                None => match outcome {
                    Err(error) => error.is_db_error(),
                    Ok(_) => false,
                },
            },
    {
        proof {
            self.lemma_view();
            self.tags.lemma_domain();
            assert(self@.tags.dom() =~= self.tags@.dom());
        }
        match self.tags.get(title) {
            Some(tag_id) => {
                assert(self@.tags =~= self@.resolve_tag(title@).tags);
                return Ok(TagId { tag_id });
            },
            None => {},
        }
        if self.tags.len() >= 2147483647 {
            return Err(AppError::db_error(String::from_str("No tag identifier is left")));
        }
        let ghost before = *self;
        let tag_id = (self.tags.len() + 1) as i32;
        self.tags.insert(title.clone(), tag_id);
        proof {
            self.tags.lemma_domain();
            assert(self.sources() == before.sources());
            assert(self.records() == before.records());
            assert(self.links() == before.links());
            assert(self@.questions =~= before@.questions);
            assert(self@.rows =~= before@.rows);
            assert(self@.tags =~= before@.resolve_tag(title@).tags);
            assert forall|i: int| 0 <= i < self.tags.keys().len() implies #[trigger] self.tags.values()[i]
                == i + 1 by {
                let key = self.tags.keys()[i];
                assert(self.tags@[key] == self.tags.values()[i]);
                if i < before.tags.keys().len() {
                    assert(before.tags.keys()[i] == key);
                    assert(before.tags.keys().contains(key));
                    assert(before.tags.keys().to_set().contains(key));
                    assert(before.tags@[key] == before.tags.values()[i]);
                }
            }
        }
        Ok(TagId { tag_id })
    }

    /// Links a question to a tag unless the link is there. Says whether the link
    /// is new.
    pub fn create_edge(&mut self, edge: &TagQuestion) -> (outcome: Result<bool, AppError>)
        requires
            old(self).wf(),
        ensures
            final(self).wf(),
            final(self)@ == old(self)@.link(edge.question_id as int, edge.tag_id as int),
            outcome == Ok::<bool, AppError>(
                !old(self)@.edges.contains((edge.question_id as int, edge.tag_id as int)),
            ),
    {
        let ghost pair = (edge.question_id as int, edge.tag_id as int);
        if self.has_edge(edge.question_id, edge.tag_id) {
            assert(self@.edges =~= self@.edges.insert(pair));
            return Ok(false);
        }
        let ghost before = *self;
        self.edges.push(*edge);
        proof {
            assert(self.links() =~= before.links().push(pair));
            assert(self.sources() == before.sources());
            assert(self.records() == before.records());
            assert(self@.questions =~= before@.questions);
            assert(self@.rows =~= before@.rows);
            assert(self@.tags =~= before@.tags);
            assert forall|e: (int, int)| self.links().contains(e) <==> before.links().contains(e) || e
                == pair by {
                if self.links().contains(e) {
                    let i = self.links().index_of(e);
                    if i < before.links().len() {
                        assert(before.links()[i] == e);
                    }
                }
                if before.links().contains(e) {
                    let i = before.links().index_of(e);
                    assert(self.links()[i] == e);
                }
                assert(self.links()[before.links().len() as int] == pair);
            }
            assert(self@.edges =~= before@.edges.insert(pair));
        }
        Ok(true)
    }
}

} // verus!
