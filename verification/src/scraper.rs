//! Reading a listing page: from markup to post blocks, from blocks to questions.
use crate::dom::{
    attribute_of, descendants_named_in_class, descendants_with_class, find_class, find_class_below,
    find_named_in_class_below, node_attr, node_text, nodes_with_class, parse_document,
    parsed_document, text_of, MAX_MARKUP,
};
use crate::error::ExtractionError;
use crate::models::{candidates, occurrences, tag_frequency, Candidate, Page, ScrapedQuestion, ScraperResult};
use crate::number::{parse_i32, parse_i32_spec};
use crate::pattern::{rewrite, rewritten};
use crate::tags::TagCounter;
use crate::text::{distinct, distinct_texts, lemma_distinct, option_text, texts};
use select::document::Document;
use vstd::prelude::*;

verus! {

/// How many questions a run reads from a page unless it is told otherwise.
pub const QUESTIONS_PER_PAGE: usize = 10;

/// The class of a post summary, the block that holds one question.
pub const POST_SUMMARY: &'static str = "s-post-summary";

/// The class of the element that holds a question's excerpt.
pub const EXCERPT: &'static str = "s-post-summary--content-excerpt";

/// The class of the element whose link holds a question's title.
pub const TITLE: &'static str = "s-post-summary--content-title";

/// The name of a link element.
pub const ANCHOR: &'static str = "a";

/// The attribute of a link that holds its target.
pub const TARGET: &'static str = "href";

/// The class of the elements that hold votes, answers and views, in this order.
pub const STAT: &'static str = "s-post-summary--stats-item-number";

/// The class of the elements that hold a question's tags.
pub const TAG: &'static str = "post-tag";

/// The attribute of a post summary that holds the source's identifier of the post.
pub const POST_ID: &'static str = "data-post-id";

/// What a post summary holds at the places where a question's parts are looked
/// for: the first excerpt, the text and target of the first title link, the
/// texts of the number elements and of the tag elements, and the identifier.
#[derive(Debug)]
pub struct PostBlock {
    pub excerpt: Option<String>,
    pub title: Option<String>,
    pub link: Option<String>,
    pub stats: Vec<String>,
    pub tags: Vec<String>,
    pub post_id: Option<String>,
}

/// A post block as a mathematical value.
pub struct BlockView {
    pub excerpt: Option<Seq<char>>,
    pub title: Option<Seq<char>>,
    pub link: Option<Seq<char>>,
    pub stats: Seq<Seq<char>>,
    pub tags: Seq<Seq<char>>,
    pub post_id: Option<Seq<char>>,
}

impl View for PostBlock {
    type V = BlockView;

    open spec fn view(&self) -> BlockView {
        BlockView {
            excerpt: option_text(self.excerpt),
            title: option_text(self.title),
            link: option_text(self.link),
            stats: texts(self.stats@),
            tags: texts(self.tags@),
            post_id: option_text(self.post_id),
        }
    }
}

/// The blocks of a list as mathematical values.
pub open spec fn block_views(blocks: Seq<PostBlock>) -> Seq<BlockView> {
    blocks.map_values(|block: PostBlock| block@)
}

/// The count that a text writes: a number of 32 bits that is not negative.
pub open spec fn parse_count(text: Seq<char>) -> Option<int> {
    match parse_i32_spec(text) {
        Some(value) => if value >= 0 {
            Some(value)
        } else {
            None
        },
        None => None,
    }
}

/// The question that a block gives, or the first reason why it gives none. The
/// parts are asked for in this order: excerpt, title, link, the three numbers,
/// the identifier; then votes, identifier and answers must each write a number.
pub open spec fn candidate_of(block: BlockView) -> Result<Candidate, ExtractionError> {
    if block.excerpt.is_none() {
        Err(ExtractionError::MissingExcerpt)
    } else if block.title.is_none() {
        Err(ExtractionError::MissingTitle)
    } else if block.link.is_none() {
        Err(ExtractionError::MissingLink)
    } else if block.stats.len() < 3 {
        Err(ExtractionError::MissingStats)
    } else if block.post_id.is_none() {
        Err(ExtractionError::MissingSourceId)
    } else if parse_count(block.stats[0]).is_none() {
        Err(ExtractionError::InvalidVotes)
    } else if parse_i32_spec(block.post_id.unwrap()).is_none() {
        Err(ExtractionError::InvalidSourceId)
    } else if parse_count(block.stats[1]).is_none() {
        Err(ExtractionError::InvalidAnswers)
    } else {
        Ok(
            Candidate {
                title: block.title.unwrap(),
                q_description: block.excerpt.unwrap(),
                question_link: block.link.unwrap(),
                votes: parse_count(block.stats[0]).unwrap(),
                stack_id: parse_i32_spec(block.post_id.unwrap()).unwrap(),
                views: block.stats[2],
                tags: distinct(block.tags),
                answer: parse_count(block.stats[1]).unwrap(),
            },
        )
    }
}

/// The question that a block gives, if it gives one.
pub open spec fn accepted(block: BlockView) -> Option<Candidate> {
    match candidate_of(block) {
        Ok(candidate) => Some(candidate),
        Err(_) => None,
    }
}

/// `accepted` as a value, to map it over a list of blocks.
pub open spec fn accept() -> spec_fn(BlockView) -> Option<Candidate> {
    |block: BlockView| accepted(block)
}

/// What a list of blocks gives: in page order the questions of the blocks that
/// give one, the count of those that give none, and for each tag the number of
/// questions that name it.
pub open spec fn extraction(blocks: Seq<BlockView>) -> Page {
    let questions = blocks.filter_map(accept());
    Page {
        questions,
        unique_tags: tag_frequency(questions),
        skipped: (blocks.len() - questions.len()) as nat,
    }
}

/// The first blocks of a list, up to a limit.
pub open spec fn first_blocks<A>(blocks: Seq<A>, limit: nat) -> Seq<A> {
    if limit < blocks.len() {
        blocks.take(limit as int)
    } else {
        blocks
    }
}

/// Reads a count: a decimal number of 32 bits that is not negative.
pub fn read_count(text: &str) -> (value: Option<i32>)
    ensures
        match value {
            Some(v) => parse_count(text@) == Some(v as int),
            None => parse_count(text@).is_none(),
        },
{
    match parse_i32(text) {
        Some(value) => if value >= 0 {
            Some(value)
        } else {
            None
        },
        None => None,
    }
}

impl ScrapedQuestion {
    /// Builds the question that a block gives, or says why the block gives none.
    pub fn from_block(block: &PostBlock) -> (made: Result<ScrapedQuestion, ExtractionError>)
        ensures
            match made {
                Ok(question) => candidate_of(block@) == Ok::<Candidate, ExtractionError>(question@)
                    && question.wf(),
                Err(reason) => candidate_of(block@) == Err::<Candidate, ExtractionError>(reason),
            },
    {
        let q_description = match &block.excerpt {
            Some(text) => text.clone(),
            None => {
                return Err(ExtractionError::MissingExcerpt);
            },
        };
        let title = match &block.title {
            Some(text) => text.clone(),
            None => {
                return Err(ExtractionError::MissingTitle);
            },
        };
        let question_link = match &block.link {
            Some(text) => text.clone(),
            None => {
                return Err(ExtractionError::MissingLink);
            },
        };
        if block.stats.len() < 3 {
            return Err(ExtractionError::MissingStats);
        }
        let post_id = match &block.post_id {
            Some(text) => text,
            None => {
                return Err(ExtractionError::MissingSourceId);
            },
        };
        let votes = match read_count(block.stats[0].as_str()) {
            Some(value) => value,
            None => {
                return Err(ExtractionError::InvalidVotes);
            },
        };
        let stack_id = match parse_i32(post_id.as_str()) {
            Some(value) => value,
            None => {
                return Err(ExtractionError::InvalidSourceId);
            },
        };
        let answer = match read_count(block.stats[1].as_str()) {
            Some(value) => value,
            None => {
                return Err(ExtractionError::InvalidAnswers);
            },
        };
        let views = block.stats[2].clone();
        let tags = distinct_texts(&block.tags);
        proof {
            lemma_distinct(texts(block.tags@));
        }
        let question = ScrapedQuestion {
            title,
            q_description,
            question_link,
            votes,
            stack_id,
            views,
            tags,
            answer,
        };
        assert(question@ == candidate_of(block@).unwrap());
        Ok(question)
    }
}

/// The text of a node of a document, as a value to map over a list of nodes.
pub open spec fn text_in(doc: Document) -> spec_fn(usize) -> Option<Seq<char>> {
    |node: usize| text_of(doc, node)
}

/// The texts of the nodes of a list, in the order of the list.
pub open spec fn texts_of(doc: Document, nodes: Seq<usize>) -> Seq<Seq<char>> {
    nodes.filter_map(text_in(doc))
}

/// The text of the first node of a list, if the list has one.
pub open spec fn first_text(doc: Document, nodes: Seq<usize>) -> Option<Seq<char>> {
    if nodes.len() > 0 {
        text_of(doc, nodes[0])
    } else {
        None
    }
}

/// The block that a post summary of a document holds.
pub open spec fn block_at(doc: Document, node: usize) -> BlockView {
    let links = descendants_named_in_class(doc, node, TITLE@, ANCHOR@);
    BlockView {
        excerpt: first_text(doc, descendants_with_class(doc, node, EXCERPT@)),
        title: first_text(doc, links),
        link: if links.len() > 0 {
            attribute_of(doc, links[0], TARGET@)
        } else {
            None
        },
        stats: texts_of(doc, descendants_with_class(doc, node, STAT@)),
        tags: texts_of(doc, descendants_with_class(doc, node, TAG@)),
        post_id: attribute_of(doc, node, POST_ID@),
    }
}

/// `block_at` for one document, as a value to map over a list of nodes.
pub open spec fn block_in(doc: Document) -> spec_fn(usize) -> BlockView {
    |node: usize| block_at(doc, node)
}

/// The blocks of the first post summaries of a document, up to a limit, in
/// document order.
pub open spec fn page_blocks(doc: Document, limit: nat) -> Seq<BlockView> {
    first_blocks(nodes_with_class(doc, POST_SUMMARY@), limit).map_values(block_in(doc))
}

/// Reads the text of each node of a list.
fn read_texts(doc: &Document, nodes: &Vec<usize>) -> (found: Vec<String>)
    ensures
        texts(found@) == texts_of(*doc, nodes@),
{
    let mut found: Vec<String> = Vec::new();
    let mut i: usize = 0;
    assert(nodes@.take(0) =~= Seq::<usize>::empty());
    assert(texts(found@) =~= Seq::<Seq<char>>::empty());
    while i < nodes.len()
        invariant
            i <= nodes.len(),
            texts(found@) == texts_of(*doc, nodes@.take(i as int)),
        decreases nodes.len() - i,
    {
        let ghost before = texts(found@);
        proof {
            nodes@.lemma_filter_map_take_succ(text_in(*doc), i as int);
        }
        match node_text(doc, nodes[i]) {
            Some(text) => {
                found.push(text);
                assert(texts(found@) =~= before + seq![text@]);
            },
            None => {
                assert(before + Seq::<Seq<char>>::empty() =~= before);
            },
        }
        i = i + 1;
    }
    assert(nodes@.take(nodes.len() as int) =~= nodes@);
    found
}

/// Reads the text of the first node of a list.
fn read_first_text(doc: &Document, nodes: &Vec<usize>) -> (text: Option<String>)
    ensures
        option_text(text) == first_text(*doc, nodes@),
{
    if nodes.len() > 0 {
        node_text(doc, nodes[0])
    } else {
        None
    }
}

/// Reads the block that a post summary holds.
fn read_block(doc: &Document, node: usize) -> (block: PostBlock)
    ensures
        block@ == block_at(*doc, node),
{
    let excerpts = find_class_below(doc, node, EXCERPT);
    let links = find_named_in_class_below(doc, node, TITLE, ANCHOR);
    let numbers = find_class_below(doc, node, STAT);
    let labels = find_class_below(doc, node, TAG);
    let link = if links.len() > 0 {
        node_attr(doc, links[0], TARGET)
    } else {
        None
    };
    PostBlock {
        excerpt: read_first_text(doc, &excerpts),
        title: read_first_text(doc, &links),
        link,
        stats: read_texts(doc, &numbers),
        tags: read_texts(doc, &labels),
        post_id: node_attr(doc, node, POST_ID),
    }
}

/// Reads the blocks of the first post summaries of a document, up to a limit.
fn read_blocks(doc: &Document, limit: usize) -> (blocks: Vec<PostBlock>)
    ensures
        block_views(blocks@) == page_blocks(*doc, limit as nat),
        blocks.len() <= limit,
{
    let nodes = find_class(doc, POST_SUMMARY);
    let end = if limit < nodes.len() {
        limit
    } else {
        nodes.len()
    };
    let ghost wanted = first_blocks(nodes@, limit as nat);
    let mut blocks: Vec<PostBlock> = Vec::new();
    let mut i: usize = 0;
    while i < end
        invariant
            i <= end <= nodes.len(),
            wanted == first_blocks(nodes@, limit as nat),
            wanted.len() == end,
            blocks.len() == i,
            forall|j: int| 0 <= j < i ==> (#[trigger] blocks@[j])@ == block_at(*doc, nodes@[j]),
        decreases end - i,
    {
        let block = read_block(doc, nodes[i]);
        blocks.push(block);
        i = i + 1;
    }
    assert(block_views(blocks@) =~= wanted.map_values(block_in(*doc)));
    blocks
}

/// The counts after the questions of a list and, of one more question, the tags
/// of a list: each of these tags counts once more.
spec fn counted(earlier: Seq<Candidate>, names: Seq<Seq<char>>) -> Map<Seq<char>, nat> {
    Map::new(
        |tag: Seq<char>| occurrences(earlier, tag) > 0 || names.contains(tag),
        |tag: Seq<char>|
            if names.contains(tag) {
                occurrences(earlier, tag) + 1
            } else {
                occurrences(earlier, tag)
            },
    )
}

/// Counts the tags of one more question.
fn count_tags(
    counter: &mut TagCounter,
    tags: &Vec<String>,
    Ghost(earlier): Ghost<Seq<Candidate>>,
    Ghost(question): Ghost<Candidate>,
)
    requires
        old(counter).wf(),
        old(counter)@ == tag_frequency(earlier),
        texts(tags@) == question.tags,
        question.tags.no_duplicates(),
        earlier.len() < usize::MAX,
    ensures
        final(counter).wf(),
        final(counter)@ == tag_frequency(earlier.push(question)),
{
    let ghost names = question.tags;
    let mut i: usize = 0;
    assert(counter@ =~= counted(earlier, names.take(0)));
    while i < tags.len()
        invariant
            i <= tags.len(),
            names == texts(tags@),
            names.no_duplicates(),
            earlier.len() < usize::MAX,
            counter.wf(),
            counter@ == counted(earlier, names.take(i as int)),
        decreases tags.len() - i,
    {
        let ghost tag = names[i as int];
        proof {
            earlier.lemma_filter_len(|other: Candidate| other.tags.contains(tag));
            assert(!names.take(i as int).contains(tag));
        }
        counter.record(&tags[i]);
        proof {
            let shorter = names.take(i as int);
            let longer = names.take(i + 1);
            assert forall|name: Seq<char>|
                longer.contains(name) <==> shorter.contains(name) || name == tag by {
                if longer.contains(name) {
                    let j = choose|j: int| 0 <= j < longer.len() && longer[j] == name;
                    if j < i {
                        assert(shorter[j] == name);
                    }
                }
                if shorter.contains(name) {
                    let j = choose|j: int| 0 <= j < shorter.len() && shorter[j] == name;
                    assert(longer[j] == name);
                }
                assert(longer[i as int] == tag);
            }
            assert(counter@ =~= counted(earlier, names.take(i + 1)));
        }
        i = i + 1;
    }
    proof {
        assert(names.take(tags.len() as int) =~= names);
        assert forall|name: Seq<char>|
            occurrences(earlier.push(question), name) == occurrences(earlier, name) + if names.contains(
                name,
            ) {
                1nat
            } else {
                0nat
            } by {
            earlier.lemma_filter_len_push(|other: Candidate| other.tags.contains(name), question);
        }
        assert(counter@ =~= tag_frequency(earlier.push(question)));
    }
}

/// Turns the first blocks of a page, up to a limit, into questions. A block that
/// gives no question is counted and left out; the blocks after it are still read.
pub fn extract(blocks: &Vec<PostBlock>, limit: usize) -> (page: ScraperResult)
    ensures
        page@ == extraction(first_blocks(block_views(blocks@), limit as nat)),
        page.wf(),
{
    let end = if limit < blocks.len() {
        limit
    } else {
        blocks.len()
    };
    let ghost wanted = first_blocks(block_views(blocks@), limit as nat);
    let mut questions: Vec<ScrapedQuestion> = Vec::new();
    let mut unique_tags = TagCounter::new();
    let mut skipped: usize = 0;
    let mut i: usize = 0;
    proof {
        assert(wanted.take(0) =~= Seq::<BlockView>::empty());
        assert(candidates(questions@) =~= Seq::<Candidate>::empty());
        assert(unique_tags@ =~= tag_frequency(candidates(questions@)));
    }
    while i < end
        invariant
            i <= end <= blocks.len(),
            wanted == first_blocks(block_views(blocks@), limit as nat),
            wanted.len() == end,
            candidates(questions@) == wanted.take(i as int).filter_map(accept()),
            questions.len() + skipped == i,
            unique_tags.wf(),
            unique_tags@ == tag_frequency(candidates(questions@)),
            forall|j: int| 0 <= j < questions.len() ==> (#[trigger] questions@[j]).wf(),
        decreases end - i,
    {
        let ghost earlier = candidates(questions@);
        proof {
            wanted.lemma_filter_map_take_succ(accept(), i as int);
            assert(wanted[i as int] == blocks@[i as int]@);
        }
        match ScrapedQuestion::from_block(&blocks[i]) {
            Ok(question) => {
                count_tags(&mut unique_tags, &question.tags, Ghost(earlier), Ghost(question@));
                questions.push(question);
                assert(candidates(questions@) =~= earlier + seq![question@]);
                assert(earlier + seq![question@] =~= earlier.push(question@));
            },
            Err(_) => {
                skipped = skipped + 1;
                assert(earlier + Seq::<Candidate>::empty() =~= earlier);
            },
        }
        i = i + 1;
    }
    assert(wanted.take(end as int) =~= wanted);
    ScraperResult { questions, unique_tags, skipped }
}

/// Reads the questions of a listing page: parses the markup, takes the first
/// post summaries up to `count`, and turns each into a question or counts it as
/// left out. The markup has `MAX_MARKUP` bytes at most.
pub fn hacker_news(markup: &str, count: usize) -> (page: ScraperResult)
    requires
        markup.len() <= MAX_MARKUP,
    ensures
        page@ == extraction(page_blocks(parsed_document(markup@), count as nat)),
        page.wf(),
{
    let doc = parse_document(markup);
    let blocks = read_blocks(&doc, count);
    extract(&blocks, count)
}

/// The pattern of what is rewritten in a view count before it is read as a number.
pub const VIEWS_PATTERN: &'static str = "(or|e)";

/// The number that a view count writes once it is rewritten by pattern.
pub open spec fn views_number(views: Seq<char>) -> Option<int> {
    match rewritten(VIEWS_PATTERN@, views) {
        Some(text) => parse_i32_spec(text),
        None => None,
    }
}

/// Rewrites a view count by pattern.
pub fn views_text(views: &str) -> (text: Option<String>)
    ensures
        option_text(text) == rewritten(VIEWS_PATTERN@, views@),
{
    rewrite(VIEWS_PATTERN, views)
}

/// Reads a view count as a number: rewrites it by pattern, then reads what is
/// left as a signed decimal number. A question keeps its view count as text;
/// this reading is for a caller that wants the number.
pub fn views_count(views: &str) -> (value: Option<i32>)
    ensures
        match value {
            Some(v) => views_number(views@) == Some(v as int),
            None => views_number(views@).is_none(),
        },
{
    match views_text(views) {
        Some(text) => parse_i32(text.as_str()),
        None => None,
    }
}

} // verus!
