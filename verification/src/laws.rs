//! What holds of every run of ingestion, proved from the definitions of the
//! store and of the run.
use crate::coordinator::{Course, Step};
use crate::ingest::{
    ingest_question, ingest_questions, ingested, link_edge, link_tag, link_tags, Plan, Progress,
    Report, RunView,
};
use crate::models::{occurrences, tag_frequency, Candidate, Page, Record};
use crate::scraper::{accept, accepted, extraction, BlockView};
use crate::store::{Insertion, StoreView};
use crate::tags::left;
use vstd::prelude::*;

verus! {

/// Whether a link was asked for a given tag.
pub open spec fn names(tag: Seq<char>) -> spec_fn((int, Seq<char>)) -> bool {
    |link: (int, Seq<char>)| link.1 == tag
}

/// How many of the links asked for name a tag.
pub open spec fn asked_for(asked: Seq<(int, Seq<char>)>, tag: Seq<char>) -> nat {
    asked.filter(names(tag)).len()
}

/// A later point of a run keeps what an earlier point had: every question of
/// the store with its identifier and with what is stored of it, every tag and
/// link, every tag that the run knew, every link asked for; and no failure is
/// forgotten.
spec fn keeps(before: Progress, after: Progress) -> bool {
    &&& forall|source: int| #[trigger]
        before.store.questions.dom().contains(source) ==> after.store.questions.dom().contains(source)
            && after.store.questions[source] == before.store.questions[source]
    &&& forall|source: int|
        before.store.questions.dom().contains(source) && #[trigger] before.store.rows.dom().contains(
            source,
        ) ==> after.store.rows.dom().contains(source) && after.store.rows[source]
            == before.store.rows[source]
    &&& forall|title: Seq<char>| #[trigger]
        before.store.tags.dom().contains(title) ==> after.store.tags.dom().contains(title)
            && after.store.tags[title] == before.store.tags[title]
    &&& forall|edge: (int, int)| #[trigger]
        before.store.edges.contains(edge) ==> after.store.edges.contains(edge)
    &&& forall|tag: Seq<char>| #[trigger]
        before.run.known.dom().contains(tag) ==> after.run.known.dom().contains(tag)
            && after.run.known[tag] == before.run.known[tag]
    &&& forall|i: int| 0 <= i < before.asked.len() ==> i < after.asked.len() && #[trigger] after.asked[i]
        == before.asked[i]
    &&& before.asked.len() <= after.asked.len()
    &&& before.run.report.failed <= after.run.report.failed
    &&& before.run.report.unresolved <= after.run.report.unresolved
}

/// Between two points of a run, each link asked for a tag took one of the tag's
/// occurrences.
spec fn balanced(before: Progress, after: Progress) -> bool {
    forall|tag: Seq<char>|
        #![trigger left(after.run.budget, tag)]
        #![trigger asked_for(after.asked, tag)]
        asked_for(after.asked, tag) + left(after.run.budget, tag) <= asked_for(before.asked, tag) + left(
            before.run.budget,
            tag,
        )
}

/// The run and the store agree: a tag that the run knows is stored under the
/// identifier that the run knows, and each link asked for is stored, between
/// its question and the stored tag of its text.
spec fn agrees(now: Progress) -> bool {
    &&& forall|tag: Seq<char>| #[trigger]
        now.run.known.dom().contains(tag) ==> now.store.tags.dom().contains(tag) && now.store.tags[tag]
            == now.run.known[tag]
    &&& forall|i: int|
        0 <= i < now.asked.len() ==> now.store.tags.dom().contains((#[trigger] now.asked[i]).1)
            && now.store.edges.contains((now.asked[i].0, now.store.tags[now.asked[i].1]))
}

/// Linking leaves the questions of the store and their counts as they were.
spec fn same_questions(before: Progress, after: Progress) -> bool {
    &&& after.store.questions == before.store.questions
    &&& after.store.rows == before.store.rows
    &&& after.run.report.created == before.run.report.created
    &&& after.run.report.duplicates == before.run.report.duplicates
    &&& after.run.report.failed == before.run.report.failed
}

proof fn lemma_asked_push(asked: Seq<(int, Seq<char>)>, link: (int, Seq<char>), tag: Seq<char>)
    ensures
        asked_for(asked.push(link), tag) == asked_for(asked, tag) + if link.1 == tag {
            1nat
        } else {
            0nat
        },
{
    asked.lemma_filter_len_push(names(tag), link);
}

proof fn lemma_link_edge(now: Progress, question: int, tag: Seq<char>, tag_id: int)
    ensures
        keeps(now, link_edge(now, question, tag, tag_id)),
        same_questions(now, link_edge(now, question, tag, tag_id)),
        link_edge(now, question, tag, tag_id).run.budget == now.run.budget,
        forall|other: Seq<char>| #[trigger]
            asked_for(link_edge(now, question, tag, tag_id).asked, other) == asked_for(now.asked, other)
                + if other == tag {
                1nat
            } else {
                0nat
            },
        agrees(now) && now.store.tags.dom().contains(tag) && now.store.tags[tag] == tag_id ==> agrees(
            link_edge(now, question, tag, tag_id),
        ),
{
    let after = link_edge(now, question, tag, tag_id);
    assert forall|other: Seq<char>| #[trigger]
        asked_for(after.asked, other) == asked_for(now.asked, other) + if other == tag {
            1nat
        } else {
            0nat
        } by {
        lemma_asked_push(now.asked, (question, tag), other);
    }
}

proof fn lemma_link_tag(now: Progress, question: int, tag: Seq<char>)
    ensures
        keeps(now, link_tag(now, question, tag)),
        same_questions(now, link_tag(now, question, tag)),
        balanced(now, link_tag(now, question, tag)),
        agrees(now) ==> agrees(link_tag(now, question, tag)),
{
    let planned = Progress { run: now.run.planned(tag), ..now };
    let after = link_tag(now, question, tag);
    match now.run.plan(tag) {
        Plan::Skip => {},
        Plan::Link(id) => {
            lemma_link_edge(planned, question, tag, id);
            assert(balanced(now, after)) by {
                assert forall|other: Seq<char>|
                    asked_for(after.asked, other) + left(after.run.budget, other) <= asked_for(
                        now.asked,
                        other,
                    ) + left(now.run.budget, other) by {
                    assert(asked_for(after.asked, other) == asked_for(planned.asked, other) + if other
                        == tag {
                        1nat
                    } else {
                        0nat
                    });
                }
            }
            if agrees(now) {
                assert(agrees(planned));
            }
        },
        Plan::Resolve => {
            match now.store.resolution(tag) {
                Some(id) => {
                    let resolved = Progress {
                        store: now.store.resolve_tag(tag),
                        run: planned.run.tag_resolved(tag, Some(id)),
                        ..planned
                    };
                    lemma_link_edge(resolved, question, tag, id);
                    assert(keeps(now, resolved));
                    assert(balanced(now, after)) by {
                        assert forall|other: Seq<char>|
                            asked_for(after.asked, other) + left(after.run.budget, other)
                                <= asked_for(now.asked, other) + left(now.run.budget, other) by {
                            assert(asked_for(after.asked, other) == asked_for(resolved.asked, other)
                                + if other == tag {
                                1nat
                            } else {
                                0nat
                            });
                        }
                    }
                    if agrees(now) {
                        assert(agrees(resolved));
                    }
                },
                None => {},
            }
        },
    }
}

proof fn lemma_keeps_chain(a: Progress, b: Progress, c: Progress)
    requires
        keeps(a, b),
        keeps(b, c),
    ensures
        keeps(a, c),
{
}

proof fn lemma_balanced_chain(a: Progress, b: Progress, c: Progress)
    requires
        balanced(a, b),
        balanced(b, c),
    ensures
        balanced(a, c),
{
    assert forall|tag: Seq<char>|
        asked_for(c.asked, tag) + left(c.run.budget, tag) <= asked_for(a.asked, tag) + left(
            a.run.budget,
            tag,
        ) by {
        assert(asked_for(b.asked, tag) + left(b.run.budget, tag) <= asked_for(a.asked, tag) + left(
            a.run.budget,
            tag,
        ));
    }
}

proof fn lemma_link_tags(now: Progress, question: int, tags: Seq<Seq<char>>)
    ensures
        keeps(now, link_tags(now, question, tags)),
        same_questions(now, link_tags(now, question, tags)),
        balanced(now, link_tags(now, question, tags)),
        agrees(now) ==> agrees(link_tags(now, question, tags)),
    decreases tags.len(),
{
    if tags.len() > 0 {
        let earlier = link_tags(now, question, tags.drop_last());
        lemma_link_tags(now, question, tags.drop_last());
        lemma_link_tag(earlier, question, tags.last());
        lemma_keeps_chain(now, earlier, link_tags(now, question, tags));
        lemma_balanced_chain(now, earlier, link_tags(now, question, tags));
    }
}

proof fn lemma_ingest_question(now: Progress, question: Candidate)
    ensures
        keeps(now, ingest_question(now, question)),
        balanced(now, ingest_question(now, question)),
        agrees(now) ==> agrees(ingest_question(now, question)),
        now.store.insertion(question.stack_id) == Insertion::Failed ==> ingest_question(
            now,
            question,
        ).run.report.failed >= 1,
        now.store.insertion(question.stack_id) != Insertion::Failed ==> ingest_question(
            now,
            question,
        ).store.questions.dom().contains(question.stack_id),
{
    let outcome = now.store.insertion(question.stack_id);
    let next = Progress {
        store: now.store.insert_question(question.record()),
        run: now.run.question_done(outcome),
        ..now
    };
    assert(keeps(now, next));
    assert(balanced(now, next));
    match outcome {
        Insertion::Created(id) => {
            lemma_link_tags(next, id, question.tags);
            lemma_keeps_chain(now, next, ingest_question(now, question));
            lemma_balanced_chain(now, next, ingest_question(now, question));
            if agrees(now) {
                assert(agrees(next));
            }
        },
        _ => {},
    }
}

proof fn lemma_ingest_questions(now: Progress, questions: Seq<Candidate>)
    ensures
        keeps(now, ingest_questions(now, questions)),
        balanced(now, ingest_questions(now, questions)),
        agrees(now) ==> agrees(ingest_questions(now, questions)),
        ingest_questions(now, questions).run.report.failed == 0 ==> forall|i: int|
            0 <= i < questions.len() ==> ingest_questions(now, questions).store.questions.dom().contains(
                (#[trigger] questions[i]).stack_id,
            ),
    decreases questions.len(),
{
    if questions.len() > 0 {
        let shorter = questions.drop_last();
        let earlier = ingest_questions(now, shorter);
        let after = ingest_questions(now, questions);
        lemma_ingest_questions(now, shorter);
        lemma_ingest_question(earlier, questions.last());
        lemma_keeps_chain(now, earlier, after);
        lemma_balanced_chain(now, earlier, after);
        if after.run.report.failed == 0 {
            assert forall|i: int| 0 <= i < questions.len() implies after.store.questions.dom().contains(
                (#[trigger] questions[i]).stack_id,
            ) by {
                if i < shorter.len() {
                    assert(shorter[i] == questions[i]);
                    assert(earlier.store.questions.dom().contains(shorter[i].stack_id));
                }
            }
        }
    } else {
        assert(balanced(now, now));
    }
}

/// A number as a count holds it: itself, or the largest count where it is larger.
pub open spec fn capped(n: nat) -> usize {
    if n <= usize::MAX {
        n as usize
    } else {
        usize::MAX
    }
}

proof fn lemma_all_duplicates(now: Progress, questions: Seq<Candidate>)
    requires
        forall|i: int|
            0 <= i < questions.len() ==> now.store.questions.dom().contains(
                (#[trigger] questions[i]).stack_id,
            ),
    ensures
        ingest_questions(now, questions).store == now.store,
        ingest_questions(now, questions).asked == now.asked,
        ingest_questions(now, questions).run.budget == now.run.budget,
        ingest_questions(now, questions).run.known == now.run.known,
        now.run.report == Report::zero() ==> ingest_questions(now, questions).run.report == (Report {
            duplicates: capped(questions.len()),
            ..Report::zero()
        }),
    decreases questions.len(),
{
    if questions.len() > 0 {
        let shorter = questions.drop_last();
        assert forall|i: int| 0 <= i < shorter.len() implies now.store.questions.dom().contains(
            (#[trigger] shorter[i]).stack_id,
        ) by {
            assert(shorter[i] == questions[i]);
        }
        lemma_all_duplicates(now, shorter);
        assert(now.store.questions.dom().contains(questions[questions.len() - 1].stack_id));
    }
}

proof fn lemma_questions_of_blocks(blocks: Seq<BlockView>)
    ensures
        blocks.filter_map(accept()).len() <= blocks.len(),
    decreases blocks.len(),
{
    if blocks.len() > 0 {
        lemma_questions_of_blocks(blocks.drop_last());
    }
}

proof fn lemma_questions_of_joined_blocks(first: Seq<BlockView>, second: Seq<BlockView>)
    ensures
        (first + second).filter_map(accept()) == first.filter_map(accept()) + second.filter_map(
            accept(),
        ),
    decreases second.len(),
{
    if second.len() == 0 {
        assert(first + second =~= first);
        assert(first.filter_map(accept()) + second.filter_map(accept()) =~= first.filter_map(
            accept(),
        ));
    } else {
        lemma_questions_of_joined_blocks(first, second.drop_last());
        assert((first + second).drop_last() =~= first + second.drop_last());
        assert((first + second).last() == second.last());
        match accepted(second.last()) {
            Some(question) => {
                assert((first.filter_map(accept()) + second.drop_last().filter_map(accept()))
                    + seq![question] =~= first.filter_map(accept()) + (
                second.drop_last().filter_map(accept()) + seq![question]));
            },
            None => {},
        }
    }
}

/// Every block is accounted for. Of the blocks of a page, each gives a question
/// or is counted as left out, and none is both.
pub proof fn law_every_block_is_counted(blocks: Seq<BlockView>)
    ensures
        extraction(blocks).questions.len() + extraction(blocks).skipped == blocks.len(),
{
    lemma_questions_of_blocks(blocks);
}

/// A malformed block costs only itself. With a block that gives no question
/// among its blocks, a page gives the questions that it gives without that
/// block, in the same order and with the same counts of tags, and one more
/// block is counted as left out.
pub proof fn law_malformed_block_is_left_out(
    before: Seq<BlockView>,
    block: BlockView,
    after: Seq<BlockView>,
)
    requires
        accepted(block).is_none(),
    ensures
        extraction(before.push(block) + after).questions == extraction(before + after).questions,
        extraction(before.push(block) + after).unique_tags == extraction(
            before + after,
        ).unique_tags,
        extraction(before.push(block) + after).skipped == extraction(before + after).skipped + 1,
{
    lemma_questions_of_joined_blocks(before.push(block), after);
    lemma_questions_of_joined_blocks(before, after);
    assert(before.push(block).drop_last() =~= before);
    lemma_questions_of_blocks(before + after);
}

/// A question is stored once, as it is. After an attempt to insert it that did
/// not fail, the store holds a question for its source identifier, and one
/// question more than before only where it held none for it; a question that
/// was new is stored with all that it holds but its tags. A second attempt
/// under the same source identifier, whatever else it holds, finds a duplicate
/// and leaves the store as it is.
pub proof fn law_question_stored_once(store: StoreView, question: Record, again: Record)
    requires
        store.questions.dom().finite(),
        store.insertion(question.stack_id) != Insertion::Failed,
        again.stack_id == question.stack_id,
    ensures
        store.insert_question(question).questions.dom().contains(question.stack_id),
        store.insert_question(question).questions.dom().len() == store.questions.dom().len() + if store.questions.dom().contains(
            question.stack_id,
        ) {
            0nat
        } else {
            1nat
        },
        !store.questions.dom().contains(question.stack_id) ==> store.insert_question(question).rows[question.stack_id]
            == question,
        store.insert_question(question).insertion(again.stack_id) == Insertion::Duplicate,
        store.insert_question(question).insert_question(again) == store.insert_question(question),
        store.insert_question(question).tags == store.tags,
        store.insert_question(question).edges == store.edges,
{
}

/// A page is ingested once. Where a run had no failed question, a second run
/// over the same page finds every question as a duplicate: it creates no
/// question, asks for no link, and leaves the store as the first run left it.
pub proof fn law_second_run_changes_nothing(store: StoreView, page: Page)
    requires
        ingested(store, page).run.report.failed == 0,
    ensures
        ingested(ingested(store, page).store, page).store == ingested(store, page).store,
        ingested(ingested(store, page).store, page).asked == Seq::<(int, Seq<char>)>::empty(),
        ingested(ingested(store, page).store, page).run.report == (Report {
            duplicates: capped(page.questions.len()),
            ..Report::zero()
        }),
{
    let start = Progress { store, run: RunView::start(page.unique_tags), asked: Seq::empty() };
    lemma_ingest_questions(start, page.questions);
    let again = Progress {
        store: ingested(store, page).store,
        run: RunView::start(page.unique_tags),
        asked: Seq::empty(),
    };
    lemma_all_duplicates(again, page.questions);
}

/// A title resolves to one tag. The store answers a second resolution of a
/// title as it answered the first, and the second adds no tag; the first adds
/// one only where the title was new.
pub proof fn law_tag_resolves_once(store: StoreView, title: Seq<char>)
    requires
        store.tags.dom().finite(),
        store.resolution(title).is_some(),
    ensures
        store.resolve_tag(title).tags.dom().contains(title),
        store.resolve_tag(title).tags.dom().len() == store.tags.dom().len() + if store.tags.dom().contains(
            title,
        ) {
            0nat
        } else {
            1nat
        },
        store.resolve_tag(title).resolution(title) == store.resolution(title),
        store.resolve_tag(title).resolve_tag(title) == store.resolve_tag(title),
        forall|other: Seq<char>|
            store.tags.dom().contains(other) ==> store.resolve_tag(title).tags.dom().contains(other)
                && #[trigger] store.resolve_tag(title).tags[other] == store.tags[other],
{
    assert(store.resolve_tag(title).tags =~= store.resolve_tag(title).resolve_tag(title).tags);
}

/// A tag keeps its identity over runs. A tag that is stored before a run is
/// stored after it under the same identifier, and so resolves as before; and a
/// run links each tag under the identifier that the store holds for its text.
pub proof fn law_tag_identity_is_stable(store: StoreView, page: Page, title: Seq<char>)
    ensures
        store.tags.dom().contains(title) ==> ingested(store, page).store.resolution(title)
            == store.resolution(title),
        forall|i: int|
            0 <= i < ingested(store, page).asked.len() ==> ingested(store, page).store.tags.dom().contains(
                (#[trigger] ingested(store, page).asked[i]).1,
            ) && ingested(store, page).store.edges.contains(
                (
                    ingested(store, page).asked[i].0,
                    ingested(store, page).store.tags[ingested(store, page).asked[i].1],
                ),
            ),
{
    let start = Progress { store, run: RunView::start(page.unique_tags), asked: Seq::empty() };
    assert(agrees(start));
    lemma_ingest_questions(start, page.questions);
    if store.tags.dom().contains(title) {
        assert(start.store.tags.dom().contains(title));
        assert(ingested(store, page).store.tags.dom().contains(title));
    }
}

/// A link costs an occurrence. A run plans a link for a tag only while an
/// occurrence of the tag is left, and planning the link takes exactly one; a
/// tag that is left out keeps what it has, and no other tag is touched.
pub proof fn law_plan_takes_an_occurrence(run: RunView, tag: Seq<char>, other: Seq<char>)
    ensures
        run.plan(tag) != Plan::Skip <==> left(run.budget, tag) > 0,
        run.plan(tag) != Plan::Skip ==> left(run.planned(tag).budget, tag) + 1 == left(run.budget, tag),
        run.plan(tag) == Plan::Skip ==> run.planned(tag).budget == run.budget,
        other != tag ==> left(run.planned(tag).budget, other) == left(run.budget, other),
        run.planned(tag).known == run.known,
{
}

/// Whether a table of occurrences lost exactly one occurrence of a tag, which
/// it had, and nothing else.
pub open spec fn takes_one(before: Map<Seq<char>, nat>, after: Map<Seq<char>, nat>, tag: Seq<char>) -> bool {
    &&& left(before, tag) > 0
    &&& after == before.insert(tag, (left(before, tag) - 1) as nat)
}

/// The coordinator pays for what it asks. When it goes through the tags of a
/// question and asks for a tag or for a link, it has taken one occurrence of
/// the tag it stands at, which was left, and none of another tag; when it turns
/// to the next question or ends the run, it has taken none.
pub proof fn law_asking_takes_an_occurrence(course: Course)
    ensures
        course.scan().1 is Resolve || course.scan().1 is Link ==> takes_one(
            course.run.budget,
            course.scan().0.run.budget,
            course.scan().0.tags()[course.scan().0.tag],
        ),
        course.scan().1 is Insert || course.scan().1 is Done ==> course.scan().0.run.budget
            == course.run.budget,
        course.scan().0.run.known == course.run.known,
    decreases course.tags().len() - course.tag,
{
    if 0 <= course.tag < course.tags().len() {
        let tag = course.tags()[course.tag];
        match course.run.plan(tag) {
            Plan::Skip => {
                law_asking_takes_an_occurrence(
                    Course { run: course.run.planned(tag), tag: course.tag + 1, ..course },
                );
            },
            _ => {},
        }
    }
}

/// A run keeps the first identifier that it learns for a tag: what the store
/// answers for the tag later does not change it.
pub proof fn law_run_keeps_first_identifier(run: RunView, tag: Seq<char>, first: int, later: Option<int>)
    ensures
        run.tag_resolved(tag, Some(first)).known.dom().contains(tag),
        run.tag_resolved(tag, Some(first)).tag_resolved(tag, later).known == run.tag_resolved(
            tag,
            Some(first),
        ).known,
        !run.known.dom().contains(tag) ==> run.tag_resolved(tag, Some(first)).known[tag] == first,
        run.tag_resolved(tag, Some(first)).plan(tag) != Plan::Resolve,
{
}

/// No tag is linked more often than it occurs. Of the links that a run asks for
/// over a page, those that name a tag are at most as many as the questions of
/// the page that name the tag.
pub proof fn law_links_within_occurrences(store: StoreView, page: Page, tag: Seq<char>)
    requires
        page.unique_tags == tag_frequency(page.questions),
    ensures
        asked_for(ingested(store, page).asked, tag) <= occurrences(page.questions, tag),
        asked_for(ingested(store, page).asked, tag) + left(ingested(store, page).run.budget, tag)
            <= occurrences(page.questions, tag),
{
    let start = Progress { store, run: RunView::start(page.unique_tags), asked: Seq::empty() };
    lemma_ingest_questions(start, page.questions);
    assert(asked_for(start.asked, tag) == 0);
    assert(asked_for(ingested(store, page).asked, tag) + left(ingested(store, page).run.budget, tag)
        <= asked_for(start.asked, tag) + left(start.run.budget, tag));
}

/// Whether a page is counted as the extractor counts it: the table of
/// occurrences holds for each tag the number of questions that name it, and no
/// question names a tag twice.
pub open spec fn counted_page(page: Page) -> bool {
    &&& page.unique_tags == tag_frequency(page.questions)
    &&& forall|i: int|
        0 <= i < page.questions.len() ==> (#[trigger] page.questions[i]).tags.no_duplicates()
}

/// A run over a page at its start.
pub open spec fn outset(store: StoreView, page: Page) -> Progress {
    Progress { store, run: RunView::start(page.unique_tags), asked: Seq::empty() }
}

/// The identifier under which a run over a page creates the question at a
/// place of the page; nothing where the run finds the question stored, from
/// before the run or from an earlier place of the page, or fails to store it.
pub open spec fn created_as(store: StoreView, page: Page, place: int) -> Option<int> {
    match ingest_questions(outset(store, page), page.questions.take(place)).store.insertion(
        page.questions[place].stack_id,
    ) {
        Insertion::Created(id) => Some(id),
        _ => None,
    }
}

proof fn lemma_asked_after_push(asked: Seq<(int, Seq<char>)>, link: (int, Seq<char>), other: (int, Seq<char>))
    ensures
        asked.push(link).contains(link),
        asked.contains(other) ==> asked.push(link).contains(other),
{
    assert(asked.push(link)[asked.len() as int] == link);
    if asked.contains(other) {
        let i = choose|i: int| 0 <= i < asked.len() && asked[i] == other;
        assert(asked.push(link)[i] == other);
    }
}

proof fn lemma_link_tags_with_occurrences(now: Progress, question: int, tags: Seq<Seq<char>>)
    requires
        tags.no_duplicates(),
        forall|j: int| 0 <= j < tags.len() ==> left(now.run.budget, #[trigger] tags[j]) >= 1,
    ensures
        link_tags(now, question, tags).run.report.throttled == now.run.report.throttled,
        forall|tag: Seq<char>| #[trigger]
            left(link_tags(now, question, tags).run.budget, tag) == left(now.run.budget, tag) - if tags.contains(
                tag,
            ) {
                1int
            } else {
                0int
            },
        link_tags(now, question, tags).run.report.unresolved == 0 ==> forall|j: int|
            0 <= j < tags.len() ==> link_tags(now, question, tags).asked.contains(
                (question, #[trigger] tags[j]),
            ),
    decreases tags.len(),
{
    if tags.len() > 0 {
        let shorter = tags.drop_last();
        let last = tags.last();
        let earlier = link_tags(now, question, shorter);
        let after = link_tags(now, question, tags);
        assert forall|j: int| 0 <= j < shorter.len() implies left(now.run.budget, #[trigger] shorter[j])
            >= 1 by {
            assert(shorter[j] == tags[j]);
        }
        lemma_link_tags_with_occurrences(now, question, shorter);
        lemma_link_tag(earlier, question, last);
        assert(!shorter.contains(last)) by {
            if shorter.contains(last) {
                let i = choose|i: int| 0 <= i < shorter.len() && shorter[i] == last;
                assert(tags[i] == tags[tags.len() - 1]);
            }
        }
        assert(tags[tags.len() - 1] == last);
        assert(left(earlier.run.budget, last) == left(now.run.budget, last));
        assert(earlier.run.plan(last) != Plan::Skip);
        assert forall|tag: Seq<char>| #[trigger]
            left(after.run.budget, tag) == left(now.run.budget, tag) - if tags.contains(tag) {
                1int
            } else {
                0int
            } by {
            if tag == last {
                assert(tags.contains(tag));
            } else {
                if shorter.contains(tag) {
                    let i = choose|i: int| 0 <= i < shorter.len() && shorter[i] == tag;
                    assert(tags[i] == tag);
                }
                if tags.contains(tag) {
                    let i = choose|i: int| 0 <= i < tags.len() && tags[i] == tag;
                    assert(shorter[i] == tag);
                }
            }
        }
        if after.run.report.unresolved == 0 {
            assert(earlier.run.report.unresolved == 0);
            assert forall|j: int| 0 <= j < tags.len() implies after.asked.contains(
                (question, #[trigger] tags[j]),
            ) by {
                if j < shorter.len() {
                    assert(shorter[j] == tags[j]);
                    assert(earlier.asked.contains((question, shorter[j])));
                }
                lemma_asked_after_push(earlier.asked, (question, last), (question, tags[j]));
            }
        }
    }
}

proof fn lemma_occurrences_of_prefix(questions: Seq<Candidate>, place: int, tag: Seq<char>)
    requires
        0 <= place < questions.len(),
    ensures
        occurrences(questions.take(place + 1), tag) == occurrences(questions.take(place), tag) + if questions[place].tags.contains(
            tag,
        ) {
            1nat
        } else {
            0nat
        },
        occurrences(questions.take(place + 1), tag) <= occurrences(questions, tag),
{
    let names = |question: Candidate| question.tags.contains(tag);
    assert(questions.take(place + 1) =~= questions.take(place).push(questions[place]));
    questions.take(place).lemma_filter_len_push(names, questions[place]);
    questions.lemma_filter_take_len(names, place + 1);
}

proof fn lemma_run_with_occurrences(store: StoreView, page: Page, place: int)
    requires
        counted_page(page),
        0 <= place <= page.questions.len(),
    ensures
        ingest_questions(outset(store, page), page.questions.take(place)).run.report.throttled == 0,
        forall|tag: Seq<char>| #[trigger]
            left(ingest_questions(outset(store, page), page.questions.take(place)).run.budget, tag)
                + occurrences(page.questions.take(place), tag) >= occurrences(page.questions, tag),
        ingest_questions(outset(store, page), page.questions.take(place)).run.report.unresolved == 0
            ==> forall|i: int, j: int|
            0 <= i < place && 0 <= j < page.questions[i].tags.len() && created_as(store, page, i).is_some()
                ==> ingest_questions(outset(store, page), page.questions.take(place)).asked.contains(
                (created_as(store, page, i).unwrap(), #[trigger] page.questions[i].tags[j]),
            ),
    decreases place,
{
    let all = page.questions;
    let start = outset(store, page);
    let now = ingest_questions(start, all.take(place));
    if place == 0 {
        assert(all.take(0) =~= Seq::<Candidate>::empty());
        assert forall|tag: Seq<char>| #[trigger]
            left(now.run.budget, tag) + occurrences(all.take(place), tag) >= occurrences(all, tag) by {
            assert(left(tag_frequency(all), tag) == occurrences(all, tag));
        }
    } else {
        let prior = place - 1;
        let question = all[prior];
        let before = ingest_questions(start, all.take(prior));
        lemma_run_with_occurrences(store, page, prior);
        assert(all.take(place).drop_last() =~= all.take(prior));
        assert(all.take(place).last() == question);
        assert(now == ingest_question(before, question));
        lemma_ingest_question(before, question);
        let outcome = before.store.insertion(question.stack_id);
        let next = Progress {
            store: before.store.insert_question(question.record()),
            run: before.run.question_done(outcome),
            ..before
        };
        assert forall|tag: Seq<char>|
            occurrences(all.take(place), tag) == occurrences(all.take(prior), tag) + if question.tags.contains(
                tag,
            ) {
                1nat
            } else {
                0nat
            } && #[trigger] occurrences(all.take(place), tag) <= occurrences(all, tag) by {
            lemma_occurrences_of_prefix(all, prior, tag);
        }
        match outcome {
            Insertion::Created(id) => {
                assert forall|j: int| 0 <= j < question.tags.len() implies left(
                    next.run.budget,
                    #[trigger] question.tags[j],
                ) >= 1 by {
                    let tag = question.tags[j];
                    assert(question.tags.contains(tag));
                    assert(left(before.run.budget, tag) + occurrences(all.take(prior), tag)
                        >= occurrences(all, tag));
                    assert(occurrences(all.take(place), tag) <= occurrences(all, tag));
                }
                lemma_link_tags_with_occurrences(next, id, question.tags);
                assert forall|tag: Seq<char>| #[trigger]
                    left(now.run.budget, tag) + occurrences(all.take(place), tag) >= occurrences(
                        all,
                        tag,
                    ) by {
                    assert(left(before.run.budget, tag) + occurrences(all.take(prior), tag)
                        >= occurrences(all, tag));
                    assert(occurrences(all.take(place), tag) <= occurrences(all, tag));
                }
            },
            _ => {
                assert forall|tag: Seq<char>| #[trigger]
                    left(now.run.budget, tag) + occurrences(all.take(place), tag) >= occurrences(
                        all,
                        tag,
                    ) by {
                    assert(left(before.run.budget, tag) + occurrences(all.take(prior), tag)
                        >= occurrences(all, tag));
                    assert(occurrences(all.take(place), tag) <= occurrences(all, tag));
                }
            },
        }
        if now.run.report.unresolved == 0 {
            assert(before.run.report.unresolved == 0);
            assert forall|i: int, j: int|
                0 <= i < place && 0 <= j < all[i].tags.len() && created_as(store, page, i).is_some() implies now.asked.contains(
                (created_as(store, page, i).unwrap(), #[trigger] all[i].tags[j]),
            ) by {
                let link = (created_as(store, page, i).unwrap(), all[i].tags[j]);
                if i < prior {
                    assert(before.asked.contains(link));
                    let k = choose|k: int| 0 <= k < before.asked.len() && before.asked[k] == link;
                    assert(now.asked[k] == link);
                } else {
                    assert(outcome == Insertion::Created(created_as(store, page, i).unwrap()));
                }
            }
        }
    }
}

/// The occurrences suffice. On a page counted as the extractor counts it, a run
/// leaves no tag out for want of occurrences: whenever it comes to a tag of a
/// question that it created, an occurrence of the tag is left.
pub proof fn law_no_tag_is_left_out(store: StoreView, page: Page)
    requires
        counted_page(page),
    ensures
        ingested(store, page).run.report.throttled == 0,
{
    lemma_run_with_occurrences(store, page, page.questions.len() as int);
    assert(page.questions.take(page.questions.len() as int) =~= page.questions);
}

/// Every tag of a created question is linked. On a page counted as the
/// extractor counts it, and where the store resolved every tag that it was
/// asked for, a run asks for the link between each question that it creates and
/// each of the question's tags, and the store then holds the link, between the
/// question and the stored tag of that text.
pub proof fn law_every_tag_of_a_created_question_is_linked(
    store: StoreView,
    page: Page,
    place: int,
    tag: int,
)
    requires
        counted_page(page),
        0 <= place < page.questions.len(),
        0 <= tag < page.questions[place].tags.len(),
        created_as(store, page, place).is_some(),
        ingested(store, page).run.report.unresolved == 0,
    ensures
        ingested(store, page).asked.contains(
            (created_as(store, page, place).unwrap(), page.questions[place].tags[tag]),
        ),
        ingested(store, page).store.tags.dom().contains(page.questions[place].tags[tag]),
        ingested(store, page).store.edges.contains(
            (
                created_as(store, page, place).unwrap(),
                ingested(store, page).store.tags[page.questions[place].tags[tag]],
            ),
        ),
{
    let end = ingested(store, page);
    let link = (created_as(store, page, place).unwrap(), page.questions[place].tags[tag]);
    lemma_run_with_occurrences(store, page, page.questions.len() as int);
    assert(page.questions.take(page.questions.len() as int) =~= page.questions);
    assert(end.asked.contains(link));
    assert(agrees(outset(store, page)));
    lemma_ingest_questions(outset(store, page), page.questions);
    let k = choose|k: int| 0 <= k < end.asked.len() && end.asked[k] == link;
    assert(end.store.tags.dom().contains(end.asked[k].1));
}

} // verus!
