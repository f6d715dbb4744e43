use vstd::prelude::*;

use crate::models::{AnswerRowModel, QuestionRowModel};
use crate::store_model::StoreModel;

verus! {

/// A store satisfying the integrity invariant holds at most one user
/// per username: two user rows carrying the same name are the same row.
/// Together with `register`'s contract — a duplicate registration fails
/// with a validation error and writes nothing — the store can never come
/// to hold two users with one name.
pub proof fn lemma_at_most_one_user_per_name(m: StoreModel, name: Seq<char>, i: int, j: int)
    requires
        m.wf(),
        0 <= i < m.users.len(),
        0 <= j < m.users.len(),
        m.users[i].username == name,
        m.users[j].username == name,
    ensures
        i == j,
{
}

/// Registration writes one user row with the next id, and any later
/// lookup of that username can only find that row: the id a login hands
/// back equals the id assigned at registration.
pub proof fn lemma_login_after_register(m: StoreModel, username: Seq<char>, hash: Seq<char>)
    requires
        m.wf(),
        !m.has_username(username),
    ensures
        m.with_user(username, hash).wf(),
        m.with_user(username, hash).has_username(username),
        forall|i: int|
            0 <= i < m.with_user(username, hash).users.len() && (#[trigger] m.with_user(
                username,
                hash,
            ).users[i]).username == username ==> m.with_user(username, hash).users[i].id
                == m.users.len() + 1,
{
    let m2 = m.with_user(username, hash);
    assert(m2.users[m.users.len() as int].username == username);
}

/// The atomic question write makes exactly the question it was given
/// visible: the stored row carries the supplied title, body and author,
/// a score of zero and the fresh id; its display view lists exactly the
/// supplied tags, in order; and the new question has no answers and is
/// not answered.
pub proof fn lemma_created_question_view(
    m: StoreModel,
    author: int,
    title: Seq<char>,
    text: Seq<char>,
    tag_ids: Seq<int>,
    now: int,
)
    requires
        m.wf(),
        m.valid_user_id(author),
        forall|i: int| 0 <= i < tag_ids.len() ==> m.valid_tag_id(#[trigger] tag_ids[i]),
        m.questions.len() > 0 ==> m.questions.last().time <= now,
    ensures
        m.with_question(author, title, text, tag_ids, now).wf(),
        m.with_question(author, title, text, tag_ids, now).questions[m.questions.len() as int]
            == (QuestionRowModel {
            id: m.questions.len() as int + 1,
            author,
            time: now,
            score: 0,
            title,
            text,
        }),
        m.with_question(author, title, text, tag_ids, now).tags_of(
            m.questions.len() as int + 1,
        ).len() == tag_ids.len(),
        forall|i: int|
            0 <= i < tag_ids.len() ==> m.with_question(author, title, text, tag_ids, now).tags_of(
                m.questions.len() as int + 1,
            )[i] == m.tag_at(#[trigger] tag_ids[i]),
        m.with_question(author, title, text, tag_ids, now).num_answers_of(
            m.questions.len() as int + 1,
        ) == 0,
        !m.with_question(author, title, text, tag_ids, now).answered_of(
            m.questions.len() as int + 1,
        ),
{
    let m2 = m.with_question(author, title, text, tag_ids, now);
    let qid = m.questions.len() as int + 1;
    let lo = m.assignments.len() as int;
    let hi = m2.assignments.len() as int;

    assert forall|i: int, j: int|
        0 <= i < j < m2.questions.len() implies (#[trigger] m2.questions[i]).time <= (
    #[trigger] m2.questions[j]).time by {
        if j < m2.questions.len() - 1 {
        } else {
            assert(m2.questions[i].time <= m.questions.last().time);
        }
    }
    assert(m2.wf());

    assert forall|i: int| 0 <= i < lo implies (#[trigger] m2.assignments[i]).question != qid by {
        assert(m2.assignments[i] == m.assignments[i]);
        assert(m.assignments[i].question <= m.questions.len());
    }
    m2.lemma_tags_of_upto_none(qid, lo);
    assert forall|i: int| lo <= i < hi implies (#[trigger] m2.assignments[i]).question == qid by {
        assert(m2.assignments[i] == crate::store_model::assignments_for(qid, tag_ids)[i - lo]);
    }
    m2.lemma_tags_of_upto_grow(qid, lo, hi);
    assert(m2.tags_of(qid).len() == tag_ids.len());
    assert forall|i: int| 0 <= i < tag_ids.len() implies m2.tags_of(qid)[i] == m.tag_at(
        #[trigger] tag_ids[i],
    ) by {
        assert(m2.assignments[lo + i] == crate::store_model::assignments_for(qid, tag_ids)[i]);
        assert(m2.tags_of_upto(qid, hi)[m2.tags_of_upto(qid, lo).len() + i] == m2.tag_at(
            m2.assignments[lo + i].tag,
        ));
        assert(m2.tags_of_upto(qid, lo).len() == 0);
    }

    assert forall|i: int| 0 <= i < m2.answers.len() implies (#[trigger] m2.answers[i]).question
        != qid by {
        assert(m2.answers[i].question <= m.questions.len());
    }
    m2.lemma_answers_of_upto_none(qid, m2.answers.len() as int);
    assert(m2.num_answers_of(qid) == 0);
    assert(!m2.answered_of(qid));
}

/// The store after `n` atomic votes of the same difference on one
/// answer.
pub open spec fn voted_n(m: StoreModel, aid: int, diff: int, n: nat) -> StoreModel
    decreases n,
{
    if n == 0 {
        m
    } else {
        voted_n(m, aid, diff, (n - 1) as nat).with_answer_score(aid, diff)
    }
}

/// Votes never lose updates: each vote is one atomic increment, so `n`
/// votes of the same difference on one answer leave its score higher by
/// exactly `n` times that difference, and touch nothing else.
pub proof fn lemma_votes_accumulate(m: StoreModel, aid: int, diff: int, n: nat)
    requires
        m.wf(),
        m.valid_answer_id(aid),
    ensures
        voted_n(m, aid, diff, n).wf(),
        voted_n(m, aid, diff, n).answers.len() == m.answers.len(),
        voted_n(m, aid, diff, n).answers[aid - 1] == (AnswerRowModel {
            score: m.answers[aid - 1].score + n * diff,
            ..m.answers[aid - 1]
        }),
        forall|i: int|
            0 <= i < m.answers.len() && i != aid - 1 ==> voted_n(m, aid, diff, n).answers[i] == (
            #[trigger] m.answers[i]),
        voted_n(m, aid, diff, n).users == m.users,
        voted_n(m, aid, diff, n).tags == m.tags,
        voted_n(m, aid, diff, n).questions == m.questions,
        voted_n(m, aid, diff, n).assignments == m.assignments,
    decreases n,
{
    if n == 0 {
        assert(voted_n(m, aid, diff, 0) == m);
        assert(m.answers[aid - 1] =~= AnswerRowModel {
            score: m.answers[aid - 1].score + 0 * diff,
            ..m.answers[aid - 1]
        });
    } else {
        lemma_votes_accumulate(m, aid, diff, (n - 1) as nat);
        let prev = voted_n(m, aid, diff, (n - 1) as nat);
        let cur = voted_n(m, aid, diff, n);
        assert(cur == prev.with_answer_score(aid, diff));
        assert(prev.answers[aid - 1].score + diff == m.answers[aid - 1].score + n * diff) by {
            assert((n - 1) as nat * diff + diff == n * diff) by (nonlinear_arith)
                requires n > 0;
        }
        assert(cur.answers[aid - 1] =~= AnswerRowModel {
            score: m.answers[aid - 1].score + n * diff,
            ..m.answers[aid - 1]
        });
    }
}

/// Accepting an answer marks that answer, and only that answer, and the
/// question it belongs to counts as answered from then on: its display
/// view shows `answered == true`, and the answer listing of that
/// question carries the accepted row.
pub proof fn lemma_accept_marks_answered(m: StoreModel, aid: int)
    requires
        m.wf(),
        m.valid_answer_id(aid),
    ensures
        m.with_accepted(aid).wf(),
        m.with_accepted(aid).answers[aid - 1].accepted,
        m.with_accepted(aid).answered_of(m.answers[aid - 1].question),
        m.with_accepted(aid).answers_of(m.answers[aid - 1].question).contains(
            m.with_accepted(aid).answers[aid - 1],
        ),
        forall|i: int|
            0 <= i < m.answers.len() && i != aid - 1 ==> m.with_accepted(aid).answers[i] == (
            #[trigger] m.answers[i]),
{
    let m2 = m.with_accepted(aid);
    let q = m.answers[aid - 1].question;
    assert(m2.answers[aid - 1].question == q && m2.answers[aid - 1].accepted);
    m2.lemma_answers_of_upto_contains(q, m2.answers.len() as int, aid - 1);
}

} // verus!
