use vstd::prelude::*;

use crate::models::{
    AnswerModel, AnswerRowModel, DisplayQuestionModel, QuestionModel, QuestionRowModel,
    TagAssignmentModel, TagModel, UserModel,
};

verus! {

/// The tag-assignment rows that link one question to each of the given
/// tags, in the order the tags were supplied.
pub open spec fn assignments_for(qid: int, tag_ids: Seq<int>) -> Seq<TagAssignmentModel> {
    tag_ids.map_values(|t: int| TagAssignmentModel { question: qid, tag: t })
}

pub proof fn lemma_assignments_for_push(qid: int, tag_ids: Seq<int>, t: int)
    ensures
        assignments_for(qid, tag_ids.push(t)) == assignments_for(qid, tag_ids).push(
            TagAssignmentModel { question: qid, tag: t },
        ),
{
    assert(assignments_for(qid, tag_ids.push(t)) =~= assignments_for(qid, tag_ids).push(
        TagAssignmentModel { question: qid, tag: t },
    ));
}

/// Answers come back highest-voted first, ties broken by insertion (id)
/// order, oldest first.
pub open spec fn answer_precedes(a: AnswerModel, b: AnswerModel) -> bool {
    a.score > b.score || (a.score == b.score && a.id < b.id)
}

/// Whether a sequence of answers is ordered by score descending, ties
/// broken by id ascending.
pub open spec fn answers_sorted(s: Seq<AnswerModel>) -> bool {
    forall|i: int, j: int|
        0 <= i < j < s.len() ==> answer_precedes(#[trigger] s[i], #[trigger] s[j])
}

/// The mathematical state of the store: one sequence per table, each row
/// in insertion order.
#[verifier::ext_equal]
pub ghost struct StoreModel {
    pub users: Seq<UserModel>,
    pub tags: Seq<TagModel>,
    pub questions: Seq<QuestionRowModel>,
    pub answers: Seq<AnswerRowModel>,
    pub assignments: Seq<TagAssignmentModel>,
}

impl StoreModel {
    pub open spec fn empty() -> StoreModel {
        StoreModel {
            users: Seq::empty(),
            tags: Seq::empty(),
            questions: Seq::empty(),
            answers: Seq::empty(),
            assignments: Seq::empty(),
        }
    }

    /// The store's integrity invariant:
    /// ids are assigned consecutively from 1 in insertion order;
    /// usernames and tag names are unique;
    /// every question and answer author, every answered question and
    /// every tag assignment references an existing row;
    /// question creation timestamps are monotonically ordered by id.
    pub open spec fn wf(self) -> bool {
        &&& forall|i: int| 0 <= i < self.users.len() ==> (#[trigger] self.users[i]).id == i + 1
        &&& forall|i: int, j: int|
            0 <= i < j < self.users.len() ==> (#[trigger] self.users[i]).username != (
            #[trigger] self.users[j]).username
        &&& forall|i: int| 0 <= i < self.tags.len() ==> (#[trigger] self.tags[i]).id == i + 1
        &&& forall|i: int, j: int|
            0 <= i < j < self.tags.len() ==> (#[trigger] self.tags[i]).name != (
            #[trigger] self.tags[j]).name
        &&& forall|i: int|
            0 <= i < self.questions.len() ==> (#[trigger] self.questions[i]).id == i + 1
        &&& forall|i: int| 0 <= i < self.answers.len() ==> (#[trigger] self.answers[i]).id == i + 1
        &&& forall|i: int|
            0 <= i < self.questions.len() ==> 1 <= (#[trigger] self.questions[i]).author
                <= self.users.len()
        &&& forall|i: int|
            0 <= i < self.answers.len() ==> 1 <= (#[trigger] self.answers[i]).author
                <= self.users.len() && 1 <= self.answers[i].question <= self.questions.len()
        &&& forall|i: int|
            0 <= i < self.assignments.len() ==> 1 <= (#[trigger] self.assignments[i]).question
                <= self.questions.len() && 1 <= self.assignments[i].tag <= self.tags.len()
        &&& forall|i: int, j: int|
            0 <= i < j < self.questions.len() ==> (#[trigger] self.questions[i]).time <= (
            #[trigger] self.questions[j]).time
    }

    // -----------------------------------------------------------------
    // Lookups
    // -----------------------------------------------------------------

    /// Whether some user carries this username.
    pub open spec fn has_username(self, name: Seq<char>) -> bool {
        exists|i: int| 0 <= i < self.users.len() && (#[trigger] self.users[i]).username == name
    }

    /// Whether some tag carries this name.
    pub open spec fn has_tag_name(self, name: Seq<char>) -> bool {
        exists|i: int| 0 <= i < self.tags.len() && (#[trigger] self.tags[i]).name == name
    }

    /// The tag with the given id (ids are indices shifted by one).
    pub open spec fn tag_at(self, tid: int) -> TagModel {
        self.tags[tid - 1]
    }

    /// The username of the user with the given id.
    pub open spec fn username_at(self, uid: int) -> Seq<char> {
        self.users[uid - 1].username
    }

    pub open spec fn valid_user_id(self, uid: int) -> bool {
        1 <= uid <= self.users.len()
    }

    pub open spec fn valid_tag_id(self, tid: int) -> bool {
        1 <= tid <= self.tags.len()
    }

    pub open spec fn valid_question_id(self, qid: int) -> bool {
        1 <= qid <= self.questions.len()
    }

    pub open spec fn valid_answer_id(self, aid: int) -> bool {
        1 <= aid <= self.answers.len()
    }

    // -----------------------------------------------------------------
    // Aggregation
    // -----------------------------------------------------------------

    /// The tags assigned to a question among the first `n` assignment
    /// rows, in assignment order.
    pub open spec fn tags_of_upto(self, qid: int, n: int) -> Seq<TagModel> {
        self.assignments.take(n).filter(|a: TagAssignmentModel| a.question == qid).map_values(
            |a: TagAssignmentModel| self.tag_at(a.tag),
        )
    }

    /// The tags assigned to a question, in assignment order.
    pub open spec fn tags_of(self, qid: int) -> Seq<TagModel> {
        self.tags_of_upto(qid, self.assignments.len() as int)
    }

    /// The answers to a question among the first `n` answer rows, in
    /// insertion (id) order.
    pub open spec fn answers_of_upto(self, qid: int, n: int) -> Seq<AnswerRowModel> {
        self.answers.take(n).filter(|a: AnswerRowModel| a.question == qid)
    }

    /// The answers to a question, in insertion (id) order.
    pub open spec fn answers_of(self, qid: int) -> Seq<AnswerRowModel> {
        self.answers_of_upto(qid, self.answers.len() as int)
    }

    /// How many answers a question has.
    pub open spec fn num_answers_of(self, qid: int) -> int {
        self.answers_of(qid).len() as int
    }

    /// Whether at least one answer for the question is accepted.
    pub open spec fn answered_of(self, qid: int) -> bool {
        exists|i: int|
            0 <= i < self.answers.len() && (#[trigger] self.answers[i]).question == qid
                && self.answers[i].accepted
    }

    /// A stored question joined with its author's username.
    pub open spec fn question_view(self, q: QuestionRowModel) -> QuestionModel {
        QuestionModel {
            id: q.id,
            author: self.username_at(q.author),
            time: q.time,
            score: q.score,
            title: q.title,
            text: q.text,
        }
    }

    /// The joined views of a sequence of stored answers.
    pub open spec fn answer_views_of(self, s: Seq<AnswerRowModel>) -> Seq<AnswerModel> {
        s.map_values(|a: AnswerRowModel| self.answer_view(a))
    }

    pub proof fn lemma_answer_views_of_push(self, s: Seq<AnswerRowModel>, a: AnswerRowModel)
        ensures
            self.answer_views_of(s.push(a)) == self.answer_views_of(s).push(self.answer_view(a)),
    {
        assert(self.answer_views_of(s.push(a)) =~= self.answer_views_of(s).push(
            self.answer_view(a),
        ));
    }

    /// A stored answer joined with its author's username.
    pub open spec fn answer_view(self, a: AnswerRowModel) -> AnswerModel {
        AnswerModel {
            id: a.id,
            author: self.username_at(a.author),
            question: a.question,
            time: a.time,
            score: a.score,
            accepted: a.accepted,
            text: a.text,
        }
    }

    /// A question annotated with its tag list, answer count and solved
    /// flag.
    pub open spec fn display_view(self, q: QuestionModel) -> DisplayQuestionModel {
        DisplayQuestionModel {
            id: q.id,
            author: q.author,
            time: q.time,
            score: q.score,
            title: q.title,
            text: q.text,
            tags: self.tags_of(q.id),
            num_answers: self.num_answers_of(q.id),
            answered: self.answered_of(q.id),
        }
    }

    /// The display view of a stored question row.
    pub open spec fn display_of_row(self, q: QuestionRowModel) -> DisplayQuestionModel {
        self.display_view(self.question_view(q))
    }

    /// The newest `k` questions, newest first, each as its display view.
    pub open spec fn newest_view_upto(self, k: int) -> Seq<DisplayQuestionModel> {
        self.questions.reverse().take(k).map_values(|q: QuestionRowModel| self.display_of_row(q))
    }

    /// All questions newest first, each as its display view.
    pub open spec fn newest_view(self) -> Seq<DisplayQuestionModel> {
        self.newest_view_upto(self.questions.len() as int)
    }

    /// Whether the question carries at least one tag whose name is among
    /// the requested names.
    pub open spec fn has_matching_tag(self, qid: int, names: Seq<Seq<char>>) -> bool {
        exists|i: int|
            0 <= i < self.assignments.len() && (#[trigger] self.assignments[i]).question == qid
                && names.contains(self.tag_at(self.assignments[i].tag).name)
    }

    /// Those of the newest `k` questions carrying one of the requested
    /// tag names, newest first, each as its display view.
    pub open spec fn tagged_view_upto(self, names: Seq<Seq<char>>, k: int) -> Seq<
        DisplayQuestionModel,
    > {
        self.questions.reverse().take(k).filter(
            |q: QuestionRowModel| self.has_matching_tag(q.id, names),
        ).map_values(|q: QuestionRowModel| self.display_of_row(q))
    }

    /// The questions carrying one of the requested tag names, newest
    /// first, each question once, each as its display view.
    pub open spec fn tagged_view(self, names: Seq<Seq<char>>) -> Seq<DisplayQuestionModel> {
        self.tagged_view_upto(names, self.questions.len() as int)
    }

    /// Those of the first `n` tags whose name is among the requested
    /// names, in catalog order.
    pub open spec fn tags_named_upto(self, names: Seq<Seq<char>>, n: int) -> Seq<TagModel> {
        self.tags.take(n).filter(|t: TagModel| names.contains(t.name))
    }

    /// The tags whose name is among the requested names, in catalog
    /// order.
    pub open spec fn tags_named(self, names: Seq<Seq<char>>) -> Seq<TagModel> {
        self.tags_named_upto(names, self.tags.len() as int)
    }

    // -----------------------------------------------------------------
    // How the aggregations grow, row by row
    // -----------------------------------------------------------------

    pub proof fn lemma_answers_of_upto_step(self, qid: int, n: int)
        requires
            0 <= n < self.answers.len(),
        ensures
            self.answers_of_upto(qid, n + 1) == if self.answers[n].question == qid {
                self.answers_of_upto(qid, n).push(self.answers[n])
            } else {
                self.answers_of_upto(qid, n)
            },
    {
        reveal(Seq::filter);
        assert(self.answers.take(n + 1).drop_last() =~= self.answers.take(n));
        assert(self.answers.take(n + 1).last() == self.answers[n]);
    }

    pub proof fn lemma_tags_of_upto_step(self, qid: int, n: int)
        requires
            0 <= n < self.assignments.len(),
        ensures
            self.tags_of_upto(qid, n + 1) == if self.assignments[n].question == qid {
                self.tags_of_upto(qid, n).push(self.tag_at(self.assignments[n].tag))
            } else {
                self.tags_of_upto(qid, n)
            },
    {
        reveal(Seq::filter);
        assert(self.assignments.take(n + 1).drop_last() =~= self.assignments.take(n));
        assert(self.assignments.take(n + 1).last() == self.assignments[n]);
        if self.assignments[n].question == qid {
            assert(self.tags_of_upto(qid, n + 1) =~= self.tags_of_upto(qid, n).push(
                self.tag_at(self.assignments[n].tag),
            ));
        } else {
            assert(self.tags_of_upto(qid, n + 1) =~= self.tags_of_upto(qid, n));
        }
    }

    pub proof fn lemma_tags_named_upto_step(self, names: Seq<Seq<char>>, n: int)
        requires
            0 <= n < self.tags.len(),
        ensures
            self.tags_named_upto(names, n + 1) == if names.contains(self.tags[n].name) {
                self.tags_named_upto(names, n).push(self.tags[n])
            } else {
                self.tags_named_upto(names, n)
            },
    {
        reveal(Seq::filter);
        assert(self.tags.take(n + 1).drop_last() =~= self.tags.take(n));
        assert(self.tags.take(n + 1).last() == self.tags[n]);
    }

    pub proof fn lemma_newest_view_upto_step(self, k: int)
        requires
            0 <= k < self.questions.len(),
        ensures
            self.newest_view_upto(k + 1) == self.newest_view_upto(k).push(
                self.display_of_row(self.questions[self.questions.len() - 1 - k]),
            ),
    {
        let rev = self.questions.reverse();
        assert(rev.take(k + 1) =~= rev.take(k).push(
            self.questions[self.questions.len() - 1 - k],
        ));
        assert(self.newest_view_upto(k + 1) =~= self.newest_view_upto(k).push(
            self.display_of_row(self.questions[self.questions.len() - 1 - k]),
        ));
    }

    pub proof fn lemma_tagged_view_upto_step(self, names: Seq<Seq<char>>, k: int)
        requires
            0 <= k < self.questions.len(),
        ensures
            self.tagged_view_upto(names, k + 1) == if self.has_matching_tag(
                self.questions[self.questions.len() - 1 - k].id,
                names,
            ) {
                self.tagged_view_upto(names, k).push(
                    self.display_of_row(self.questions[self.questions.len() - 1 - k]),
                )
            } else {
                self.tagged_view_upto(names, k)
            },
    {
        reveal(Seq::filter);
        let rev = self.questions.reverse();
        let q = self.questions[self.questions.len() - 1 - k];
        assert(rev.take(k + 1).drop_last() =~= rev.take(k));
        assert(rev.take(k + 1).last() == q);
        if self.has_matching_tag(q.id, names) {
            assert(self.tagged_view_upto(names, k + 1) =~= self.tagged_view_upto(names, k).push(
                self.display_of_row(q),
            ));
        } else {
            assert(self.tagged_view_upto(names, k + 1) =~= self.tagged_view_upto(names, k));
        }
    }

    /// A question none of the first `n` assignment rows mentions has no
    /// tags among them.
    pub proof fn lemma_tags_of_upto_none(self, qid: int, n: int)
        requires
            0 <= n <= self.assignments.len(),
            forall|i: int| 0 <= i < n ==> (#[trigger] self.assignments[i]).question != qid,
        ensures
            self.tags_of_upto(qid, n) == Seq::<TagModel>::empty(),
        decreases n,
    {
        if n > 0 {
            self.lemma_tags_of_upto_none(qid, n - 1);
            self.lemma_tags_of_upto_step(qid, n - 1);
        } else {
            reveal(Seq::filter);
            assert(self.tags_of_upto(qid, 0) =~= Seq::<TagModel>::empty());
        }
    }

    /// Assignment rows `lo..hi`, all for the same question, contribute
    /// their tags in order after whatever the first `lo` rows
    /// contributed.
    pub proof fn lemma_tags_of_upto_grow(self, qid: int, lo: int, hi: int)
        requires
            0 <= lo <= hi <= self.assignments.len(),
            forall|i: int| lo <= i < hi ==> (#[trigger] self.assignments[i]).question == qid,
        ensures
            self.tags_of_upto(qid, hi).len() == self.tags_of_upto(qid, lo).len() + (hi - lo),
            forall|i: int|
                0 <= i < self.tags_of_upto(qid, lo).len() ==> #[trigger] self.tags_of_upto(
                    qid,
                    hi,
                )[i] == self.tags_of_upto(qid, lo)[i],
            forall|i: int|
                0 <= i < hi - lo ==> #[trigger] self.tags_of_upto(qid, hi)[self.tags_of_upto(
                    qid,
                    lo,
                ).len() + i] == self.tag_at(self.assignments[lo + i].tag),
        decreases hi - lo,
    {
        if hi > lo {
            self.lemma_tags_of_upto_grow(qid, lo, hi - 1);
            self.lemma_tags_of_upto_step(qid, hi - 1);
        }
    }

    /// A question none of the first `n` answer rows mentions has no
    /// answers among them.
    pub proof fn lemma_answers_of_upto_none(self, qid: int, n: int)
        requires
            0 <= n <= self.answers.len(),
            forall|i: int| 0 <= i < n ==> (#[trigger] self.answers[i]).question != qid,
        ensures
            self.answers_of_upto(qid, n) == Seq::<AnswerRowModel>::empty(),
        decreases n,
    {
        if n > 0 {
            self.lemma_answers_of_upto_none(qid, n - 1);
            self.lemma_answers_of_upto_step(qid, n - 1);
        } else {
            reveal(Seq::filter);
            assert(self.answers_of_upto(qid, 0) =~= Seq::<AnswerRowModel>::empty());
        }
    }

    /// An answer row for the question is among the question's answers.
    pub proof fn lemma_answers_of_upto_contains(self, qid: int, n: int, i: int)
        requires
            0 <= i < n <= self.answers.len(),
            self.answers[i].question == qid,
        ensures
            self.answers_of_upto(qid, n).contains(self.answers[i]),
        decreases n,
    {
        self.lemma_answers_of_upto_step(qid, n - 1);
        if i == n - 1 {
            let s = self.answers_of_upto(qid, n);
            assert(s[s.len() - 1] == self.answers[i]);
        } else {
            self.lemma_answers_of_upto_contains(qid, n - 1, i);
            let s = self.answers_of_upto(qid, n - 1);
            let w = choose|k: int| 0 <= k < s.len() && s[k] == self.answers[i];
            assert(self.answers_of_upto(qid, n)[w] == self.answers[i]);
        }
    }

    // -----------------------------------------------------------------
    // Transitions
    // -----------------------------------------------------------------

    /// The store after one user row was written.
    pub open spec fn with_user(self, username: Seq<char>, password: Seq<char>) -> StoreModel {
        StoreModel {
            users: self.users.push(
                UserModel { id: self.users.len() as int + 1, username, password },
            ),
            ..self
        }
    }

    /// The store after one tag row was written.
    pub open spec fn with_tag(self, name: Seq<char>, description: Seq<char>) -> StoreModel {
        StoreModel {
            tags: self.tags.push(TagModel { id: self.tags.len() as int + 1, name, description }),
            ..self
        }
    }

    /// The store after the atomic question write: the question row with a
    /// fresh id and score 0, and one tag assignment per supplied tag id.
    pub open spec fn with_question(
        self,
        author: int,
        title: Seq<char>,
        text: Seq<char>,
        tag_ids: Seq<int>,
        now: int,
    ) -> StoreModel {
        let qid = self.questions.len() as int + 1;
        StoreModel {
            questions: self.questions.push(
                QuestionRowModel { id: qid, author, time: now, score: 0, title, text },
            ),
            assignments: self.assignments + assignments_for(qid, tag_ids),
            ..self
        }
    }

    /// The store after one answer row was written, with a fresh id,
    /// score 0 and the accepted flag clear.
    pub open spec fn with_answer(
        self,
        author: int,
        question: int,
        text: Seq<char>,
        now: int,
    ) -> StoreModel {
        StoreModel {
            answers: self.answers.push(
                AnswerRowModel {
                    id: self.answers.len() as int + 1,
                    author,
                    question,
                    time: now,
                    score: 0,
                    accepted: false,
                    text,
                },
            ),
            ..self
        }
    }

    /// The store after one atomic vote on a question.
    pub open spec fn with_question_score(self, qid: int, diff: int) -> StoreModel {
        let q = self.questions[qid - 1];
        StoreModel {
            questions: self.questions.update(
                qid - 1,
                QuestionRowModel { score: q.score + diff, ..q },
            ),
            ..self
        }
    }

    /// The store after one atomic vote on an answer.
    pub open spec fn with_answer_score(self, aid: int, diff: int) -> StoreModel {
        let a = self.answers[aid - 1];
        StoreModel {
            answers: self.answers.update(aid - 1, AnswerRowModel { score: a.score + diff, ..a }),
            ..self
        }
    }

    /// The store after an answer was marked as the accepted solution.
    /// Other answers' accepted flags are left as they are: the store does
    /// not enforce "at most one accepted answer per question".
    pub open spec fn with_accepted(self, aid: int) -> StoreModel {
        let a = self.answers[aid - 1];
        StoreModel {
            answers: self.answers.update(aid - 1, AnswerRowModel { accepted: true, ..a }),
            ..self
        }
    }
}

} // verus!
