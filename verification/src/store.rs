use vstd::prelude::*;

use crate::errors::{internal_error, Error, ErrorKind};
use crate::hashing::{bcrypt_hash_parses, bcrypt_verifies, verify_password};
use crate::models::{
    Answer, AnswerRow, DisplayQuestion, Login, NewUser, Question, QuestionRow, Tag, TagAssignment,
    User,
};
use crate::store_model::StoreModel;
use crate::models::TagAssignmentModel;

verus! {

/// The views of a sequence of owned strings.
pub open spec fn name_views(ts: Seq<String>) -> Seq<Seq<char>> {
    ts.map_values(|s: String| s@)
}

/// The mathematical values of a sequence of machine integers.
pub open spec fn int_views(ts: Seq<i32>) -> Seq<int> {
    ts.map_values(|t: i32| t as int)
}

/// The views of a sequence of tags.
pub open spec fn tag_views(ts: Seq<Tag>) -> Seq<crate::models::TagModel> {
    ts.map_values(|t: Tag| t@)
}

/// The views of a sequence of answers.
pub open spec fn answer_views(s: Seq<crate::models::Answer>) -> Seq<crate::models::AnswerModel> {
    s.map_values(|a: crate::models::Answer| a@)
}

/// The views of a sequence of display questions.
pub open spec fn display_views(s: Seq<crate::models::DisplayQuestion>) -> Seq<
    crate::models::DisplayQuestionModel,
> {
    s.map_values(|d: crate::models::DisplayQuestion| d@)
}

/// The display views that a sequence of already joined questions takes
/// in the given store.
pub open spec fn displays_of(m: StoreModel, qs: Seq<crate::models::Question>) -> Seq<
    crate::models::DisplayQuestionModel,
> {
    qs.map_values(|q: crate::models::Question| m.display_view(q@))
}

proof fn lemma_to_multiset_insert<A>(s: Seq<A>, k: int, x: A)
    requires
        0 <= k <= s.len(),
    ensures
        s.insert(k, x).to_multiset() == s.to_multiset().insert(x),
{
    let a = s.subrange(0, k);
    let b = s.subrange(k, s.len() as int);
    vstd::seq_lib::lemma_multiset_commutative(a.push(x), b);
    vstd::seq_lib::lemma_multiset_commutative(a, b);
    assert(s =~= a + b);
    a.to_multiset_ensures();
    assert(s.insert(k, x).to_multiset() =~= s.to_multiset().insert(x));
}

proof fn lemma_answer_views_insert(s: Seq<Answer>, k: int, a: Answer)
    requires
        0 <= k <= s.len(),
    ensures
        answer_views(s.insert(k, a)) == answer_views(s).insert(k, a@),
{
    assert(answer_views(s.insert(k, a)) =~= answer_views(s).insert(k, a@));
}

proof fn lemma_tag_views_push(s: Seq<Tag>, t: Tag)
    ensures
        tag_views(s.push(t)) == tag_views(s).push(t@),
{
    assert(tag_views(s.push(t)) =~= tag_views(s).push(t@));
}

proof fn lemma_answer_views_push(s: Seq<Answer>, a: Answer)
    ensures
        answer_views(s.push(a)) == answer_views(s).push(a@),
{
    assert(answer_views(s.push(a)) =~= answer_views(s).push(a@));
}

proof fn lemma_display_views_push(s: Seq<DisplayQuestion>, d: DisplayQuestion)
    ensures
        display_views(s.push(d)) == display_views(s).push(d@),
{
    assert(display_views(s.push(d)) =~= display_views(s).push(d@));
}

proof fn lemma_displays_of_push(m: StoreModel, qs: Seq<Question>, q: Question)
    ensures
        displays_of(m, qs.push(q)) == displays_of(m, qs).push(m.display_view(q@)),
{
    assert(displays_of(m, qs.push(q)) =~= displays_of(m, qs).push(m.display_view(q@)));
}

/// The persistence-and-integrity layer: the relational state of the
/// board, with every integrity rule enforced at write time.
///
/// The fields are private so that every value of this type reaches
/// callers through the constructor and the methods, all of which keep
/// [`StoreModel::wf`].
pub struct Store {
    users: Vec<User>,
    tags: Vec<Tag>,
    questions: Vec<QuestionRow>,
    answers: Vec<AnswerRow>,
    assignments: Vec<TagAssignment>,
}

impl View for Store {
    type V = StoreModel;

    closed spec fn view(&self) -> StoreModel {
        StoreModel {
            users: self.users@.map_values(|u: User| u@),
            tags: self.tags@.map_values(|t: Tag| t@),
            questions: self.questions@.map_values(|q: QuestionRow| q@),
            answers: self.answers@.map_values(|a: AnswerRow| a@),
            assignments: self.assignments@.map_values(|a: TagAssignment| a@),
        }
    }
}

impl Store {
    /// The store's integrity invariant; the constructor establishes it
    /// and every method preserves it.
    pub open spec fn wf(self) -> bool {
        self@.wf()
    }

    /// An empty board.
    pub fn new() -> (s: Store)
        ensures
            s@ =~= StoreModel::empty(),
            s.wf(),
    {
        let s = Store {
            users: Vec::new(),
            tags: Vec::new(),
            questions: Vec::new(),
            answers: Vec::new(),
            assignments: Vec::new(),
        };
        proof {
            assert(s@ =~= StoreModel::empty());
        }
        s
    }

    /// Whether some tag already carries this name.
    fn tag_name_exists(&self, name: &String) -> (r: bool)
        ensures
            r == self@.has_tag_name(name@),
    {
        let n = self.tags.len();
        let mut i: usize = 0;
        while i < n
            invariant
                i <= n,
                n == self.tags.len(),
                forall|j: int| 0 <= j < i ==> (#[trigger] self@.tags[j]).name != name@,
            decreases n - i,
        {
            if self.tags[i].name == *name {
                assert(self@.tags[i as int].name == name@);
                return true;
            }
            i += 1;
        }
        false
    }

    /// Seed one tag into the catalog.  The name must be new; a duplicate
    /// is rejected as a validation failure and nothing is written.
    pub fn add_tag(&mut self, name: String, description: String) -> (r: Result<i32, Error>)
        requires
            old(self).wf(),
        ensures
            final(self).wf(),
            (r is Ok) <==> (!old(self)@.has_tag_name(name@) && old(self)@.tags.len() < i32::MAX),
            r is Ok ==> final(self)@ =~= old(self)@.with_tag(name@, description@) && r->Ok_0 as int
                == old(self)@.tags.len() + 1,
            r is Err ==> final(self)@ == old(self)@,
            r is Err ==> ((r->Err_0).kind == ErrorKind::Validation || (r->Err_0).kind
                == ErrorKind::Internal),
            old(self)@.has_tag_name(name@) ==> r is Err && (r->Err_0).kind
                == ErrorKind::Validation,
            r is Err && (r->Err_0).kind == ErrorKind::Internal ==> !old(self)@.has_tag_name(name@),
    {
        if self.tag_name_exists(&name) {
            return Err(Error::new(ErrorKind::Validation, "Tag name already exists"));
        }
        if self.tags.len() >= i32::MAX as usize {
            return Err(Error::new(ErrorKind::Internal, "Database error"));
        }
        let id: i32 = (self.tags.len() as i32) + 1;
        let ghost m0 = self@;
        let ghost n = name@;
        let ghost d = description@;
        self.tags.push(Tag { id, name, description });
        proof {
            assert(self@ =~= m0.with_tag(n, d));
        }
        Ok(id)
    }

    /// Whether some user already carries this username.
    fn username_exists(&self, name: &String) -> (r: bool)
        ensures
            r == self@.has_username(name@),
    {
        let n = self.users.len();
        let mut i: usize = 0;
        while i < n
            invariant
                i <= n,
                n == self.users.len(),
                forall|j: int| 0 <= j < i ==> (#[trigger] self@.users[j]).username != name@,
            decreases n - i,
        {
            if self.users[i].username == *name {
                assert(self@.users[i as int].username == name@);
                return true;
            }
            i += 1;
        }
        false
    }

    /// Verify the credentials of the given user and return a logged in
    /// user on success.
    ///
    /// A username nobody carries is a lookup failure; a password that
    /// does not verify against the stored hash is an authorization
    /// failure; a hashing-engine fault — the engine rejecting the stored
    /// hash string itself — is an internal failure, kept distinct so that
    /// infrastructure faults are not masked as bad credentials.  Every
    /// hash this store writes comes out of the engine and parses, so on
    /// stored rows the first two cases are the only ones.
    pub fn login(&self, login_name: String, login_pw: String) -> (r: Result<Login, Error>)
        requires
            self.wf(),
        ensures
            (!self@.has_username(login_name@)) <==> (r is Err && (r->Err_0).kind
                == ErrorKind::NotFound),
            r is Err && (r->Err_0).kind == ErrorKind::NotFound ==> (r->Err_0).message@
                == "Record not found"@,
            r is Ok ==> (r->Ok_0)@.username == login_name@,
            r is Ok ==> exists|i: int|
                0 <= i < self@.users.len() && (#[trigger] self@.users[i]).username == login_name@
                    && (r->Ok_0)@.id == self@.users[i].id && bcrypt_verifies(
                    login_pw@,
                    self@.users[i].password,
                ),
            (exists|i: int|
                0 <= i < self@.users.len() && (#[trigger] self@.users[i]).username == login_name@
                    && bcrypt_hash_parses(self@.users[i].password) && bcrypt_verifies(
                    login_pw@,
                    self@.users[i].password,
                )) ==> r is Ok,
            (exists|i: int|
                0 <= i < self@.users.len() && (#[trigger] self@.users[i]).username == login_name@
                    && bcrypt_hash_parses(self@.users[i].password) && !bcrypt_verifies(
                    login_pw@,
                    self@.users[i].password,
                )) ==> (r is Err && (r->Err_0).kind == ErrorKind::Unauthorized),
            r is Err && (r->Err_0).kind == ErrorKind::Unauthorized ==> (exists|i: int|
                0 <= i < self@.users.len() && (#[trigger] self@.users[i]).username == login_name@
                    && !bcrypt_verifies(login_pw@, self@.users[i].password)) && (
            r->Err_0).message@ == "wrong password"@,
            r is Err && (r->Err_0).kind == ErrorKind::Internal ==> (exists|i: int|
                0 <= i < self@.users.len() && (#[trigger] self@.users[i]).username == login_name@
                    && !bcrypt_hash_parses(self@.users[i].password)) && (r->Err_0).message@
                == "Database error"@,
            r is Err ==> ((r->Err_0).kind == ErrorKind::NotFound || (r->Err_0).kind
                == ErrorKind::Unauthorized || (r->Err_0).kind == ErrorKind::Internal),
    {
        let n = self.users.len();
        let mut i: usize = 0;
        while i < n
            invariant
                i <= n,
                n == self.users.len(),
                self.wf(),
                forall|j: int| 0 <= j < i ==> (#[trigger] self@.users[j]).username != login_name@,
            decreases n - i,
        {
            if self.users[i].username == login_name {
                proof {
                    assert(self@.users[i as int].username == login_name@);
                    // usernames are unique, so this row is the only match
                    assert forall|j: int|
                        0 <= j < self@.users.len() && (#[trigger] self@.users[j]).username
                            == login_name@ implies j == i as int by {}
                }
                let u = &self.users[i];
                return match verify_password(login_pw.as_str(), u.password.as_str()) {
                    Ok(true) => Ok(Login { id: u.id, username: u.username.clone() }),
                    Ok(false) => Err(Error::new(ErrorKind::Unauthorized, "wrong password")),
                    Err(e) => Err(internal_error(e)),
                };
            }
            i += 1;
        }
        Err(Error::new(ErrorKind::NotFound, "Record not found"))
    }

    /// Create a new user and return a logged in user.
    ///
    /// The password is hashed first; a password the hashing engine
    /// rejects is a validation failure.  A username somebody already
    /// carries is a validation failure and nothing is written.  On
    /// success exactly one user row is written and the fresh identity is
    /// logged in with the same credentials before it is exposed.
    pub fn register(&mut self, username: String, password: String) -> (r: Result<Login, Error>)
        requires
            old(self).wf(),
        ensures
            final(self).wf(),
            old(self)@.has_username(username@) ==> r is Err && (r->Err_0).kind
                == ErrorKind::Validation,
            r is Err && (r->Err_0).kind == ErrorKind::Validation ==> final(self)@ == old(self)@,
            r is Err && (r->Err_0).kind == ErrorKind::Validation ==> ((r->Err_0).message@
                == "Invalid Password"@ || (r->Err_0).message@ == "Username already exists"@),
            r is Ok ==> !old(self)@.has_username(username@) && final(self)@ =~= old(
                self,
            )@.with_user(username@, final(self)@.users.last().password) && bcrypt_verifies(
                password@,
                final(self)@.users.last().password,
            ) && bcrypt_hash_parses(final(self)@.users.last().password) && (r->Ok_0)@.id == old(
                self,
            )@.users.len() + 1 && (r->Ok_0)@.username == username@,
            r is Err && (r->Err_0).kind == ErrorKind::Internal ==> final(self)@ == old(self)@,
            r is Err ==> ((r->Err_0).kind == ErrorKind::Validation || (r->Err_0).kind
                == ErrorKind::Internal),
            (!old(self)@.has_username(username@) && old(self)@.users.len() < i32::MAX) ==> (r
                is Ok || (r is Err && (r->Err_0).kind == ErrorKind::Validation && (
            r->Err_0).message@ == "Invalid Password"@)),
    {
        let user = match NewUser::create(username.clone(), password.clone()) {
            Ok(u) => u,
            Err(reason) => {
                return Err(Error { kind: ErrorKind::Validation, message: reason });
            },
        };

        if self.username_exists(&username) {
            return Err(Error::new(ErrorKind::Validation, "Username already exists"));
        }
        if self.users.len() >= i32::MAX as usize {
            return Err(Error::new(ErrorKind::Internal, "Database error"));
        }

        let id: i32 = (self.users.len() as i32) + 1;
        let ghost m0 = self@;
        let ghost un = username@;
        let ghost pw = password@;
        let ghost hp = user.password@;
        self.users.push(User { id, username: user.username, password: user.password });
        proof {
            assert(self@ =~= m0.with_user(un, self@.users.last().password));
            assert(self@.users.last().password == hp);
        }

        // log user in after registration; the row just written carries
        // this username, its hash parses and verifies the password, so
        // the login cannot fail
        let res = self.login(username, password);
        proof {
            let m1 = self@;
            let last = m1.users.len() - 1;
            assert(m1.users[last].username == un && bcrypt_hash_parses(m1.users[last].password)
                && bcrypt_verifies(pw, m1.users[last].password));
            assert(res is Ok);
            let j = choose|j: int|
                0 <= j < m1.users.len() && (#[trigger] m1.users[j]).username == un && (
                res->Ok_0)@.id == m1.users[j].id && bcrypt_verifies(pw, m1.users[j].password);
            assert(j == last);
        }
        res
    }

    /// Return the number of answers a question has.
    pub fn num_answers(&self, q_id: i32) -> (r: i64)
        requires
            self.wf(),
        ensures
            r as int == self@.num_answers_of(q_id as int),
    {
        let n = self.answers.len();
        proof {
            if n > 0 {
                assert(self@.answers[n - 1].id == n);
            }
        }
        let mut count: i64 = 0;
        let mut i: usize = 0;
        while i < n
            invariant
                i <= n,
                n == self.answers.len(),
                n <= i64::MAX,
                0 <= count <= i,
                count as int == self@.answers_of_upto(q_id as int, i as int).len(),
            decreases n - i,
        {
            proof {
                self@.lemma_answers_of_upto_step(q_id as int, i as int);
            }
            if self.answers[i].question == q_id {
                count = count + 1;
            }
            i += 1;
        }
        count
    }

    /// Return whether a question was answered, that is, whether at least
    /// one answer for it has been accepted.
    pub fn answered(&self, q_id: i32) -> (r: bool)
        ensures
            r == self@.answered_of(q_id as int),
    {
        let n = self.answers.len();
        let mut i: usize = 0;
        while i < n
            invariant
                i <= n,
                n == self.answers.len(),
                forall|j: int|
                    0 <= j < i ==> !((#[trigger] self@.answers[j]).question == q_id as int
                        && self@.answers[j].accepted),
            decreases n - i,
        {
            if self.answers[i].question == q_id && self.answers[i].accepted {
                assert(self@.answers[i as int].question == q_id as int
                    && self@.answers[i as int].accepted);
                return true;
            }
            i += 1;
        }
        false
    }

    /// Return all tags of a question, in assignment order.
    pub fn tags(&self, q_id: i32) -> (r: Vec<Tag>)
        requires
            self.wf(),
        ensures
            tag_views(r@) == self@.tags_of(q_id as int),
    {
        let n = self.assignments.len();
        let mut res: Vec<Tag> = Vec::new();
        let mut i: usize = 0;
        while i < n
            invariant
                i <= n,
                n == self.assignments.len(),
                self.wf(),
                tag_views(res@) =~= self@.tags_of_upto(q_id as int, i as int),
            decreases n - i,
        {
            proof {
                self@.lemma_tags_of_upto_step(q_id as int, i as int);
            }
            if self.assignments[i].question == q_id {
                let tid = self.assignments[i].tag;
                assert(self@.valid_tag_id(self@.assignments[i as int].tag));
                let t = &self.tags[(tid - 1) as usize];
                res.push(Tag { id: t.id, name: t.name.clone(), description: t.description.clone() });
                proof {
                    assert(tag_views(res@) =~= self@.tags_of_upto(q_id as int, i + 1));
                }
            } else {
                proof {
                    assert(tag_views(res@) =~= self@.tags_of_upto(q_id as int, i + 1));
                }
            }
            i += 1;
        }
        res
    }

    /// Return all tags in the catalog, in catalog order.
    pub fn all_tags(&self) -> (r: Vec<Tag>)
        ensures
            tag_views(r@) == self@.tags,
    {
        let n = self.tags.len();
        let mut res: Vec<Tag> = Vec::new();
        let mut i: usize = 0;
        while i < n
            invariant
                i <= n,
                n == self.tags.len(),
                tag_views(res@) =~= self@.tags.take(i as int),
            decreases n - i,
        {
            let t = &self.tags[i];
            let newt = Tag { id: t.id, name: t.name.clone(), description: t.description.clone() };
            let ghost prev = res@;
            proof {
                assert(newt@ == self@.tags[i as int]);
            }
            res.push(newt);
            proof {
                lemma_tag_views_push(prev, res@.last());
                assert(self@.tags.take(i + 1) =~= self@.tags.take(i as int).push(
                    self@.tags[i as int],
                ));
                assert(tag_views(res@) =~= self@.tags.take(i + 1));
            }
            i += 1;
        }
        proof {
            assert(self@.tags.take(n as int) =~= self@.tags);
        }
        res
    }

    /// Whether one of the given names is this name.
    fn name_in(targets: &Vec<String>, name: &String) -> (r: bool)
        ensures
            r == name_views(targets@).contains(name@),
    {
        let n = targets.len();
        let mut i: usize = 0;
        while i < n
            invariant
                i <= n,
                n == targets.len(),
                forall|j: int| 0 <= j < i ==> name_views(targets@)[j] != name@,
            decreases n - i,
        {
            if targets[i] == *name {
                assert(name_views(targets@)[i as int] == name@);
                return true;
            }
            i += 1;
        }
        false
    }

    /// Return all tags with a name in the given vector of names.
    ///
    /// Exactly one row comes back per distinct requested name: if any
    /// requested name resolves to no tag, the whole lookup fails with a
    /// validation error rather than returning a partial tag set.
    pub fn tags_with_names(&self, targets: Vec<String>) -> (r: Result<Vec<Tag>, Error>)
        requires
            self.wf(),
        ensures
            (r is Ok) <==> (forall|i: int|
                0 <= i < targets@.len() ==> self@.has_tag_name(#[trigger] name_views(targets@)[i])),
            r is Ok ==> tag_views((r->Ok_0)@) == self@.tags_named(name_views(targets@)),
            r is Err ==> (r->Err_0).kind == ErrorKind::Validation && (r->Err_0).message@
                == "Invalid Tag"@,
    {
        let m = targets.len();
        let mut i: usize = 0;
        while i < m
            invariant
                i <= m,
                m == targets.len(),
                self.wf(),
                forall|j: int|
                    0 <= j < i ==> self@.has_tag_name(#[trigger] name_views(targets@)[j]),
            decreases m - i,
        {
            if !self.tag_name_exists(&targets[i]) {
                assert(!self@.has_tag_name(name_views(targets@)[i as int]));
                return Err(Error::new(ErrorKind::Validation, "Invalid Tag"));
            }
            assert(self@.has_tag_name(name_views(targets@)[i as int]));
            i += 1;
        }

        let n = self.tags.len();
        let mut res: Vec<Tag> = Vec::new();
        let mut k: usize = 0;
        while k < n
            invariant
                k <= n,
                n == self.tags.len(),
                tag_views(res@) =~= self@.tags_named_upto(name_views(targets@), k as int),
            decreases n - k,
        {
            proof {
                self@.lemma_tags_named_upto_step(name_views(targets@), k as int);
            }
            let t = &self.tags[k];
            if Self::name_in(&targets, &t.name) {
                assert(name_views(targets@).contains(self@.tags[k as int].name));
                res.push(
                    Tag { id: t.id, name: t.name.clone(), description: t.description.clone() },
                );
                proof {
                    assert(tag_views(res@) =~= self@.tags_named_upto(name_views(targets@), k + 1));
                }
            } else {
                assert(!name_views(targets@).contains(self@.tags[k as int].name));
            }
            k += 1;
        }
        Ok(res)
    }

    /// Join a stored question row with its author's username.
    fn join_question(&self, q: &QuestionRow) -> (r: Question)
        requires
            self.wf(),
            self@.valid_user_id(q@.author),
        ensures
            r@ == self@.question_view(q@),
    {
        let author = &self.users[(q.author - 1) as usize];
        Question {
            id: q.id,
            author: author.username.clone(),
            time: q.time,
            score: q.score,
            title: q.title.clone(),
            text: q.text.clone(),
        }
    }

    /// Annotate a question with the data needed for displaying it,
    /// transforming it into a `DisplayQuestion`.
    pub fn to_display_question(&self, q: Question) -> (r: DisplayQuestion)
        requires
            self.wf(),
        ensures
            r@ == self@.display_view(q@),
    {
        let tags = self.tags(q.id);
        let num_answers = self.num_answers(q.id);
        let answered = self.answered(q.id);
        let r = DisplayQuestion {
            id: q.id,
            author: q.author,
            time: q.time,
            score: q.score,
            title: q.title,
            text: q.text,
            tags,
            num_answers,
            answered,
        };
        proof {
            assert(r@ =~= self@.display_view(q@));
        }
        r
    }

    /// Convert multiple questions into `DisplayQuestion`s.
    pub fn to_display_questions(&self, questions: Vec<Question>) -> (r: Vec<DisplayQuestion>)
        requires
            self.wf(),
        ensures
            display_views(r@) == displays_of(self@, questions@),
    {
        let n = questions.len();
        let mut res: Vec<DisplayQuestion> = Vec::new();
        let mut i: usize = 0;
        while i < n
            invariant
                i <= n,
                n == questions.len(),
                self.wf(),
                display_views(res@) =~= displays_of(self@, questions@.take(i as int)),
            decreases n - i,
        {
            let q = &questions[i];
            let dq = self.to_display_question(
                Question {
                    id: q.id,
                    author: q.author.clone(),
                    time: q.time,
                    score: q.score,
                    title: q.title.clone(),
                    text: q.text.clone(),
                },
            );
            let ghost prev = res@;
            res.push(dq);
            proof {
                lemma_display_views_push(prev, res@.last());
                lemma_displays_of_push(self@, questions@.take(i as int), questions@[i as int]);
                assert(questions@.take(i + 1) =~= questions@.take(i as int).push(
                    questions@[i as int],
                ));
                assert(display_views(res@) =~= displays_of(self@, questions@.take(i + 1)));
            }
            i += 1;
        }
        proof {
            assert(questions@.take(n as int) =~= questions@);
        }
        res
    }

    /// Select all questions, ordered by creation time, newest first.
    pub fn newest_questions(&self) -> (r: Vec<DisplayQuestion>)
        requires
            self.wf(),
        ensures
            display_views(r@) == self@.newest_view(),
    {
        let n = self.questions.len();
        let mut res: Vec<DisplayQuestion> = Vec::new();
        let mut k: usize = 0;
        while k < n
            invariant
                k <= n,
                n == self.questions.len(),
                self.wf(),
                display_views(res@) =~= self@.newest_view_upto(k as int),
            decreases n - k,
        {
            proof {
                self@.lemma_newest_view_upto_step(k as int);
            }
            let row = &self.questions[n - 1 - k];
            let jq = self.join_question(row);
            let dq = self.to_display_question(jq);
            res.push(dq);
            proof {
                assert(display_views(res@) =~= self@.newest_view_upto(k + 1));
            }
            k += 1;
        }
        res
    }

    /// Whether the question carries at least one tag whose name is among
    /// the given names.
    fn question_has_tag(&self, qid: i32, targets: &Vec<String>) -> (r: bool)
        requires
            self.wf(),
        ensures
            r == self@.has_matching_tag(qid as int, name_views(targets@)),
    {
        let n = self.assignments.len();
        let mut i: usize = 0;
        while i < n
            invariant
                i <= n,
                n == self.assignments.len(),
                self.wf(),
                forall|j: int|
                    0 <= j < i ==> !((#[trigger] self@.assignments[j]).question == qid as int
                        && name_views(targets@).contains(
                        self@.tag_at(self@.assignments[j].tag).name,
                    )),
            decreases n - i,
        {
            if self.assignments[i].question == qid {
                let tid = self.assignments[i].tag;
                assert(self@.valid_tag_id(self@.assignments[i as int].tag));
                if Self::name_in(targets, &self.tags[(tid - 1) as usize].name) {
                    assert(self@.assignments[i as int].question == qid as int && name_views(
                        targets@,
                    ).contains(self@.tag_at(self@.assignments[i as int].tag).name));
                    return true;
                }
            }
            i += 1;
        }
        false
    }

    /// Select all questions that carry a tag with a name in the given
    /// vector, ordered by creation time, newest first, each question
    /// once even when several of its tags match.
    pub fn questions_with_tag(&self, target_tags: Vec<String>) -> (r: Vec<DisplayQuestion>)
        requires
            self.wf(),
        ensures
            display_views(r@) == self@.tagged_view(name_views(target_tags@)),
    {
        let n = self.questions.len();
        let mut res: Vec<DisplayQuestion> = Vec::new();
        let mut k: usize = 0;
        while k < n
            invariant
                k <= n,
                n == self.questions.len(),
                self.wf(),
                display_views(res@) =~= self@.tagged_view_upto(
                    name_views(target_tags@),
                    k as int,
                ),
            decreases n - k,
        {
            proof {
                self@.lemma_tagged_view_upto_step(name_views(target_tags@), k as int);
            }
            let row = &self.questions[n - 1 - k];
            if self.question_has_tag(row.id, &target_tags) {
                let jq = self.join_question(row);
                let dq = self.to_display_question(jq);
                res.push(dq);
                proof {
                    assert(display_views(res@) =~= self@.tagged_view_upto(
                        name_views(target_tags@),
                        k + 1,
                    ));
                }
            }
            k += 1;
        }
        res
    }

    /// Select a question by id, annotated for display.
    pub fn question(&self, qid: i32) -> (r: Result<DisplayQuestion, Error>)
        requires
            self.wf(),
        ensures
            (r is Ok) <==> self@.valid_question_id(qid as int),
            r is Ok ==> (r->Ok_0)@ == self@.display_of_row(self@.questions[qid - 1]),
            r is Err ==> (r->Err_0).kind == ErrorKind::NotFound && (r->Err_0).message@
                == "This question does not exist"@,
    {
        if qid >= 1 && (qid as usize) <= self.questions.len() {
            let row = &self.questions[(qid - 1) as usize];
            proof {
                assert(row@ == self@.questions[qid - 1]);
                assert(self@.valid_user_id(self@.questions[qid - 1].author));
            }
            let jq = self.join_question(row);
            Ok(self.to_display_question(jq))
        } else {
            Err(Error::new(ErrorKind::NotFound, "This question does not exist"))
        }
    }

    /// Select all answers of a given question, joined with their
    /// authors' usernames, ordered by score descending, highest-voted
    /// first; ties are broken by insertion (id) order, oldest first.
    pub fn answers(&self, qid: i32) -> (r: Vec<Answer>)
        requires
            self.wf(),
        ensures
            crate::store_model::answers_sorted(answer_views(r@)),
            answer_views(r@).to_multiset() == self@.answer_views_of(
                self@.answers_of(qid as int),
            ).to_multiset(),
    {
        let n = self.answers.len();
        let mut rows: Vec<Answer> = Vec::new();
        let mut i: usize = 0;
        while i < n
            invariant
                i <= n,
                n == self.answers.len(),
                self.wf(),
                answer_views(rows@) =~= self@.answer_views_of(
                    self@.answers_of_upto(qid as int, i as int),
                ),
                forall|k: int|
                    0 <= k < rows@.len() ==> (#[trigger] answer_views(rows@)[k]).id <= i,
                forall|k1: int, k2: int|
                    0 <= k1 < k2 < rows@.len() ==> (#[trigger] answer_views(rows@)[k1]).id < (
                    #[trigger] answer_views(rows@)[k2]).id,
            decreases n - i,
        {
            proof {
                self@.lemma_answers_of_upto_step(qid as int, i as int);
            }
            if self.answers[i].question == qid {
                let a = &self.answers[i];
                proof {
                    assert(a@ == self@.answers[i as int]);
                    assert(self@.valid_user_id(self@.answers[i as int].author));
                    assert(self@.answers[i as int].id == i + 1);
                }
                let joined = Answer {
                    id: a.id,
                    author: self.users[(a.author - 1) as usize].username.clone(),
                    question: a.question,
                    time: a.time,
                    score: a.score,
                    accepted: a.accepted,
                    text: a.text.clone(),
                };
                let ghost prev = rows@;
                rows.push(joined);
                proof {
                    lemma_answer_views_push(prev, rows@.last());
                    self@.lemma_answer_views_of_push(
                        self@.answers_of_upto(qid as int, i as int),
                        self@.answers[i as int],
                    );
                    assert(rows@.last()@ == self@.answer_view(self@.answers[i as int]));
                    assert(answer_views(rows@) =~= self@.answer_views_of(
                        self@.answers_of_upto(qid as int, i + 1),
                    ));
                }
            }
            i += 1;
        }

        // Insert each collected answer into its place; incoming ids are
        // strictly increasing, so an answer with an equal score lands
        // after the ones already placed.
        let m = rows.len();
        let mut out: Vec<Answer> = Vec::new();
        proof {
            assert(answer_views(out@) =~= answer_views(rows@.take(0)));
        }
        let mut j: usize = 0;
        while j < m
            invariant
                j <= m,
                m == rows.len(),
                out@.len() == j,
                crate::store_model::answers_sorted(answer_views(out@)),
                answer_views(out@).to_multiset() == answer_views(
                    rows@.take(j as int),
                ).to_multiset(),
                forall|k: int, l: int|
                    0 <= k < out@.len() && j <= l < rows@.len() ==> (#[trigger] answer_views(
                        out@,
                    )[k]).id < (#[trigger] answer_views(rows@)[l]).id,
                forall|k1: int, k2: int|
                    0 <= k1 < k2 < rows@.len() ==> (#[trigger] answer_views(rows@)[k1]).id < (
                    #[trigger] answer_views(rows@)[k2]).id,
            decreases m - j,
        {
            let src = &rows[j];
            let x = Answer {
                id: src.id,
                author: src.author.clone(),
                question: src.question,
                time: src.time,
                score: src.score,
                accepted: src.accepted,
                text: src.text.clone(),
            };
            let ghost xv = x@;
            proof {
                assert(xv == answer_views(rows@)[j as int]);
            }
            let mut k: usize = 0;
            while k < out.len() && (out[k].score > x.score || (out[k].score == x.score && out[k].id
                < x.id))
                invariant
                    k <= out@.len(),
                    xv == x@,
                    forall|p: int|
                        0 <= p < k ==> crate::store_model::answer_precedes(
                            #[trigger] answer_views(out@)[p],
                            xv,
                        ),
                decreases out@.len() - k,
            {
                proof {
                    assert(answer_views(out@)[k as int] == out@[k as int]@);
                }
                k += 1;
            }
            let ghost outprev = out@;
            let ghost ov = answer_views(out@);
            let ghost kk = k as int;
            proof {
                // at the stop position the placed answer scores strictly
                // lower: its id is smaller, so an equal score would have
                // kept the scan going
                if kk < ov.len() {
                    assert(ov[kk] == out@[kk]@);
                    assert(ov[kk].id < xv.id);
                    assert(ov[kk].score < xv.score);
                }
            }
            out.insert(k, x);
            proof {
                lemma_answer_views_insert(outprev, kk, x);
                let nv = answer_views(out@);
                assert(nv == ov.insert(kk, xv));
                ov.insert_ensures(kk, xv);

                // the result stays sorted
                assert forall|p: int, q: int|
                    0 <= p < q < nv.len() implies crate::store_model::answer_precedes(
                    #[trigger] nv[p],
                    #[trigger] nv[q],
                ) by {
                    if q < kk {
                        assert(nv[p] == ov[p] && nv[q] == ov[q]);
                    } else if q == kk {
                        assert(nv[p] == ov[p] && nv[q] == xv);
                    } else if p < kk {
                        assert(nv[p] == ov[p] && nv[q] == ov[q - 1]);
                        if kk < ov.len() && q - 1 > kk {
                            assert(crate::store_model::answer_precedes(ov[kk], ov[q - 1]));
                        }
                    } else if p == kk {
                        assert(nv[p] == xv && nv[q] == ov[q - 1]);
                        assert(crate::store_model::answer_precedes(xv, ov[q - 1]));
                    } else {
                        assert(nv[p] == ov[p - 1] && nv[q] == ov[q - 1]);
                    }
                }

                // the multiset grows by exactly the inserted answer
                lemma_to_multiset_insert(ov, kk, xv);
                assert(rows@.take(j + 1) =~= rows@.take(j as int).push(rows@[j as int]));
                lemma_answer_views_push(rows@.take(j as int), rows@[j as int]);
                answer_views(rows@.take(j as int)).to_multiset_ensures();
                assert(rows@[j as int]@ == answer_views(rows@)[j as int]);
                assert(answer_views(out@).to_multiset() == answer_views(
                    rows@.take(j + 1),
                ).to_multiset());

                // everything placed so far still precedes the pending ids
                assert forall|k2: int, l: int|
                    0 <= k2 < out@.len() && j + 1 <= l < rows@.len() implies (
                #[trigger] answer_views(out@)[k2]).id < (#[trigger] answer_views(rows@)[l]).id by {
                    if k2 < kk {
                        assert(nv[k2] == ov[k2]);
                    } else if k2 == kk {
                        assert(nv[k2] == xv);
                        assert(xv.id < answer_views(rows@)[l].id);
                    } else {
                        assert(nv[k2] == ov[k2 - 1]);
                    }
                }
            }
            j += 1;
        }
        proof {
            assert(rows@.take(m as int) =~= rows@);
        }
        out
    }

    /// Add a new question to the board and return its id.
    ///
    /// The question row and its tag assignments form a single atomic
    /// unit: when any supplied tag id (or the author id) does not exist,
    /// the whole write is rejected with a validation error and nothing
    /// becomes visible.  `now` is the creation timestamp; timestamps are
    /// monotonically ordered by id, so it may not lie before the newest
    /// existing question's.
    pub fn new_question(
        &mut self,
        author: i32,
        title: String,
        text: String,
        tags: Vec<i32>,
        now: i64,
    ) -> (r: Result<i32, Error>)
        requires
            old(self).wf(),
            old(self)@.questions.len() > 0 ==> old(self)@.questions.last().time <= now as int,
        ensures
            final(self).wf(),
            (r is Err && (r->Err_0).kind == ErrorKind::Validation) <==> !(old(
                self,
            )@.valid_user_id(author as int) && (forall|i: int|
                0 <= i < tags@.len() ==> old(self)@.valid_tag_id(
                    #[trigger] int_views(tags@)[i],
                ))),
            r is Err ==> final(self)@ == old(self)@,
            r is Err ==> ((r->Err_0).kind == ErrorKind::Validation || (r->Err_0).kind
                == ErrorKind::Internal),
            r is Err && (r->Err_0).kind == ErrorKind::Validation ==> (r->Err_0).message@
                == "Invalid tag id supplied"@,
            r is Ok <==> (old(self)@.valid_user_id(author as int) && (forall|i: int|
                0 <= i < tags@.len() ==> old(self)@.valid_tag_id(#[trigger] int_views(tags@)[i]))
                && old(self)@.questions.len() < i32::MAX),
            r is Ok ==> final(self)@ =~= old(self)@.with_question(
                author as int,
                title@,
                text@,
                int_views(tags@),
                now as int,
            ) && r->Ok_0 as int == old(self)@.questions.len() + 1,
    {
        if author < 1 || (author as usize) > self.users.len() {
            return Err(Error::new(ErrorKind::Validation, "Invalid tag id supplied"));
        }
        let m = tags.len();
        let mut i: usize = 0;
        while i < m
            invariant
                i <= m,
                m == tags.len(),
                self.wf(),
                forall|j: int|
                    0 <= j < i ==> self@.valid_tag_id(#[trigger] int_views(tags@)[j]),
            decreases m - i,
        {
            let t = tags[i];
            if t < 1 || (t as usize) > self.tags.len() {
                assert(!self@.valid_tag_id(int_views(tags@)[i as int]));
                return Err(Error::new(ErrorKind::Validation, "Invalid tag id supplied"));
            }
            assert(self@.valid_tag_id(int_views(tags@)[i as int]));
            i += 1;
        }
        if self.questions.len() >= i32::MAX as usize {
            return Err(Error::new(ErrorKind::Internal, "Database error"));
        }

        let new_id: i32 = (self.questions.len() as i32) + 1;
        let ghost m0 = self@;
        let ghost ti = title@;
        let ghost te = text@;
        self.questions.push(
            QuestionRow { id: new_id, author, time: now, score: 0, title, text },
        );
        let ghost m1 = self@;
        let mut k: usize = 0;
        while k < m
            invariant
                k <= m,
                m == tags.len(),
                new_id as int == m0.questions.len() + 1,
                self@.users == m1.users,
                self@.tags == m1.tags,
                self@.questions == m1.questions,
                self@.answers == m1.answers,
                self@.assignments =~= m1.assignments + crate::store_model::assignments_for(
                    new_id as int,
                    int_views(tags@).take(k as int),
                ),
            decreases m - k,
        {
            let ghost prev = self@.assignments;
            self.assignments.push(TagAssignment { question: new_id, tag: tags[k] });
            proof {
                let x = TagAssignmentModel {
                    question: new_id as int,
                    tag: tags@[k as int] as int,
                };
                assert(self@.assignments =~= prev.push(x));
                crate::store_model::lemma_assignments_for_push(
                    new_id as int,
                    int_views(tags@).take(k as int),
                    int_views(tags@)[k as int],
                );
                assert(int_views(tags@).take(k + 1) =~= int_views(tags@).take(k as int).push(
                    int_views(tags@)[k as int],
                ));
                assert(prev.push(x) =~= m1.assignments + crate::store_model::assignments_for(
                    new_id as int,
                    int_views(tags@).take(k as int),
                ).push(x));
                assert(self@.assignments =~= m1.assignments
                    + crate::store_model::assignments_for(
                    new_id as int,
                    int_views(tags@).take(k + 1),
                ));
            }
            k += 1;
        }
        proof {
            assert(int_views(tags@).take(m as int) =~= int_views(tags@));
            assert(self@ =~= m0.with_question(
                author as int,
                ti,
                te,
                int_views(tags@),
                now as int,
            ));
        }
        Ok(new_id)
    }

    /// Add a new answer to the board.  An author or question id that
    /// does not exist is rejected with a validation error and nothing is
    /// written.
    pub fn new_answer(
        &mut self,
        author: i32,
        question: i32,
        text: String,
        now: i64,
    ) -> (r: Result<(), Error>)
        requires
            old(self).wf(),
        ensures
            final(self).wf(),
            (r is Err && (r->Err_0).kind == ErrorKind::Validation) <==> !(old(
                self,
            )@.valid_user_id(author as int) && old(self)@.valid_question_id(question as int)),
            r is Err ==> final(self)@ == old(self)@,
            r is Err ==> ((r->Err_0).kind == ErrorKind::Validation || (r->Err_0).kind
                == ErrorKind::Internal),
            r is Err && (r->Err_0).kind == ErrorKind::Validation ==> (r->Err_0).message@
                == "Invalid question id supplied"@,
            r is Ok <==> (old(self)@.valid_user_id(author as int) && old(
                self,
            )@.valid_question_id(question as int) && old(self)@.answers.len() < i32::MAX),
            r is Ok ==> final(self)@ =~= old(self)@.with_answer(
                author as int,
                question as int,
                text@,
                now as int,
            ),
    {
        if author < 1 || (author as usize) > self.users.len() || question < 1 || (
        question as usize) > self.questions.len() {
            return Err(Error::new(ErrorKind::Validation, "Invalid question id supplied"));
        }
        if self.answers.len() >= i32::MAX as usize {
            return Err(Error::new(ErrorKind::Internal, "Database error"));
        }
        let id: i32 = (self.answers.len() as i32) + 1;
        let ghost m0 = self@;
        let ghost te = text@;
        self.answers.push(
            AnswerRow { id, author, question, time: now, score: 0, accepted: false, text },
        );
        proof {
            assert(self@ =~= m0.with_answer(author as int, question as int, te, now as int));
        }
        Ok(())
    }

    /// Update the score of the question by the given difference, as one
    /// atomic increment.  An id nobody carries is a validation failure.
    pub fn update_question_score(&mut self, q_id: i32, diff: i32) -> (r: Result<(), Error>)
        requires
            old(self).wf(),
        ensures
            final(self).wf(),
            (r is Err && (r->Err_0).kind == ErrorKind::Validation) <==> !old(
                self,
            )@.valid_question_id(q_id as int),
            r is Err && (r->Err_0).kind == ErrorKind::Validation ==> (r->Err_0).message@
                == "Invalid question id supplied"@,
            r is Err ==> final(self)@ == old(self)@,
            r is Err ==> ((r->Err_0).kind == ErrorKind::Validation || (r->Err_0).kind
                == ErrorKind::Internal),
            r is Ok <==> (old(self)@.valid_question_id(q_id as int) && i32::MIN <= old(
                self,
            )@.questions[q_id - 1].score + diff <= i32::MAX),
            r is Ok ==> final(self)@ =~= old(self)@.with_question_score(q_id as int, diff as int),
    {
        if q_id < 1 || (q_id as usize) > self.questions.len() {
            return Err(Error::new(ErrorKind::Validation, "Invalid question id supplied"));
        }
        let i = (q_id - 1) as usize;
        match self.questions[i].score.checked_add(diff) {
            Some(s) => {
                let ghost m0 = self@;
                self.questions[i].score = s;
                proof {
                    assert(self@ =~= m0.with_question_score(q_id as int, diff as int));
                }
                Ok(())
            },
            None => Err(Error::new(ErrorKind::Internal, "Database error")),
        }
    }

    /// Update the score of the answer by the given difference, as one
    /// atomic increment.  An id nobody carries is a validation failure.
    pub fn update_answer_score(&mut self, a_id: i32, diff: i32) -> (r: Result<(), Error>)
        requires
            old(self).wf(),
        ensures
            final(self).wf(),
            (r is Err && (r->Err_0).kind == ErrorKind::Validation) <==> !old(
                self,
            )@.valid_answer_id(a_id as int),
            r is Err && (r->Err_0).kind == ErrorKind::Validation ==> (r->Err_0).message@
                == "Invalid answer id supplied"@,
            r is Err ==> final(self)@ == old(self)@,
            r is Err ==> ((r->Err_0).kind == ErrorKind::Validation || (r->Err_0).kind
                == ErrorKind::Internal),
            r is Ok <==> (old(self)@.valid_answer_id(a_id as int) && i32::MIN <= old(
                self,
            )@.answers[a_id - 1].score + diff <= i32::MAX),
            r is Ok ==> final(self)@ =~= old(self)@.with_answer_score(a_id as int, diff as int),
    {
        if a_id < 1 || (a_id as usize) > self.answers.len() {
            return Err(Error::new(ErrorKind::Validation, "Invalid answer id supplied"));
        }
        let i = (a_id - 1) as usize;
        match self.answers[i].score.checked_add(diff) {
            Some(s) => {
                let ghost m0 = self@;
                self.answers[i].score = s;
                proof {
                    assert(self@ =~= m0.with_answer_score(a_id as int, diff as int));
                }
                Ok(())
            },
            None => Err(Error::new(ErrorKind::Internal, "Database error")),
        }
    }

    /// Mark an answer as the accepted solution.  An id nobody carries is
    /// a validation failure.  Other answers of the same question keep
    /// their accepted flags: the store allows several accepted answers
    /// per question.
    pub fn mark_solved(&mut self, a_id: i32) -> (r: Result<(), Error>)
        requires
            old(self).wf(),
        ensures
            final(self).wf(),
            (r is Err) <==> !old(self)@.valid_answer_id(a_id as int),
            r is Err ==> (r->Err_0).kind == ErrorKind::Validation && (r->Err_0).message@
                == "Invalid answer id supplied"@ && final(self)@ == old(self)@,
            r is Ok ==> final(self)@ =~= old(self)@.with_accepted(a_id as int),
    {
        if a_id < 1 || (a_id as usize) > self.answers.len() {
            return Err(Error::new(ErrorKind::Validation, "Invalid answer id supplied"));
        }
        let i = (a_id - 1) as usize;
        let ghost m0 = self@;
        self.answers[i].accepted = true;
        proof {
            assert(self@ =~= m0.with_accepted(a_id as int));
        }
        Ok(())
    }
}

} // verus!
