use vstd::prelude::*;

use crate::hashing::{bcrypt_hash_parses, bcrypt_verifies, hash_password};

verus! {

// ---------------------------------------------------------------------------
// Stored rows
// ---------------------------------------------------------------------------

/// A user row: identity plus the bcrypt hash of the password.
#[derive(Debug, Clone)]
pub struct User {
    pub id: i32,
    pub username: String,
    pub password: String,
}

#[verifier::ext_equal]
pub ghost struct UserModel {
    pub id: int,
    pub username: Seq<char>,
    pub password: Seq<char>,
}

impl View for User {
    type V = UserModel;

    open spec fn view(&self) -> UserModel {
        UserModel { id: self.id as int, username: self.username@, password: self.password@ }
    }
}

/// A topic tag.
#[derive(Debug, Clone)]
pub struct Tag {
    pub id: i32,
    pub name: String,
    pub description: String,
}

#[verifier::ext_equal]
pub ghost struct TagModel {
    pub id: int,
    pub name: Seq<char>,
    pub description: Seq<char>,
}

impl View for Tag {
    type V = TagModel;

    open spec fn view(&self) -> TagModel {
        TagModel { id: self.id as int, name: self.name@, description: self.description@ }
    }
}

/// A question row as stored: the author is a user id.
#[derive(Debug, Clone)]
pub struct QuestionRow {
    pub id: i32,
    pub author: i32,
    pub time: i64,
    pub score: i32,
    pub title: String,
    pub text: String,
}

#[verifier::ext_equal]
pub ghost struct QuestionRowModel {
    pub id: int,
    pub author: int,
    pub time: int,
    pub score: int,
    pub title: Seq<char>,
    pub text: Seq<char>,
}

impl View for QuestionRow {
    type V = QuestionRowModel;

    open spec fn view(&self) -> QuestionRowModel {
        QuestionRowModel {
            id: self.id as int,
            author: self.author as int,
            time: self.time as int,
            score: self.score as int,
            title: self.title@,
            text: self.text@,
        }
    }
}

/// An answer row as stored: the author is a user id, `question` the id of
/// the question it answers.
#[derive(Debug, Clone)]
pub struct AnswerRow {
    pub id: i32,
    pub author: i32,
    pub question: i32,
    pub time: i64,
    pub score: i32,
    pub accepted: bool,
    pub text: String,
}

#[verifier::ext_equal]
pub ghost struct AnswerRowModel {
    pub id: int,
    pub author: int,
    pub question: int,
    pub time: int,
    pub score: int,
    pub accepted: bool,
    pub text: Seq<char>,
}

impl View for AnswerRow {
    type V = AnswerRowModel;

    open spec fn view(&self) -> AnswerRowModel {
        AnswerRowModel {
            id: self.id as int,
            author: self.author as int,
            question: self.question as int,
            time: self.time as int,
            score: self.score as int,
            accepted: self.accepted,
            text: self.text@,
        }
    }
}

/// A join-table row linking one question to one tag.  Created only
/// alongside its question, never mutated.
#[derive(Debug, Clone)]
pub struct TagAssignment {
    pub question: i32,
    pub tag: i32,
}

#[verifier::ext_equal]
pub ghost struct TagAssignmentModel {
    pub question: int,
    pub tag: int,
}

impl View for TagAssignment {
    type V = TagAssignmentModel;

    open spec fn view(&self) -> TagAssignmentModel {
        TagAssignmentModel { question: self.question as int, tag: self.tag as int }
    }
}

// ---------------------------------------------------------------------------
// Values handed to the presentation collaborator
// ---------------------------------------------------------------------------

/// A logged in user: the identity carried by the session, with no secret
/// material.
#[derive(Debug, Clone)]
pub struct Login {
    pub id: i32,
    pub username: String,
}

#[verifier::ext_equal]
pub ghost struct LoginModel {
    pub id: int,
    pub username: Seq<char>,
}

impl View for Login {
    type V = LoginModel;

    open spec fn view(&self) -> LoginModel {
        LoginModel { id: self.id as int, username: self.username@ }
    }
}

impl From<User> for Login {
    fn from(u: User) -> (r: Login) {
        Login { id: u.id, username: u.username }
    }
}

impl vstd::std_specs::convert::FromSpecImpl<User> for Login {
    open spec fn obeys_from_spec() -> bool {
        true
    }

    open spec fn from_spec(u: User) -> Login {
        Login { id: u.id, username: u.username }
    }
}

/// A question as read back: the author is replaced with the author's
/// username.
#[derive(Debug, Clone)]
pub struct Question {
    pub id: i32,
    pub author: String,
    pub time: i64,
    pub score: i32,
    pub title: String,
    pub text: String,
}

#[verifier::ext_equal]
pub ghost struct QuestionModel {
    pub id: int,
    pub author: Seq<char>,
    pub time: int,
    pub score: int,
    pub title: Seq<char>,
    pub text: Seq<char>,
}

impl View for Question {
    type V = QuestionModel;

    open spec fn view(&self) -> QuestionModel {
        QuestionModel {
            id: self.id as int,
            author: self.author@,
            time: self.time as int,
            score: self.score as int,
            title: self.title@,
            text: self.text@,
        }
    }
}

/// An answer as read back: the author is replaced with the author's
/// username.
#[derive(Debug, Clone)]
pub struct Answer {
    pub id: i32,
    pub author: String,
    pub question: i32,
    pub time: i64,
    pub score: i32,
    pub accepted: bool,
    pub text: String,
}

#[verifier::ext_equal]
pub ghost struct AnswerModel {
    pub id: int,
    pub author: Seq<char>,
    pub question: int,
    pub time: int,
    pub score: int,
    pub accepted: bool,
    pub text: Seq<char>,
}

impl View for Answer {
    type V = AnswerModel;

    open spec fn view(&self) -> AnswerModel {
        AnswerModel {
            id: self.id as int,
            author: self.author@,
            question: self.question as int,
            time: self.time as int,
            score: self.score as int,
            accepted: self.accepted,
            text: self.text@,
        }
    }
}

/// A question annotated with everything needed for displaying it: its
/// resolved tag list, its answer count, and whether any answer on it has
/// been accepted.  Derived on every read, never stored.
#[derive(Debug, Clone)]
pub struct DisplayQuestion {
    pub id: i32,
    pub author: String,
    pub time: i64,
    pub score: i32,
    pub title: String,
    pub text: String,
    pub tags: Vec<Tag>,
    pub num_answers: i64,
    pub answered: bool,
}

#[verifier::ext_equal]
pub ghost struct DisplayQuestionModel {
    pub id: int,
    pub author: Seq<char>,
    pub time: int,
    pub score: int,
    pub title: Seq<char>,
    pub text: Seq<char>,
    pub tags: Seq<TagModel>,
    pub num_answers: int,
    pub answered: bool,
}

impl View for DisplayQuestion {
    type V = DisplayQuestionModel;

    open spec fn view(&self) -> DisplayQuestionModel {
        DisplayQuestionModel {
            id: self.id as int,
            author: self.author@,
            time: self.time as int,
            score: self.score as int,
            title: self.title@,
            text: self.text@,
            tags: self.tags@.map_values(|t: Tag| t@),
            num_answers: self.num_answers as int,
            answered: self.answered,
        }
    }
}

// ---------------------------------------------------------------------------
// Insertion values
// ---------------------------------------------------------------------------

/// The data needed to create a new user: the username and the already
/// hashed password.
#[derive(Debug, Clone)]
pub struct NewUser {
    pub username: String,
    pub password: String,
}

impl NewUser {
    /// Creates a new user, hashing the password with bcrypt at the fixed
    /// work factor of 12 so that verification cost stays asymmetric to
    /// brute force.  What is stored is the sixty-character `$2b$` hash
    /// string, never the cleartext.  A password the hashing engine
    /// rejects is reported as invalid before anything is written.
    pub fn create(username: String, password: String) -> (r: Result<Self, String>)
        ensures
            r is Ok ==> (r->Ok_0).username@ == username@ && bcrypt_verifies(
                password@,
                (r->Ok_0).password@,
            ),
            r is Ok ==> bcrypt_hash_parses((r->Ok_0).password@),
            r is Ok ==> (r->Ok_0).password@.len() == 60,
            r is Ok ==> (r->Ok_0).password@.subrange(0, 4) == "$2b$"@,
            r is Err ==> (r->Err_0)@ == "Invalid Password"@,
    {
        match hash_password(password.as_str(), 12) {
            Ok(hash) => Ok(NewUser { username, password: hash }),
            Err(_) => Err("Invalid Password".to_owned()),
        }
    }
}

} // verus!
