//! A model of the stored collection and of what each POST does to it.
//!
//! The program itself never reads the collection back: each accepted
//! submission is a one-shot insert. These definitions say what that insert
//! amounts to, and the lemmas state the laws the submit path obeys.

use vstd::prelude::*;
use crate::form::find_value;
use crate::form::question_key;
use crate::submission::spec_parse;
use crate::submission::FormError;

verus! {

/// The name of the database the collection lives in.
pub fn database_name() -> (r: &'static str)
    ensures
        r@ == "survey_db"@,
{
    "survey_db"
}

/// The name of the collection each submission is inserted into.
pub fn collection_name() -> (r: &'static str)
    ensures
        r@ == "questions"@,
{
    "questions"
}

/// One stored document: the two fields of the submission it was made from.
pub struct StoredDoc {
    pub question_text: Seq<char>,
    pub answer: Option<Seq<char>>,
}

/// The document a parsed body is stored as.
pub open spec fn doc_of(m: (Seq<char>, Option<Seq<char>>)) -> StoredDoc {
    StoredDoc { question_text: m.0, answer: m.1 }
}

/// The collection after one POST of `body`: an accepted submission appends
/// its document, and a rejected one changes nothing.
pub open spec fn apply_submission(docs: Seq<StoredDoc>, body: Seq<u8>) -> Seq<StoredDoc> {
    match spec_parse(body) {
        Ok(m) => docs.push(doc_of(m)),
        Err(_) => docs,
    }
}

/// An accepted submission is stored: the collection gains one document, the
/// new document's fields match the submitted question text and answer, a
/// read of the collection now contains it, and every document already
/// stored is untouched.
pub proof fn lemma_accepted_submission_stored(
    docs: Seq<StoredDoc>,
    body: Seq<u8>,
    m: (Seq<char>, Option<Seq<char>>),
)
    requires
        spec_parse(body) == Ok::<(Seq<char>, Option<Seq<char>>), FormError>(m),
    ensures
        apply_submission(docs, body).len() == docs.len() + 1,
        apply_submission(docs, body)[docs.len() as int] == doc_of(m),
        apply_submission(docs, body).contains(doc_of(m)),
        forall|k: int| 0 <= k < docs.len() ==> apply_submission(docs, body)[k] == docs[k],
{
    let after = apply_submission(docs, body);
    assert(after[docs.len() as int] == doc_of(m));
}

/// A rejected submission stores nothing: the collection is unchanged.
pub proof fn lemma_rejected_submission_not_stored(docs: Seq<StoredDoc>, body: Seq<u8>)
    requires
        spec_parse(body) is Err,
    ensures
        apply_submission(docs, body) == docs,
{
}

/// A body whose "question_text" field is missing, or decodes to nothing,
/// is rejected, and no document is stored from it.
pub proof fn lemma_missing_question_rejected(docs: Seq<StoredDoc>, body: Seq<u8>)
    requires
        match find_value(body, question_key()) {
            Option::None => true,
            Option::Some(v) => v.len() == 0,
        },
    ensures
        spec_parse(body) is Err,
        apply_submission(docs, body) == docs,
{
}

/// Resubmitting identical form data stores a second, separate document:
/// nothing is deduplicated, and each of the two new documents matches the
/// submitted fields.
pub proof fn lemma_resubmission_stored_twice(
    docs: Seq<StoredDoc>,
    body: Seq<u8>,
    m: (Seq<char>, Option<Seq<char>>),
)
    requires
        spec_parse(body) == Ok::<(Seq<char>, Option<Seq<char>>), FormError>(m),
    ensures
        apply_submission(apply_submission(docs, body), body).len() == docs.len() + 2,
        apply_submission(apply_submission(docs, body), body)[docs.len() as int] == doc_of(m),
        apply_submission(apply_submission(docs, body), body)[docs.len() as int + 1] == doc_of(m),
{
}

} // verus!
