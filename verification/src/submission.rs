//! The typed submission record, and the decoding of a posted body into it.

use vstd::prelude::*;
use vstd::utf8::decode_utf8;
use vstd::utf8::valid_utf8;
use crate::form::answer_key;
use crate::form::decode_form;
use crate::form::question_key;

verus! {

/// One survey submission: the question text, and an answer if one was given.
#[derive(Debug, PartialEq, Eq)]
pub struct Submission {
    pub question_text: String,
    pub answer: Option<String>,
}

impl Submission {
    /// The characters of both fields.
    pub open spec fn model(self) -> (Seq<char>, Option<Seq<char>>) {
        (
            self.question_text@,
            match self.answer {
                Option::Some(a) => Option::Some(a@),
                Option::None => Option::None,
            },
        )
    }

    /// A submission is well formed when its question text is non-empty.
    pub open spec fn wf(self) -> bool {
        self.question_text@.len() > 0
    }
}

/// Why a posted body was rejected.
#[derive(Clone, Copy, Debug, PartialEq, Eq, Structural)]
pub enum FormError {
    /// Some field of the body does not decode, or a found value is not
    /// valid UTF-8.
    BadEncoding,
    /// No field of the body is keyed "question_text".
    MissingQuestionText,
    /// The "question_text" value decodes to nothing.
    EmptyQuestionText,
}

/// Relies on `String::from_utf8`: it accepts exactly the valid UTF-8 byte
/// sequences, and the string it returns holds the characters those bytes
/// encode.
#[verifier::external_body]
fn string_from_utf8(bytes: Vec<u8>) -> (r: Option<String>)
    ensures
        r is Some <==> valid_utf8(bytes@),
        r matches Some(s) ==> s@ == decode_utf8(bytes@),
{
    String::from_utf8(bytes).ok()
}

/// Valid UTF-8 that holds at least one byte holds at least one character.
proof fn lemma_decode_utf8_nonempty(b: Seq<u8>)
    requires
        valid_utf8(b),
        b.len() > 0,
    ensures
        decode_utf8(b).len() > 0,
{
}

/// What parsing a posted body yields: the question's characters and the
/// answer's, if one was given, or the error the body is rejected with.
///
/// A body is accepted exactly when every field decodes, a "question_text"
/// field is present with a non-empty valid UTF-8 value, and any non-empty
/// "answer" value is valid UTF-8 too. A blank or missing answer is absent.
pub open spec fn spec_parse(s: Seq<u8>) -> Result<(Seq<char>, Option<Seq<char>>), FormError> {
    if !crate::form::body_ok(s) {
        Err(FormError::BadEncoding)
    } else {
        match crate::form::find_value(s, question_key()) {
            Option::None => Err(FormError::MissingQuestionText),
            Option::Some(qb) => {
                if qb.len() == 0 {
                    Err(FormError::EmptyQuestionText)
                } else if !valid_utf8(qb) {
                    Err(FormError::BadEncoding)
                } else {
                    match crate::form::find_value(s, answer_key()) {
                        Option::None => Ok((decode_utf8(qb), Option::None)),
                        Option::Some(ab) => {
                            if ab.len() == 0 {
                                Ok((decode_utf8(qb), Option::None))
                            } else if !valid_utf8(ab) {
                                Err(FormError::BadEncoding)
                            } else {
                                Ok((decode_utf8(qb), Option::Some(decode_utf8(ab))))
                            }
                        },
                    }
                }
            },
        }
    }
}

/// Decodes a posted body into a submission, or says why it is rejected.
pub fn parse_submission(body: &[u8]) -> (r: Result<Submission, FormError>)
    ensures
        r is Ok <==> spec_parse(body@) is Ok,
        r matches Ok(sub) ==> spec_parse(body@) == Ok::<
            (Seq<char>, Option<Seq<char>>),
            FormError,
        >(sub.model()) && sub.wf(),
        r matches Err(e) ==> spec_parse(body@) == Err::<
            (Seq<char>, Option<Seq<char>>),
            FormError,
        >(e),
{
    match decode_form(body) {
        None => Err(FormError::BadEncoding),
        Some((qopt, aopt)) => match qopt {
            None => Err(FormError::MissingQuestionText),
            Some(qbytes) => {
                if qbytes.len() == 0 {
                    Err(FormError::EmptyQuestionText)
                } else {
                    let ghost qb = qbytes@;
                    match string_from_utf8(qbytes) {
                        None => Err(FormError::BadEncoding),
                        Some(question) => {
                            proof {
                                lemma_decode_utf8_nonempty(qb);
                            }
                            match aopt {
                                None => Ok(Submission { question_text: question, answer: None }),
                                Some(abytes) => {
                                    if abytes.len() == 0 {
                                        Ok(Submission { question_text: question, answer: None })
                                    } else {
                                        match string_from_utf8(abytes) {
                                            None => Err(FormError::BadEncoding),
                                            Some(answer) => Ok(
                                                Submission {
                                                    question_text: question,
                                                    answer: Some(answer),
                                                },
                                            ),
                                        }
                                    }
                                },
                            }
                        },
                    }
                }
            },
        },
    }
}

} // verus!
