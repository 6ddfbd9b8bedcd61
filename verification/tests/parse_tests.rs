use survey_form::submission::{parse_submission, FormError, Submission};

fn parsed(body: &str) -> Submission {
    parse_submission(body.as_bytes()).expect("body should be accepted")
}

fn rejected(body: &str) -> FormError {
    parse_submission(body.as_bytes()).expect_err("body should be rejected")
}

#[test]
fn posts_question_and_answer() {
    let sub = parsed("question_text=What+is+your+favorite+color%3F&answer=Blue");
    assert_eq!(sub.question_text, "What is your favorite color?");
    assert_eq!(sub.answer.as_deref(), Some("Blue"));
}

#[test]
fn posts_question_without_answer() {
    let sub = parsed("question_text=Pending+item");
    assert_eq!(sub.question_text, "Pending item");
    assert_eq!(sub.answer, None);
}

#[test]
fn missing_question_is_rejected() {
    assert_eq!(rejected("answer=Blue"), FormError::MissingQuestionText);
    assert_eq!(rejected(""), FormError::MissingQuestionText);
    assert_eq!(rejected("foo=bar&baz=qux"), FormError::MissingQuestionText);
}

#[test]
fn empty_question_is_rejected() {
    assert_eq!(rejected("question_text="), FormError::EmptyQuestionText);
    assert_eq!(rejected("question_text=&answer=Blue"), FormError::EmptyQuestionText);
    // a field with no '=' at all carries an empty value
    assert_eq!(rejected("question_text"), FormError::EmptyQuestionText);
}

#[test]
fn blank_answer_is_absent() {
    let sub = parsed("question_text=Q&answer=");
    assert_eq!(sub.answer, None);
    let sub = parsed("question_text=Q&answer");
    assert_eq!(sub.answer, None);
}

#[test]
fn percent_escapes_decode() {
    let sub = parsed("question_text=a%20b%2Bc&answer=%41%6fk");
    assert_eq!(sub.question_text, "a b+c");
    assert_eq!(sub.answer.as_deref(), Some("Aok"));
}

#[test]
fn hex_digits_match_either_case() {
    let lower = parsed("question_text=what%3f");
    let upper = parsed("question_text=what%3F");
    assert_eq!(lower.question_text, "what?");
    assert_eq!(upper.question_text, "what?");
}

#[test]
fn non_ascii_text_decodes() {
    // "é" arrives as two escaped UTF-8 bytes and must come back as one char
    let sub = parsed("question_text=caf%C3%A9");
    assert_eq!(sub.question_text, "café");
}

#[test]
fn malformed_escape_is_rejected() {
    assert_eq!(rejected("question_text=a%zz"), FormError::BadEncoding);
    assert_eq!(rejected("question_text=a%2"), FormError::BadEncoding);
    assert_eq!(rejected("question_text=%"), FormError::BadEncoding);
}

#[test]
fn invalid_utf8_is_rejected() {
    assert_eq!(rejected("question_text=%FF"), FormError::BadEncoding);
    assert_eq!(rejected("question_text=ok&answer=%C3%28"), FormError::BadEncoding);
}

#[test]
fn malformed_escape_in_any_field_is_rejected() {
    assert_eq!(rejected("foo=%zz&question_text=hi"), FormError::BadEncoding);
}

#[test]
fn first_of_duplicate_keys_wins() {
    let sub = parsed("question_text=first&question_text=second");
    assert_eq!(sub.question_text, "first");
}

#[test]
fn unknown_fields_are_ignored() {
    let sub = parsed("foo=bar&question_text=hi&extra=1");
    assert_eq!(sub.question_text, "hi");
    assert_eq!(sub.answer, None);
}

#[test]
fn escaped_key_still_matches() {
    let sub = parsed("question%5Ftext=hi");
    assert_eq!(sub.question_text, "hi");
}

#[test]
fn accepted_submission_matches_what_was_posted() {
    let sub = parsed("question_text=Favorite+city%3F&answer=Lisbon");
    // what the handler stores carries exactly these two fields
    assert_eq!(sub.question_text, "Favorite city?");
    assert_eq!(sub.answer.as_deref(), Some("Lisbon"));
}

#[test]
fn resubmission_stores_two_documents() {
    let body = "question_text=What+is+your+favorite+color%3F&answer=Blue";
    let mut stored: Vec<(String, Option<String>)> = Vec::new();
    for _ in 0..2 {
        let sub = parsed(body);
        stored.push((sub.question_text, sub.answer));
    }
    assert_eq!(stored.len(), 2);
    assert_eq!(stored[0], stored[1]);
    assert_eq!(stored[0].0, "What is your favorite color?");
    assert_eq!(stored[0].1.as_deref(), Some("Blue"));
}
