use survey_form::pages::{client_error_status, form_page, redirect_target};

#[test]
fn form_page_is_the_fixed_document() {
    let expected = "
    <!DOCTYPE html>
    <html lang=\"en\">
    <head>
        <meta charset=\"UTF-8\">
        <meta name=\"viewport\" content=\"width=device-width, initial-scale=1.0\">
        <title>Survey Form</title>
    </head>
    <body>
        <h1>Survey Form</h1>
        <form action=\"/submit\" method=\"post\">
            <label for=\"question_text\">Question:</label><br>
            <input type=\"text\" id=\"question_text\" name=\"question_text\" required><br><br>
            <label for=\"answer\">Answer:</label><br>
            <input type=\"text\" id=\"answer\" name=\"answer\"><br><br>
            <input type=\"submit\" value=\"Submit\">
        </form>
    </body>
    </html>
    ";
    assert_eq!(form_page(), expected);
}

#[test]
fn form_page_never_changes() {
    let first = form_page();
    // submissions leave no trace in the page: every call hands out the same text
    let again = form_page();
    assert_eq!(first, again);
}

#[test]
fn accepted_submission_redirects_to_the_form() {
    assert_eq!(redirect_target(), "/");
}

#[test]
fn rejection_status_is_a_client_error() {
    let status = client_error_status();
    assert_eq!(status, 422);
    assert!((400..500).contains(&status));
}
