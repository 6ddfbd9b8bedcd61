//! The fixed pages and responses the server hands out: the form page itself,
//! the redirect target after a stored submission, and the status for a
//! submission that fails to decode.

use vstd::prelude::*;

verus! {

/// The characters of the fixed form page document.
pub open spec fn form_html() -> Seq<char> {
    "
    <!DOCTYPE html>
    <html lang=\"en\">
    <head>
        <meta charset=\"UTF-8\">
        <meta name=\"viewport\" content=\"width=device-width, initial-scale=1.0\">
        <title>Survey Form</title>
    </head>
    <body>
        <h1>Survey Form</h1>
        <form action=\"/submit\" method=\"post\">
            <label for=\"question_text\">Question:</label><br>
            <input type=\"text\" id=\"question_text\" name=\"question_text\" required><br><br>
            <label for=\"answer\">Answer:</label><br>
            <input type=\"text\" id=\"answer\" name=\"answer\"><br><br>
            <input type=\"submit\" value=\"Submit\">
        </form>
    </body>
    </html>
    "@
}

/// Renders the form page. The result is the same fixed document on every
/// call: it depends on no prior submission and reflects no stored data.
pub fn form_page() -> (r: &'static str)
    ensures
        r@ == form_html(),
{
    "
    <!DOCTYPE html>
    <html lang=\"en\">
    <head>
        <meta charset=\"UTF-8\">
        <meta name=\"viewport\" content=\"width=device-width, initial-scale=1.0\">
        <title>Survey Form</title>
    </head>
    <body>
        <h1>Survey Form</h1>
        <form action=\"/submit\" method=\"post\">
            <label for=\"question_text\">Question:</label><br>
            <input type=\"text\" id=\"question_text\" name=\"question_text\" required><br><br>
            <label for=\"answer\">Answer:</label><br>
            <input type=\"text\" id=\"answer\" name=\"answer\"><br><br>
            <input type=\"submit\" value=\"Submit\">
        </form>
    </body>
    </html>
    "
}

/// Where the client is sent after a submission is stored: back to the form.
pub fn redirect_target() -> (r: &'static str)
    ensures
        r@ == "/"@,
{
    "/"
}

/// The HTTP status with which a submission that fails to decode is
/// rejected: a client error.
pub fn client_error_status() -> (r: u16)
    ensures
        r == 422,
        400 <= r < 500,
{
    422
}

} // verus!
