//! Checks and reports of the processes of the external application.
//! Spawning and killing them is left to the caller.

use vstd::prelude::*;
use crate::text::{join_texts, join_strings};

verus! {

/// Whether a character has the Unicode `White_Space` property.
pub open spec fn is_white_space(c: char) -> bool {
    let v = c as int;
    ||| 0x09 <= v <= 0x0d
    ||| v == 0x20
    ||| v == 0x85
    ||| v == 0xa0
    ||| v == 0x1680
    ||| 0x2000 <= v <= 0x200a
    ||| v == 0x2028
    ||| v == 0x2029
    ||| v == 0x202f
    ||| v == 0x205f
    ||| v == 0x3000
}

/// Whether a character has the Unicode `White_Space` property, the
/// property that `char::is_whitespace` tests.
fn char_is_whitespace(c: char) -> (r: bool)
    ensures
        r == is_white_space(c),
{
    let v = c as u32;
    (0x09 <= v && v <= 0x0d) || v == 0x20 || v == 0x85 || v == 0xa0 || v == 0x1680 || (0x2000
        <= v && v <= 0x200a) || v == 0x2028 || v == 0x2029 || v == 0x202f || v == 0x205f || v
        == 0x3000
}

/// Whether a text is empty once the white space around it is trimmed:
/// every character of it is white space.
pub fn is_blank(text: &str) -> (blank: bool)
    ensures
        blank == forall|i: int| 0 <= i < text@.len() ==> is_white_space(#[trigger] text@[i]),
{
    let n = text.unicode_len();
    let mut i: usize = 0;
    while i < n
        invariant
            i <= n,
            n == text@.len(),
            forall|j: int| 0 <= j < i ==> is_white_space(#[trigger] text@[j]),
        decreases n - i,
    {
        if !char_is_whitespace(text.get_char(i)) {
            return false;
        }
        i = i + 1;
    }
    true
}

/// Checks the executable of a process to start: it cannot be blank.
pub fn check_program(program: &str) -> (r: Result<(), String>)
    ensures
        match r {
            Ok(()) => exists|i: int|
                0 <= i < program@.len() && !is_white_space(#[trigger] program@[i]),
            Err(e) => (forall|i: int| 0 <= i < program@.len() ==> is_white_space(#[trigger] program@[i]))
                && e@ == "Application executable cannot be empty"@,
        },
{
    if is_blank(program) {
        Err(String::from_str("Application executable cannot be empty"))
    } else {
        Ok(())
    }
}

/// The outcome of stopping the processes, from the errors of those that
/// could not be stopped.
pub fn stop_outcome(errors: &Vec<String>) -> (r: Result<(), String>)
    ensures
        errors@.len() == 0 ==> r is Ok,
        errors@.len() > 0 ==> (r matches Err(e) && e@
            == "Some external application processes could not be stopped: "@ + join_texts(
            errors@.map_values(|s: String| s@),
            "; "@,
        )),
{
    if errors.len() == 0 {
        Ok(())
    } else {
        let mut message = String::from_str(
            "Some external application processes could not be stopped: ",
        );
        let joined = join_strings(errors, "; ");
        message.append(joined.as_str());
        Err(message)
    }
}

/// The executable that evaluations start, or the error that none was
/// given to the dashboard.
pub fn configured_program(program: Option<String>) -> (r: Result<String, String>)
    ensures
        match program {
            Some(p) => r == Ok::<String, String>(p),
            None => r matches Err(e) && e@ == "External application executable is not configured"@,
        },
{
    match program {
        Some(p) => Ok(p),
        None => Err(String::from_str("External application executable is not configured")),
    }
}

} // verus!
