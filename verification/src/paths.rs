//! Where the room database lives.
use vstd::prelude::*;

use crate::text::{concat, is_ascii_alphanumeric, is_ascii_alphanumeric_char};

verus! {

pub const DB_FILE_NAME: &'static str = "rooms.db";

/// `std::path::MAIN_SEPARATOR`, the platform's primary path separator, which
/// its documentation gives as `/` on Unix and `\` on Windows.
#[verifier::external_body]
fn main_separator() -> (c: char)
    ensures
        c == '/' || c == '\\',
{
    std::path::MAIN_SEPARATOR
}

/// A bare Windows drive such as `C:`, which names the drive's current
/// directory.
pub open spec fn is_bare_drive(dir: Seq<char>) -> bool {
    dir.len() == 2 && dir[1] == ':' && is_ascii_alphanumeric_char(dir[0]) && !('0' <= dir[0] <= '9')
}

/// `name` joined onto the directory `dir` on a platform whose primary
/// separator is `sep`: with `sep` between them where `dir` does not already
/// end with a separator (`/` counts everywhere, `\` where it is the primary
/// one) and, on Windows, is not a bare drive; an empty `dir` leaves `name`
/// as it is.
pub open spec fn joined_path(dir: Seq<char>, name: Seq<char>, sep: char) -> Seq<char> {
    if dir.len() == 0 {
        name
    } else if dir.last() == '/' || dir.last() == sep || (sep == '\\' && is_bare_drive(dir)) {
        dir + name
    } else {
        dir + seq![sep] + name
    }
}

/// The database file inside the data directory `dir`, joined with the
/// platform's separator.
pub fn database_path(dir: &str) -> (p: String)
    ensures
        exists|sep: char| (sep == '/' || sep == '\\') && p@ == #[trigger] joined_path(dir@, DB_FILE_NAME@, sep),
{
    let sep = main_separator();
    let n = dir.unicode_len();
    let p = if n == 0 {
        DB_FILE_NAME.to_owned()
    } else {
        let last = dir.get_char(n - 1);
        let bare_drive = sep == '\\' && n == 2 && last == ':' && is_ascii_alphanumeric(dir.get_char(0))
            && !('0' <= dir.get_char(0) && dir.get_char(0) <= '9');
        if last == '/' || last == sep || bare_drive {
            concat(dir, DB_FILE_NAME)
        } else {
            let mut with_sep = dir.to_owned();
            let one = crate::text::string_from_chars(&[sep]);
            with_sep.append(one.as_str());
            concat(with_sep.as_str(), DB_FILE_NAME)
        }
    };
    assert(p@ == joined_path(dir@, DB_FILE_NAME@, sep));
    p
}

} // verus!
