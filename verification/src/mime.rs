//! The content type of a file, guessed from the extension of its name.

use vstd::prelude::*;
use vstd::string::StrSliceExecFns;

verus! {

/// The index of the last dot among the first `end` characters of `name`.
pub open spec fn last_dot(name: Seq<char>, end: int) -> Option<int>
    decreases end,
{
    if end <= 0 {
        None
    } else if name[end - 1] == '.' {
        Some(end - 1)
    } else {
        last_dot(name, end - 1)
    }
}

/// The extension of a file name: what follows its last dot, unless that dot
/// is the first character. A name without an extension has the empty one.
pub open spec fn extension(name: Seq<char>) -> Seq<char> {
    match last_dot(name, name.len() as int) {
        Some(dot) => if dot > 0 {
            name.subrange(dot + 1, name.len() as int)
        } else {
            Seq::empty()
        },
        None => Seq::empty(),
    }
}

/// The content type that the table of known extensions gives for `extension`.
pub uninterp spec fn mime_for_extension(extension: Seq<char>) -> Seq<char>;

/// The content type of a file whose extension is not known.
pub open spec fn text_plain() -> Seq<char> {
    "text/plain"@
}

/// The content type of the file called `name`.
pub open spec fn mime_of(name: Seq<char>) -> Seq<char> {
    mime_for_extension(extension(name))
}

/// Calls `mime_guess::from_ext` and takes the first guess, or `text/plain`
/// where there is none (`MimeGuess::first_or_text_plain`). The result depends
/// on the extension alone; for the empty extension the guess is empty, so the
/// result is `text/plain`.
#[verifier::external_body]
fn guess_mime(extension: &str) -> (mime: String)
    ensures
        mime@ == mime_for_extension(extension@),
        extension@.len() == 0 ==> mime@ == text_plain(),
{
    mime_guess::from_ext(extension).first_or_text_plain().to_string()
}

/// The extension of `name`.
pub fn extension_of(name: &str) -> (ext: &str)
    ensures
        ext@ == extension(name@),
{
    let len = name.unicode_len();
    let mut end = len;
    while end > 0
        invariant
            end <= len,
            len == name@.len(),
            last_dot(name@, len as int) == last_dot(name@, end as int),
        decreases end,
    {
        if name.get_char(end - 1) == '.' {
            if end - 1 > 0 {
                return name.substring_char(end, len);
            } else {
                return name.substring_char(len, len);
            }
        }
        end -= 1;
    }
    name.substring_char(len, len)
}

/// The content type of the file called `name`: a total function, with
/// `text/plain` for a name without an extension.
pub fn resolve_mime(name: &str) -> (mime: String)
    ensures
        mime@ == mime_of(name@),
        extension(name@).len() == 0 ==> mime@ == text_plain(),
{
    guess_mime(extension_of(name))
}

} // verus!
