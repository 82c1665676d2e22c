//! The rules of the platform that the program runs on: its path separator and its paths.
use vstd::prelude::*;

verus! {

/// Whether `Path::is_absolute` holds of a path, on the platform whose separator is `separator`.
pub uninterp spec fn absolute_path(separator: char, path: Seq<char>) -> bool;

/// Whether a path is absolute on the platform whose separator is `separator`: on Unix, whether it
/// starts with the root.
pub open spec fn is_absolute_in(separator: char, path: Seq<char>) -> bool {
    if separator == '/' {
        path.len() > 0 && path[0] == '/'
    } else {
        absolute_path(separator, path)
    }
}

/// The path that `Path::join` makes of `base` and `path`, on the platform whose separator is
/// `separator`.
pub uninterp spec fn joined_path(separator: char, base: Seq<char>, path: Seq<char>) -> Seq<char>;

/// The platform that the program runs on. A value comes from `Platform::current` alone.
#[derive(Debug, Clone, Copy)]
pub struct Platform {
    separator: char,
}

impl View for Platform {
    type V = char;

    closed spec fn view(&self) -> char {
        self.separator
    }
}

/// `std::path::MAIN_SEPARATOR`, the separator of the platform that the program was built for:
/// `\` on Windows, `/` on Unix.
#[verifier::external_body]
fn main_separator() -> (separator: char)
    ensures
        separator == '/' || separator == '\\',
{
    std::path::MAIN_SEPARATOR
}

impl Platform {
    /// The platform that the program runs on.
    pub fn current() -> (platform: Self)
        ensures
            platform@ == '/' || platform@ == '\\',
    {
        Platform { separator: main_separator() }
    }

    /// Whether it is Windows.
    pub fn is_windows(&self) -> (res: bool)
        ensures
            res == (self@ == '\\'),
    {
        self.separator == '\\'
    }

    /// `Path::is_absolute`. Its result is named `absolute_path`; on Unix a path is absolute when it
    /// starts with the root. What Windows takes for absolute is not stated.
    #[verifier::external_body]
    pub(crate) fn is_absolute(&self, path: &str) -> (res: bool)
        ensures
            res == absolute_path(self@, path@),
            self@ == '/' ==> res == (path@.len() > 0 && path@[0] == '/'),
    {
        std::path::Path::new(path).is_absolute()
    }

    /// `Path::join`. Its result is named `joined_path`; an absolute path replaces the base. How a
    /// relative one is put behind the base is not stated.
    #[verifier::external_body]
    pub(crate) fn join(&self, base: &str, path: &str) -> (res: String)
        ensures
            res@ == joined_path(self@, base@, path@),
            is_absolute_in(self@, path@) ==> res@ == path@,
    {
        std::path::Path::new(base).join(path).to_string_lossy().to_string()
    }
}

} // verus!
