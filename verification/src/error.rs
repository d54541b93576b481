use vstd::prelude::*;

verus! {

/// Why the fixer could not be built or could not finish its work.
#[derive(Debug, PartialEq, Eq)]
pub enum FixError {
    /// The source file with this path could not be read as text.
    SourceReadFailed(String),
    /// One of the built-in line patterns was refused by the pattern compiler.
    InitializationFailed,
}

impl FixError {
    /// The path of the source file that could not be read, if that is what
    /// went wrong.
    pub open spec fn unreadable_path(&self) -> Option<Seq<char>> {
        match *self {
            FixError::SourceReadFailed(p) => Some(p@),
            FixError::InitializationFailed => None,
        }
    }

    /// A one-line description for the user.
    pub fn message(&self) -> (s: String)
        ensures
            s@ == (match *self {
                FixError::SourceReadFailed(_) => "Source file not found"@,
                FixError::InitializationFailed => "Failed to initialize fixer"@,
            }),
    {
        match self {
            FixError::SourceReadFailed(_) => "Source file not found".to_owned(),
            FixError::InitializationFailed => "Failed to initialize fixer".to_owned(),
        }
    }
}

} // verus!
