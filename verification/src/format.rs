use vstd::prelude::*;

verus! {

/// The report formats that the tool knows.
#[derive(Clone, Copy, Debug, PartialEq, Eq)]
pub enum Format {
    Lcov,
    Cobertura,
}

/// Why no report format could be chosen.
#[derive(Debug, PartialEq, Eq)]
pub enum FormatError {
    /// The format that was asked for by this name is not known.
    Unknown(String),
    /// No format was asked for and the file name gives none away.
    NotDetected,
}

/// The format with this name.
pub open spec fn format_named(name: Seq<char>) -> Option<Format> {
    if name == "lcov"@ {
        Some(Format::Lcov)
    } else if name == "cobertura"@ {
        Some(Format::Cobertura)
    } else {
        None
    }
}

/// The format that a report file with this name holds by convention.
pub open spec fn format_of_file(file_name: Seq<char>) -> Option<Format> {
    if file_name == "lcov.info"@ {
        Some(Format::Lcov)
    } else if file_name == "cobertura.xml"@ {
        Some(Format::Cobertura)
    } else {
        None
    }
}

/// The format to read a report in: the one asked for by name, else the one
/// that the file name gives away.
pub open spec fn chosen_format(asked: Option<Seq<char>>, file_name: Seq<char>) -> Option<Format> {
    match asked {
        Some(name) => format_named(name),
        None => format_of_file(file_name),
    }
}

/// Whether two texts are the same, character by character.
fn same_text(a: &str, b: &str) -> (r: bool)
    ensures
        r == (a@ == b@),
{
    a.to_owned() == b.to_owned()
}

/// Looks a format up by its name.
pub fn parse_format(name: &str) -> (r: Option<Format>)
    ensures
        r == format_named(name@),
{
    if same_text(name, "lcov") {
        Some(Format::Lcov)
    } else if same_text(name, "cobertura") {
        Some(Format::Cobertura)
    } else {
        None
    }
}

/// Chooses the format of a report. A name that was asked for decides, and
/// an unknown one is an error; without a name the file name decides.
pub fn detect_format(asked: Option<&str>, file_name: &str) -> (r: Result<Format, FormatError>)
    ensures
        match r {
            Ok(f) => chosen_format(
                match asked {
                    Some(name) => Some(name@),
                    None => None,
                },
                file_name@,
            ) == Some(f),
            Err(FormatError::Unknown(name)) => asked matches Some(a) && a@ == name@ && format_named(
                a@,
            ) is None,
            Err(FormatError::NotDetected) => asked is None && format_of_file(file_name@) is None,
        },
{
    match asked {
        Some(name) => match parse_format(name) {
            Some(f) => Ok(f),
            None => Err(FormatError::Unknown(name.to_owned())),
        },
        None => {
            if same_text(file_name, "lcov.info") {
                Ok(Format::Lcov)
            } else if same_text(file_name, "cobertura.xml") {
                Ok(Format::Cobertura)
            } else {
                Err(FormatError::NotDetected)
            }
        },
    }
}

} // verus!
