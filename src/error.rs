use vstd::prelude::*;

verus! {

/// Every way in which decoding or mapping an encoded document can fail.
#[derive(Debug)]
pub enum TorrentParserError {
    /// The bytes break the grammar of the encoding.
    InvalidStructure(String),
    /// A run of digits is not a number of the required width.
    ParseIntError(String),
    /// A field that the schema requires is absent.
    MissingRequiredField(String),
    /// A field holds a value of another kind than the schema asks for.
    FieldTypeError { expected: String, found: String },
    /// A value starts with a byte that begins no kind of value.
    UnknownSpecifier(u8),
    /// Bytes that should be text are not valid UTF-8; holds the bytes.
    InvalidUtf8(Vec<u8>),
    /// A file could not be read; holds the reason.
    CannotReadFile(String),
}

/// The abstract meaning of an error: its variant and the names it carries.
pub enum ParseFailure {
    Structure,
    Integer,
    MissingField(Seq<char>),
    WrongType(Seq<char>, Seq<char>),
    Specifier(u8),
    Utf8,
    ReadFile,
}

impl TorrentParserError {
    pub open spec fn kind(&self) -> ParseFailure {
        match self {
            TorrentParserError::InvalidStructure(_) => ParseFailure::Structure,
            TorrentParserError::ParseIntError(_) => ParseFailure::Integer,
            TorrentParserError::MissingRequiredField(n) => ParseFailure::MissingField(n@),
            TorrentParserError::FieldTypeError { expected, found } => ParseFailure::WrongType(
                expected@,
                found@,
            ),
            TorrentParserError::UnknownSpecifier(c) => ParseFailure::Specifier(*c),
            TorrentParserError::InvalidUtf8(_) => ParseFailure::Utf8,
            TorrentParserError::CannotReadFile(_) => ParseFailure::ReadFile,
        }
    }
}

pub fn structure_error(msg: &str) -> (e: TorrentParserError)
    ensures
        e.kind() == ParseFailure::Structure,
{
    TorrentParserError::InvalidStructure(msg.to_owned())
}

pub fn integer_error(msg: &str) -> (e: TorrentParserError)
    ensures
        e.kind() == ParseFailure::Integer,
{
    TorrentParserError::ParseIntError(msg.to_owned())
}

pub fn missing_field(name: &str) -> (e: TorrentParserError)
    ensures
        e.kind() == ParseFailure::MissingField(name@),
{
    TorrentParserError::MissingRequiredField(name.to_owned())
}

pub fn type_error(expected: &str, found: String) -> (e: TorrentParserError)
    ensures
        e.kind() == ParseFailure::WrongType(expected@, found@),
{
    TorrentParserError::FieldTypeError { expected: expected.to_owned(), found }
}

} // verus!
