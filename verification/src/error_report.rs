//! Messages for the errors met while reading an architecture file, with the
//! offending line of the file and a caret under the reported column.
use vstd::prelude::*;
use crate::text::{decimal, decimal_chars, string_from_chars};
use vstd::string::StringSliceAdditionalSpecFns;

verus! {

broadcast use vstd::string::group_string_axioms;

/// A position in a file: zero-based row and column.
#[derive(Debug, Clone, Copy, PartialEq, Eq, Structural)]
pub struct TextPosition {
    pub row: u64,
    pub column: u64,
}

/// An error met while reading an architecture file.
pub enum FPGAArchParseError {
    ArchFileOpenError(String),
    MissingRequiredTag(String),
    MissingRequiredAttribute(String, TextPosition),
    InvalidTag(String, TextPosition),
    XMLParseError(String, TextPosition),
    UnknownAttribute(String, TextPosition),
    DuplicateTag(String, TextPosition),
    DuplicateAttribute(String, TextPosition),
    UnexpectedEndTag(String, TextPosition),
    AttributeParseError(String, TextPosition),
    UnexpectedEndOfDocument(String),
    PinParsingError(String),
}

/// The position an error points at, if it points at one.
pub open spec fn spec_error_position(e: FPGAArchParseError) -> Option<TextPosition> {
    match e {
        FPGAArchParseError::MissingRequiredAttribute(_, p) => Some(p),
        FPGAArchParseError::InvalidTag(_, p) => Some(p),
        FPGAArchParseError::XMLParseError(_, p) => Some(p),
        FPGAArchParseError::UnknownAttribute(_, p) => Some(p),
        FPGAArchParseError::DuplicateTag(_, p) => Some(p),
        FPGAArchParseError::DuplicateAttribute(_, p) => Some(p),
        FPGAArchParseError::UnexpectedEndTag(_, p) => Some(p),
        FPGAArchParseError::AttributeParseError(_, p) => Some(p),
        _ => None,
    }
}

/// The position an error points at, if it points at one: the line of the file
/// shown under its message is the one at this row.
pub fn error_position(error: &FPGAArchParseError) -> (r: Option<TextPosition>)
    ensures
        r == spec_error_position(*error),
{
    match error {
        FPGAArchParseError::MissingRequiredAttribute(_, p) => Some(*p),
        FPGAArchParseError::InvalidTag(_, p) => Some(*p),
        FPGAArchParseError::XMLParseError(_, p) => Some(*p),
        FPGAArchParseError::UnknownAttribute(_, p) => Some(*p),
        FPGAArchParseError::DuplicateTag(_, p) => Some(*p),
        FPGAArchParseError::DuplicateAttribute(_, p) => Some(*p),
        FPGAArchParseError::UnexpectedEndTag(_, p) => Some(*p),
        FPGAArchParseError::AttributeParseError(_, p) => Some(*p),
        _ => None,
    }
}

/// The one-based line and column of a position fit in a `u64`.
pub open spec fn position_fits(e: FPGAArchParseError) -> bool {
    match spec_error_position(e) {
        Some(p) => p.row < u64::MAX && p.column < u64::MAX,
        None => true,
    }
}

/// `"at line L, column C"`, one-based.
pub open spec fn line_col(p: TextPosition) -> Seq<char> {
    "at line "@ + decimal((p.row + 1) as nat) + ", column "@ + decimal((p.column + 1) as nat)
}

/// `n` spaces.
pub open spec fn spaces(n: nat) -> Seq<char> {
    Seq::new(n, |i: int| ' ')
}

/// The line, indented by two spaces, and under it a caret at the (one-based)
/// column, which is kept within the line's length in bytes (`nbytes`).
pub open spec fn context_text(line: Seq<char>, nbytes: nat, column: u64) -> Seq<char> {
    let c = column as usize;
    let start: nat = if c >= 1 { (c - 1) as nat } else { 0 };
    let offset: nat = if start < nbytes { start } else { nbytes };
    "  "@ + line + "\n"@ + "  "@ + spaces(offset) + "^"@
}

/// The text shown under a message for a position: a blank line, then the line
/// of the file with a caret under the column.
pub open spec fn context_part(context: Option<(Seq<char>, nat)>, p: TextPosition) -> Seq<char> {
    match context {
        Some((line, nbytes)) => "\n\n"@ + context_text(line, nbytes, (p.column + 1) as u64),
        None => Seq::empty(),
    }
}

/// The message for `e`, with `context` (a line of the file and its length in
/// bytes) shown under it where `e` has a position.
pub open spec fn error_message(e: FPGAArchParseError, context: Option<(Seq<char>, nat)>) -> Seq<char> {
    match e {
        FPGAArchParseError::ArchFileOpenError(m) => "Failed to open architecture file:\n"@ + m@,
        FPGAArchParseError::MissingRequiredTag(t) => "Missing required XML tag: "@ + t@,
        FPGAArchParseError::MissingRequiredAttribute(a, p) => "Missing required attribute '"@ + a@ + "' "@ + line_col(p)
            + context_part(context, p),
        FPGAArchParseError::InvalidTag(t, p) => "Invalid or unexpected tag '"@ + t@ + "' "@ + line_col(p) + context_part(
            context,
            p,
        ),
        FPGAArchParseError::XMLParseError(m, p) => "XML parsing error "@ + line_col(p) + ":\n"@ + m@ + context_part(
            context,
            p,
        ),
        FPGAArchParseError::UnknownAttribute(a, p) => "Unknown attribute '"@ + a@ + "' "@ + line_col(p) + context_part(
            context,
            p,
        ),
        FPGAArchParseError::DuplicateTag(t, p) => "Duplicate tag '"@ + t@ + "' "@ + line_col(p) + context_part(context, p),
        FPGAArchParseError::DuplicateAttribute(a, p) => "Duplicate attribute '"@ + a@ + "' "@ + line_col(p) + context_part(
            context,
            p,
        ),
        FPGAArchParseError::UnexpectedEndTag(t, p) => "Unexpected end tag '</"@ + t@ + ">' "@ + line_col(p) + context_part(
            context,
            p,
        ),
        FPGAArchParseError::AttributeParseError(m, p) => "Failed to parse attribute "@ + line_col(p) + ":\n"@ + m@
            + context_part(context, p),
        FPGAArchParseError::UnexpectedEndOfDocument(m) => "Unexpected end of document:\n"@ + m@,
        FPGAArchParseError::PinParsingError(m) => "Pin parsing error:\n"@ + m@,
    }
}

/// A line of a file with its length in bytes (as `str::len` gives it), as the
/// message of an error takes it.
pub open spec fn context_of(context: Option<&str>) -> Option<(Seq<char>, nat)> {
    match context {
        Some(line) => Some((line@, (line.spec_bytes().len() as usize) as nat)),
        None => None,
    }
}

/// The decimal digits of `n` as a `String`.
fn decimal_string(n: u64) -> (r: String)
    ensures
        r@ == decimal(n as nat),
{
    let d = decimal_chars(n);
    string_from_chars(&d)
}

/// `"at line L, column C"` for `p`, one-based.
fn line_col_string(p: TextPosition) -> (r: String)
    requires
        p.row < u64::MAX,
        p.column < u64::MAX,
    ensures
        r@ == line_col(p),
{
    let mut r = String::from_str("at line ");
    let row = decimal_string(p.row + 1);
    r.append(row.as_str());
    r.append(", column ");
    let col = decimal_string(p.column + 1);
    r.append(col.as_str());
    r
}

/// The line indented by two spaces and, under it, a caret at the one-based
/// `column`, kept within the line's length in bytes.
pub fn format_context_line(line: &str, column: u64) -> (r: String)
    ensures
        r@ == context_text(line@, (line.spec_bytes().len() as usize) as nat, column),
{
    let c = #[verifier::truncate] (column as usize);
    let mut result = String::from_str("  ");
    result.append(line);
    result.append("\n");
    let start = c.saturating_sub(1);
    let len = line.len();
    let offset = if start < len {
        start
    } else {
        len
    };
    let mut pad: Vec<char> = Vec::new();
    let mut i: usize = 0;
    while i < offset
        invariant
            i <= offset,
            pad@ == spaces(i as nat),
        decreases offset - i,
    {
        pad.push(' ');
        assert(pad@ =~= spaces((i + 1) as nat));
        i = i + 1;
    }
    let pad = string_from_chars(&pad);
    result.append("  ");
    result.append(pad.as_str());
    result.append("^");
    assert(c == column as usize);
    assert(start as nat == (if c >= 1 { (c - 1) as nat } else { 0 }));
    result
}

/// Appends the context part for `p` to `msg`.
fn append_context(msg: &mut String, context: Option<&str>, p: TextPosition)
    requires
        p.column < u64::MAX,
    ensures
        final(msg)@ == old(msg)@ + context_part(context_of(context), p),
{
    if let Some(line) = context {
        msg.append("\n\n");
        let c = format_context_line(line, p.column + 1);
        msg.append(c.as_str());
    } else {
        assert(old(msg)@ + context_part(context_of(context), p) =~= old(msg)@);
    }
}

/// `head + name + tail + "at line L, column C"` followed by the context part.
fn named_at(head: &str, name: &String, tail: &str, p: TextPosition, context: Option<&str>) -> (r: String)
    requires
        p.row < u64::MAX,
        p.column < u64::MAX,
    ensures
        r@ == head@ + name@ + tail@ + line_col(p) + context_part(context_of(context), p),
{
    let mut msg = String::from_str(head);
    msg.append(name.as_str());
    msg.append(tail);
    let lc = line_col_string(p);
    msg.append(lc.as_str());
    append_context(&mut msg, context, p);
    msg
}

/// `head + "at line L, column C" + ":\n" + text` followed by the context part.
fn at_with_text(head: &str, text: &String, p: TextPosition, context: Option<&str>) -> (r: String)
    requires
        p.row < u64::MAX,
        p.column < u64::MAX,
    ensures
        r@ == head@ + line_col(p) + ":\n"@ + text@ + context_part(context_of(context), p),
{
    let mut msg = String::from_str(head);
    let lc = line_col_string(p);
    msg.append(lc.as_str());
    msg.append(":\n");
    msg.append(text.as_str());
    append_context(&mut msg, context, p);
    msg
}

/// The message for a parse error. Where the error has a position, `context` is
/// the line of the file at that position, if it could be read; it is shown under
/// the message with a caret under the column.
pub fn format_parse_error(error: &FPGAArchParseError, context: Option<&str>) -> (r: String)
    requires
        position_fits(*error),
    ensures
        r@ == error_message(*error, context_of(context)),
{
    match error {
        FPGAArchParseError::ArchFileOpenError(msg) => {
            let mut m = String::from_str("Failed to open architecture file:\n");
            m.append(msg.as_str());
            m
        },
        FPGAArchParseError::MissingRequiredTag(tag) => {
            let mut m = String::from_str("Missing required XML tag: ");
            m.append(tag.as_str());
            m
        },
        FPGAArchParseError::MissingRequiredAttribute(attr, pos) => {
            named_at("Missing required attribute '", attr, "' ", *pos, context)
        },
        FPGAArchParseError::InvalidTag(tag, pos) => {
            named_at("Invalid or unexpected tag '", tag, "' ", *pos, context)
        },
        FPGAArchParseError::XMLParseError(msg_text, pos) => {
            at_with_text("XML parsing error ", msg_text, *pos, context)
        },
        FPGAArchParseError::UnknownAttribute(attr, pos) => {
            named_at("Unknown attribute '", attr, "' ", *pos, context)
        },
        FPGAArchParseError::DuplicateTag(tag, pos) => {
            named_at("Duplicate tag '", tag, "' ", *pos, context)
        },
        FPGAArchParseError::DuplicateAttribute(attr, pos) => {
            named_at("Duplicate attribute '", attr, "' ", *pos, context)
        },
        FPGAArchParseError::UnexpectedEndTag(tag, pos) => {
            named_at("Unexpected end tag '</", tag, ">' ", *pos, context)
        },
        FPGAArchParseError::AttributeParseError(msg_text, pos) => {
            at_with_text("Failed to parse attribute ", msg_text, *pos, context)
        },
        FPGAArchParseError::UnexpectedEndOfDocument(msg) => {
            let mut m = String::from_str("Unexpected end of document:\n");
            m.append(msg.as_str());
            m
        },
        FPGAArchParseError::PinParsingError(msg) => {
            let mut m = String::from_str("Pin parsing error:\n");
            m.append(msg.as_str());
            m
        },
    }
}

} // verus!
