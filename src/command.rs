//! The text commands that clients send to the engine's host:
//! `list`, `upload <name> <base64>`, `download id|name <x>`, `delete id|name <x>`.
use crate::ident::{hyphenated, id_text, parse_id, parsed_id};
use crate::error::StorageError;
use crate::types::FileMetadata;
use vstd::prelude::*;
use vstd::slice::slice_subrange;
use vstd::string::StringSliceAdditionalSpecFns;
use vstd::utf8::{decode_utf8, valid_utf8};

verus! {

/// How a command names a file.
#[derive(Debug, Clone, PartialEq, Eq)]
pub enum Target {
    Id(u128),
    Name(String),
}

/// A parsed storage command.
#[derive(Debug, Clone, PartialEq, Eq)]
pub enum StorageCommand {
    List,
    Upload { file_name: String, content: Vec<u8> },
    Download(Target),
    Delete(Target),
}

/// Why a payload is no storage command.
#[derive(Debug, Clone, Copy, PartialEq, Eq)]
pub enum CommandError {
    /// The payload, or a name in it, is not UTF-8.
    InvalidPayload,
    /// No known operation with the right number of words.
    InvalidOperation,
    /// The content of an upload is not base64.
    InvalidBase64,
    /// The word after `download` or `delete` is neither `id` nor `name`.
    InvalidIdentifierType,
    /// The identifier after `id` is not one.
    InvalidId,
}

pub enum TargetView {
    Id(u128),
    Name(Seq<char>),
}

pub enum CommandView {
    List,
    Upload(Seq<char>, Seq<u8>),
    Download(TargetView),
    Delete(TargetView),
}

impl View for Target {
    type V = TargetView;

    open spec fn view(&self) -> TargetView {
        match self {
            Target::Id(id) => TargetView::Id(*id),
            Target::Name(n) => TargetView::Name(n@),
        }
    }
}

impl View for StorageCommand {
    type V = CommandView;

    open spec fn view(&self) -> CommandView {
        match self {
            StorageCommand::List => CommandView::List,
            StorageCommand::Upload { file_name, content } => CommandView::Upload(
                file_name@,
                content@,
            ),
            StorageCommand::Download(t) => CommandView::Download(t@),
            StorageCommand::Delete(t) => CommandView::Delete(t@),
        }
    }
}

impl CommandError {
    /// The text of the error, as shown to a client.
    pub open spec fn text(&self) -> Seq<char> {
        match self {
            CommandError::InvalidPayload => "Invalid payload"@,
            CommandError::InvalidOperation => "Invalid storage operation"@,
            CommandError::InvalidBase64 => "Invalid base64 content"@,
            CommandError::InvalidIdentifierType => "Invalid download identifier type"@,
            CommandError::InvalidId => "Invalid file id"@,
        }
    }

    pub fn message(&self) -> (r: String)
        ensures
            r@ == self.text(),
    {
        match self {
            CommandError::InvalidPayload => String::from_str("Invalid payload"),
            CommandError::InvalidOperation => String::from_str("Invalid storage operation"),
            CommandError::InvalidBase64 => String::from_str("Invalid base64 content"),
            CommandError::InvalidIdentifierType => String::from_str("Invalid download identifier type"),
            CommandError::InvalidId => String::from_str("Invalid file id"),
        }
    }
}

/// The bytes that base64 (standard alphabet, padded) decodes a text to, if
/// it is valid base64.
pub uninterp spec fn base64_decoded(text: Seq<u8>) -> Option<Seq<u8>>;

/// Relies on base64's `BASE64_STANDARD` engine and `Engine::decode`: the
/// decoded bytes, or an error where the input is not valid base64.
#[verifier::external_body]
fn decode_base64(text: &[u8]) -> (r: Option<Vec<u8>>)
    ensures
        r matches Some(v) ==> base64_decoded(text@) == Some(v@),
        r is None ==> base64_decoded(text@) is None,
{
    base64::Engine::decode(&base64::prelude::BASE64_STANDARD, text).ok()
}

/// Relies on std::str::from_utf8: the text that the bytes encode, where
/// they are valid UTF-8.
#[verifier::external_body]
fn utf8_text(bytes: &[u8]) -> (r: Option<String>)
    ensures
        r matches Some(s) ==> valid_utf8(bytes@) && s@ == decode_utf8(bytes@),
        r is None ==> !valid_utf8(bytes@),
{
    std::str::from_utf8(bytes).ok().map(|s| s.to_string())
}

/// The code of the space character.
pub const SPACE: u8 = 32;

/// `i` is the position of the first space in `b`.
pub open spec fn is_first_space(b: Seq<u8>, i: int) -> bool {
    0 <= i < b.len() && b[i] == SPACE && forall|j: int| 0 <= j < i ==> b[j] != SPACE
}

/// The position of the first space in `b`, or -1 where it has none.
pub open spec fn first_space(b: Seq<u8>) -> int {
    if exists|i: int| is_first_space(b, i) {
        choose|i: int| is_first_space(b, i)
    } else {
        -1
    }
}

/// What comes before the first space (all of `b` without one).
pub open spec fn head(b: Seq<u8>) -> Seq<u8> {
    if first_space(b) >= 0 {
        b.subrange(0, first_space(b))
    } else {
        b
    }
}

/// What comes after the first space, if there is one.
pub open spec fn tail(b: Seq<u8>) -> Option<Seq<u8>> {
    if first_space(b) >= 0 {
        Some(b.subrange(first_space(b) + 1, b.len() as int))
    } else {
        None
    }
}

/// The text that bytes encode, if they are valid UTF-8.
pub open spec fn text_of(b: Seq<u8>) -> Option<Seq<char>> {
    if valid_utf8(b) {
        Some(decode_utf8(b))
    } else {
        None
    }
}

/// The file that `id <uuid>` or `name <name>` names.
pub open spec fn target_of(kind: Seq<u8>, param: Seq<u8>) -> Result<TargetView, CommandError> {
    if kind == "id".spec_bytes() {
        match text_of(param) {
            Some(t) => match parsed_id(t) {
                Some(id) => Ok(TargetView::Id(id)),
                None => Err(CommandError::InvalidId),
            },
            None => Err(CommandError::InvalidPayload),
        }
    } else if kind == "name".spec_bytes() {
        match text_of(param) {
            Some(t) => Ok(TargetView::Name(t)),
            None => Err(CommandError::InvalidPayload),
        }
    } else {
        Err(CommandError::InvalidIdentifierType)
    }
}

/// The command that a payload holds. It is cut at its first two spaces into
/// at most three words (the third keeps any further spaces).
pub open spec fn command_of(b: Seq<u8>) -> Result<CommandView, CommandError> {
    if !valid_utf8(b) {
        Err(CommandError::InvalidPayload)
    } else {
        let op = head(b);
        match tail(b) {
            None => if op == "list".spec_bytes() {
                Ok(CommandView::List)
            } else {
                Err(CommandError::InvalidOperation)
            },
            Some(rest) => match tail(rest) {
                None => Err(CommandError::InvalidOperation),
                Some(last) => {
                    let second = head(rest);
                    if op == "upload".spec_bytes() {
                        match text_of(second) {
                            Some(name) => match base64_decoded(last) {
                                Some(d) => Ok(CommandView::Upload(name, d)),
                                None => Err(CommandError::InvalidBase64),
                            },
                            None => Err(CommandError::InvalidPayload),
                        }
                    } else if op == "download".spec_bytes() {
                        match target_of(second, last) {
                            Ok(t) => Ok(CommandView::Download(t)),
                            Err(e) => Err(e),
                        }
                    } else if op == "delete".spec_bytes() {
                        match target_of(second, last) {
                            Ok(t) => Ok(CommandView::Delete(t)),
                            Err(e) => Err(e),
                        }
                    } else {
                        Err(CommandError::InvalidOperation)
                    }
                },
            },
        }
    }
}

/// Splits at the first space.
fn split_once(b: &[u8]) -> (r: (&[u8], Option<&[u8]>))
    ensures
        r.0@ == head(b@),
        match r.1 {
            Some(t) => tail(b@) == Some(t@),
            None => tail(b@) is None,
        },
{
    let mut i: usize = 0;
    while i < b.len()
        invariant
            i <= b@.len(),
            forall|j: int| 0 <= j < i ==> b@[j] != SPACE,
        decreases b@.len() - i,
    {
        if b[i] == SPACE {
            proof {
                assert(is_first_space(b@, i as int));
                let k = choose|k: int| is_first_space(b@, k);
                assert(k == i) by {
                    if k < i {
                        assert(b@[k] != SPACE);
                    } else if k > i {
                        assert(b@[i as int] != SPACE);
                    }
                }
            }
            return (slice_subrange(b, 0, i), Some(slice_subrange(b, i + 1, b.len())));
        }
        i = i + 1;
    }
    proof {
        assert(!exists|k: int| is_first_space(b@, k));
    }
    (b, None)
}

fn bytes_eq(a: &[u8], b: &[u8]) -> (r: bool)
    ensures
        r == (a@ == b@),
{
    if a.len() != b.len() {
        return false;
    }
    let mut i: usize = 0;
    while i < a.len()
        invariant
            a@.len() == b@.len(),
            i <= a@.len(),
            forall|j: int| 0 <= j < i ==> a@[j] == b@[j],
        decreases a@.len() - i,
    {
        if a[i] != b[i] {
            return false;
        }
        i = i + 1;
    }
    proof {
        assert(a@ =~= b@);
    }
    true
}

fn parse_target(kind: &[u8], param: &[u8]) -> (r: Result<Target, CommandError>)
    ensures
        match r {
            Ok(t) => target_of(kind@, param@) == Ok::<TargetView, CommandError>(t@),
            Err(e) => target_of(kind@, param@) == Err::<TargetView, CommandError>(e),
        },
{
    if bytes_eq(kind, "id".as_bytes()) {
        match utf8_text(param) {
            Some(t) => match parse_id(t.as_str()) {
                Some(id) => Ok(Target::Id(id)),
                None => Err(CommandError::InvalidId),
            },
            None => Err(CommandError::InvalidPayload),
        }
    } else if bytes_eq(kind, "name".as_bytes()) {
        match utf8_text(param) {
            Some(t) => Ok(Target::Name(t)),
            None => Err(CommandError::InvalidPayload),
        }
    } else {
        Err(CommandError::InvalidIdentifierType)
    }
}

impl StorageCommand {
    /// Reads a command out of a payload.
    pub fn parse(payload: &[u8]) -> (r: Result<StorageCommand, CommandError>)
        ensures
            match r {
                Ok(c) => command_of(payload@) == Ok::<CommandView, CommandError>(c@),
                Err(e) => command_of(payload@) == Err::<CommandView, CommandError>(e),
            },
    {
        if utf8_text(payload).is_none() {
            return Err(CommandError::InvalidPayload);
        }
        let (op, rest) = split_once(payload);
        match rest {
            None => {
                if bytes_eq(op, "list".as_bytes()) {
                    Ok(StorageCommand::List)
                } else {
                    Err(CommandError::InvalidOperation)
                }
            },
            Some(rest) => {
                let (second, last) = split_once(rest);
                match last {
                    None => Err(CommandError::InvalidOperation),
                    Some(last) => {
                        if bytes_eq(op, "upload".as_bytes()) {
                            match utf8_text(second) {
                                Some(name) => match decode_base64(last) {
                                    Some(d) => Ok(StorageCommand::Upload { file_name: name, content: d }),
                                    None => Err(CommandError::InvalidBase64),
                                },
                                None => Err(CommandError::InvalidPayload),
                            }
                        } else if bytes_eq(op, "download".as_bytes()) {
                            match parse_target(second, last) {
                                Ok(t) => Ok(StorageCommand::Download(t)),
                                Err(e) => Err(e),
                            }
                        } else if bytes_eq(op, "delete".as_bytes()) {
                            match parse_target(second, last) {
                                Ok(t) => Ok(StorageCommand::Delete(t)),
                                Err(e) => Err(e),
                            }
                        } else {
                            Err(CommandError::InvalidOperation)
                        }
                    },
                }
            },
        }
    }
}

/// One line of a listing: `<id>: <name>`.
pub open spec fn listing_line(m: FileMetadata) -> Seq<char> {
    hyphenated(m.id) + ": "@ + m.name@
}

/// The lines of a listing, separated by newlines.
pub open spec fn listing(files: Seq<FileMetadata>) -> Seq<char>
    decreases files.len(),
{
    if files.len() == 0 {
        Seq::empty()
    } else if files.len() == 1 {
        listing_line(files[0])
    } else {
        listing(files.drop_last()) + "\n"@ + listing_line(files.last())
    }
}

/// The answer to `list`: one line `<id>: <name>` per record.
pub fn list_response(files: &Vec<FileMetadata>) -> (r: String)
    ensures
        r@ == listing(files@),
{
    let mut out = String::new();
    let mut i: usize = 0;
    while i < files.len()
        invariant
            i <= files@.len(),
            out@ == listing(files@.subrange(0, i as int)),
        decreases files@.len() - i,
    {
        if i > 0 {
            out.append("\n");
        }
        out.append(id_text(files[i].id).as_str());
        out.append(": ");
        out.append(files[i].name.as_str());
        proof {
            let s = files@.subrange(0, i + 1);
            assert(s.drop_last() == files@.subrange(0, i as int));
            assert(s.last() == files@[i as int]);
        }
        i = i + 1;
    }
    proof {
        assert(files@.subrange(0, files@.len() as int) == files@);
    }
    out
}

/// The answer to a command: whether it succeeded, and its text.
#[derive(Debug, Clone, PartialEq, Eq)]
pub struct StorageResponse {
    pub success: bool,
    pub message: String,
}

impl StorageResponse {
    /// The answer to `list`.
    pub fn listing(files: &Vec<FileMetadata>) -> (r: Self)
        ensures
            r.success,
            r.message@ == listing(files@),
    {
        StorageResponse { success: true, message: list_response(files) }
    }

    /// The answer to a successful upload.
    pub fn uploaded(id: u128) -> (r: Self)
        ensures
            r.success,
            r.message@ == "File uploaded successfully. File ID: "@ + hyphenated(id),
    {
        let mut m = String::from_str("File uploaded successfully. File ID: ");
        m.append(id_text(id).as_str());
        StorageResponse { success: true, message: m }
    }

    /// The answer to a successful download: the file's bytes in base64.
    pub fn downloaded(content: String) -> (r: Self)
        ensures
            r.success,
            r.message == content,
    {
        StorageResponse { success: true, message: content }
    }

    /// The answer to a successful delete.
    pub fn deleted(id: u128) -> (r: Self)
        ensures
            r.success,
            r.message@ == "File with ID "@ + hyphenated(id) + " deleted"@,
    {
        let mut m = String::from_str("File with ID ");
        m.append(id_text(id).as_str());
        m.append(" deleted");
        StorageResponse { success: true, message: m }
    }

    /// The answer to an operation (`List`, `Upload`, ...) that failed.
    pub fn failed(operation: &str, e: &StorageError) -> (r: Self)
        ensures
            !r.success,
            r.message@ == operation@ + " failed: "@ + e.message_spec(),
    {
        let mut m = String::from_str(operation);
        m.append(" failed: ");
        m.append(e.message().as_str());
        StorageResponse { success: false, message: m }
    }

    /// The answer to a payload that is no valid command.
    pub fn rejected(e: CommandError) -> (r: Self)
        ensures
            !r.success,
            r.message@ == e.text(),
    {
        StorageResponse { success: false, message: e.message() }
    }
}

/// How a front end names a file in a path: `name:<s>` by name, `id:<s>` or
/// a bare string by identifier.
#[derive(Debug, Clone, PartialEq, Eq)]
pub enum Identifier {
    Id(String),
    Name(String),
}

/// `text` begins with `prefix`.
pub open spec fn has_prefix(text: Seq<char>, prefix: Seq<char>) -> bool {
    prefix.len() <= text.len() && text.subrange(0, prefix.len() as int) == prefix
}

fn strip_prefix(text: &str, prefix: &str) -> (r: Option<String>)
    ensures
        has_prefix(text@, prefix@) ==> (r matches Some(s) && s@ == text@.subrange(
            prefix@.len() as int,
            text@.len() as int,
        )),
        !has_prefix(text@, prefix@) ==> r is None,
{
    let n = text.unicode_len();
    let p = prefix.unicode_len();
    if p > n {
        return None;
    }
    if String::from_str(text.substring_char(0, p)) == String::from_str(prefix) {
        Some(String::from_str(text.substring_char(p, n)))
    } else {
        None
    }
}

impl Identifier {
    pub fn from_param(param: &str) -> (r: Identifier)
        ensures
            has_prefix(param@, "name:"@) ==> (r matches Identifier::Name(s) && s@ == param@.subrange(
                5,
                param@.len() as int,
            )),
            !has_prefix(param@, "name:"@) && has_prefix(param@, "id:"@) ==> (r matches Identifier::Id(
                s,
            ) && s@ == param@.subrange(3, param@.len() as int)),
            !has_prefix(param@, "name:"@) && !has_prefix(param@, "id:"@) ==> (r matches Identifier::Id(
                s,
            ) && s@ == param@),
    {
        proof {
            reveal_strlit("name:");
            reveal_strlit("id:");
        }
        if let Some(name) = strip_prefix(param, "name:") {
            Identifier::Name(name)
        } else if let Some(id) = strip_prefix(param, "id:") {
            Identifier::Id(id)
        } else {
            Identifier::Id(String::from_str(param))
        }
    }

    /// The command payload that asks for the file named by this identifier
    /// with `op` (`download` or `delete`).
    pub fn command(&self, op: &str) -> (r: String)
        ensures
            r@ == op@ + match self {
                Identifier::Id(s) => " id "@ + s@,
                Identifier::Name(s) => " name "@ + s@,
            },
    {
        let mut out = String::from_str(op);
        match self {
            Identifier::Id(s) => {
                out.append(" id ");
                out.append(s.as_str());
            },
            Identifier::Name(s) => {
                out.append(" name ");
                out.append(s.as_str());
            },
        }
        out
    }
}

} // verus!
