//! The talk between client and daemon over the socket: one line for the command, one for the reply.
use vstd::prelude::*;

use crate::image::{bytes_view, image_view, LAST_IMAGE_ID};
use crate::index::{entry_mime, mime_of, parsed_index, text_view};
use crate::serve::{OwnedSelection, OwnedView};
use crate::text::{
    from_chars, is_white_space, push_chars, same_str, starts_with, strip_prefix, to_chars, trim,
    trimmed,
};
use crate::x11::Atom;

verus! {

/// How long a client waits, at the daemon's end of the socket, for the reply to its command.
pub const REPLY_TIMEOUT_MS: u64 = 2_000;

/// What a client asks of the daemon.
#[derive(Debug, PartialEq, Eq)]
pub enum Command {
    /// Make the entry of this id the contents of the clipboard.
    Select { id: String },
    /// Say that you are there.
    Ping,
    Unknown,
}

/// The mathematical content of a [`Command`].
#[verifier::ext_equal]
pub enum CommandView {
    Select { id: Seq<char> },
    Ping,
    Unknown,
}

impl View for Command {
    type V = CommandView;

    open spec fn view(&self) -> CommandView {
        match *self {
            Command::Select { id } => CommandView::Select { id: id@ },
            Command::Ping => CommandView::Ping,
            Command::Unknown => CommandView::Unknown,
        }
    }
}

/// The command that a line holds: its text without white space around it, if that leaves any.
pub open spec fn request_of(line: Seq<char>) -> Option<Seq<char>> {
    if trimmed(line).len() > 0 {
        Some(trimmed(line))
    } else {
        None
    }
}

/// What a command asks for.
pub open spec fn command_of(request: Seq<char>) -> CommandView {
    if "SELECT "@.is_prefix_of(request) {
        CommandView::Select { id: trimmed(request.skip("SELECT "@.len() as int)) }
    } else if request == "PING"@ {
        CommandView::Ping
    } else {
        CommandView::Unknown
    }
}

/// The command that a line holds, if it holds one.
pub fn ipc_request(line: &str) -> (r: Option<String>)
    ensures
        match request_of(line@) {
            Some(text) => r matches Some(s) && s@ == text,
            None => r is None,
        },
{
    let chars = to_chars(line);
    let text = trim(chars.as_slice());
    if text.len() > 0 {
        Some(from_chars(text))
    } else {
        None
    }
}

/// What a command asks for.
pub fn parse_command(request: &str) -> (r: Command)
    ensures
        r@ == command_of(request@),
{
    let chars = to_chars(request);
    match strip_prefix(chars.as_slice(), "SELECT ") {
        Some(id) => Command::Select { id: from_chars(trim(id)) },
        None => if same_str(request, "PING") {
            Command::Ping
        } else {
            Command::Unknown
        },
    }
}

/// What a client selected.
#[derive(Debug, PartialEq, Eq)]
pub struct Selection {
    pub mime: String,
    pub data: Vec<u8>,
}

/// Why there is nothing to select.
#[derive(Clone, Copy, Debug, PartialEq, Eq, Structural)]
pub enum SelectError {
    /// No image has been copied yet.
    NoImage,
    /// The history has no such entry.
    NoEntry,
}

impl SelectError {
    /// The text of the error.
    pub open spec fn text(self) -> Seq<char> {
        match self {
            SelectError::NoImage => "no image cached yet"@,
            SelectError::NoEntry => "history entry not found"@,
        }
    }

    /// The text of the error.
    pub fn message(&self) -> (r: String)
        ensures
            r@ == self.text(),
    {
        match self {
            SelectError::NoImage => "no image cached yet".to_owned(),
            SelectError::NoEntry => "history entry not found".to_owned(),
        }
    }
}

/// What an id selects, as mime type and bytes: the last image, or an entry of the history, whose
/// mime type is plain text where the index does not know it.
pub open spec fn selected(
    id: Seq<char>,
    image: Option<(Seq<char>, Seq<u8>)>,
    entry: Option<Seq<u8>>,
    index: Option<Seq<char>>,
) -> Result<(Seq<char>, Seq<u8>), SelectError> {
    if id == LAST_IMAGE_ID@ {
        match image {
            Some(p) => Ok(p),
            None => Err(SelectError::NoImage),
        }
    } else {
        match entry {
            Some(data) => Ok(
                (
                    match mime_of(parsed_index(index), id) {
                        Some(mime) => mime,
                        None => "text/plain"@,
                    },
                    data,
                ),
            ),
            None => Err(SelectError::NoEntry),
        }
    }
}

/// Whether an id stands for the last image, and not for an entry of the history.
pub fn wants_last_image(id: &str) -> (r: bool)
    ensures
        r == (id@ == LAST_IMAGE_ID@),
{
    same_str(id, LAST_IMAGE_ID)
}

/// Finds what an id selects, given the last image, the bytes of the entry of that id, and the text
/// of the index, each as far as it could be read.
pub fn handle_select(
    id: &str,
    image: Option<(String, Vec<u8>)>,
    entry: Option<Vec<u8>>,
    index: Option<&str>,
) -> (r: Result<Selection, SelectError>)
    ensures
        match selected(id@, image_view(image), bytes_view(entry), text_view(index)) {
            Ok((mime, data)) => r matches Ok(s) && s.mime@ == mime && s.data@ == data,
            Err(e) => r matches Err(x) && x == e,
        },
{
    if wants_last_image(id) {
        match image {
            Some((mime, data)) => Ok(Selection { mime, data }),
            None => Err(SelectError::NoImage),
        }
    } else {
        match entry {
            Some(data) => {
                let mime = match entry_mime(index, id) {
                    Some(mime) => mime,
                    None => "text/plain".to_owned(),
                };
                Ok(Selection { mime, data })
            },
            None => Err(SelectError::NoEntry),
        }
    }
}

/// A selection as the daemon owns it, once the server has given an atom for its mime type.
pub fn own_selection(selection: Selection, mime_atom: Atom) -> (r: OwnedSelection)
    ensures
        r@ == (OwnedView {
            mime_atom,
            data: selection.data@,
            is_text: "text/"@.is_prefix_of(selection.mime@),
        }),
{
    let mime = to_chars(selection.mime.as_str());
    let is_text = starts_with(mime.as_slice(), "text/");
    OwnedSelection { mime_atom, data: selection.data, is_text }
}

/// The reply to a command that failed.
pub open spec fn error_reply(message: Seq<char>) -> Seq<char> {
    "ERR "@ + message
}

/// The reply to a command that failed.
pub fn reply_error(message: &str) -> (r: String)
    ensures
        r@ == error_reply(message@),
{
    let mut out = String::new();
    push_chars(&mut out, to_chars("ERR ").as_slice());
    push_chars(&mut out, to_chars(message).as_slice());
    assert(out@ =~= error_reply(message@));
    out
}

/// The line for a text that goes over the socket.
pub fn ipc_line(text: &str) -> (r: String)
    ensures
        r@ == text@.push('\n'),
{
    let mut out = text.to_owned();
    out.push('\n');
    out
}

/// The line by which a client asks for an entry.
pub open spec fn select_line(id: Seq<char>) -> Seq<char> {
    "SELECT "@ + id + seq!['\n']
}

/// The line by which a client asks for an entry.
pub fn select_message(id: &str) -> (r: String)
    ensures
        r@ == select_line(id@),
{
    let mut out = String::new();
    push_chars(&mut out, to_chars("SELECT ").as_slice());
    push_chars(&mut out, to_chars(id).as_slice());
    out.push('\n');
    assert(out@ =~= select_line(id@));
    out
}

/// What a client makes of the daemon's reply: an error where the reply says so.
pub open spec fn reply_outcome(reply: Seq<char>) -> Option<Seq<char>> {
    if "ERR"@.is_prefix_of(trimmed(reply)) {
        Some("clipdmenud reported an error:"@ + trimmed(reply).skip("ERR"@.len() as int))
    } else {
        None
    }
}

/// What a client makes of the daemon's reply: an error where the reply says so.
pub fn check_reply(reply: &str) -> (r: Result<(), String>)
    ensures
        match reply_outcome(reply@) {
            Some(text) => r matches Err(e) && e@ == text,
            None => r is Ok,
        },
{
    let chars = to_chars(reply);
    match strip_prefix(trim(chars.as_slice()), "ERR") {
        Some(message) => {
            let mut out = String::new();
            push_chars(&mut out, to_chars("clipdmenud reported an error:").as_slice());
            push_chars(&mut out, message);
            Err(out)
        },
        None => Ok(()),
    }
}

// ---------------------------------------------------------------------------------------------
// Laws
// ---------------------------------------------------------------------------------------------

/// A request that a client sends is the one that the daemon reads: it selects the id that the
/// client named, if that id has no white space at either end.
pub proof fn law_select_reaches_the_daemon(id: Seq<char>)
    requires
        id.len() > 0,
        !is_white_space(id[0]),
        !is_white_space(id.last()),
    ensures
        request_of(select_line(id)) matches Some(request) && command_of(request)
            == (CommandView::Select { id }),
{
    reveal_strlit("SELECT ");
    let request = "SELECT "@ + id;
    assert(select_line(id) =~= request.push('\n'));
    assert(request[0] == 'S');
    assert(request.last() == id.last());
    crate::text::lemma_trimmed_line(request);
    assert("SELECT "@.is_prefix_of(request));
    assert(request.skip("SELECT "@.len() as int) =~= id);
    crate::text::lemma_trimmed_line(id);
}

/// The last image can be selected by its id.
pub proof fn law_image_can_be_selected()
    ensures
        request_of(select_line(LAST_IMAGE_ID@)) matches Some(request) && command_of(request)
            == (CommandView::Select { id: LAST_IMAGE_ID@ }),
{
    reveal_strlit("last_image");
    assert(LAST_IMAGE_ID@ == "last_image"@);
    law_select_reaches_the_daemon(LAST_IMAGE_ID@);
}

/// An error that the daemon reports is the one that the client reports.
pub proof fn law_error_reaches_the_client(message: Seq<char>)
    requires
        message.len() > 0,
        !is_white_space(message.last()),
    ensures
        reply_outcome(error_reply(message).push('\n')) == Some(
            "clipdmenud reported an error: "@ + message,
        ),
{
    reveal_strlit("ERR ");
    reveal_strlit("ERR");
    reveal_strlit("clipdmenud reported an error:");
    reveal_strlit("clipdmenud reported an error: ");
    let reply = error_reply(message);
    assert(reply[0] == 'E');
    assert(reply.last() == message.last());
    crate::text::lemma_trimmed_line(reply);
    assert("ERR"@.is_prefix_of(reply));
    assert("clipdmenud reported an error:"@ + reply.skip(3)
        =~= "clipdmenud reported an error: "@ + message);
}

/// A client takes the replies to a command that succeeded for what they are.
pub proof fn law_success_reaches_the_client()
    ensures
        reply_outcome("OK"@.push('\n')) is None,
        reply_outcome("PONG"@.push('\n')) is None,
{
    reveal_strlit("OK");
    reveal_strlit("PONG");
    reveal_strlit("ERR");
    crate::text::lemma_trimmed_line("OK"@);
    crate::text::lemma_trimmed_line("PONG"@);
    assert("PONG"@[0] == 'P');
    assert("ERR"@[0] == 'E');
}

/// A line holds a command if there is anything in it but white space: that is the line without the
/// white space around it, however long it is.
pub proof fn law_line_holds_a_command(line: Seq<char>)
    ensures
        request_of(line) is None <==> forall|k: int|
            0 <= k < line.len() ==> is_white_space(#[trigger] line[k]),
        request_of(line) matches Some(request) ==> request == trimmed(line),
        REPLY_TIMEOUT_MS == 2000,
{
    crate::text::law_trimming_takes_the_ends(line);
}

/// There are two commands, and no others: `PING`, and `SELECT` with what follows the blank behind it
/// for an id, without white space around that.
pub proof fn law_there_are_two_commands(request: Seq<char>, id: Seq<char>)
    ensures
        command_of("SELECT "@ + id) == (CommandView::Select { id: trimmed(id) }),
        command_of("PING"@) is Ping,
        command_of(request) is Ping ==> request == "PING"@,
        command_of(request) is Select ==> "SELECT "@.is_prefix_of(request),
{
    reveal_strlit("SELECT ");
    reveal_strlit("PING");
    let select = "SELECT "@ + id;
    assert("SELECT "@.is_prefix_of(select));
    assert(select.skip("SELECT "@.len() as int) =~= id);
    assert("PING"@[0] == 'P');
    assert("SELECT "@[0] == 'S');
}

/// Whoever selects the last image gets it as it is, and whoever selects an entry gets all its bytes,
/// with the mime type that the index has for it, or as plain text where it has none. Only what
/// cannot be read cannot be selected.
pub proof fn law_what_can_be_read_can_be_selected(
    id: Seq<char>,
    image: Option<(Seq<char>, Seq<u8>)>,
    entry: Option<Seq<u8>>,
    index: Option<Seq<char>>,
)
    ensures
        ({
            let found = selected(id, image, entry, index);
            if id == "last_image"@ {
                &&& image matches Some(p) ==> found == Ok::<(Seq<char>, Seq<u8>), SelectError>(p)
                &&& image is None ==> found == Err::<(Seq<char>, Seq<u8>), SelectError>(
                    SelectError::NoImage,
                )
            } else {
                &&& entry matches Some(data) ==> (found matches Ok((mime, bytes)) && bytes == data
                    && mime == (match mime_of(parsed_index(index), id) {
                    Some(listed) => listed,
                    None => "text/plain"@,
                }))
                &&& entry is None ==> found == Err::<(Seq<char>, Seq<u8>), SelectError>(
                    SelectError::NoEntry,
                )
            }
        }),
        SelectError::NoImage.text() == "no image cached yet"@,
        SelectError::NoEntry.text() == "history entry not found"@,
{
    assert(LAST_IMAGE_ID@ == "last_image"@);
}

/// A client asks in one line: the command, one blank, the id as it is, and the end of the line.
pub proof fn law_client_asks_in_one_line(id: Seq<char>)
    ensures
        ({
            let line = select_line(id);
            &&& line.len() == id.len() + 8
            &&& line.take(7) == "SELECT "@
            &&& line.subrange(7, 7int + id.len()) == id
            &&& line.last() == '\n'
        }),
{
    reveal_strlit("SELECT ");
    let line = select_line(id);
    assert(line.take(7) =~= "SELECT "@);
    assert(line.subrange(7, 7int + id.len()) =~= id);
}

/// A client reports an error if the reply begins with `ERR`, white space aside, with all that
/// follows; any other reply is a success.
pub proof fn law_only_an_error_is_reported(reply: Seq<char>)
    ensures
        reply_outcome(reply) is Some <==> "ERR"@.is_prefix_of(trimmed(reply)),
        reply_outcome(reply) matches Some(text) ==> text == "clipdmenud reported an error:"@
            + trimmed(reply).skip(3),
{
    reveal_strlit("ERR");
}

/// The content of a command is all that it holds.
pub proof fn law_content_of_a_command_is_whole(command: Command)
    ensures
        command matches Command::Select { id } ==> command@ == (CommandView::Select { id: id@ }),
        command is Ping <==> command@ is Ping,
        command is Unknown <==> command@ is Unknown,
{
}

}
