//! Commands that instances of the server send each other about a room, and their wire form.
use vstd::prelude::*;
use vstd::utf8::encode_utf8;
use crate::text::{join2, split_once_at, cut_once, is_first_pos, lemma_first_pos};
use crate::varint::{varint, pair_head, head_within, claimed_text_fits, lemma_varint_read_back};

verus! {

/// What one instance tells the others about a room.
#[derive(Clone, Debug)]
pub enum Command {
    PubJoin(String),
    PubLeft(String),
}

pub enum CommandView {
    PubJoin(Seq<char>),
    PubLeft(Seq<char>),
}

impl View for Command {
    type V = CommandView;
    open spec fn view(&self) -> CommandView {
        match self {
            Command::PubJoin(u) => CommandView::PubJoin(u@),
            Command::PubLeft(u) => CommandView::PubLeft(u@),
        }
    }
}

/// Why a command could not be put into, or read back from, its wire form.
#[derive(Clone, Copy, Debug, PartialEq, Eq, Structural)]
pub enum CommandCodecError {
    /// The encoded command does not fit in a command message.
    TooLong,
    /// The bytes are not a tag followed by a text.
    Malformed,
    /// The tag names no command.
    UnknownTag(u32),
}

pub open spec fn pub_join_word() -> Seq<char> {
    seq!['P', 'U', 'B', '_', 'J', 'O', 'I', 'N', ' ']
}

pub open spec fn pub_left_word() -> Seq<char> {
    seq!['P', 'U', 'B', '_', 'L', 'E', 'F', 'T', ' ']
}

/// The line forwarded to a browser for a command.
pub open spec fn user_msg(c: CommandView) -> Seq<char> {
    match c {
        CommandView::PubJoin(u) => pub_join_word() + u,
        CommandView::PubLeft(u) => pub_left_word() + u,
    }
}

pub open spec fn command_tag(c: CommandView) -> u32 {
    match c {
        CommandView::PubJoin(_) => 0,
        CommandView::PubLeft(_) => 1,
    }
}

pub open spec fn command_user(c: CommandView) -> Seq<char> {
    match c {
        CommandView::PubJoin(u) => u,
        CommandView::PubLeft(u) => u,
    }
}

/// The command with a given tag, when the tag names one.
pub open spec fn command_of(tag: u32, user: Seq<char>) -> Option<CommandView> {
    if tag == 0 {
        Some(CommandView::PubJoin(user))
    } else if tag == 1 {
        Some(CommandView::PubLeft(user))
    } else {
        None
    }
}

/// bincode's encoding of the pair of a `u32` tag and a text: the tag, then the text's
/// byte length and its UTF-8 bytes. A derived enum encoding has the same form, the tag
/// being the variant's index.
pub open spec fn tagged_text_bytes(tag: u32, text: Seq<char>) -> Seq<u8> {
    let b = encode_utf8(text);
    varint(tag as nat) + varint(b.len()) + b
}

/// The wire form of a command.
pub open spec fn command_bytes(c: CommandView) -> Seq<u8> {
    tagged_text_bytes(command_tag(c), command_user(c))
}

/// The most bytes a command message may hold.
pub const COMMAND_CAPACITY: usize = 64;

/// The pair that bincode decodes from the start of `bytes` as a `(u32, String)`, if any.
pub uninterp spec fn bincode_tag_and_text(bytes: Seq<u8>) -> Option<(u32, Seq<char>)>;

/// bincode's `EncodeError`, carried as an opaque value.
#[verifier::external_type_specification]
#[verifier::external_body]
pub struct ExEncodeError(bincode::error::EncodeError);

/// bincode's `DecodeError`, carried as an opaque value.
#[verifier::external_type_specification]
#[verifier::external_body]
pub struct ExDecodeError(bincode::error::DecodeError);

/// `bincode::encode_into_slice` of the pair `(tag, text)` into a buffer of `capacity` bytes
/// (standard configuration). It fails exactly when the encoding does not fit in the buffer,
/// and otherwise gives the encoding.
#[verifier::external_body]
fn encode_tag_and_text(tag: u32, text: &str, capacity: usize) -> (r: Result<Vec<u8>, bincode::error::EncodeError>)
    requires
        capacity <= 4096,
    ensures
        r is Ok <==> tagged_text_bytes(tag, text@).len() <= capacity,
        r matches Ok(b) ==> b@ == tagged_text_bytes(tag, text@),
{
    let mut buf = vec![0u8; capacity];
    let n = bincode::encode_into_slice((tag, text), &mut buf[..], bincode::config::standard())?;
    buf.truncate(n);
    Ok(buf)
}

pub open spec fn pair_view(r: Result<(u32, String), bincode::error::DecodeError>) -> Option<(u32, Seq<char>)> {
    match r {
        Ok((t, s)) => Some((t, s@)),
        Err(_) => None,
    }
}

/// Bytes that begin with the encoding of a pair give back that pair.
pub open spec fn encoded_pairs_read_back(bytes: Seq<u8>, got: Option<(u32, Seq<char>)>) -> bool {
    forall|t: u32, s: Seq<char>, rest: Seq<u8>|
        #[trigger] (tagged_text_bytes(t, s) + rest) == bytes ==> got == Some((t, s))
}

/// The head of an encoded pair is read back from it, and claims no more text than there is.
proof fn lemma_encoded_head(t: u32, s: Seq<char>, rest: Seq<u8>)
    requires
        (tagged_text_bytes(t, s) + rest).len() <= usize::MAX,
    ensures
        pair_head(tagged_text_bytes(t, s) + rest)
            == Some((t as nat, encode_utf8(s).len(), varint(t as nat).len() + varint(encode_utf8(s).len()).len())),
        head_within(tagged_text_bytes(t, s) + rest),
{
    let text = encode_utf8(s);
    let v1 = varint(t as nat);
    let v2 = varint(text.len());
    let bytes = tagged_text_bytes(t, s) + rest;
    assert(bytes =~= v1 + (v2 + text + rest));
    lemma_varint_read_back(t as nat, 252, v2 + text + rest);
    assert(bytes.skip(v1.len() as int) =~= v2 + (text + rest));
    lemma_varint_read_back(text.len(), 253, text + rest);
}

/// `bincode::decode_from_slice::<(u32, String)>` (standard configuration), keeping the pair.
/// The result is the named decoding of the bytes; bytes that begin with the encoding of a
/// pair decode to that pair, whatever follows it. bincode makes room for the text's claimed
/// length before it reads the text, which panics or runs out of memory for a claim far
/// beyond the input: such bytes are left out.
#[verifier::external_body]
fn decode_tag_and_text(bytes: &[u8]) -> (r: Result<(u32, String), bincode::error::DecodeError>)
    requires
        head_within(bytes@),
    ensures
        pair_view(r) == bincode_tag_and_text(bytes@),
        encoded_pairs_read_back(bytes@, pair_view(r)),
{
    let (pair, _) = bincode::decode_from_slice::<(u32, String), _>(bytes, bincode::config::standard())?;
    Ok(pair)
}

impl Command {
    /// The line forwarded to a browser: "PUB_JOIN <user>" or "PUB_LEFT <user>".
    pub fn to_user_msg(&self) -> (r: String)
        ensures
            r@ == user_msg(self@),
    {
        match self {
            Command::PubJoin(user) => {
                let w = "PUB_JOIN ";
                proof {
                    reveal_strlit("PUB_JOIN ");
                    assert(w@ =~= pub_join_word());
                }
                join2(w, user.as_str())
            },
            Command::PubLeft(user) => {
                let w = "PUB_LEFT ";
                proof {
                    reveal_strlit("PUB_LEFT ");
                    assert(w@ =~= pub_left_word());
                }
                join2(w, user.as_str())
            },
        }
    }

    /// The command's wire form, which must fit in a command message.
    pub fn encode(&self) -> (r: Result<Vec<u8>, CommandCodecError>)
        ensures
            match r {
                Ok(b) => b@ == command_bytes(self@) && b@.len() <= COMMAND_CAPACITY,
                Err(e) => e == CommandCodecError::TooLong && command_bytes(self@).len() > COMMAND_CAPACITY,
            },
    {
        let (tag, user): (u32, &String) = match self {
            Command::PubJoin(u) => (0, u),
            Command::PubLeft(u) => (1, u),
        };
        match encode_tag_and_text(tag, user.as_str(), COMMAND_CAPACITY) {
            Ok(b) => Ok(b),
            Err(_) => Err(CommandCodecError::TooLong),
        }
    }

    /// The command with tag `tag` for `user`: 0 is PUB_JOIN, 1 is PUB_LEFT.
    pub fn from_parts(tag: u32, user: String) -> (r: Result<Command, CommandCodecError>)
        ensures
            match command_of(tag, user@) {
                Some(c) => r matches Ok(rc) && rc@ == c,
                None => r == Err::<Command, CommandCodecError>(CommandCodecError::UnknownTag(tag)),
            },
    {
        if tag == 0 {
            Ok(Command::PubJoin(user))
        } else if tag == 1 {
            Ok(Command::PubLeft(user))
        } else {
            Err(CommandCodecError::UnknownTag(tag))
        }
    }

    /// Reads a command back from its wire form. Bytes whose head claims a longer text than
    /// they hold are malformed. The wire form of any command, followed by anything, reads
    /// back as that command.
    pub fn decode(bytes: &[u8]) -> (r: Result<Command, CommandCodecError>)
        ensures
            !head_within(bytes@) ==> r == Err::<Command, CommandCodecError>(CommandCodecError::Malformed),
            head_within(bytes@) ==> match bincode_tag_and_text(bytes@) {
                None => r == Err::<Command, CommandCodecError>(CommandCodecError::Malformed),
                Some((t, s)) => match command_of(t, s) {
                    Some(c) => r matches Ok(rc) && rc@ == c,
                    None => r == Err::<Command, CommandCodecError>(CommandCodecError::UnknownTag(t)),
                },
            },
            forall|c: CommandView, rest: Seq<u8>|
                #[trigger] (command_bytes(c) + rest) == bytes@ ==> (r matches Ok(rc) && rc@ == c),
    {
        let len: usize = bytes.len();
        proof {
            assert forall|c: CommandView, rest: Seq<u8>|
                #[trigger] (command_bytes(c) + rest) == bytes@ implies
                    head_within(bytes@) && command_of(command_tag(c), command_user(c)) == Some(c) by {
                lemma_encoded_head(command_tag(c), command_user(c), rest);
                match c {
                    CommandView::PubJoin(_) => {},
                    CommandView::PubLeft(_) => {},
                }
            }
        }
        if !claimed_text_fits(bytes) {
            return Err(CommandCodecError::Malformed);
        }
        match decode_tag_and_text(bytes) {
            Err(_) => Err(CommandCodecError::Malformed),
            Ok((tag, user)) => Command::from_parts(tag, user),
        }
    }
}

pub open spec fn cmd_dot() -> Seq<char> {
    seq!['c', 'm', 'd', '.']
}

/// The NATS subject on which commands about `room` travel: "cmd.<room>".
pub fn command_subject(room: &str) -> (r: String)
    ensures
        r@ == cmd_dot() + room@,
{
    let p = "cmd.";
    proof {
        reveal_strlit("cmd.");
        assert(p@ =~= cmd_dot());
    }
    join2(p, room)
}

/// The room that a command subject names: what follows its first '.'.
pub fn room_of_subject(subject: &str) -> (r: Option<String>)
    ensures
        match split_once_at(subject@, '.') {
            Some((_, room)) => r matches Some(x) && x@ == room,
            None => r is None,
        },
{
    match cut_once(subject, '.') {
        Some((_, room)) => Some(room),
        None => None,
    }
}

/// The room is read back from the subject of its commands, whatever the room's name.
pub proof fn lemma_command_subject_names_room(room: Seq<char>)
    ensures
        split_once_at(cmd_dot() + room, '.') == Some((seq!['c', 'm', 'd'], room)),
{
    let s = cmd_dot() + room;
    assert(is_first_pos(s, '.', 3));
    lemma_first_pos(s, '.', 3);
    assert(s.take(3) =~= seq!['c', 'm', 'd']);
    assert(s.skip(4) =~= room);
}

}
