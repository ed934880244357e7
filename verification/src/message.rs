//! Messages as they are read: a header section, and a body within limits.

use vstd::prelude::*;
use vstd::slice::{slice_subrange, slice_to_vec};

use crate::delivery::failure::{IoError, IoFailure};
use crate::text::{self, numbered};

verus! {

/// How large a message and its parts may be, in bytes.
#[derive(Debug, Clone, Copy, PartialEq, Eq, Structural)]
pub struct MessageLimits {
    pub headers_size: usize,
    pub body_size: usize,
    pub message_size: usize,
}

pub const MAX_HEADERS_SIZE: usize = 1024 * 1024;

pub const MAX_MESSAGE_SIZE: usize = 64 * 1024 * 1024;

impl Default for MessageLimits {
    fn default() -> (r: Self)
        ensures
            r == (MessageLimits {
                headers_size: MAX_HEADERS_SIZE,
                body_size: MAX_MESSAGE_SIZE,
                message_size: MAX_MESSAGE_SIZE,
            }),
    {
        MessageLimits {
            headers_size: MAX_HEADERS_SIZE,
            body_size: MAX_MESSAGE_SIZE,
            message_size: MAX_MESSAGE_SIZE,
        }
    }
}

/// The part of a message that a limit is on.
#[derive(Debug, Clone, Copy, PartialEq, Eq, Structural)]
pub enum MessageLimit {
    Headers,
    Body,
    Message,
}

/// Why a message could not be read.
#[derive(Debug, PartialEq, Eq)]
pub enum MessageReadError {
    LimitExceeded { kind: MessageLimit, limit: usize },
    Io(IoError),
}

pub enum ReadFault {
    LimitExceeded { kind: MessageLimit, limit: usize },
    Io(IoFailure),
}

impl View for MessageReadError {
    type V = ReadFault;

    open spec fn view(&self) -> ReadFault {
        match self {
            MessageReadError::LimitExceeded { kind, limit } => ReadFault::LimitExceeded {
                kind: *kind,
                limit: *limit,
            },
            MessageReadError::Io(error) => ReadFault::Io(error@),
        }
    }
}

/// A part of a message as it is called.
pub open spec fn part_name(kind: MessageLimit) -> Seq<char> {
    match kind {
        MessageLimit::Headers => "message headers exceed the limit of "@,
        MessageLimit::Body => "message body exceeds the limit of "@,
        MessageLimit::Message => "message exceeds the limit of "@,
    }
}

impl ReadFault {
    /// What is told of it.
    pub open spec fn spelled(self) -> Seq<char> {
        match self {
            ReadFault::LimitExceeded { kind, limit } => part_name(kind) + text::decimal(
                limit as nat,
            ) + " bytes"@,
            ReadFault::Io(failure) => failure.message,
        }
    }
}

impl MessageReadError {
    /// What is told of it.
    pub fn to_text(&self) -> (r: String)
        ensures
            r@ == self@.spelled(),
    {
        match self {
            MessageReadError::LimitExceeded { kind, limit } => {
                let name = match kind {
                    MessageLimit::Headers => "message headers exceed the limit of ",
                    MessageLimit::Body => "message body exceeds the limit of ",
                    MessageLimit::Message => "message exceeds the limit of ",
                };
                numbered(name, *limit, " bytes")
            },
            MessageReadError::Io(error) => error.message.clone(),
        }
    }
}

/// A message that is held in memory.
#[derive(Debug, PartialEq, Eq)]
pub struct Message {
    bytes: Vec<u8>,
    header_len: usize,
}

impl View for Message {
    type V = Seq<u8>;

    closed spec fn view(&self) -> Seq<u8> {
        self.bytes@
    }
}

/// What is known of a message that was passed on.
#[derive(Debug, Clone, Copy, PartialEq, Eq, Structural)]
pub struct StreamedMessage {
    pub header_len: usize,
    pub length: usize,
}

impl StreamedMessage {
    pub fn len(&self) -> (r: usize)
        ensures
            r == self.length,
    {
        self.length
    }

    pub fn header_len(&self) -> (r: usize)
        ensures
            r == self.header_len,
    {
        self.header_len
    }
}

/// The header section of a message, and the limits on the message.
#[derive(Debug)]
pub struct MessageHead {
    bytes: Vec<u8>,
    limits: MessageLimits,
}

impl View for MessageHead {
    type V = Seq<u8>;

    closed spec fn view(&self) -> Seq<u8> {
        self.bytes@
    }
}

/// Where the line that starts at `i` ends, its line feed included.
pub open spec fn line_end(bytes: Seq<u8>, i: int) -> int
    decreases bytes.len() - i,
{
    if i < 0 || i >= bytes.len() {
        bytes.len() as int
    } else if bytes[i] == 10 {
        i + 1
    } else {
        line_end(bytes, i + 1)
    }
}

/// Whether a line is empty but for its end.
pub open spec fn blank_line(line: Seq<u8>) -> bool {
    line == seq![10u8] || line == seq![13u8, 10u8]
}

/// Where the header section that goes on at `i` ends: after the first blank
/// line, or where the message does.
pub open spec fn headers_end(bytes: Seq<u8>, i: int) -> int
    decreases bytes.len() - i,
{
    if i < 0 || i >= bytes.len() {
        bytes.len() as int
    } else {
        let end = line_end(bytes, i);
        if end <= i || end > bytes.len() || blank_line(bytes.subrange(i, end)) {
            end
        } else {
            headers_end(bytes, end)
        }
    }
}

proof fn lemma_line_end(bytes: Seq<u8>, i: int)
    requires
        0 <= i < bytes.len(),
    ensures
        i < line_end(bytes, i) <= bytes.len(),
    decreases bytes.len() - i,
{
    reveal_with_fuel(line_end, 2);
    if bytes[i] != 10 && i + 1 < bytes.len() {
        lemma_line_end(bytes, i + 1);
    }
}

/// Where the line that starts at `from` ends, its line feed included.
pub fn find_line_end(bytes: &[u8], from: usize) -> (r: usize)
    requires
        from < bytes@.len(),
    ensures
        r == line_end(bytes@, from as int),
        from < r <= bytes@.len(),
{
    proof {
        lemma_line_end(bytes@, from as int);
    }
    let mut i: usize = from;
    while i < bytes.len()
        invariant
            from <= i <= bytes@.len(),
            line_end(bytes@, from as int) == line_end(bytes@, i as int),
            from < line_end(bytes@, from as int) <= bytes@.len(),
        decreases bytes.len() - i,
    {
        if bytes[i] == 10 {
            return i + 1;
        }
        i = i + 1;
    }
    i
}

/// Whether a line is empty but for its end.
fn is_blank_line(line: &[u8]) -> (r: bool)
    ensures
        r == blank_line(line@),
{
    if line.len() == 1 {
        let found = line[0] == 10;
        assert(found ==> line@ =~= seq![10u8]);
        found
    } else if line.len() == 2 {
        let found = line[0] == 13 && line[1] == 10;
        assert(found ==> line@ =~= seq![13u8, 10u8]);
        found
    } else {
        false
    }
}

impl Message {
    /// How many bytes its header section is.
    pub closed spec fn headers(&self) -> nat {
        self.header_len as nat
    }

    /// How many bytes its header section is.
    pub fn header_len(&self) -> (r: usize)
        ensures
            r == self.headers(),
    {
        self.header_len
    }

    /// The bytes of the message.
    pub fn as_bytes(&self) -> (r: &[u8])
        ensures
            r@ == self@,
    {
        self.bytes.as_slice()
    }

    /// A message whose first `header_len` bytes are its headers.
    pub fn from_parts(bytes: Vec<u8>, header_len: usize) -> (r: Self)
        ensures
            r@ == bytes@,
            r.headers() == header_len,
    {
        Message { bytes, header_len }
    }

    /// Takes the header section off the start of a message, and tells how many
    /// bytes it is.
    pub fn read_headers(input: &[u8], limits: MessageLimits) -> (r: Result<
        (MessageHead, usize),
        MessageReadError,
    >)
        ensures
            ({
                let end = headers_end(input@, 0);
                if end > limits.headers_size {
                    r matches Err(error) && error@ == (ReadFault::LimitExceeded {
                        kind: MessageLimit::Headers,
                        limit: limits.headers_size,
                    })
                } else {
                    r matches Ok(found) && found.0@ == input@.take(end) && found.0.limits()
                        == limits && found.1 == end && end <= input@.len()
                }
            }),
    {
        let mut end: usize = 0;
        let mut open = true;
        while open && end < input.len()
            invariant
                end <= input@.len(),
                open ==> headers_end(input@, 0) == headers_end(input@, end as int),
                !open ==> headers_end(input@, 0) == end,
            decreases input.len() - end,
        {
            let next = find_line_end(input, end);
            if is_blank_line(slice_subrange(input, end, next)) {
                open = false;
            }
            end = next;
        }
        if end > limits.headers_size {
            return Err(
                MessageReadError::LimitExceeded {
                    kind: MessageLimit::Headers,
                    limit: limits.headers_size,
                },
            );
        }
        let head = slice_subrange(input, 0, end);
        assert(head@ =~= input@.take(end as int));
        Ok((MessageHead { bytes: slice_to_vec(head), limits }, end))
    }
}

/// What is wrong with one more piece of a body of which `body` bytes have been
/// read, after headers of `headers` bytes.
pub open spec fn piece_fault(
    headers: nat,
    body: nat,
    piece: nat,
    limits: MessageLimits,
) -> Option<ReadFault> {
    if body + piece > limits.body_size {
        Some(ReadFault::LimitExceeded { kind: MessageLimit::Body, limit: limits.body_size })
    } else if headers + body + piece > limits.message_size {
        Some(ReadFault::LimitExceeded { kind: MessageLimit::Message, limit: limits.message_size })
    } else {
        None
    }
}

impl MessageHead {
    pub closed spec fn limits(&self) -> MessageLimits {
        self.limits
    }

    /// The bytes of the header section.
    pub fn as_bytes(&self) -> (r: &[u8])
        ensures
            r@ == self@,
    {
        self.bytes.as_slice()
    }

    /// Counts one more piece of the body, of which `body` bytes have been
    /// read.
    pub fn count_piece(&self, body: usize, piece: usize) -> (r: Result<usize, MessageReadError>)
        requires
            body <= self.limits().body_size,
        ensures
            match piece_fault(self@.len(), body as nat, piece as nat, self.limits()) {
                Some(fault) => r matches Err(error) && error@ == fault,
                None => r == Ok::<usize, MessageReadError>((body + piece) as usize) && body + piece
                    <= self.limits().body_size,
            },
    {
        let headers = self.bytes.len();
        if piece > self.limits.body_size - body {
            return Err(
                MessageReadError::LimitExceeded {
                    kind: MessageLimit::Body,
                    limit: self.limits.body_size,
                },
            );
        }
        let longer = body + piece;
        if headers > self.limits.message_size || longer > self.limits.message_size - headers {
            return Err(
                MessageReadError::LimitExceeded {
                    kind: MessageLimit::Message,
                    limit: self.limits.message_size,
                },
            );
        }
        Ok(longer)
    }
}

} // verus!
