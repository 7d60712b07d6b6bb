//! Framing on a channel that keeps message boundaries: packets of bytes,
//! and files with a name.
//!
//! A packet is a six-byte header message, `0x33 0x07` and the payload length
//! as a 32-bit big-endian number, followed by the payload in messages of at
//! most [`MAX_MESSAGE`] bytes. A file is a four-byte message `0x09 0x28` with
//! the length of its name as a 16-bit big-endian number, a message with the
//! name, a six-byte message `0x07 0x15` with the length of the file as a
//! 32-bit big-endian number, and the content in messages of at most
//! [`MAX_MESSAGE`] bytes.

use vstd::prelude::*;
use crate::bytes::{append_bytes, copy_range, messages_view, payload_view};
use crate::model::{TempFile, TempFileView};
use crate::{WsvcError, WsvcErrorView};

verus! {

/// Largest number of payload bytes in one message.
pub const MAX_MESSAGE: usize = 16384;

/// Largest length that a 32-bit length field can announce.
pub const MAX_LENGTH: u64 = 0xffff_ffff;

/// A number below 2^32 as four bytes, most significant first.
pub open spec fn be32(n: int) -> Seq<u8> {
    seq![
        ((n / 16777216) % 256) as u8,
        ((n / 65536) % 256) as u8,
        ((n / 256) % 256) as u8,
        (n % 256) as u8,
    ]
}

/// A number below 2^16 as two bytes, most significant first.
pub open spec fn be16(n: int) -> Seq<u8> {
    seq![((n / 256) % 256) as u8, (n % 256) as u8]
}

/// The number that four bytes at `at` spell, most significant first.
pub open spec fn read_be32(bytes: Seq<u8>, at: int) -> int {
    bytes[at] as int * 16777216 + bytes[at + 1] as int * 65536 + bytes[at + 2] as int * 256
        + bytes[at + 3] as int
}

/// The number that two bytes at `at` spell, most significant first.
pub open spec fn read_be16(bytes: Seq<u8>, at: int) -> int {
    bytes[at] as int * 256 + bytes[at + 1] as int
}

/// The header message of a packet with `len` payload bytes.
pub open spec fn packet_header(len: int) -> Seq<u8> {
    seq![0x33u8, 0x07u8] + be32(len)
}

/// The message that announces a file name of `len` bytes.
pub open spec fn name_header(len: int) -> Seq<u8> {
    seq![0x09u8, 0x28u8] + be16(len)
}

/// The message that announces a file of `len` bytes.
pub open spec fn file_header(len: int) -> Seq<u8> {
    seq![0x07u8, 0x15u8] + be32(len)
}

/// `data` cut into messages of [`MAX_MESSAGE`] bytes; the last may be shorter.
pub open spec fn chunked(data: Seq<u8>) -> Seq<Seq<u8>>
    decreases data.len(),
{
    if data.len() == 0 {
        Seq::empty()
    } else if data.len() <= MAX_MESSAGE {
        seq![data]
    } else {
        seq![data.take(MAX_MESSAGE as int)] + chunked(data.skip(MAX_MESSAGE as int))
    }
}

/// The messages that carry a packet.
pub open spec fn packet_messages(data: Seq<u8>) -> Seq<Seq<u8>> {
    seq![packet_header(data.len() as int)] + chunked(data)
}

/// The messages that carry a file.
pub open spec fn file_messages(name: Seq<u8>, data: Seq<u8>) -> Seq<Seq<u8>> {
    seq![name_header(name.len() as int), name, file_header(data.len() as int)] + chunked(data)
}

fn put_be32(out: &mut Vec<u8>, n: usize)
    requires
        n <= MAX_LENGTH,
    ensures
        final(out)@ == old(out)@ + be32(n as int),
{
    out.push(((n / 16777216) % 256) as u8);
    out.push(((n / 65536) % 256) as u8);
    out.push(((n / 256) % 256) as u8);
    out.push((n % 256) as u8);
    assert(out@ =~= old(out)@ + be32(n as int));
}

fn get_be32(bytes: &[u8], at: usize) -> (n: u64)
    requires
        at + 4 <= bytes@.len(),
    ensures
        n == read_be32(bytes@, at as int),
        n <= MAX_LENGTH,
{
    (bytes[at] as u64) * 16777216 + (bytes[at + 1] as u64) * 65536 + (bytes[at + 2] as u64) * 256 + (
    bytes[at + 3] as u64)
}

fn push_chunks(out: &mut Vec<Vec<u8>>, data: &[u8])
    ensures
        messages_view(*final(out)) == messages_view(*old(out)) + chunked(data@),
{
    let mut pos: usize = 0;
    let ghost start = messages_view(*out);
    assert(data@.skip(0) =~= data@);
    while pos < data.len()
        invariant
            pos <= data@.len(),
            messages_view(*out) + chunked(data@.skip(pos as int)) == start + chunked(data@),
        decreases data@.len() - pos,
    {
        let left = data.len() - pos;
        let n = if left <= MAX_MESSAGE {
            left
        } else {
            MAX_MESSAGE
        };
        let ghost rest = data@.skip(pos as int);
        let ghost before = messages_view(*out);
        let chunk = copy_range(data, pos, pos + n);
        assert(chunk@ =~= rest.take(n as int));
        assert(rest.skip(n as int) =~= data@.skip(pos + n));
        assert(rest.take(rest.len() as int) =~= rest);
        assert(chunked(rest) =~= seq![chunk@] + chunked(data@.skip(pos + n)));
        out.push(chunk);
        assert(messages_view(*out) =~= before.push(chunk@));
        assert(before.push(chunk@) + chunked(data@.skip(pos + n)) =~= before + chunked(rest));
        pos = pos + n;
    }
    assert(chunked(data@.skip(pos as int)) =~= Seq::<Seq<u8>>::empty());
    assert(messages_view(*out) + Seq::<Seq<u8>>::empty() =~= messages_view(*out));
}

/// The messages that carry a packet of `data`.
///
/// Fails exactly when `data` is longer than a packet header can announce.
pub fn send_data(data: &[u8]) -> (r: Result<Vec<Vec<u8>>, WsvcError>)
    ensures
        match r {
            Ok(messages) => data@.len() <= MAX_LENGTH && messages_view(messages)
                == packet_messages(data@),
            Err(e) => data@.len() > MAX_LENGTH && e@ == WsvcErrorView::DataError(
                "packet too long"@,
            ),
        },
{
    if data.len() as u64 > MAX_LENGTH {
        return Err(WsvcError::DataError("packet too long".to_owned()));
    }
    let mut header: Vec<u8> = Vec::new();
    header.push(0x33);
    header.push(0x07);
    put_be32(&mut header, data.len());
    assert(header@ =~= packet_header(data@.len() as int));
    let mut messages: Vec<Vec<u8>> = Vec::new();
    messages.push(header);
    assert(messages_view(messages) =~= seq![packet_header(data@.len() as int)]);
    push_chunks(&mut messages, data);
    Ok(messages)
}

/// `name` can be the name of a file on the channel: at most [`MAX_MESSAGE`]
/// bytes that are a single path component, which is to say not empty,
/// without a `/`, and neither `.` nor `..`. A file of such a name lies in the
/// directory it is written into, and nowhere else.
pub open spec fn is_file_name(name: Seq<u8>) -> bool {
    &&& 0 < name.len() <= MAX_MESSAGE
    &&& forall|i: int| 0 <= i < name.len() ==> #[trigger] name[i] != 47
    &&& !(name.len() == 1 && name[0] == 46)
    &&& !(name.len() == 2 && name[0] == 46 && name[1] == 46)
}

/// Whether `name` can be the name of a file on the channel: a single path
/// component of at most [`MAX_MESSAGE`] bytes.
pub fn is_single_component(name: &[u8]) -> (valid: bool)
    ensures
        valid == is_file_name(name@),
{
    if name.len() == 0 || name.len() > MAX_MESSAGE {
        return false;
    }
    if name.len() == 1 && name[0] == 46 {
        return false;
    }
    if name.len() == 2 && name[0] == 46 && name[1] == 46 {
        return false;
    }
    let mut i: usize = 0;
    while i < name.len()
        invariant
            i <= name@.len(),
            forall|k: int| 0 <= k < i ==> #[trigger] name@[k] != 47,
        decreases name@.len() - i,
    {
        if name[i] == 47 {
            return false;
        }
        i += 1;
    }
    true
}

/// `name` is the name that a file content has on the channel and on disk:
/// the 64 lowercase hexadecimal digits of a fingerprint.
pub open spec fn is_blob_name(name: Seq<u8>) -> bool {
    &&& name.len() == 64
    &&& forall|i: int|
        0 <= i < name.len() ==> (48 <= #[trigger] name[i] <= 57) || (97 <= name[i] <= 102)
}

/// Whether `name` is the name of a file content: 64 lowercase hexadecimal
/// digits.
pub fn is_fingerprint_name(name: &[u8]) -> (valid: bool)
    ensures
        valid == is_blob_name(name@),
{
    if name.len() != 64 {
        return false;
    }
    let mut i: usize = 0;
    while i < 64
        invariant
            i <= 64,
            name@.len() == 64,
            forall|k: int| 0 <= k < i ==> (48 <= #[trigger] name@[k] <= 57) || (97 <= name@[k] <= 102),
        decreases 64 - i,
    {
        let b = name[i];
        if !((48 <= b && b <= 57) || (97 <= b && b <= 102)) {
            return false;
        }
        i += 1;
    }
    true
}

/// The name of a file content is a name that a file can have on the channel.
pub proof fn lemma_blob_name_is_file_name(name: Seq<u8>)
    requires
        is_blob_name(name),
    ensures
        is_file_name(name),
{
    assert forall|i: int| 0 <= i < name.len() implies #[trigger] name[i] != 47 by {
        assert((48 <= name[i] <= 57) || (97 <= name[i] <= 102));
    }
}

/// The messages that carry a file named `name` with the content `data`.
///
/// Fails where the name is longer than [`MAX_MESSAGE`] bytes, else where it
/// is no single path component, and else where the content is longer than a
/// file header can announce.
pub fn send_file(name: &[u8], data: &[u8]) -> (r: Result<Vec<Vec<u8>>, WsvcError>)
    ensures
        match r {
            Ok(messages) => {
                &&& is_file_name(name@)
                &&& data@.len() <= MAX_LENGTH
                &&& messages_view(messages) == file_messages(name@, data@)
            },
            Err(e) => if name@.len() > MAX_MESSAGE {
                e@ == WsvcErrorView::DataError("file name too long"@)
            } else if !is_file_name(name@) {
                e@ == WsvcErrorView::DataError("invalid file name"@)
            } else {
                data@.len() > MAX_LENGTH && e@ == WsvcErrorView::DataError("file too long"@)
            },
        },
{
    if name.len() > MAX_MESSAGE {
        return Err(WsvcError::DataError("file name too long".to_owned()));
    }
    if !is_single_component(name) {
        return Err(WsvcError::DataError("invalid file name".to_owned()));
    }
    if data.len() as u64 > MAX_LENGTH {
        return Err(WsvcError::DataError("file too long".to_owned()));
    }
    let mut first: Vec<u8> = Vec::new();
    first.push(0x09);
    first.push(0x28);
    first.push(((name.len() / 256) % 256) as u8);
    first.push((name.len() % 256) as u8);
    assert(first@ =~= name_header(name@.len() as int));
    let second = copy_range(name, 0, name.len());
    assert(second@ =~= name@);
    let mut third: Vec<u8> = Vec::new();
    third.push(0x07);
    third.push(0x15);
    put_be32(&mut third, data.len());
    assert(third@ =~= file_header(data@.len() as int));
    let mut messages: Vec<Vec<u8>> = Vec::new();
    messages.push(first);
    messages.push(second);
    messages.push(third);
    assert(messages_view(messages) =~= seq![
        name_header(name@.len() as int),
        name@,
        file_header(data@.len() as int),
    ]);
    push_chunks(&mut messages, data);
    Ok(messages)
}

/// The receiving end of packets: what has arrived of the packet under way.
#[derive(Debug)]
pub struct PacketReader {
    /// The announced payload length, once a header has arrived.
    pub expected: Option<u64>,
    /// The payload bytes that have arrived.
    pub data: Vec<u8>,
}

/// What a [`PacketReader`] holds.
pub struct PacketReaderView {
    pub expected: Option<u64>,
    pub data: Seq<u8>,
}

impl View for PacketReader {
    type V = PacketReaderView;

    open spec fn view(&self) -> PacketReaderView {
        PacketReaderView { expected: self.expected, data: self.data@ }
    }
}

/// A reader that waits for a header.
pub open spec fn idle_reader() -> PacketReaderView {
    PacketReaderView { expected: None, data: Seq::empty() }
}

/// What a message does to a reader: the error, or the payload where the
/// message completes a packet, and the reader afterwards.
///
/// A reader that waits for a header refuses a message that is shorter than
/// a header or has the wrong magic; whatever follows the header in its
/// message is the start of the payload. Later messages are payload. The
/// packet is complete as soon as the announced number of bytes is there, and
/// the reader then waits for the next header.
#[verifier::opaque]
pub open spec fn fed(reader: PacketReaderView, message: Seq<u8>) -> (
    Result<Option<Seq<u8>>, WsvcErrorView>,
    PacketReaderView,
) {
    match reader.expected {
        None => if message.len() < 6 || message[0] != 0x33 || message[1] != 0x07 {
            (Err(WsvcErrorView::DataError("invalid packet header"@)), reader)
        } else {
            let size = read_be32(message, 2);
            let data = message.skip(6);
            if data.len() >= size {
                (Ok(Some(data)), idle_reader())
            } else {
                (Ok(None), PacketReaderView { expected: Some(size as u64), data })
            }
        },
        Some(size) => {
            let data = reader.data + message;
            if data.len() >= size {
                (Ok(Some(data)), idle_reader())
            } else {
                (Ok(None), PacketReaderView { expected: Some(size), data })
            }
        },
    }
}

impl PacketReader {
    /// A reader that waits for a header.
    pub fn new() -> (reader: PacketReader)
        ensures
            reader@ == idle_reader(),
    {
        PacketReader { expected: None, data: Vec::new() }
    }
}

/// Takes the next message of the channel. Returns the payload where the
/// message completes a packet.
pub fn recv_data(reader: &mut PacketReader, message: &[u8]) -> (r: Result<
    Option<Vec<u8>>,
    WsvcError,
>)
    ensures
        final(reader)@ == fed(old(reader)@, message@).1,
        match r {
            Ok(payload) => fed(old(reader)@, message@).0 == Ok::<
                Option<Seq<u8>>,
                WsvcErrorView,
            >(payload_view(payload)),
            Err(e) => fed(old(reader)@, message@).0 == Err::<Option<Seq<u8>>, WsvcErrorView>(e@),
        },
{
    reveal(fed);
    let size = match reader.expected {
        None => {
            if message.len() < 6 || message[0] != 0x33 || message[1] != 0x07 {
                return Err(WsvcError::DataError("invalid packet header".to_owned()));
            }
            let size = get_be32(message, 2);
            reader.data = copy_range(message, 6, message.len());
            assert(reader.data@ =~= message@.skip(6));
            size
        },
        Some(size) => {
            append_bytes(&mut reader.data, message);
            size
        },
    };
    if reader.data.len() as u64 >= size {
        let mut payload: Vec<u8> = Vec::new();
        std::mem::swap(&mut payload, &mut reader.data);
        reader.expected = None;
        Ok(Some(payload))
    } else {
        reader.expected = Some(size);
        Ok(None)
    }
}

/// Where the receiving end of a file stands.
#[derive(Clone, Copy, Debug, PartialEq, Eq, Structural)]
pub enum FileStage {
    /// Waiting for the message that announces the name.
    NameHeader,
    /// Waiting for the name.
    Name,
    /// Waiting for the message that announces the content.
    FileHeader,
    /// Waiting for more content.
    Content,
}

/// The receiving end of files: what has arrived of the file under way.
#[derive(Debug)]
pub struct FileReader {
    pub stage: FileStage,
    /// The announced length of the name.
    pub name_len: usize,
    /// The name, once it has arrived.
    pub name: Vec<u8>,
    /// The announced length of the content.
    pub size: u64,
    /// The content that has arrived.
    pub data: Vec<u8>,
}

/// What a [`FileReader`] holds.
pub struct FileReaderView {
    pub stage: FileStage,
    pub name_len: usize,
    pub name: Seq<u8>,
    pub size: u64,
    pub data: Seq<u8>,
}

impl View for FileReader {
    type V = FileReaderView;

    open spec fn view(&self) -> FileReaderView {
        FileReaderView {
            stage: self.stage,
            name_len: self.name_len,
            name: self.name@,
            size: self.size,
            data: self.data@,
        }
    }
}

/// A reader that waits for the start of a file.
pub open spec fn idle_file_reader() -> FileReaderView {
    FileReaderView {
        stage: FileStage::NameHeader,
        name_len: 0,
        name: Seq::empty(),
        size: 0,
        data: Seq::empty(),
    }
}

/// What a message does to a file reader: the error, or the file where the
/// message completes one, and the reader afterwards.
///
/// Each of the two header messages is refused where it is too short or has
/// the wrong magic. The name is the announced number of bytes from the
/// start of its message, which is refused where it is shorter, and where the
/// name is longer than [`MAX_MESSAGE`] bytes or no single path component: no
/// other name is ever handed on. Content beyond the announced length is
/// refused. A file of no content is complete
/// with its header. After an error the reader is as before.
#[verifier::opaque]
pub open spec fn file_fed(reader: FileReaderView, message: Seq<u8>) -> (
    Result<Option<TempFileView>, WsvcErrorView>,
    FileReaderView,
) {
    match reader.stage {
        FileStage::NameHeader => if message.len() < 4 || message[0] != 0x09 || message[1] != 0x28 {
            (Err(WsvcErrorView::DataError("invalid file name header"@)), reader)
        } else {
            (
                Ok(None),
                FileReaderView {
                    stage: FileStage::Name,
                    name_len: read_be16(message, 2) as usize,
                    ..reader
                },
            )
        },
        FileStage::Name => if message.len() < reader.name_len || !is_file_name(
            message.take(reader.name_len as int),
        ) {
            (Err(WsvcErrorView::DataError("invalid file name"@)), reader)
        } else {
            (
                Ok(None),
                FileReaderView {
                    stage: FileStage::FileHeader,
                    name: message.take(reader.name_len as int),
                    ..reader
                },
            )
        },
        FileStage::FileHeader => if !is_file_name(reader.name) {
            (Err(WsvcErrorView::DataError("invalid file name"@)), reader)
        } else if message.len() < 6 || message[0] != 0x07 || message[1] != 0x15 {
            (Err(WsvcErrorView::DataError("invalid file header"@)), reader)
        } else if read_be32(message, 2) == 0 {
            (Ok(Some(TempFileView { name: reader.name, data: Seq::empty() })), idle_file_reader())
        } else {
            (
                Ok(None),
                FileReaderView {
                    stage: FileStage::Content,
                    size: read_be32(message, 2) as u64,
                    data: Seq::empty(),
                    ..reader
                },
            )
        },
        FileStage::Content => {
            let data = reader.data + message;
            if !is_file_name(reader.name) {
                (Err(WsvcErrorView::DataError("invalid file name"@)), reader)
            } else if data.len() > reader.size {
                (Err(WsvcErrorView::DataError("invalid file data"@)), reader)
            } else if data.len() == reader.size {
                (Ok(Some(TempFileView { name: reader.name, data })), idle_file_reader())
            } else {
                (Ok(None), FileReaderView { data, ..reader })
            }
        },
    }
}

impl FileReader {
    /// A reader that waits for the start of a file.
    pub fn new() -> (reader: FileReader)
        ensures
            reader@ == idle_file_reader(),
    {
        FileReader {
            stage: FileStage::NameHeader,
            name_len: 0,
            name: Vec::new(),
            size: 0,
            data: Vec::new(),
        }
    }
}

/// What an optional received file holds.
pub open spec fn received_view(file: Option<TempFile>) -> Option<TempFileView> {
    match file {
        Some(f) => Some(f@),
        None => None,
    }
}

/// Takes the next message of the channel. Returns the file where the
/// message completes one. The name of a file that is returned is a single
/// path component of at most [`MAX_MESSAGE`] bytes; any other name is
/// refused.
pub fn recv_file(reader: &mut FileReader, message: &[u8]) -> (r: Result<Option<TempFile>, WsvcError>)
    ensures
        final(reader)@ == file_fed(old(reader)@, message@).1,
        r matches Ok(Some(file)) ==> is_file_name(file@.name),
        match r {
            Ok(file) => file_fed(old(reader)@, message@).0 == Ok::<
                Option<TempFileView>,
                WsvcErrorView,
            >(received_view(file)),
            Err(e) => file_fed(old(reader)@, message@).0 == Err::<
                Option<TempFileView>,
                WsvcErrorView,
            >(e@),
        },
{
    reveal(file_fed);
    match reader.stage {
        FileStage::NameHeader => {
            if message.len() < 4 || message[0] != 0x09 || message[1] != 0x28 {
                return Err(WsvcError::DataError("invalid file name header".to_owned()));
            }
            reader.name_len = (message[2] as usize) * 256 + (message[3] as usize);
            reader.stage = FileStage::Name;
            Ok(None)
        },
        FileStage::Name => {
            if message.len() < reader.name_len {
                return Err(WsvcError::DataError("invalid file name".to_owned()));
            }
            let name = copy_range(message, 0, reader.name_len);
            assert(name@ =~= message@.take(reader.name_len as int));
            if !is_single_component(name.as_slice()) {
                return Err(WsvcError::DataError("invalid file name".to_owned()));
            }
            reader.name = name;
            reader.stage = FileStage::FileHeader;
            Ok(None)
        },
        FileStage::FileHeader => {
            if !is_single_component(reader.name.as_slice()) {
                return Err(WsvcError::DataError("invalid file name".to_owned()));
            }
            if message.len() < 6 || message[0] != 0x07 || message[1] != 0x15 {
                return Err(WsvcError::DataError("invalid file header".to_owned()));
            }
            let size = get_be32(message, 2);
            if size == 0 {
                let mut name: Vec<u8> = Vec::new();
                std::mem::swap(&mut name, &mut reader.name);
                reader.stage = FileStage::NameHeader;
                reader.name_len = 0;
                reader.size = 0;
                reader.data = Vec::new();
                Ok(Some(TempFile { name, data: Vec::new() }))
            } else {
                reader.size = size;
                reader.data = Vec::new();
                reader.stage = FileStage::Content;
                Ok(None)
            }
        },
        FileStage::Content => {
            if !is_single_component(reader.name.as_slice()) {
                return Err(WsvcError::DataError("invalid file name".to_owned()));
            }
            if message.len() as u64 > reader.size || reader.data.len() as u64 > reader.size
                - message.len() as u64 {
                return Err(WsvcError::DataError("invalid file data".to_owned()));
            }
            append_bytes(&mut reader.data, message);
            if reader.data.len() as u64 == reader.size {
                let mut name: Vec<u8> = Vec::new();
                let mut data: Vec<u8> = Vec::new();
                std::mem::swap(&mut name, &mut reader.name);
                std::mem::swap(&mut data, &mut reader.data);
                reader.stage = FileStage::NameHeader;
                reader.name_len = 0;
                reader.size = 0;
                Ok(Some(TempFile { name, data }))
            } else {
                Ok(None)
            }
        },
    }
}

/// Whatever the reader holds and whatever comes, a file that is handed on
/// has a name of at most [`MAX_MESSAGE`] bytes that is a single path
/// component: written into a directory, it lies in that directory.
pub proof fn lemma_received_name(reader: FileReaderView, message: Seq<u8>)
    ensures
        file_fed(reader, message).0 matches Ok(Some(file)) ==> is_file_name(file.name),
{
    reveal(file_fed);
}

/// The reader after the first `n` of `messages`.
pub open spec fn fed_through(reader: PacketReaderView, messages: Seq<Seq<u8>>, n: nat)
    -> PacketReaderView
    decreases n,
{
    if n == 0 || n > messages.len() {
        reader
    } else {
        fed(fed_through(reader, messages, (n - 1) as nat), messages[n - 1]).1
    }
}

/// The file reader after the first `n` of `messages`.
pub open spec fn file_fed_through(reader: FileReaderView, messages: Seq<Seq<u8>>, n: nat)
    -> FileReaderView
    decreases n,
{
    if n == 0 || n > messages.len() {
        reader
    } else {
        file_fed(file_fed_through(reader, messages, (n - 1) as nat), messages[n - 1]).1
    }
}

/// Four bytes spell the number that they were made from.
pub proof fn lemma_be32(n: int)
    requires
        0 <= n <= MAX_LENGTH,
    ensures
        read_be32(be32(n), 0) == n,
        be32(n).len() == 4,
{
}

/// Two bytes spell the number that they were made from.
pub proof fn lemma_be16(n: int)
    requires
        0 <= n < 65536,
    ensures
        read_be16(be16(n), 0) == n,
        be16(n).len() == 2,
{
}

/// Number of messages that carry `len` bytes of payload.
pub open spec fn chunk_count(len: int) -> int {
    (len + MAX_MESSAGE - 1) / (MAX_MESSAGE as int)
}

/// The messages of a payload are its successive stretches of
/// [`MAX_MESSAGE`] bytes.
pub proof fn lemma_chunked(data: Seq<u8>, k: int)
    requires
        0 <= k < chunk_count(data.len() as int),
    ensures
        chunked(data).len() == chunk_count(data.len() as int),
        chunked(data)[k] == data.subrange(
            k * MAX_MESSAGE,
            if (k + 1) * MAX_MESSAGE < data.len() {
                (k + 1) * MAX_MESSAGE
            } else {
                data.len() as int
            },
        ),
    decreases data.len(),
{
    lemma_chunked_len(data);
    if data.len() <= MAX_MESSAGE {
        assert(data.subrange(0, data.len() as int) =~= data);
    } else {
        let rest = data.skip(MAX_MESSAGE as int);
        if k == 0 {
            assert(data.take(MAX_MESSAGE as int) =~= data.subrange(0, MAX_MESSAGE as int));
        } else {
            lemma_chunked(rest, k - 1);
            let end = if (k + 1) * MAX_MESSAGE < data.len() {
                (k + 1) * MAX_MESSAGE
            } else {
                data.len() as int
            };
            assert(rest.subrange((k - 1) * MAX_MESSAGE, end - MAX_MESSAGE) =~= data.subrange(
                k * MAX_MESSAGE,
                end,
            ));
            assert(chunked(data)[k] == chunked(rest)[k - 1]);
        }
    }
}

/// No message of a payload is empty, and none holds more than
/// [`MAX_MESSAGE`] bytes.
pub proof fn lemma_message_sizes(data: Seq<u8>, k: int)
    requires
        0 <= k < chunked(data).len(),
    ensures
        0 < chunked(data)[k].len() <= MAX_MESSAGE,
{
    lemma_chunked_len(data);
    lemma_chunked(data, k);
}

/// A payload takes as many messages as its length asks for.
pub proof fn lemma_chunked_len(data: Seq<u8>)
    ensures
        chunked(data).len() == chunk_count(data.len() as int),
    decreases data.len(),
{
    if data.len() > MAX_MESSAGE {
        lemma_chunked_len(data.skip(MAX_MESSAGE as int));
    }
}

/// The bytes carried by the first `k` messages of a payload.
pub open spec fn carried(data: Seq<u8>, k: int) -> Seq<u8> {
    if k * MAX_MESSAGE < data.len() {
        data.take(k * MAX_MESSAGE)
    } else {
        data
    }
}

/// The header of a packet completes it where the payload is empty, and
/// else leaves the reader waiting for the payload.
proof fn lemma_header_step(len: int)
    requires
        0 <= len <= MAX_LENGTH,
    ensures
        fed(idle_reader(), packet_header(len)) == if len == 0 {
            (Ok::<Option<Seq<u8>>, WsvcErrorView>(Some(Seq::<u8>::empty())), idle_reader())
        } else {
            (
                Ok::<Option<Seq<u8>>, WsvcErrorView>(None),
                PacketReaderView { expected: Some(len as u64), data: Seq::<u8>::empty() },
            )
        },
{
    reveal(fed);
    let header = packet_header(len);
    lemma_be32(len);
    assert(header.len() == 6);
    assert(header[0] == 0x33 && header[1] == 0x07);
    assert(read_be32(header, 2) == read_be32(be32(len), 0));
    assert(header.skip(6) =~= Seq::<u8>::empty());
}

/// A payload message completes the packet where it brings the last bytes,
/// and else is added to what the reader holds.
proof fn lemma_body_step(size: u64, held: Seq<u8>, message: Seq<u8>)
    ensures
        fed(PacketReaderView { expected: Some(size), data: held }, message) == if held.len()
            + message.len() >= size {
            (Ok::<Option<Seq<u8>>, WsvcErrorView>(Some(held + message)), idle_reader())
        } else {
            (
                Ok::<Option<Seq<u8>>, WsvcErrorView>(None),
                PacketReaderView { expected: Some(size), data: held + message },
            )
        },
{
    reveal(fed);
}

/// What the first `k` messages of a payload carry, and the next one.
proof fn lemma_carried(data: Seq<u8>, k: int)
    requires
        0 <= k < chunk_count(data.len() as int),
    ensures
        carried(data, k).len() < data.len(),
        carried(data, k) + chunked(data)[k] == carried(data, k + 1),
        carried(data, 0) == Seq::<u8>::empty(),
        k + 1 < chunk_count(data.len() as int) ==> carried(data, k + 1).len() < data.len(),
        k + 1 == chunk_count(data.len() as int) ==> carried(data, k + 1) == data,
        chunked(data).len() == chunk_count(data.len() as int),
{
    lemma_chunked(data, k);
    assert(carried(data, k) + chunked(data)[k] =~= carried(data, k + 1));
    assert(carried(data, 0) =~= Seq::<u8>::empty());
}

/// While the messages of a packet arrive, the reader holds the bytes that
/// have come and waits for the rest.
proof fn lemma_packet_under_way(data: Seq<u8>, k: int)
    requires
        0 < data.len() <= MAX_LENGTH,
        0 <= k < chunk_count(data.len() as int),
    ensures
        fed_through(idle_reader(), packet_messages(data), (k + 1) as nat) == (PacketReaderView {
            expected: Some(data.len() as u64),
            data: carried(data, k),
        }),
        forall|n: int|
            0 <= n <= k ==> fed(
                fed_through(idle_reader(), packet_messages(data), n as nat),
                #[trigger] packet_messages(data)[n],
            ).0 == Ok::<Option<Seq<u8>>, WsvcErrorView>(None),
    decreases k,
{
    let messages = packet_messages(data);
    lemma_carried(data, k);
    assert(messages.len() == 1 + chunk_count(data.len() as int));
    if k == 0 {
        lemma_header_step(data.len() as int);
        assert(messages[0] == packet_header(data.len() as int));
        assert(fed_through(idle_reader(), messages, 0) == idle_reader());
        assert(fed_through(idle_reader(), messages, 1) == fed(idle_reader(), messages[0]).1);
    } else {
        lemma_packet_under_way(data, k - 1);
        lemma_carried(data, k - 1);
        let before = fed_through(idle_reader(), messages, k as nat);
        assert(messages[k] == chunked(data)[k - 1]);
        lemma_body_step(data.len() as u64, carried(data, k - 1), messages[k]);
        assert(fed_through(idle_reader(), messages, (k + 1) as nat) == fed(before, messages[k]).1);
        assert forall|n: int| 0 <= n <= k implies fed(
            fed_through(idle_reader(), messages, n as nat),
            #[trigger] messages[n],
        ).0 == Ok::<Option<Seq<u8>>, WsvcErrorView>(None) by {
            if n == k {
            }
        }
    }
}

/// What was sent as a packet is what is received: while the messages of a
/// packet arrive, none but the last completes it, and the last gives the
/// payload as it was sent and leaves the reader ready for the next packet.
pub proof fn lemma_packet_round_trip(data: Seq<u8>)
    requires
        data.len() <= MAX_LENGTH,
    ensures
        ({
            let messages = packet_messages(data);
            let last = messages.len() - 1;
            &&& fed(fed_through(idle_reader(), messages, last as nat), messages[last]) == (
                Ok::<Option<Seq<u8>>, WsvcErrorView>(Some(data)),
                idle_reader(),
            )
            &&& forall|n: int|
                0 <= n < last ==> fed(
                    fed_through(idle_reader(), messages, n as nat),
                    #[trigger] messages[n],
                ).0 == Ok::<Option<Seq<u8>>, WsvcErrorView>(None)
        }),
{
    let messages = packet_messages(data);
    lemma_chunked_len(data);
    assert(messages.len() == 1 + chunk_count(data.len() as int));
    assert(messages[0] == packet_header(data.len() as int));
    if data.len() == 0 {
        lemma_header_step(0);
        assert(data =~= Seq::<u8>::empty());
        assert(fed_through(idle_reader(), messages, 0) == idle_reader());
    } else {
        let count = chunk_count(data.len() as int);
        lemma_packet_under_way(data, count - 1);
        lemma_carried(data, count - 1);
        assert(messages[count] == chunked(data)[count - 1]);
        lemma_body_step(data.len() as u64, carried(data, count - 1), messages[count]);
    }
}

/// The reader of a file whose name has arrived and whose content is awaited.
pub open spec fn named_reader(name: Seq<u8>, stage: FileStage, size: u64, held: Seq<u8>)
    -> FileReaderView {
    FileReaderView { stage, name_len: name.len() as usize, name, size, data: held }
}

/// The three messages in front of the content of a file bring the reader
/// to the content, or complete the file where it has none.
proof fn lemma_file_start(name: Seq<u8>, len: int)
    requires
        is_file_name(name),
        0 <= len <= MAX_LENGTH,
    ensures
        file_fed(idle_file_reader(), name_header(name.len() as int)) == (
            Ok::<Option<TempFileView>, WsvcErrorView>(None),
            FileReaderView {
                stage: FileStage::Name,
                name_len: name.len() as usize,
                ..idle_file_reader()
            },
        ),
        file_fed(
            FileReaderView {
                stage: FileStage::Name,
                name_len: name.len() as usize,
                ..idle_file_reader()
            },
            name,
        ) == (
            Ok::<Option<TempFileView>, WsvcErrorView>(None),
            named_reader(name, FileStage::FileHeader, 0, Seq::empty()),
        ),
        file_fed(named_reader(name, FileStage::FileHeader, 0, Seq::empty()), file_header(len))
            == if len == 0 {
            (
                Ok::<Option<TempFileView>, WsvcErrorView>(
                    Some(TempFileView { name, data: Seq::empty() }),
                ),
                idle_file_reader(),
            )
        } else {
            (
                Ok::<Option<TempFileView>, WsvcErrorView>(None),
                named_reader(name, FileStage::Content, len as u64, Seq::empty()),
            )
        },
{
    reveal(file_fed);
    lemma_be16(name.len() as int);
    lemma_be32(len);
    let first = name_header(name.len() as int);
    assert(first.len() == 4 && first[0] == 0x09 && first[1] == 0x28);
    assert(read_be16(first, 2) == read_be16(be16(name.len() as int), 0));
    assert(name.take(name.len() as int) =~= name);
    let third = file_header(len);
    assert(third.len() == 6 && third[0] == 0x07 && third[1] == 0x15);
    assert(read_be32(third, 2) == read_be32(be32(len), 0));
}

/// A content message completes the file where it brings the last bytes, and
/// else is added to what the reader holds.
proof fn lemma_content_step(name: Seq<u8>, size: u64, held: Seq<u8>, message: Seq<u8>)
    requires
        is_file_name(name),
        held.len() + message.len() <= size,
    ensures
        file_fed(named_reader(name, FileStage::Content, size, held), message) == if held.len()
            + message.len() == size {
            (
                Ok::<Option<TempFileView>, WsvcErrorView>(
                    Some(TempFileView { name, data: held + message }),
                ),
                idle_file_reader(),
            )
        } else {
            (
                Ok::<Option<TempFileView>, WsvcErrorView>(None),
                named_reader(name, FileStage::Content, size, held + message),
            )
        },
{
    reveal(file_fed);
}

/// While the content of a file arrives, the reader holds the bytes that have
/// come and waits for the rest.
proof fn lemma_file_under_way(name: Seq<u8>, data: Seq<u8>, k: int)
    requires
        is_file_name(name),
        0 < data.len() <= MAX_LENGTH,
        0 <= k < chunk_count(data.len() as int),
    ensures
        file_fed_through(idle_file_reader(), file_messages(name, data), (k + 3) as nat)
            == named_reader(name, FileStage::Content, data.len() as u64, carried(data, k)),
        forall|n: int|
            0 <= n < k + 3 ==> file_fed(
                file_fed_through(idle_file_reader(), file_messages(name, data), n as nat),
                #[trigger] file_messages(name, data)[n],
            ).0 == Ok::<Option<TempFileView>, WsvcErrorView>(None),
    decreases k,
{
    let messages = file_messages(name, data);
    let idle = idle_file_reader();
    lemma_carried(data, k);
    assert(messages.len() == 3 + chunk_count(data.len() as int));
    if k == 0 {
        lemma_file_start(name, data.len() as int);
        assert(messages[0] == name_header(name.len() as int));
        assert(messages[1] == name);
        assert(messages[2] == file_header(data.len() as int));
        assert(file_fed_through(idle, messages, 0) == idle);
        assert(file_fed_through(idle, messages, 1) == file_fed(idle, messages[0]).1);
        assert(file_fed_through(idle, messages, 2) == file_fed(
            file_fed_through(idle, messages, 1),
            messages[1],
        ).1);
        assert(file_fed_through(idle, messages, 3) == file_fed(
            file_fed_through(idle, messages, 2),
            messages[2],
        ).1);
    } else {
        lemma_file_under_way(name, data, k - 1);
        lemma_carried(data, k - 1);
        let before = file_fed_through(idle, messages, (k + 2) as nat);
        assert(messages[k + 2] == chunked(data)[k - 1]);
        lemma_content_step(name, data.len() as u64, carried(data, k - 1), messages[k + 2]);
        assert(file_fed_through(idle, messages, (k + 3) as nat) == file_fed(
            before,
            messages[k + 2],
        ).1);
        assert forall|n: int| 0 <= n < k + 3 implies file_fed(
            file_fed_through(idle, messages, n as nat),
            #[trigger] messages[n],
        ).0 == Ok::<Option<TempFileView>, WsvcErrorView>(None) by {
            if n == k + 2 {
            }
        }
    }
}

/// What was sent as a file is what is received: while the messages of a file
/// arrive, none but the last completes it, and the last gives the name and
/// the content as they were sent and leaves the reader ready for the next file.
pub proof fn lemma_file_round_trip(name: Seq<u8>, data: Seq<u8>)
    requires
        is_file_name(name),
        data.len() <= MAX_LENGTH,
    ensures
        ({
            let messages = file_messages(name, data);
            let last = messages.len() - 1;
            &&& file_fed(
                file_fed_through(idle_file_reader(), messages, last as nat),
                messages[last],
            ) == (
                Ok::<Option<TempFileView>, WsvcErrorView>(Some(TempFileView { name, data })),
                idle_file_reader(),
            )
            &&& forall|n: int|
                0 <= n < last ==> file_fed(
                    file_fed_through(idle_file_reader(), messages, n as nat),
                    #[trigger] messages[n],
                ).0 == Ok::<Option<TempFileView>, WsvcErrorView>(None)
        }),
{
    let messages = file_messages(name, data);
    let idle = idle_file_reader();
    lemma_chunked_len(data);
    assert(messages.len() == 3 + chunk_count(data.len() as int));
    if data.len() == 0 {
        lemma_file_start(name, 0);
        assert(data =~= Seq::<u8>::empty());
        assert(messages[0] == name_header(name.len() as int));
        assert(messages[1] == name);
        assert(messages[2] == file_header(0));
        assert(file_fed_through(idle, messages, 0) == idle);
        assert(file_fed_through(idle, messages, 1) == file_fed(idle, messages[0]).1);
        assert(file_fed_through(idle, messages, 2) == file_fed(
            file_fed_through(idle, messages, 1),
            messages[1],
        ).1);
    } else {
        let count = chunk_count(data.len() as int);
        lemma_file_under_way(name, data, count - 1);
        lemma_carried(data, count - 1);
        assert(messages[count + 2] == chunked(data)[count - 1]);
        lemma_content_step(name, data.len() as u64, carried(data, count - 1), messages[count + 2]);
    }
}

} // verus!
