//! The Wayland wire format that the daemon speaks: 32-bit words in the
//! machine's byte order, strings with a length word, a NUL and padding to
//! four bytes, and messages with a sender word and a size-and-opcode word.
use vstd::prelude::*;
use vstd::utf8::{decode_utf8, encode_utf8, valid_utf8};

use crate::decimal::{decimal, push_decimal};

verus! {

broadcast use vstd::string::group_string_axioms;

/// The order in which the bytes of a 32-bit word are laid out; Wayland
/// uses the machine's own.
#[derive(Clone, Copy, Debug, PartialEq, Eq, Structural)]
pub enum ByteOrder {
    Little,
    Big,
}

/// The bytes of `x`, least significant first.
pub open spec fn le_bytes(x: u32) -> Seq<u8> {
    seq![(x & 0xff) as u8, ((x >> 8) & 0xff) as u8, ((x >> 16) & 0xff) as u8, ((x >> 24) & 0xff) as u8]
}

/// The bytes of `x` in the given order.
pub open spec fn u32_bytes(order: ByteOrder, x: u32) -> Seq<u8> {
    let b = le_bytes(x);
    match order {
        ByteOrder::Little => b,
        ByteOrder::Big => seq![b[3], b[2], b[1], b[0]],
    }
}

/// The word whose bytes, least significant first, are `b0` to `b3`.
pub open spec fn le_value(b0: u8, b1: u8, b2: u8, b3: u8) -> u32 {
    (b0 as u32) | ((b1 as u32) << 8) | ((b2 as u32) << 16) | ((b3 as u32) << 24)
}

/// The word held by the four bytes `b` in the given order.
pub open spec fn u32_value(order: ByteOrder, b: Seq<u8>) -> u32 {
    match order {
        ByteOrder::Little => le_value(b[0], b[1], b[2], b[3]),
        ByteOrder::Big => le_value(b[3], b[2], b[1], b[0]),
    }
}

/// Reading the bytes of a word gives the word back.
pub proof fn law_u32_round_trip(order: ByteOrder, x: u32)
    ensures
        u32_value(order, u32_bytes(order, x)) == x,
        u32_bytes(order, x).len() == 4,
{
    assert(le_value(
        (x & 0xff) as u8,
        ((x >> 8) & 0xff) as u8,
        ((x >> 16) & 0xff) as u8,
        ((x >> 24) & 0xff) as u8,
    ) == x) by (bit_vector);
}

/// Appends the bytes of `x` in the given order.
pub fn push_u32(data: &mut Vec<u8>, x: u32, order: ByteOrder)
    ensures
        final(data)@ == old(data)@ + u32_bytes(order, x),
{
    let b0 = (x & 0xff) as u8;
    let b1 = ((x >> 8) & 0xff) as u8;
    let b2 = ((x >> 16) & 0xff) as u8;
    let b3 = ((x >> 24) & 0xff) as u8;
    match order {
        ByteOrder::Little => {
            data.push(b0);
            data.push(b1);
            data.push(b2);
            data.push(b3);
        },
        ByteOrder::Big => {
            data.push(b3);
            data.push(b2);
            data.push(b1);
            data.push(b0);
        },
    }
    assert(final(data)@ =~= old(data)@ + u32_bytes(order, x));
}

/// The word in `data[at..at + 4]`.
pub fn u32_at(data: &[u8], at: usize, order: ByteOrder) -> (x: u32)
    requires
        at + 4 <= data@.len(),
    ensures
        x == u32_value(order, data@.subrange(at as int, at + 4)),
{
    let _n = data.len();
    let (b0, b1, b2, b3) = match order {
        ByteOrder::Little => (data[at], data[at + 1], data[at + 2], data[at + 3]),
        ByteOrder::Big => (data[at + 3], data[at + 2], data[at + 1], data[at]),
    };
    (b0 as u32) | ((b1 as u32) << 8) | ((b2 as u32) << 16) | ((b3 as u32) << 24)
}

/// `n` rounded up to a multiple of four.
pub open spec fn round4(n: int) -> int {
    ((n + 3) / 4) * 4
}

/// `len` rounded up to a multiple of four, as strings are padded.
pub fn padded_len(len: usize) -> (p: usize)
    requires
        len + 3 <= usize::MAX,
    ensures
        p == round4(len as int),
{
    let s = len + 3;
    let p = s & !3usize;
    assert((s & !3usize) == (s / 4) * 4) by (bit_vector);
    p
}

/// `n` zero bytes.
pub open spec fn zeros(n: nat) -> Seq<u8> {
    Seq::new(n, |i: int| 0u8)
}

/// The number of zero bytes that bring a length of `n` to a multiple of four.
pub open spec fn pad_for(n: int) -> nat {
    ((4 - n % 4) % 4) as nat
}

/// The encoding of a string whose bytes are `b`, written at an offset of
/// `at` bytes: the length of the bytes and their NUL, the bytes, the NUL,
/// and zeros up to a multiple of four.
pub open spec fn string_bytes(order: ByteOrder, b: Seq<u8>, at: int) -> Seq<u8> {
    u32_bytes(order, (b.len() + 1) as u32) + b + seq![0u8] + zeros(pad_for(at + 4 + b.len() + 1))
}

/// Appends `value` as a Wayland string.
pub fn push_string(data: &mut Vec<u8>, value: &str, order: ByteOrder)
    requires
        encode_utf8(value@).len() < usize::MAX,
    ensures
        final(data)@ == old(data)@ + string_bytes(order, encode_utf8(value@), old(data)@.len() as int),
        final(data)@.len() % 4 == 0,
{
    let len = value.len() + 1;
    push_u32(data, len as u32, order);
    let bytes = value.as_bytes();
    let ghost mid = data@;
    let mut i: usize = 0;
    while i < bytes.len()
        invariant
            i <= bytes@.len(),
            data@ == mid + bytes@.subrange(0, i as int),
        decreases bytes@.len() - i,
    {
        data.push(bytes[i]);
        i = i + 1;
        assert(bytes@.subrange(0, i as int) =~= bytes@.subrange(0, i - 1).push(bytes@[i - 1]));
    }
    assert(bytes@.subrange(0, bytes@.len() as int) =~= bytes@);
    data.push(0);
    let pad = (4 - data.len() % 4) % 4;
    let ghost base = data@;
    let mut k: usize = 0;
    while k < pad
        invariant
            k <= pad,
            data@ == base + zeros(k as nat),
        decreases pad - k,
    {
        data.push(0);
        k = k + 1;
        assert(zeros(k as nat) =~= zeros((k - 1) as nat).push(0u8));
    }
    assert(data@ =~= old(data)@ + string_bytes(order, encode_utf8(value@), old(data)@.len() as int));
}

/// An argument of a request.
pub enum Arg<'a> {
    U32(u32),
    String(&'a str),
    /// A file descriptor, which travels beside the bytes.
    Fd,
}

/// An argument by what it writes.
pub enum ArgView {
    U32(u32),
    String(Seq<u8>),
    Fd,
}

impl<'a> View for Arg<'a> {
    type V = ArgView;

    open spec fn view(&self) -> ArgView {
        match self {
            Arg::U32(x) => ArgView::U32(*x),
            Arg::String(s) => ArgView::String(encode_utf8(s@)),
            Arg::Fd => ArgView::Fd,
        }
    }
}

/// The bytes of an argument written at an offset of `at` bytes.
pub open spec fn arg_bytes(order: ByteOrder, a: ArgView, at: int) -> Seq<u8> {
    match a {
        ArgView::U32(x) => u32_bytes(order, x),
        ArgView::String(b) => string_bytes(order, b, at),
        ArgView::Fd => Seq::empty(),
    }
}

/// The bytes of the arguments, the first written at an offset of `at` bytes.
pub open spec fn args_bytes(order: ByteOrder, args: Seq<ArgView>, at: int) -> Seq<u8>
    decreases args.len(),
{
    if args.len() == 0 {
        Seq::empty()
    } else {
        let before = args_bytes(order, args.drop_last(), at);
        before + arg_bytes(order, args.last(), at + before.len())
    }
}

/// Each argument by what it writes.
pub open spec fn arg_views(args: Seq<Arg>) -> Seq<ArgView> {
    args.map_values(|a: Arg| a@)
}

/// The message from `sender` with `opcode` and the arguments `args`: the
/// sender, the size in the upper and the opcode in the lower half of a
/// word, then the arguments.
pub open spec fn message_bytes(order: ByteOrder, sender: u32, opcode: u16, args: Seq<ArgView>) -> Seq<u8> {
    let body = args_bytes(order, args, 8);
    let size = (8 + body.len()) as u32;
    u32_bytes(order, sender) + u32_bytes(order, (size << 16) | (opcode as u32)) + body
}

/// The bytes of a request from `sender` with `opcode` and `args`.
pub fn encode_message(sender: u32, opcode: u16, args: &[Arg], order: ByteOrder) -> (data: Vec<u8>)
    requires
        forall|i: int|
            0 <= i < args@.len() ==> match #[trigger] args@[i] {
                Arg::String(s) => encode_utf8(s@).len() < usize::MAX,
                _ => true,
            },
    ensures
        data@ == message_bytes(order, sender, opcode, arg_views(args@)),
{
    let mut data: Vec<u8> = Vec::new();
    push_u32(&mut data, sender, order);
    push_u32(&mut data, 0, order);
    let ghost head = data@;
    let mut i: usize = 0;
    while i < args.len()
        invariant
            i <= args@.len(),
            head.len() == 8,
            forall|j: int|
                0 <= j < args@.len() ==> match #[trigger] args@[j] {
                    Arg::String(s) => encode_utf8(s@).len() < usize::MAX,
                    _ => true,
                },
            data@ == head + args_bytes(order, arg_views(args@).subrange(0, i as int), 8),
        decreases args@.len() - i,
    {
        let ghost before = data@;
        match &args[i] {
            Arg::U32(x) => push_u32(&mut data, *x, order),
            Arg::String(s) => push_string(&mut data, *s, order),
            Arg::Fd => {},
        }
        i = i + 1;
        proof {
            let sub = arg_views(args@).subrange(0, i as int);
            assert(sub.drop_last() =~= arg_views(args@).subrange(0, i - 1));
            assert(sub.last() == args@[i - 1]@);
            assert(data@ =~= head + args_bytes(order, sub, 8));
        }
    }
    assert(arg_views(args@).subrange(0, args@.len() as int) =~= arg_views(args@));
    let ghost body = args_bytes(order, arg_views(args@), 8);
    let size = data.len() as u32;
    let header = (size << 16) | (opcode as u32);
    let mut out: Vec<u8> = Vec::new();
    push_u32(&mut out, sender, order);
    push_u32(&mut out, header, order);
    let mut k: usize = 8;
    while k < data.len()
        invariant
            8 <= k <= data@.len(),
            data@ == head + body,
            head.len() == 8,
            out@ == u32_bytes(order, sender) + u32_bytes(order, header) + body.subrange(0, k - 8),
        decreases data@.len() - k,
    {
        out.push(data[k]);
        k = k + 1;
        assert(body.subrange(0, k - 8) =~= body.subrange(0, k - 9).push(data@[k - 1]));
    }
    assert(body.subrange(0, body.len() as int) =~= body);
    out
}

/// The message for a size word that cannot be.
pub open spec fn bad_size_message(size: usize) -> Seq<char> {
    "invalid wayland message size "@ + decimal(size as nat)
}

/// The size of the message at the start of `bytes`: the upper half of its
/// second word, which counts the eight header bytes.
pub open spec fn spec_message_size(order: ByteOrder, bytes: Seq<u8>) -> Result<usize, Seq<char>> {
    let size = (u32_value(order, bytes.subrange(4, 8)) >> 16) as usize;
    if size < 8 {
        Err(bad_size_message(size))
    } else {
        Ok(size)
    }
}

/// The size of the message at the start of `bytes`.
pub fn message_size(bytes: &[u8], order: ByteOrder) -> (r: Result<usize, String>)
    requires
        bytes@.len() >= 8,
    ensures
        match r {
            Ok(s) => spec_message_size(order, bytes@) == Ok::<usize, Seq<char>>(s),
            Err(e) => spec_message_size(order, bytes@) == Err::<usize, Seq<char>>(e@),
        },
{
    let word = u32_at(bytes, 4, order);
    let size = (word >> 16) as usize;
    if size < 8 {
        let mut e = String::from_str("invalid wayland message size ");
        push_decimal(&mut e, size as u64);
        Err(e)
    } else {
        Ok(size)
    }
}

/// Whether `bytes` begins with a whole message: a header, and as many bytes
/// as its size word counts.
pub fn has_buffered_message(bytes: &[u8], order: ByteOrder) -> (r: Result<bool, String>)
    ensures
        bytes@.len() < 8 ==> r == Ok::<bool, String>(false),
        bytes@.len() >= 8 ==> match r {
            Ok(b) => spec_message_size(order, bytes@) matches Ok(size) && b == (bytes@.len() >= size),
            Err(e) => spec_message_size(order, bytes@) == Err::<usize, Seq<char>>(e@),
        },
{
    if bytes.len() < 8 {
        return Ok(false);
    }
    match message_size(bytes, order) {
        Ok(size) => Ok(bytes.len() >= size),
        Err(e) => Err(e),
    }
}

/// The sender, the opcode and the arguments of the message held by `bytes`.
pub open spec fn spec_decode_message(order: ByteOrder, bytes: Seq<u8>) -> (u32, u16, Seq<u8>) {
    (
        u32_value(order, bytes.subrange(0, 4)),
        (u32_value(order, bytes.subrange(4, 8)) & 0xffff) as u16,
        bytes.subrange(8, bytes.len() as int),
    )
}

/// The sender, the opcode and the arguments of the message held by `bytes`.
pub fn decode_message(bytes: &[u8], order: ByteOrder) -> (m: (u32, u16, Vec<u8>))
    requires
        bytes@.len() >= 8,
    ensures
        (m.0, m.1, m.2@) == spec_decode_message(order, bytes@),
{
    let sender = u32_at(bytes, 0, order);
    let word = u32_at(bytes, 4, order);
    let opcode = (word & 0xffff) as u16;
    let mut data: Vec<u8> = Vec::new();
    let mut k: usize = 8;
    while k < bytes.len()
        invariant
            8 <= k <= bytes@.len(),
            data@ == bytes@.subrange(8, k as int),
        decreases bytes@.len() - k,
    {
        data.push(bytes[k]);
        k = k + 1;
        assert(bytes@.subrange(8, k as int) =~= bytes@.subrange(8, k - 1).push(bytes@[k - 1]));
    }
    (sender, opcode, data)
}

/// Whether a message with `opcode` and the arguments `data` is a data
/// source's request to send: opcode 0, and exactly one nonempty string.
pub open spec fn spec_source_send_event(order: ByteOrder, opcode: u16, data: Seq<u8>) -> bool {
    if opcode != 0 || data.len() < 4 {
        false
    } else {
        let len = u32_value(order, data.subrange(0, 4));
        len > 0 && 4 + round4(len as int) == data.len()
    }
}

/// Whether a message is a data source's request to send, which carries a
/// file descriptor.
pub fn source_send_event(opcode: u16, data: &[u8], order: ByteOrder) -> (b: bool)
    ensures
        b == spec_source_send_event(order, opcode, data@),
{
    if opcode != 0 || data.len() < 4 {
        return false;
    }
    let len = u32_at(data, 0, order) as u64;
    let padded = (len + 3) / 4 * 4;
    len > 0 && 4 + padded == data.len() as u64
}

/// Decodes bytes as UTF-8.
/// Trusted: `String::from_utf8` accepts exactly the byte sequences that are
/// valid UTF-8 and gives the characters they encode; when it refuses, the
/// message is the one std's error displays, of which nothing is stated.
#[verifier::external_body]
fn string_from_utf8(bytes: Vec<u8>) -> (r: Result<String, String>)
    ensures
        match r {
            Ok(s) => valid_utf8(bytes@) && s@ == decode_utf8(bytes@),
            Err(_) => !valid_utf8(bytes@),
        },
{
    match String::from_utf8(bytes) {
        Ok(s) => Ok(s),
        Err(e) => Err(e.to_string()),
    }
}

/// A cursor over the arguments of a message.
pub struct Reader<'a> {
    data: &'a [u8],
    offset: usize,
    order: ByteOrder,
}

/// What a string argument at `offset` reads as: `None` when its length is
/// zero or runs past the end, else the bytes before its NUL.
pub open spec fn string_field(data: Seq<u8>, offset: int, len: u32) -> Option<Seq<u8>> {
    if len == 0 || offset + len > data.len() {
        None
    } else {
        Some(data.subrange(offset, offset + len - 1))
    }
}

impl<'a> Reader<'a> {
    #[verifier::type_invariant]
    spec fn inv(self) -> bool {
        &&& self.data@.len() <= isize::MAX
        &&& self.offset <= self.data@.len() + 3
    }

    /// The bytes under the cursor.
    pub closed spec fn bytes(self) -> Seq<u8> {
        self.data@
    }

    /// Where the cursor stands.
    pub closed spec fn pos(self) -> int {
        self.offset as int
    }

    /// The byte order of the words read.
    pub closed spec fn byte_order(self) -> ByteOrder {
        self.order
    }

    /// A cursor at the start of `data`, a slice, which Rust keeps within
    /// `isize::MAX` bytes.
    pub fn new(data: &'a [u8], order: ByteOrder) -> (r: Self)
        requires
            data@.len() <= isize::MAX,
        ensures
            r.bytes() == data@,
            r.pos() == 0,
            r.byte_order() == order,
    {
        Reader { data, offset: 0, order }
    }

    /// The next word.
    pub fn u32(&mut self) -> (r: Result<u32, String>)
        ensures
            final(self).bytes() == old(self).bytes(),
            final(self).byte_order() == old(self).byte_order(),
            match r {
                Ok(x) => {
                    &&& old(self).pos() + 4 <= old(self).bytes().len()
                    &&& x == u32_value(
                        old(self).byte_order(),
                        old(self).bytes().subrange(old(self).pos(), old(self).pos() + 4),
                    )
                    &&& final(self).pos() == old(self).pos() + 4
                },
                Err(e) => {
                    &&& old(self).pos() + 4 > old(self).bytes().len()
                    &&& e@ == "short wayland event"@
                    &&& final(self).pos() == old(self).pos()
                },
            },
    {
        proof {
            use_type_invariant(&*self);
        }
        if self.offset > self.data.len() || self.data.len() - self.offset < 4 {
            return Err(String::from_str("short wayland event"));
        }
        let x = u32_at(self.data, self.offset, self.order);
        self.offset = self.offset + 4;
        Ok(x)
    }

    /// The next string: a length word, that many bytes with a NUL last, and
    /// padding up to a multiple of four.
    pub fn string(&mut self) -> (r: Result<String, String>)
        ensures
            final(self).bytes() == old(self).bytes(),
            final(self).byte_order() == old(self).byte_order(),
            ({
                let data = old(self).bytes();
                let at = old(self).pos();
                if at + 4 > data.len() {
                    &&& r matches Err(e) && e@ == "short wayland event"@
                    &&& final(self).pos() == at
                } else {
                    let len = u32_value(old(self).byte_order(), data.subrange(at, at + 4));
                    match string_field(data, at + 4, len) {
                        None => {
                            &&& r matches Err(e) && e@ == "invalid wayland string"@
                            &&& final(self).pos() == at + 4
                        },
                        Some(b) => {
                            &&& final(self).pos() == round4(at + 4 + len)
                            &&& match r {
                                Ok(s) => valid_utf8(b) && s@ == decode_utf8(b),
                                Err(e) => !valid_utf8(b) && e@.len() >= 31 && e@.subrange(0, 31)
                                    == "invalid utf-8 from compositor: "@,
                            }
                        },
                    }
                }
            }),
    {
        let len = match self.u32() {
            Ok(x) => x as usize,
            Err(e) => {
                return Err(e);
            },
        };
        proof {
            use_type_invariant(&*self);
        }
        if len == 0 || self.offset > self.data.len() || self.data.len() - self.offset < len {
            return Err(String::from_str("invalid wayland string"));
        }
        let start = self.offset;
        let mut bytes: Vec<u8> = Vec::new();
        let mut k = start;
        let stop = start + len - 1;
        while k < stop
            invariant
                stop == start + len - 1,
                start <= k <= stop,
                start + len <= self.data@.len(),
                bytes@ == self.data@.subrange(start as int, k as int),
            decreases stop - k,
        {
            bytes.push(self.data[k]);
            k = k + 1;
            assert(self.data@.subrange(start as int, k as int) =~= self.data@.subrange(
                start as int,
                k - 1,
            ).push(self.data@[k - 1]));
        }
        let end = start + len;
        let rounded = end + (4 - end % 4) % 4;
        assert(rounded == round4(end as int));
        self.offset = rounded;
        match string_from_utf8(bytes) {
            Ok(s) => Ok(s),
            Err(why) => {
                let mut e = String::from_str("invalid utf-8 from compositor: ");
                proof {
                    reveal_strlit("invalid utf-8 from compositor: ");
                }
                e.append(why.as_str());
                assert(e@.subrange(0, 31) =~= "invalid utf-8 from compositor: "@);
                Err(e)
            },
        }
    }
}

/// The word at `at` in `data`, if there are four bytes there.
pub open spec fn word_at(order: ByteOrder, data: Seq<u8>, at: int) -> Option<u32> {
    if at + 4 <= data.len() {
        Some(u32_value(order, data.subrange(at, at + 4)))
    } else {
        None
    }
}

/// The bytes of the string argument at `at` in `data`, if it is well formed.
pub open spec fn string_bytes_at(order: ByteOrder, data: Seq<u8>, at: int) -> Option<Seq<u8>> {
    match word_at(order, data, at) {
        None => None,
        Some(len) => string_field(data, at + 4, len),
    }
}

/// The text of the string argument at `at`, if it is well formed and UTF-8.
pub open spec fn text_at(order: ByteOrder, data: Seq<u8>, at: int) -> Option<Seq<char>> {
    match string_bytes_at(order, data, at) {
        Some(b) => if valid_utf8(b) {
            Some(decode_utf8(b))
        } else {
            None
        },
        None => None,
    }
}

/// `e` is the message for a string argument at `at` that cannot be read.
pub open spec fn string_read_error(order: ByteOrder, data: Seq<u8>, at: int, e: Seq<char>) -> bool {
    match word_at(order, data, at) {
        None => e == "short wayland event"@,
        Some(len) => match string_field(data, at + 4, len) {
            None => e == "invalid wayland string"@,
            Some(b) => e.len() >= 31 && e.subrange(0, 31) == "invalid utf-8 from compositor: "@,
        },
    }
}

/// Where the argument after the string at `at` starts.
pub open spec fn after_string(order: ByteOrder, data: Seq<u8>, at: int) -> int {
    round4(at + 4 + word_at(order, data, at)->Some_0)
}


/// A string written after any bytes is read back whole, and it ends,
/// padding included, at a four-byte boundary where the next argument starts.
pub proof fn law_string_round_trip(order: ByteOrder, prefix: Seq<u8>, value: Seq<char>, rest: Seq<u8>)
    requires
        encode_utf8(value).len() + 1 <= u32::MAX,
    ensures
        ({
            let enc = string_bytes(order, encode_utf8(value), prefix.len() as int);
            let data = prefix + enc + rest;
            &&& text_at(order, data, prefix.len() as int) == Some(value)
            &&& after_string(order, data, prefix.len() as int) == prefix.len() + enc.len()
            &&& (prefix.len() + enc.len()) % 4 == 0
        }),
{
    let b = encode_utf8(value);
    let at = prefix.len() as int;
    let n = (b.len() + 1) as u32;
    let enc = string_bytes(order, b, at);
    let data = prefix + enc + rest;
    law_u32_round_trip(order, n);
    assert(data.subrange(at, at + 4) =~= u32_bytes(order, n));
    assert(word_at(order, data, at) == Some(n));
    assert(data.subrange(at + 4, at + 4 + n - 1) =~= b);
    vstd::utf8::encode_utf8_valid_utf8(value);
    vstd::utf8::encode_utf8_decode_utf8(value);
    let x = at + 4 + b.len() + 1;
    assert(x + pad_for(x) == round4(x)) by (nonlinear_arith)
        requires
            x >= 0,
    {
    }
    assert(round4(x) % 4 == 0) by (nonlinear_arith);
}
/// A message is read back as it was written: its size word counts all its
/// bytes, and the sender, the opcode and the arguments come out again, for
/// messages shorter than the 64 KiB that the size half-word can count.
pub proof fn law_message_round_trip(order: ByteOrder, sender: u32, opcode: u16, args: Seq<ArgView>)
    requires
        message_bytes(order, sender, opcode, args).len() < 0x10000,
    ensures
        ({
            let m = message_bytes(order, sender, opcode, args);
            &&& spec_message_size(order, m) == Ok::<usize, Seq<char>>(m.len() as usize)
            &&& spec_decode_message(order, m) == (sender, opcode, args_bytes(order, args, 8))
        }),
{
    let body = args_bytes(order, args, 8);
    let m = message_bytes(order, sender, opcode, args);
    let size = (8 + body.len()) as u32;
    let word = (size << 16) | (opcode as u32);
    law_u32_round_trip(order, sender);
    law_u32_round_trip(order, word);
    assert(m.subrange(0, 4) =~= u32_bytes(order, sender));
    assert(m.subrange(4, 8) =~= u32_bytes(order, word));
    assert(m.subrange(8, m.len() as int) =~= body);
    assert(size < 0x10000);
    assert(((size << 16) | (opcode as u32)) >> 16 == size) by (bit_vector)
        requires
            size < 0x10000,
    ;
    assert((((size << 16) | (opcode as u32)) & 0xffff) as u16 == opcode) by (bit_vector);
}

/// A data source's request to send, one type name at a four-byte
/// boundary, is recognised as one.
pub proof fn law_source_send_recognised(order: ByteOrder, mime: Seq<char>)
    requires
        encode_utf8(mime).len() + 1 <= u32::MAX,
    ensures
        spec_source_send_event(order, 0, string_bytes(order, encode_utf8(mime), 8)),
{
    let b = encode_utf8(mime);
    let data = string_bytes(order, b, 8);
    let prefix = seq![0u8, 0u8, 0u8, 0u8, 0u8, 0u8, 0u8, 0u8];
    law_string_round_trip(order, prefix, mime, Seq::empty());
    let whole = prefix + data + Seq::<u8>::empty();
    assert(whole.subrange(8, 12) =~= data.subrange(0, 4));
    law_u32_round_trip(order, (b.len() + 1) as u32);
    assert(data.subrange(0, 4) =~= u32_bytes(order, (b.len() + 1) as u32));
}

} // verus!
