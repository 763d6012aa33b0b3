//! The hello that opens a remote connection: the channel that it carries, and a token.

use vstd::prelude::*;
use vstd::utf8::{decode_utf8, encode_utf8, valid_utf8};

use crate::text;
use crate::text::{decimal, opt_str, opt_text};

verus! {

/// The channel that a remote connection carries.
#[derive(Debug, Clone, Copy, PartialEq, Eq, Structural)]
pub enum Channel {
    Control,
    Render,
}

/// The longest token, in bytes, that a hello is read with.
pub const MAX_TOKEN: u16 = 4096;

impl Channel {
    /// The byte that stands for the channel.
    pub open spec fn byte(self) -> u8 {
        match self {
            Channel::Control => 1,
            Channel::Render => 2,
        }
    }

    /// The byte that stands for the channel.
    pub fn to_byte(self) -> (b: u8)
        ensures
            b == self.byte(),
    {
        match self {
            Channel::Control => 1,
            Channel::Render => 2,
        }
    }

    /// The channel that the byte stands for.
    pub fn from_byte(b: u8) -> (c: Result<Channel, String>)
        ensures
            match c {
                Ok(c) => c.byte() == b,
                Err(e) => b != Channel::Control.byte() && b != Channel::Render.byte() && e@
                    == unknown_channel(b),
            },
    {
        match b {
            1 => Ok(Channel::Control),
            2 => Ok(Channel::Render),
            _ => {
                let mut m = "unknown channel hello byte ".to_owned();
                m.append(text::show(b as u128).as_str());
                Err(m)
            },
        }
    }
}

/// The message for a byte that stands for no channel.
pub open spec fn unknown_channel(b: u8) -> Seq<char> {
    "unknown channel hello byte "@ + decimal(b as nat)
}

/// The bytes of a token.
pub open spec fn token_bytes(token: Option<Seq<char>>) -> Seq<u8> {
    match token {
        Some(t) => encode_utf8(t),
        None => seq![],
    }
}

/// The bytes of a hello: the channel, the length of the token in two bytes, the greater first, and
/// the token.
pub open spec fn hello_bytes(channel: Channel, token: Option<Seq<char>>) -> Seq<u8> {
    let t = token_bytes(token);
    seq![channel.byte(), (t.len() / 256) as u8, (t.len() % 256) as u8] + t
}

/// The bytes of a hello. A token whose length does not fit in two bytes is refused.
pub fn write_hello(channel: Channel, token: Option<&str>) -> (r: Result<Vec<u8>, String>)
    ensures
        match r {
            Ok(bytes) => token_bytes(opt_str(token)).len() <= u16::MAX && bytes@ == hello_bytes(
                channel,
                opt_str(token),
            ),
            Err(e) => token_bytes(opt_str(token)).len() > u16::MAX && e@ == "hello token too long"@,
        },
{
    let bytes: Vec<u8> = match token {
        Some(t) => t.as_bytes_vec(),
        None => Vec::new(),
    };
    if bytes.len() > u16::MAX as usize {
        return Err("hello token too long".to_owned());
    }
    let mut out: Vec<u8> = Vec::new();
    out.push(channel.to_byte());
    out.push((bytes.len() / 256) as u8);
    out.push((bytes.len() % 256) as u8);
    let ghost head = out@;
    let mut i: usize = 0;
    while i < bytes.len()
        invariant
            i <= bytes.len(),
            out@ == head + bytes@.take(i as int),
        decreases bytes.len() - i,
    {
        out.push(bytes[i]);
        assert(head + bytes@.take(i + 1) =~= (head + bytes@.take(i as int)).push(bytes@[i as int]));
        i = i + 1;
    }
    assert(bytes@.take(bytes@.len() as int) == bytes@);
    assert(out@ =~= hello_bytes(channel, opt_str(token)));
    Ok(out)
}

/// What std says of bytes that are no UTF-8.
pub uninterp spec fn utf8_fault(bytes: Seq<u8>) -> Seq<char>;

/// `String::from_utf8`: the text that the bytes encode where they are UTF-8, else the message of the
/// error, which is a function of the bytes alone, here `utf8_fault`.
#[verifier::external_body]
pub(crate) fn text_from_utf8(bytes: Vec<u8>) -> (r: Result<String, String>)
    ensures
        match r {
            Ok(s) => valid_utf8(bytes@) && s@ == decode_utf8(bytes@),
            Err(e) => !valid_utf8(bytes@) && e@ == utf8_fault(bytes@),
        },
{
    String::from_utf8(bytes).map_err(|e| e.to_string())
}

/// How far a hello has been read.
#[derive(Debug)]
pub enum HelloRead {
    /// There must be this many bytes in all before more can be said.
    Need(usize),
    /// The hello is complete, and took this many bytes.
    Done { channel: Channel, token: Option<String>, used: usize },
    /// The peer is refused.
    Refused(String),
}

/// How far a hello has been read.
pub enum HelloReadView {
    Need(nat),
    Done { channel: Channel, token: Option<Seq<char>>, used: nat },
    Refused(Seq<char>),
}

impl View for HelloRead {
    type V = HelloReadView;

    open spec fn view(&self) -> HelloReadView {
        match *self {
            HelloRead::Need(n) => HelloReadView::Need(n as nat),
            HelloRead::Done { channel, token, used } => HelloReadView::Done {
                channel,
                token: opt_text(token),
                used: used as nat,
            },
            HelloRead::Refused(m) => HelloReadView::Refused(m@),
        }
    }
}

/// How far `bytes` are a hello: the channel is judged as soon as its byte is there, the length of
/// the token as soon as it is, and the token, which must be UTF-8, when all of it is. No more bytes
/// are asked for than a token of the greatest length takes.
pub open spec fn hello_read(bytes: Seq<u8>) -> HelloReadView {
    if bytes.len() < 1 {
        HelloReadView::Need(1)
    } else if bytes[0] != 1 && bytes[0] != 2 {
        HelloReadView::Refused(unknown_channel(bytes[0]))
    } else if bytes.len() < 3 {
        HelloReadView::Need(3)
    } else {
        let channel = if bytes[0] == 1 {
            Channel::Control
        } else {
            Channel::Render
        };
        let n = (bytes[1] * 256 + bytes[2]) as nat;
        if n > MAX_TOKEN {
            HelloReadView::Refused("hello token length "@ + decimal(n) + " exceeds limit"@)
        } else if bytes.len() < 3 + n {
            HelloReadView::Need(3 + n)
        } else {
            let t = bytes.subrange(3, 3 + n as int);
            if n == 0 {
                HelloReadView::Done { channel, token: None, used: 3 }
            } else if valid_utf8(t) {
                HelloReadView::Done { channel, token: Some(decode_utf8(t)), used: 3 + n }
            } else {
                HelloReadView::Refused(utf8_fault(t))
            }
        }
    }
}

/// How far the bytes that have come are a hello.
pub fn read_hello(bytes: &[u8]) -> (r: HelloRead)
    ensures
        r@ == hello_read(bytes@),
{
    if bytes.len() < 1 {
        return HelloRead::Need(1);
    }
    let channel = match Channel::from_byte(bytes[0]) {
        Ok(c) => c,
        Err(e) => return HelloRead::Refused(e),
    };
    if bytes.len() < 3 {
        return HelloRead::Need(3);
    }
    let n: usize = bytes[1] as usize * 256 + bytes[2] as usize;
    if n > MAX_TOKEN as usize {
        let mut m = "hello token length ".to_owned();
        m.append(text::show(n as u128).as_str());
        m.append(" exceeds limit");
        return HelloRead::Refused(m);
    }
    if bytes.len() < 3 + n {
        return HelloRead::Need(3 + n);
    }
    if n == 0 {
        return HelloRead::Done { channel, token: None, used: 3 };
    }
    let mut t: Vec<u8> = Vec::new();
    let mut i: usize = 0;
    while i < n
        invariant
            i <= n,
            3 + n <= bytes.len(),
            t@ == bytes@.subrange(3, 3 + i),
        decreases n - i,
    {
        t.push(bytes[3 + i]);
        assert(bytes@.subrange(3, 3 + i + 1) =~= bytes@.subrange(3, 3 + i).push(bytes@[3 + i]));
        i = i + 1;
    }
    match text_from_utf8(t) {
        Ok(token) => HelloRead::Done { channel, token: Some(token), used: 3 + n },
        Err(e) => HelloRead::Refused(e),
    }
}

/// The length of a hello is never more than a reader asks for.
pub proof fn law_hello_is_bounded(bytes: Seq<u8>)
    ensures
        match hello_read(bytes) {
            HelloReadView::Need(n) => bytes.len() < n <= 3 + MAX_TOKEN,
            HelloReadView::Done { channel, token, used } => used <= bytes.len() && used <= 3 + MAX_TOKEN,
            HelloReadView::Refused(m) => true,
        },
{
}

/// What a hello carries is read back from it, whatever follows it: the channel, and the token where
/// its bytes number at least one and at most the limit.
pub proof fn law_hello_roundtrips(channel: Channel, token: Option<Seq<char>>, rest: Seq<u8>)
    requires
        token matches Some(t) ==> 0 < encode_utf8(t).len() <= MAX_TOKEN,
    ensures
        hello_read(hello_bytes(channel, token) + rest) == (HelloReadView::Done {
            channel,
            token,
            used: hello_bytes(channel, token).len(),
        }),
{
    let t = token_bytes(token);
    let bytes = hello_bytes(channel, token) + rest;
    assert(bytes[0] == channel.byte());
    assert(bytes[1] == t.len() / 256);
    assert(bytes[2] == t.len() % 256);
    assert(bytes[1] * 256 + bytes[2] == t.len());
    assert(bytes.subrange(3, 3 + t.len() as int) =~= t);
    if let Some(chars) = token {
        broadcast use vstd::utf8::encode_utf8_valid_utf8, vstd::utf8::encode_utf8_decode_utf8;

        assert(valid_utf8(t));
        assert(decode_utf8(t) == chars);
    }
}

/// A hello begins with the byte of its channel, one for control and two for render, whatever its token is;
/// and no byte but these opens a channel.
pub proof fn law_a_hello_begins_with_its_channel(token: Option<Seq<char>>, bytes: Seq<u8>)
    ensures
        hello_bytes(Channel::Control, token)[0] == 1,
        hello_bytes(Channel::Render, token)[0] == 2,
        hello_bytes(Channel::Control, token).skip(3) == token_bytes(token),
        token matches Some(t) ==> token_bytes(token) == encode_utf8(t),
        token is None ==> token_bytes(token).len() == 0,
        bytes.len() > 0 && bytes[0] != 1 && bytes[0] != 2 ==> hello_read(bytes) is Refused,
{
    assert(hello_bytes(Channel::Control, token).skip(3) =~= token_bytes(token));
}

/// The two bytes behind the channel are the length of the token, the greater first, on either side: as they
/// are written, and as they are read. As many bytes are waited for as that says and no more, and a length
/// above the limit is refused before any of the token has come.
pub proof fn law_the_length_stands_before_the_token(channel: Channel, token: Option<Seq<char>>, bytes: Seq<u8>)
    ensures
        token_bytes(token).len() <= u16::MAX ==> {
            let hello = hello_bytes(channel, token);
            &&& hello[1] * 256 + hello[2] == token_bytes(token).len()
            &&& hello.len() == 3 + token_bytes(token).len()
        },
        bytes.len() >= 3 && (bytes[0] == 1 || bytes[0] == 2) ==> {
            let n = bytes[1] * 256 + bytes[2];
            &&& n > MAX_TOKEN ==> hello_read(bytes) is Refused
            &&& n <= MAX_TOKEN && bytes.len() < 3 + n ==> hello_read(bytes) == HelloReadView::Need(
                (3 + n) as nat,
            )
            &&& n == 0 ==> (hello_read(bytes) matches HelloReadView::Done { channel: c, token: t, used }
                && t is None && used == 3)
        },
        bytes.len() < 3 && (bytes.len() == 0 || bytes[0] == 1 || bytes[0] == 2) ==> hello_read(bytes) is Need,
{
    let n = token_bytes(token).len();
    if n <= u16::MAX {
        assert(n / 256 < 256);
        assert((n / 256) as u8 == n / 256);
        assert((n % 256) as u8 == n % 256);
    }
}

} // verus!
