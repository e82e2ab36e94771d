//! The wire codec: length-prefixed CBOR frames carrying one `Message`.
//!
//! A message is encoded as the CBOR its wire peers exchange: a
//! one-pair map `{ variant-name: payload }` for a payload-carrying variant,
//! a plain text string for a unit variant, every length in its shortest
//! form, text as UTF-8.  `spec_encode_msg` is the format's definition;
//! encoding meets it exactly, decoding accepts exactly its range, and the
//! round trip is proved lossless.
//!
//! A frame is a four-byte big-endian length followed by that many bytes of
//! encoded message; a reader refuses any announced length above
//! `MAX_FRAME_BYTES` before touching the body.

use vstd::prelude::*;
use vstd::utf8::{encode_utf8, valid_utf8};
use vstd::string::StrSliceExecFns;
use crate::messages::{ChessError, Command, Message};

verus! {

/// The largest frame body a reader accepts: ten binary megabytes.
pub const MAX_FRAME_BYTES: u32 = 10 * 1024 * 1024;

/// The CBOR header of a text string of `n` bytes, in its shortest form.
pub open spec fn spec_text_header(n: nat) -> Seq<u8> {
    if n < 24 {
        seq![(0x60 + n) as u8]
    } else if n < 0x100 {
        seq![0x78u8, n as u8]
    } else if n < 0x10000 {
        seq![0x79u8, (n / 0x100) as u8, (n % 0x100) as u8]
    } else if n < 0x100000000 {
        seq![
            0x7au8,
            (n / 0x1000000) as u8,
            ((n / 0x10000) % 0x100) as u8,
            ((n / 0x100) % 0x100) as u8,
            (n % 0x100) as u8,
        ]
    } else {
        seq![
            0x7bu8,
            (n / 0x100000000000000) as u8,
            ((n / 0x1000000000000) % 0x100) as u8,
            ((n / 0x10000000000) % 0x100) as u8,
            ((n / 0x100000000) % 0x100) as u8,
            ((n / 0x1000000) % 0x100) as u8,
            ((n / 0x10000) % 0x100) as u8,
            ((n / 0x100) % 0x100) as u8,
            (n % 0x100) as u8,
        ]
    }
}

/// A CBOR text string: shortest-form length header, then the UTF-8 bytes.
pub open spec fn spec_text(s: Seq<char>) -> Seq<u8> {
    spec_text_header(encode_utf8(s).len()) + encode_utf8(s)
}

// The fixed keys and unit-variant names, as the text strings CBOR writes
// for them: a one-byte header `0x60 + length`, then the ASCII bytes.
/// `"Command"`.
pub open spec fn key_command() -> Seq<u8> {
    seq![0x67u8, 67, 111, 109, 109, 97, 110, 100]
}

/// `"Move"`.
pub open spec fn key_move() -> Seq<u8> {
    seq![0x64u8, 77, 111, 118, 101]
}

/// `"Text"`.
pub open spec fn key_text() -> Seq<u8> {
    seq![0x64u8, 84, 101, 120, 116]
}

/// `"Board"`.
pub open spec fn key_board() -> Seq<u8> {
    seq![0x65u8, 66, 111, 97, 114, 100]
}

/// `"Error"`.
pub open spec fn key_error() -> Seq<u8> {
    seq![0x65u8, 69, 114, 114, 111, 114]
}

/// `"Log"`.
pub open spec fn key_log() -> Seq<u8> {
    seq![0x63u8, 76, 111, 103]
}

/// `"LogIn"`.
pub open spec fn key_login() -> Seq<u8> {
    seq![0x65u8, 76, 111, 103, 73, 110]
}

/// `"Play"`.
pub open spec fn lit_play() -> Seq<u8> {
    seq![0x64u8, 80, 108, 97, 121]
}

/// `"Concede"`.
pub open spec fn lit_concede() -> Seq<u8> {
    seq![0x67u8, 67, 111, 110, 99, 101, 100, 101]
}

/// `"Stats"`.
pub open spec fn lit_stats() -> Seq<u8> {
    seq![0x65u8, 83, 116, 97, 116, 115]
}

/// The encoding of a command: a unit variant is its bare name, `LogIn` is
/// the one-pair map `{ "LogIn": name }`.
pub open spec fn spec_encode_cmd(c: Command) -> Seq<u8> {
    match c {
        Command::LogIn(u) => seq![0xa1u8] + key_login() + spec_text(u@),
        Command::Play => lit_play(),
        Command::Concede => lit_concede(),
        Command::Stats => lit_stats(),
    }
}

/// The encoding of a message: the one-pair map `{ variant-name: payload }`.
pub open spec fn spec_encode_msg(m: Message) -> Seq<u8> {
    match m {
        Message::Command(c) => seq![0xa1u8] + key_command() + spec_encode_cmd(c),
        Message::Move(s) => seq![0xa1u8] + key_move() + spec_text(s@),
        Message::Text(s) => seq![0xa1u8] + key_text() + spec_text(s@),
        Message::Board(s) => seq![0xa1u8] + key_board() + spec_text(s@),
        Message::Error(s) => seq![0xa1u8] + key_error() + spec_text(s@),
        Message::Log(s) => seq![0xa1u8] + key_log() + spec_text(s@),
    }
}

/// Append the shortest-form text header for `n` bytes.
fn push_text_header(v: &mut Vec<u8>, n: usize)
    ensures
        final(v)@ == old(v)@ + spec_text_header(n as nat),
{
    let ghost pre = v@;
    if n < 24 {
        v.push(0x60 + n as u8);
    } else if n < 0x100 {
        v.push(0x78);
        v.push(n as u8);
    } else if n < 0x10000 {
        v.push(0x79);
        v.push((n / 0x100) as u8);
        v.push((n % 0x100) as u8);
    } else if (n as u64) < 0x100000000u64 {
        v.push(0x7a);
        v.push((n / 0x1000000) as u8);
        v.push(((n / 0x10000) % 0x100) as u8);
        v.push(((n / 0x100) % 0x100) as u8);
        v.push((n % 0x100) as u8);
    } else {
        let w = n as u64;
        v.push(0x7b);
        v.push((w / 0x100000000000000) as u8);
        v.push(((w / 0x1000000000000) % 0x100) as u8);
        v.push(((w / 0x10000000000) % 0x100) as u8);
        v.push(((w / 0x100000000) % 0x100) as u8);
        v.push(((w / 0x1000000) % 0x100) as u8);
        v.push(((w / 0x10000) % 0x100) as u8);
        v.push(((w / 0x100) % 0x100) as u8);
        v.push((w % 0x100) as u8);
    }
    proof {
        assert(v@ =~= pre + spec_text_header(n as nat));
    }
}

/// Append the CBOR text string holding `s`.
fn push_text(v: &mut Vec<u8>, s: &String)
    ensures
        final(v)@ == old(v)@ + spec_text(s@),
{
    let ghost pre = v@;
    let mut b = s.as_str().as_bytes_vec();
    push_text_header(v, b.len());
    v.append(&mut b);
    proof {
        assert(v@ =~= pre + spec_text(s@));
    }
}

/// Append the encoding of a command.
fn push_command(v: &mut Vec<u8>, c: &Command)
    ensures
        final(v)@ == old(v)@ + spec_encode_cmd(*c),
{
    let ghost pre = v@;
    match c {
        Command::LogIn(u) => {
            v.push(0xa1);
            v.push(0x65);
            v.push(76);
            v.push(111);
            v.push(103);
            v.push(73);
            v.push(110);
            push_text(v, u);
        },
        Command::Play => {
            v.push(0x64);
            v.push(80);
            v.push(108);
            v.push(97);
            v.push(121);
        },
        Command::Concede => {
            v.push(0x67);
            v.push(67);
            v.push(111);
            v.push(110);
            v.push(99);
            v.push(101);
            v.push(100);
            v.push(101);
        },
        Command::Stats => {
            v.push(0x65);
            v.push(83);
            v.push(116);
            v.push(97);
            v.push(116);
            v.push(115);
        },
    }
    proof {
        assert(v@ =~= pre + spec_encode_cmd(*c));
    }
}

/// Encode one message as the bytes its wire peer expects.
pub fn encode_message(m: &Message) -> (r: Vec<u8>)
    ensures
        r@ == spec_encode_msg(*m),
{
    let mut v: Vec<u8> = Vec::new();
    v.push(0xa1);
    match m {
        Message::Command(c) => {
            v.push(0x67);
            v.push(67);
            v.push(111);
            v.push(109);
            v.push(109);
            v.push(97);
            v.push(110);
            v.push(100);
            push_command(&mut v, c);
        },
        Message::Move(s) => {
            v.push(0x64);
            v.push(77);
            v.push(111);
            v.push(118);
            v.push(101);
            push_text(&mut v, s);
        },
        Message::Text(s) => {
            v.push(0x64);
            v.push(84);
            v.push(101);
            v.push(120);
            v.push(116);
            push_text(&mut v, s);
        },
        Message::Board(s) => {
            v.push(0x65);
            v.push(66);
            v.push(111);
            v.push(97);
            v.push(114);
            v.push(100);
            push_text(&mut v, s);
        },
        Message::Error(s) => {
            v.push(0x65);
            v.push(69);
            v.push(114);
            v.push(114);
            v.push(111);
            v.push(114);
            push_text(&mut v, s);
        },
        Message::Log(s) => {
            v.push(0x63);
            v.push(76);
            v.push(111);
            v.push(103);
            push_text(&mut v, s);
        },
    }
    proof {
        assert(v@ =~= spec_encode_msg(*m));
    }
    v
}

/// The four-byte big-endian form of a frame length.
pub open spec fn spec_len_be(l: u32) -> Seq<u8> {
    seq![
        (l / 0x1000000) as u8,
        ((l / 0x10000) % 0x100) as u8,
        ((l / 0x100) % 0x100) as u8,
        (l % 0x100) as u8,
    ]
}

/// One whole frame: the length header, then the encoded message.
pub open spec fn spec_frame(m: Message) -> Seq<u8> {
    spec_len_be(spec_encode_msg(m).len() as u32) + spec_encode_msg(m)
}

/// Frame one message for the wire: its four-byte big-endian length, then
/// its encoding.  Refused only when the encoding cannot be counted in four
/// bytes.
pub fn encode_frame(m: &Message) -> (r: Option<Vec<u8>>)
    ensures
        match r {
            Some(v) => spec_encode_msg(*m).len() <= u32::MAX && v@ == spec_frame(*m),
            None => spec_encode_msg(*m).len() > u32::MAX,
        },
{
    let body = encode_message(m);
    if (body.len() as u64) > (u32::MAX as u64) {
        return None;
    }
    let l = body.len() as u32;
    let mut v: Vec<u8> = Vec::new();
    v.push((l / 0x1000000) as u8);
    v.push(((l / 0x10000) % 0x100) as u8);
    v.push(((l / 0x100) % 0x100) as u8);
    v.push((l % 0x100) as u8);
    let mut b = body;
    v.append(&mut b);
    proof {
        assert(v@ =~= spec_frame(*m));
    }
    Some(v)
}

/// The length a four-byte big-endian frame header announces.
pub fn parse_frame_len(h: &[u8; 4]) -> (l: u32)
    ensures
        spec_len_be(l) == seq![h[0], h[1], h[2], h[3]],
{
    let l: u32 = (h[0] as u32) * 0x1000000 + (h[1] as u32) * 0x10000 + (h[2] as u32) * 0x100 + (
    h[3] as u32);
    proof {
        let b0 = h[0] as u32;
        let b1 = h[1] as u32;
        let b2 = h[2] as u32;
        let b3 = h[3] as u32;
        assert(b0 < 0x100 && b1 < 0x100 && b2 < 0x100 && b3 < 0x100 && l == b0 * 0x1000000 + b1
            * 0x10000 + b2 * 0x100 + b3 ==> (l / 0x1000000) == b0 && ((l / 0x10000) % 0x100) == b1
            && ((l / 0x100) % 0x100) == b2 && (l % 0x100) == b3) by (nonlinear_arith);
        assert(spec_len_be(l) =~= seq![h[0], h[1], h[2], h[3]]);
    }
    l
}

/// Whether an announced frame length may be read at all.  A reader checks
/// this before allocating anything for the body, so an oversized
/// announcement costs it four bytes and nothing more.
pub fn frame_len_acceptable(l: u32) -> (r: bool)
    ensures
        r == (l <= MAX_FRAME_BYTES),
{
    l <= MAX_FRAME_BYTES
}

/// How a text encoding splits: header then body, with the header length
/// and first byte pinned by the body length.
pub proof fn lemma_text_decompose(sub: Seq<u8>, s: Seq<char>)
    requires
        sub == spec_text(s),
    ensures
        ({
            let l = encode_utf8(s).len();
            let hl = spec_text_header(l).len() as int;
            &&& sub.len() == hl + l
            &&& sub.subrange(0, hl) == spec_text_header(l)
            &&& sub.subrange(hl, sub.len() as int) == encode_utf8(s)
            &&& sub[0] == spec_text_header(l)[0]
        }),
{
    let l = encode_utf8(s).len();
    let hl = spec_text_header(l).len() as int;
    assert(sub.subrange(0, hl) =~= spec_text_header(l));
    assert(sub.subrange(hl, sub.len() as int) =~= encode_utf8(s));
}

/// The shortest-form header's length and first byte, by body length.
pub proof fn lemma_header_form(l: nat)
    ensures
        ({
            let hd = spec_text_header(l);
            &&& hd.len() == (if l < 24 {
                1int
            } else if l < 0x100 {
                2
            } else if l < 0x10000 {
                3
            } else if l < 0x100000000 {
                5
            } else {
                9
            })
            &&& (l < 24 ==> hd[0] == 0x60 + l && 0x60 <= hd[0] <= 0x77)
            &&& (24 <= l && l < 0x100 ==> hd[0] == 0x78)
            &&& (0x100 <= l && l < 0x10000 ==> hd[0] == 0x79)
            &&& (0x10000 <= l && l < 0x100000000 ==> hd[0] == 0x7a)
            &&& (0x100000000 <= l ==> hd[0] == 0x7b)
        }),
{
}

/// Relies on `String::from_utf8`: `Some` exactly on valid UTF-8, returning
/// the string those bytes spell.
#[verifier::external_body]
fn string_from_utf8(v: Vec<u8>) -> (r: Option<String>)
    ensures
        match r {
            Some(s) => encode_utf8(s@) == v@,
            None => !valid_utf8(v@),
        },
{
    String::from_utf8(v).ok()
}

/// Whether `bytes` carries exactly `pat` at `pos`.
fn match_bytes(bytes: &Vec<u8>, pos: usize, pat: &Vec<u8>) -> (r: bool)
    requires
        pos <= bytes@.len(),
    ensures
        r == (pos + pat@.len() <= bytes@.len() && bytes@.subrange(
            pos as int,
            pos as int + pat@.len() as int,
        ) == pat@),
{
    let n = bytes.len();
    let pl = pat.len();
    if pl > n - pos {
        return false;
    }
    let mut i: usize = 0;
    while i < pl
        invariant
            i <= pl,
            pl == pat@.len(),
            pos + pl <= n,
            n == bytes@.len(),
            forall|j: int| 0 <= j < i ==> bytes@[pos + j] == pat@[j],
        decreases pl - i,
    {
        if bytes[pos + i] != pat[i] {
            proof {
                assert(bytes@.subrange(pos as int, pos as int + pl as int)[i as int] != pat@[i
                    as int]);
            }
            return false;
        }
        i = i + 1;
    }
    proof {
        assert(bytes@.subrange(pos as int, pos as int + pl as int) =~= pat@);
    }
    true
}

/// Parse the CBOR text string that must fill `bytes` from `pos` to the end;
/// `None` exactly when no string is written there that way.
fn parse_text_at(bytes: &Vec<u8>, pos: usize) -> (r: Option<String>)
    requires
        pos <= bytes@.len(),
    ensures
        ({
            let sub = bytes@.subrange(pos as int, bytes@.len() as int);
            match r {
                Some(s) => sub == spec_text(s@),
                None => forall|s: Seq<char>| sub != spec_text(s),
            }
        }),
{
    let ghost sub = bytes@.subrange(pos as int, bytes@.len() as int);
    let n = bytes.len();
    if pos >= n {
        proof {
            assert forall|s: Seq<char>| sub != spec_text(s) by {
                assert(spec_text(s).len() >= 1);
            }
        }
        return None;
    }
    let h = bytes[pos];
    proof {
        assert(sub[0] == h);
    }
    let ghost total = sub.len() as int;
    let hlen: usize = if 0x60 <= h && h <= 0x77 {
        1
    } else if h == 0x78 {
        2
    } else if h == 0x79 {
        3
    } else if h == 0x7a {
        5
    } else if h == 0x7b {
        9
    } else {
        proof {
            assert forall|s: Seq<char>| sub != spec_text(s) by {
                if sub == spec_text(s) {
                    lemma_text_decompose(sub, s);
                    lemma_header_form(encode_utf8(s).len());
                }
            }
        }
        return None;
    };
    if n - pos < hlen {
        proof {
            assert forall|s: Seq<char>| sub != spec_text(s) by {
                if sub == spec_text(s) {
                    lemma_text_decompose(sub, s);
                    lemma_header_form(encode_utf8(s).len());
                }
            }
        }
        return None;
    }
    let bl = n - pos - hlen;
    let mut hdr: Vec<u8> = Vec::new();
    push_text_header(&mut hdr, bl);
    let hdr_fits = hdr.len() == hlen;
    let hdr_match = if hdr_fits {
        match_bytes(bytes, pos, &hdr)
    } else {
        false
    };
    if !hdr_match {
        proof {
            assert forall|s: Seq<char>| sub != spec_text(s) by {
                if sub == spec_text(s) {
                    let l = encode_utf8(s).len();
                    // the first byte pins the header form, the form pins the
                    // header length, the total length then pins `l`
                    lemma_text_decompose(sub, s);
                    lemma_header_form(l);
                    assert(spec_text_header(l).len() == hlen);
                    assert(l == bl);
                    assert(bytes@.subrange(pos as int, pos as int + hlen as int) =~= sub.subrange(
                        0,
                        hlen as int,
                    ));
                }
            }
        }
        return None;
    }
    let body = vstd::slice::slice_to_vec(vstd::slice::slice_subrange(
        bytes.as_slice(),
        pos + hlen,
        n,
    ));
    proof {
        assert(body@ =~= sub.subrange(hlen as int, sub.len() as int));
    }
    match string_from_utf8(body) {
        Some(s) => {
            proof {
                assert(bytes@.subrange(pos as int, pos as int + hlen as int) =~= sub.subrange(
                    0,
                    hlen as int,
                ));
                assert(sub =~= spec_text_header(bl as nat) + sub.subrange(
                    hlen as int,
                    sub.len() as int,
                ));
                assert(encode_utf8(s@).len() == bl);
            }
            Some(s)
        },
        None => {
            proof {
                assert forall|s: Seq<char>| sub != spec_text(s) by {
                    if sub == spec_text(s) {
                        let l = encode_utf8(s).len();
                        lemma_text_decompose(sub, s);
                        lemma_header_form(l);
                        assert(spec_text_header(l).len() == hlen);
                        assert(l == bl);
                        vstd::utf8::encode_utf8_valid_utf8(s);
                    }
                }
            }
            None
        },
    }
}

// Executable copies of the fixed key byte strings.
fn kv_command() -> (r: Vec<u8>)
    ensures
        r@ == key_command(),
{
    let mut v: Vec<u8> = Vec::new();
    v.push(0x67);
    v.push(67);
    v.push(111);
    v.push(109);
    v.push(109);
    v.push(97);
    v.push(110);
    v.push(100);
    proof {
        assert(v@ =~= key_command());
    }
    v
}

fn kv_move() -> (r: Vec<u8>)
    ensures
        r@ == key_move(),
{
    let mut v: Vec<u8> = Vec::new();
    v.push(0x64);
    v.push(77);
    v.push(111);
    v.push(118);
    v.push(101);
    proof {
        assert(v@ =~= key_move());
    }
    v
}

fn kv_text() -> (r: Vec<u8>)
    ensures
        r@ == key_text(),
{
    let mut v: Vec<u8> = Vec::new();
    v.push(0x64);
    v.push(84);
    v.push(101);
    v.push(120);
    v.push(116);
    proof {
        assert(v@ =~= key_text());
    }
    v
}

fn kv_board() -> (r: Vec<u8>)
    ensures
        r@ == key_board(),
{
    let mut v: Vec<u8> = Vec::new();
    v.push(0x65);
    v.push(66);
    v.push(111);
    v.push(97);
    v.push(114);
    v.push(100);
    proof {
        assert(v@ =~= key_board());
    }
    v
}

fn kv_error() -> (r: Vec<u8>)
    ensures
        r@ == key_error(),
{
    let mut v: Vec<u8> = Vec::new();
    v.push(0x65);
    v.push(69);
    v.push(114);
    v.push(114);
    v.push(111);
    v.push(114);
    proof {
        assert(v@ =~= key_error());
    }
    v
}

fn kv_log() -> (r: Vec<u8>)
    ensures
        r@ == key_log(),
{
    let mut v: Vec<u8> = Vec::new();
    v.push(0x63);
    v.push(76);
    v.push(111);
    v.push(103);
    proof {
        assert(v@ =~= key_log());
    }
    v
}

fn kv_login() -> (r: Vec<u8>)
    ensures
        r@ == key_login(),
{
    let mut v: Vec<u8> = Vec::new();
    v.push(0x65);
    v.push(76);
    v.push(111);
    v.push(103);
    v.push(73);
    v.push(110);
    proof {
        assert(v@ =~= key_login());
    }
    v
}

fn kv_play() -> (r: Vec<u8>)
    ensures
        r@ == lit_play(),
{
    let mut v: Vec<u8> = Vec::new();
    v.push(0x64);
    v.push(80);
    v.push(108);
    v.push(97);
    v.push(121);
    proof {
        assert(v@ =~= lit_play());
    }
    v
}

fn kv_concede() -> (r: Vec<u8>)
    ensures
        r@ == lit_concede(),
{
    let mut v: Vec<u8> = Vec::new();
    v.push(0x67);
    v.push(67);
    v.push(111);
    v.push(110);
    v.push(99);
    v.push(101);
    v.push(100);
    v.push(101);
    proof {
        assert(v@ =~= lit_concede());
    }
    v
}

fn kv_stats() -> (r: Vec<u8>)
    ensures
        r@ == lit_stats(),
{
    let mut v: Vec<u8> = Vec::new();
    v.push(0x65);
    v.push(83);
    v.push(116);
    v.push(97);
    v.push(116);
    v.push(115);
    proof {
        assert(v@ =~= lit_stats());
    }
    v
}

/// Parse the command that must fill `bytes` from `pos` to the end; `None`
/// exactly when no command is written there that way.
#[verifier::rlimit(80)]
fn parse_command_at(bytes: &Vec<u8>, pos: usize) -> (r: Option<Command>)
    requires
        pos <= bytes@.len(),
    ensures
        ({
            let sub = bytes@.subrange(pos as int, bytes@.len() as int);
            match r {
                Some(c) => sub == spec_encode_cmd(c),
                None => forall|c: Command| sub != spec_encode_cmd(c),
            }
        }),
{
    let ghost sub = bytes@.subrange(pos as int, bytes@.len() as int);
    let n = bytes.len();
    if pos >= n {
        proof {
            assert forall|c: Command| sub != spec_encode_cmd(c) by {
                assert(spec_encode_cmd(c).len() >= 1);
            }
        }
        return None;
    }
    let b = bytes[pos];
    proof {
        assert(sub[0] == b);
    }
    if b == 0xa1 {
        // only `LogIn` is a map
        let key = kv_login();
        if !match_bytes(bytes, pos + 1, &key) {
            proof {
                assert forall|c: Command| sub != spec_encode_cmd(c) by {
                    if sub == spec_encode_cmd(c) {
                        match c {
                            Command::LogIn(u) => {
                                assert(spec_text(u@).len() >= 1);
                                assert(sub.len() >= 8);
                                assert(bytes@.subrange(pos + 1, pos + 7) =~= sub.subrange(1, 7));
                                assert(sub.subrange(1, 7) =~= key_login());
                            },
                            _ => {},
                        }
                    }
                }
            }
            return None;
        }
        match parse_text_at(bytes, pos + 7) {
            Some(u) => {
                proof {
                    assert(bytes@.subrange(pos + 7, n as int) =~= sub.subrange(
                        7,
                        sub.len() as int,
                    ));
                    assert(sub =~= seq![0xa1u8] + key_login() + sub.subrange(
                        7,
                        sub.len() as int,
                    ));
                }
                Some(Command::LogIn(u))
            },
            None => {
                proof {
                    assert forall|c: Command| sub != spec_encode_cmd(c) by {
                        if sub == spec_encode_cmd(c) {
                            match c {
                                Command::LogIn(u) => {
                                    assert(bytes@.subrange(pos + 7, n as int) =~= sub.subrange(
                                        7,
                                        sub.len() as int,
                                    ));
                                    assert(sub.subrange(7, sub.len() as int) =~= spec_text(u@));
                                },
                                _ => {},
                            }
                        }
                    }
                }
                None
            },
        }
    } else if b == 0x64 {
        let key = kv_play();
        if match_bytes(bytes, pos, &key) && n - pos == 5 {
            proof {
                assert(sub =~= lit_play());
            }
            Some(Command::Play)
        } else {
            proof {
                assert forall|c: Command| sub != spec_encode_cmd(c) by {
                    if sub == spec_encode_cmd(c) && c is Play {
                        assert(bytes@.subrange(pos as int, pos + 5) =~= sub.subrange(0, 5));
                    }
                }
            }
            None
        }
    } else if b == 0x67 {
        let key = kv_concede();
        if match_bytes(bytes, pos, &key) && n - pos == 8 {
            proof {
                assert(sub =~= lit_concede());
            }
            Some(Command::Concede)
        } else {
            proof {
                assert forall|c: Command| sub != spec_encode_cmd(c) by {
                    if sub == spec_encode_cmd(c) && c is Concede {
                        assert(bytes@.subrange(pos as int, pos + 8) =~= sub.subrange(0, 8));
                    }
                }
            }
            None
        }
    } else if b == 0x65 {
        let key = kv_stats();
        if match_bytes(bytes, pos, &key) && n - pos == 6 {
            proof {
                assert(sub =~= lit_stats());
            }
            Some(Command::Stats)
        } else {
            proof {
                assert forall|c: Command| sub != spec_encode_cmd(c) by {
                    if sub == spec_encode_cmd(c) && c is Stats {
                        assert(bytes@.subrange(pos as int, pos + 6) =~= sub.subrange(0, 6));
                    }
                }
            }
            None
        }
    } else {
        proof {
            assert forall|c: Command| sub != spec_encode_cmd(c) by {}
        }
        None
    }
}

/// Decode one message from exactly these bytes.
///
/// `Ok` holds the one message whose encoding the bytes are; `Err` reports
/// that they are no message's encoding.
#[verifier::rlimit(80)]
pub fn decode_message(bytes: &Vec<u8>) -> (r: Result<Message, ChessError>)
    ensures
        ({
            match r {
                Ok(m) => bytes@ == spec_encode_msg(m),
                Err(e) => {
                    &&& forall|m: Message| bytes@ != spec_encode_msg(m)
                    &&& e matches ChessError::DeserializationError(t) && t@
                        == "not a message encoding"@
                },
            }
        }),
{
    let ghost whole = bytes@;
    let n = bytes.len();
    proof {
        assert(whole.subrange(0, n as int) =~= whole);
    }
    if n < 2 || bytes[0] != 0xa1 {
        proof {
            assert forall|m: Message| whole != spec_encode_msg(m) by {
                assert(spec_encode_msg(m).len() >= 2);
                assert(spec_encode_msg(m)[0] == 0xa1);
            }
        }
        return Err(
            ChessError::DeserializationError(String::from_str("not a message encoding")),
        );
    }
    let k = bytes[1];
    let parsed: Option<Message> = if k == 0x67 {
        let key = kv_command();
        if match_bytes(bytes, 1, &key) {
            match parse_command_at(bytes, 9) {
                Some(c) => {
                    proof {
                        assert(bytes@.subrange(9, n as int) =~= whole.subrange(
                            9,
                            whole.len() as int,
                        ));
                        assert(whole =~= seq![0xa1u8] + key_command() + whole.subrange(
                            9,
                            whole.len() as int,
                        ));
                    }
                    Some(Message::Command(c))
                },
                None => {
                    proof {
                        assert forall|m: Message| whole != spec_encode_msg(m) by {
                            if whole == spec_encode_msg(m) {
                                match m {
                                    Message::Command(c) => {
                                        assert(bytes@.subrange(9, n as int) =~= whole.subrange(
                                            9,
                                            whole.len() as int,
                                        ));
                                        assert(whole.subrange(9, whole.len() as int)
                                            =~= spec_encode_cmd(c));
                                    },
                                    _ => {},
                                }
                            }
                        }
                    }
                    None
                },
            }
        } else {
            proof {
                assert forall|m: Message| whole != spec_encode_msg(m) by {
                    if whole == spec_encode_msg(m) {
                        match m {
                            Message::Command(c) => {
                                assert(spec_encode_cmd(c).len() >= 1);
                                assert(bytes@.subrange(1, 9) =~= whole.subrange(1, 9));
                                assert(whole.subrange(1, 9) =~= key_command());
                            },
                            _ => {},
                        }
                    }
                }
            }
            None
        }
    } else if k == 0x64 {
        if n < 3 {
            proof {
                assert forall|m: Message| whole != spec_encode_msg(m) by {
                    if whole == spec_encode_msg(m) {
                        assert(spec_encode_msg(m).len() >= 3);
                    }
                }
            }
            None
        } else if bytes[2] == 77 {
            parse_payload(bytes, kv_move(), 6, 0u8)
        } else if bytes[2] == 84 {
            parse_payload(bytes, kv_text(), 6, 1u8)
        } else {
            proof {
                assert forall|m: Message| whole != spec_encode_msg(m) by {
                    if whole == spec_encode_msg(m) {
                        assert(whole[2] == spec_encode_msg(m)[2]);
                    }
                }
            }
            None
        }
    } else if k == 0x65 {
        if n < 3 {
            proof {
                assert forall|m: Message| whole != spec_encode_msg(m) by {
                    if whole == spec_encode_msg(m) {
                        assert(spec_encode_msg(m).len() >= 3);
                    }
                }
            }
            None
        } else if bytes[2] == 66 {
            parse_payload(bytes, kv_board(), 7, 2u8)
        } else if bytes[2] == 69 {
            parse_payload(bytes, kv_error(), 7, 3u8)
        } else {
            proof {
                assert forall|m: Message| whole != spec_encode_msg(m) by {
                    if whole == spec_encode_msg(m) {
                        assert(whole[2] == spec_encode_msg(m)[2]);
                    }
                }
            }
            None
        }
    } else if k == 0x63 {
        if n < 3 {
            proof {
                assert forall|m: Message| whole != spec_encode_msg(m) by {
                    if whole == spec_encode_msg(m) {
                        assert(spec_encode_msg(m).len() >= 3);
                    }
                }
            }
            None
        } else if bytes[2] == 76 {
            parse_payload(bytes, kv_log(), 5, 4u8)
        } else {
            proof {
                assert forall|m: Message| whole != spec_encode_msg(m) by {
                    if whole == spec_encode_msg(m) {
                        assert(whole[2] == spec_encode_msg(m)[2]);
                    }
                }
            }
            None
        }
    } else {
        proof {
            assert forall|m: Message| whole != spec_encode_msg(m) by {
                if whole == spec_encode_msg(m) {
                    assert(whole[1] == spec_encode_msg(m)[1]);
                }
            }
        }
        None
    };
    match parsed {
        Some(m) => Ok(m),
        None => Err(
            ChessError::DeserializationError(String::from_str("not a message encoding")),
        ),
    }
}

/// Which string-payload variant `parse_payload` builds.
pub open spec fn spec_payload_variant(tag: u8, s: String) -> Message {
    if tag == 0 {
        Message::Move(s)
    } else if tag == 1 {
        Message::Text(s)
    } else if tag == 2 {
        Message::Board(s)
    } else if tag == 3 {
        Message::Error(s)
    } else {
        Message::Log(s)
    }
}

/// The key bytes of that variant.
pub open spec fn spec_payload_key(tag: u8) -> Seq<u8> {
    if tag == 0 {
        key_move()
    } else if tag == 1 {
        key_text()
    } else if tag == 2 {
        key_board()
    } else if tag == 3 {
        key_error()
    } else {
        key_log()
    }
}

/// Parse a `{ key: text }` message whose key bytes are `key`, with the
/// payload starting at `after`.  The caller has already read the first two
/// key bytes, which single out this variant.
#[verifier::rlimit(80)]
fn parse_payload(bytes: &Vec<u8>, key: Vec<u8>, after: usize, tag: u8) -> (r: Option<Message>)
    requires
        bytes@.len() >= 3,
        bytes@[0] == 0xa1,
        key@ == spec_payload_key(tag),
        after == key@.len() + 1,
        tag <= 4,
        bytes@[1] == key@[0],
        bytes@[2] == key@[1],
    ensures
        match r {
            Some(m) => bytes@ == spec_encode_msg(m),
            None => forall|m: Message| bytes@ != spec_encode_msg(m),
        },
{
    let ghost whole = bytes@;
    let n = bytes.len();
    if !match_bytes(bytes, 1, &key) {
        proof {
            assert forall|m: Message| whole != spec_encode_msg(m) by {
                if whole == spec_encode_msg(m) {
                    assert(whole[1] == spec_encode_msg(m)[1]);
                    assert(whole[2] == spec_encode_msg(m)[2]);
                    match m {
                        Message::Command(c) => {
                            assert(spec_encode_cmd(c).len() >= 1);
                        },
                        Message::Move(u) => {
                            assert(spec_text(u@).len() >= 1);
                            if tag == 0 {
                                assert(bytes@.subrange(1, 6) =~= whole.subrange(1, 6));
                                assert(whole.subrange(1, 6) =~= key_move());
                            }
                        },
                        Message::Text(u) => {
                            assert(spec_text(u@).len() >= 1);
                            if tag == 1 {
                                assert(bytes@.subrange(1, 6) =~= whole.subrange(1, 6));
                                assert(whole.subrange(1, 6) =~= key_text());
                            }
                        },
                        Message::Board(u) => {
                            assert(spec_text(u@).len() >= 1);
                            if tag == 2 {
                                assert(bytes@.subrange(1, 7) =~= whole.subrange(1, 7));
                                assert(whole.subrange(1, 7) =~= key_board());
                            }
                        },
                        Message::Error(u) => {
                            assert(spec_text(u@).len() >= 1);
                            if tag == 3 {
                                assert(bytes@.subrange(1, 7) =~= whole.subrange(1, 7));
                                assert(whole.subrange(1, 7) =~= key_error());
                            }
                        },
                        Message::Log(u) => {
                            assert(spec_text(u@).len() >= 1);
                            if tag == 4 {
                                assert(bytes@.subrange(1, 5) =~= whole.subrange(1, 5));
                                assert(whole.subrange(1, 5) =~= key_log());
                            }
                        },
                    }
                }
            }
        }
        return None;
    }
    match parse_text_at(bytes, after) {
        Some(u) => {
            let m = if tag == 0 {
                Message::Move(u)
            } else if tag == 1 {
                Message::Text(u)
            } else if tag == 2 {
                Message::Board(u)
            } else if tag == 3 {
                Message::Error(u)
            } else {
                Message::Log(u)
            };
            proof {
                assert(bytes@.subrange(after as int, n as int) =~= whole.subrange(
                    after as int,
                    whole.len() as int,
                ));
                assert(whole =~= seq![0xa1u8] + key@ + whole.subrange(
                    after as int,
                    whole.len() as int,
                ));
            }
            Some(m)
        },
        None => {
            proof {
                assert forall|m: Message| whole != spec_encode_msg(m) by {
                    if whole == spec_encode_msg(m) {
                        assert(whole[1] == spec_encode_msg(m)[1]);
                        assert(whole[2] == spec_encode_msg(m)[2]);
                        match m {
                            Message::Command(c) => {
                                assert(spec_encode_cmd(c).len() >= 1);
                            },
                            Message::Move(u) => {
                                assert(spec_text(u@).len() >= 1);
                                if tag == 0 {
                                    assert(bytes@.subrange(6, n as int) =~= whole.subrange(
                                        6,
                                        whole.len() as int,
                                    ));
                                    assert(whole.subrange(6, whole.len() as int) =~= spec_text(
                                        u@,
                                    ));
                                }
                            },
                            Message::Text(u) => {
                                assert(spec_text(u@).len() >= 1);
                                if tag == 1 {
                                    assert(bytes@.subrange(6, n as int) =~= whole.subrange(
                                        6,
                                        whole.len() as int,
                                    ));
                                    assert(whole.subrange(6, whole.len() as int) =~= spec_text(
                                        u@,
                                    ));
                                }
                            },
                            Message::Board(u) => {
                                assert(spec_text(u@).len() >= 1);
                                if tag == 2 {
                                    assert(bytes@.subrange(7, n as int) =~= whole.subrange(
                                        7,
                                        whole.len() as int,
                                    ));
                                    assert(whole.subrange(7, whole.len() as int) =~= spec_text(
                                        u@,
                                    ));
                                }
                            },
                            Message::Error(u) => {
                                assert(spec_text(u@).len() >= 1);
                                if tag == 3 {
                                    assert(bytes@.subrange(7, n as int) =~= whole.subrange(
                                        7,
                                        whole.len() as int,
                                    ));
                                    assert(whole.subrange(7, whole.len() as int) =~= spec_text(
                                        u@,
                                    ));
                                }
                            },
                            Message::Log(u) => {
                                assert(spec_text(u@).len() >= 1);
                                if tag == 4 {
                                    assert(bytes@.subrange(5, n as int) =~= whole.subrange(
                                        5,
                                        whole.len() as int,
                                    ));
                                    assert(whole.subrange(5, whole.len() as int) =~= spec_text(
                                        u@,
                                    ));
                                }
                            },
                        }
                    }
                }
            }
            None
        },
    }
}

/// Message equality up to text: same variant, same characters.
pub open spec fn spec_msg_eq(m1: Message, m2: Message) -> bool {
    match (m1, m2) {
        (Message::Command(c1), Message::Command(c2)) => spec_cmd_eq(c1, c2),
        (Message::Move(a), Message::Move(b)) => a@ == b@,
        (Message::Text(a), Message::Text(b)) => a@ == b@,
        (Message::Board(a), Message::Board(b)) => a@ == b@,
        (Message::Error(a), Message::Error(b)) => a@ == b@,
        (Message::Log(a), Message::Log(b)) => a@ == b@,
        _ => false,
    }
}

/// Command equality up to text.
pub open spec fn spec_cmd_eq(c1: Command, c2: Command) -> bool {
    match (c1, c2) {
        (Command::LogIn(a), Command::LogIn(b)) => a@ == b@,
        (Command::Play, Command::Play) => true,
        (Command::Concede, Command::Concede) => true,
        (Command::Stats, Command::Stats) => true,
        _ => false,
    }
}

/// Two equal text encodings carry the same characters.
pub proof fn lemma_text_inj(s1: Seq<char>, s2: Seq<char>)
    requires
        spec_text(s1) == spec_text(s2),
    ensures
        s1 == s2,
{
    let sub = spec_text(s1);
    lemma_text_decompose(sub, s1);
    lemma_text_decompose(sub, s2);
    let l1 = encode_utf8(s1).len();
    let l2 = encode_utf8(s2).len();
    lemma_header_form(l1);
    lemma_header_form(l2);
    // equal first bytes force the same header form, equal totals then force
    // equal body lengths
    assert(spec_text_header(l1)[0] == spec_text_header(l2)[0]);
    assert(spec_text_header(l1).len() == spec_text_header(l2).len());
    assert(l1 == l2);
    assert(encode_utf8(s1) == sub.subrange(
        spec_text_header(l1).len() as int,
        sub.len() as int,
    ));
    assert(encode_utf8(s1) == encode_utf8(s2));
    vstd::utf8::encode_utf8_decode_utf8(s1);
    vstd::utf8::encode_utf8_decode_utf8(s2);
}

/// Two commands with one encoding are the same command.
pub proof fn lemma_cmd_inj(c1: Command, c2: Command)
    requires
        spec_encode_cmd(c1) == spec_encode_cmd(c2),
    ensures
        spec_cmd_eq(c1, c2),
{
    let e = spec_encode_cmd(c1);
    match (c1, c2) {
        (Command::LogIn(a), Command::LogIn(b)) => {
            assert(e.subrange(7, e.len() as int) =~= spec_text(a@));
            assert(e.subrange(7, e.len() as int) =~= spec_text(b@));
            lemma_text_inj(a@, b@);
        },
        _ => {
            assert(spec_encode_cmd(c1)[0] == spec_encode_cmd(c2)[0]);
            match c1 {
                Command::LogIn(a) => {
                    assert(spec_text(a@).len() >= 1);
                },
                _ => {},
            }
            match c2 {
                Command::LogIn(b) => {
                    assert(spec_text(b@).len() >= 1);
                },
                _ => {},
            }
        },
    }
}

/// The round trip of the wire format: the encoding pins the message down,
/// so whatever decodes from a message's bytes is that message, variant and
/// text alike.
pub proof fn lemma_wire_round_trip(m1: Message, m2: Message)
    requires
        spec_encode_msg(m1) == spec_encode_msg(m2),
    ensures
        spec_msg_eq(m1, m2),
{
    let e = spec_encode_msg(m1);
    assert(spec_encode_msg(m1)[1] == spec_encode_msg(m2)[1]);
    assert(spec_encode_msg(m1)[2] == spec_encode_msg(m2)[2]);
    match (m1, m2) {
        (Message::Command(c1), Message::Command(c2)) => {
            assert(e.subrange(9, e.len() as int) =~= spec_encode_cmd(c1));
            assert(e.subrange(9, e.len() as int) =~= spec_encode_cmd(c2));
            lemma_cmd_inj(c1, c2);
        },
        (Message::Move(a), Message::Move(b)) => {
            assert(e.subrange(6, e.len() as int) =~= spec_text(a@));
            assert(e.subrange(6, e.len() as int) =~= spec_text(b@));
            lemma_text_inj(a@, b@);
        },
        (Message::Text(a), Message::Text(b)) => {
            assert(e.subrange(6, e.len() as int) =~= spec_text(a@));
            assert(e.subrange(6, e.len() as int) =~= spec_text(b@));
            lemma_text_inj(a@, b@);
        },
        (Message::Board(a), Message::Board(b)) => {
            assert(e.subrange(7, e.len() as int) =~= spec_text(a@));
            assert(e.subrange(7, e.len() as int) =~= spec_text(b@));
            lemma_text_inj(a@, b@);
        },
        (Message::Error(a), Message::Error(b)) => {
            assert(e.subrange(7, e.len() as int) =~= spec_text(a@));
            assert(e.subrange(7, e.len() as int) =~= spec_text(b@));
            lemma_text_inj(a@, b@);
        },
        (Message::Log(a), Message::Log(b)) => {
            assert(e.subrange(5, e.len() as int) =~= spec_text(a@));
            assert(e.subrange(5, e.len() as int) =~= spec_text(b@));
            lemma_text_inj(a@, b@);
        },
        _ => {
            broadcast use vstd::seq_lib::group_seq_properties;

            assert(spec_encode_msg(m1)[1] == spec_encode_msg(m2)[1]);
        },
    }
}

} // verus!
