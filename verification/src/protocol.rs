//! The monitor's wire commands and the shape of a memory-dump exchange.
//!
//! Every command the engine can send is given here both as a spec-level
//! byte sequence and as a verified builder producing exactly those bytes.
//! The dump-exchange predicates describe, event by event, what a
//! successful `read_memory` call writes and reads, and what payload the
//! received chunks decode to.

use vstd::prelude::*;

use crate::hexcode::{
    encode_hex7, encode_hex_min, hex_seq_valid, push_hex_pair, spec_hex7, spec_hex_decode,
    spec_hex_min, spec_hex_pair,
};
use crate::transport::WireEvent;
use crate::M65Error;

verus! {

/// `t1\r`: halt the CPU.
pub open spec fn halt_cmd() -> Seq<u8> {
    seq![0x74u8, 0x31u8, 0x0du8]
}

/// `t0\r`: resume the CPU.
pub open spec fn resume_cmd() -> Seq<u8> {
    seq![0x74u8, 0x30u8, 0x0du8]
}

/// `!\n`: reset the device.
pub open spec fn reset_cmd() -> Seq<u8> {
    seq![0x21u8, 0x0au8]
}

/// CTRL-U `#` `\r`: cancel whatever command the monitor is in the middle of.
pub open spec fn cancel_cmd() -> Seq<u8> {
    seq![0x15u8, 0x23u8, 0x0du8]
}

/// `m\r`: continue the previous memory dump.
pub open spec fn cont_cmd() -> Seq<u8> {
    seq![0x6du8, 0x0du8]
}

/// `m<7-digit-address>\r`: start a memory dump.
pub open spec fn dump_cmd(address: u32) -> Seq<u8>
    recommends
        address < 0x10000000,
{
    seq![0x6du8] + spec_hex7(address) + seq![0x0du8]
}

/// `l<start> <end>\r`: announce a raw write into `[start, end)`.
pub open spec fn write_range_cmd(start: u16, end: u32) -> Seq<u8> {
    seq![0x6cu8] + spec_hex_min(start as u32) + seq![0x20u8] + spec_hex_min(end) + seq![0x0du8]
}

/// `sffd3615 <c1> <c2>\n`: press the key with the given matrix codes.
pub open spec fn key_cmd(c1: u8, c2: u8) -> Seq<u8> {
    seq![0x73u8, 0x66u8, 0x66u8, 0x64u8, 0x33u8, 0x36u8, 0x31u8, 0x35u8, 0x20u8]
        + spec_hex_pair(c1) + seq![0x20u8] + spec_hex_pair(c2) + seq![0x0au8]
}

/// `sffd3615 7f 7f 7f \n`: release the keyboard matrix.
pub open spec fn release_cmd() -> Seq<u8> {
    seq![
        0x73u8,
        0x66u8,
        0x66u8,
        0x64u8,
        0x33u8,
        0x36u8,
        0x31u8,
        0x35u8,
        0x20u8,
        0x37u8,
        0x66u8,
        0x20u8,
        0x37u8,
        0x66u8,
        0x20u8,
        0x37u8,
        0x66u8,
        0x20u8,
        0x0au8,
    ]
}

/// The `t1\r` halt command.
pub fn halt_cmd_bytes() -> (r: Vec<u8>)
    ensures
        r@ == halt_cmd(),
{
    let mut v: Vec<u8> = Vec::new();
    v.push(0x74);
    v.push(0x31);
    v.push(0x0d);
    proof {
        assert(v@ =~= halt_cmd());
    }
    v
}

/// The `t0\r` resume command.
pub fn resume_cmd_bytes() -> (r: Vec<u8>)
    ensures
        r@ == resume_cmd(),
{
    let mut v: Vec<u8> = Vec::new();
    v.push(0x74);
    v.push(0x30);
    v.push(0x0d);
    proof {
        assert(v@ =~= resume_cmd());
    }
    v
}

/// The `!\n` reset command.
pub fn reset_cmd_bytes() -> (r: Vec<u8>)
    ensures
        r@ == reset_cmd(),
{
    let mut v: Vec<u8> = Vec::new();
    v.push(0x21);
    v.push(0x0a);
    proof {
        assert(v@ =~= reset_cmd());
    }
    v
}

/// The cancel sequence sent before resynchronizing.
pub fn cancel_cmd_bytes() -> (r: Vec<u8>)
    ensures
        r@ == cancel_cmd(),
{
    let mut v: Vec<u8> = Vec::new();
    v.push(0x15);
    v.push(0x23);
    v.push(0x0d);
    proof {
        assert(v@ =~= cancel_cmd());
    }
    v
}

/// The `m\r` dump-continue command.
pub fn cont_cmd_bytes() -> (r: Vec<u8>)
    ensures
        r@ == cont_cmd(),
{
    let mut v: Vec<u8> = Vec::new();
    v.push(0x6d);
    v.push(0x0d);
    proof {
        assert(v@ =~= cont_cmd());
    }
    v
}

/// The dump-start command for a 28-bit address.
pub fn dump_cmd_bytes(address: u32) -> (r: Vec<u8>)
    requires
        address < 0x10000000,
    ensures
        r@ == dump_cmd(address),
{
    let mut v: Vec<u8> = Vec::new();
    v.push(0x6d);
    let mut digits = encode_hex7(address);
    v.append(&mut digits);
    v.push(0x0d);
    proof {
        assert(v@ =~= dump_cmd(address));
    }
    v
}

/// The write-range command for `[start, end)`.
pub fn write_range_cmd_bytes(start: u16, end: u32) -> (r: Vec<u8>)
    ensures
        r@ == write_range_cmd(start, end),
{
    let mut v: Vec<u8> = Vec::new();
    v.push(0x6c);
    let mut s = encode_hex_min(start as u32);
    v.append(&mut s);
    v.push(0x20);
    let mut e = encode_hex_min(end);
    v.append(&mut e);
    v.push(0x0d);
    proof {
        assert(v@ =~= write_range_cmd(start, end));
    }
    v
}

/// The keystroke command for a pair of matrix codes.
pub fn key_cmd_bytes(c1: u8, c2: u8) -> (r: Vec<u8>)
    ensures
        r@ == key_cmd(c1, c2),
{
    let mut v: Vec<u8> = Vec::new();
    v.push(0x73);
    v.push(0x66);
    v.push(0x66);
    v.push(0x64);
    v.push(0x33);
    v.push(0x36);
    v.push(0x31);
    v.push(0x35);
    v.push(0x20);
    push_hex_pair(&mut v, c1);
    v.push(0x20);
    push_hex_pair(&mut v, c2);
    v.push(0x0a);
    proof {
        assert(v@ =~= key_cmd(c1, c2));
    }
    v
}

/// The keyboard release command.
pub fn release_cmd_bytes() -> (r: Vec<u8>)
    ensures
        r@ == release_cmd(),
{
    let mut v: Vec<u8> = Vec::new();
    v.push(0x73);
    v.push(0x66);
    v.push(0x66);
    v.push(0x64);
    v.push(0x33);
    v.push(0x36);
    v.push(0x31);
    v.push(0x35);
    v.push(0x20);
    v.push(0x37);
    v.push(0x66);
    v.push(0x20);
    v.push(0x37);
    v.push(0x66);
    v.push(0x20);
    v.push(0x37);
    v.push(0x66);
    v.push(0x20);
    v.push(0x0a);
    proof {
        assert(v@ =~= release_cmd());
    }
    v
}

/// Whether a memory write request is acceptable: a non-empty payload
/// whose exclusive end address still fits the 16-bit domain.
pub open spec fn write_request_valid(address: u16, len: nat) -> bool {
    1 <= len && address + len <= 0xffff
}

/// The exact message exchange of a successful `write_memory` call.
pub open spec fn write_delta(address: u16, data: Seq<u8>) -> Seq<WireEvent> {
    seq![
        WireEvent::Sent(halt_cmd()),
        WireEvent::Sent(write_range_cmd(address, (address + data.len()) as u32)),
        WireEvent::Sent(data),
        WireEvent::Sent(resume_cmd()),
    ]
}

/// The exchange a failed memory write leaves behind: a prefix of the
/// intended exchange — no command repeated, the payload never re-sent —
/// possibly followed by the attempted bracket-releasing resume.
pub open spec fn write_error_delta(d: Seq<WireEvent>, address: u16, data: Seq<u8>) -> bool {
    let core = if d.len() > 0 && d.last() == WireEvent::Sent(resume_cmd()) {
        d.drop_last()
    } else {
        d
    };
    exists|k: int| #![auto] 0 <= k <= 3 && core == write_delta(address, data).take(k)
}

/// What the `i`-th message of a dump exchange must be: the halt, the
/// dump command, the 27-byte header, the first chunk, then repeating
/// groups of continue command, 18-byte header and chunk.
pub open spec fn dump_event_ok(ev: WireEvent, i: int, address: u32) -> bool {
    if i == 0 {
        ev == WireEvent::Sent(halt_cmd())
    } else if i == 1 {
        ev == WireEvent::Sent(dump_cmd(address))
    } else if i == 2 {
        ev matches WireEvent::Recv(h) && h.len() == 27
    } else if i == 3 || (i - 4) % 3 == 2 {
        ev matches WireEvent::Recv(c) && c.len() == 32 && hex_seq_valid(c)
    } else if (i - 4) % 3 == 0 {
        ev == WireEvent::Sent(cont_cmd())
    } else {
        ev matches WireEvent::Recv(h) && h.len() == 18
    }
}

/// An unfinished dump exchange: every message so far in its place.
pub open spec fn dump_prefix_valid(d: Seq<WireEvent>, address: u32) -> bool {
    forall|i: int| 0 <= i < d.len() ==> dump_event_ok(#[trigger] d[i], i, address)
}

/// The exchange a failed memory dump leaves behind, possibly followed
/// by the attempted bracket-releasing resume.  On a transport failure
/// the messages so far form an unfinished exchange — nothing repeated,
/// nothing re-sent.  On a protocol error the last message received is
/// the offending response: a short frame, or a chunk that is not
/// hexadecimal, where its place in the exchange demanded otherwise.
pub open spec fn dump_error_delta(d: Seq<WireEvent>, address: u32, err: M65Error) -> bool {
    let core = if d.len() > 0 && d.last() == WireEvent::Sent(resume_cmd()) {
        d.drop_last()
    } else {
        d
    };
    if err == M65Error::Protocol {
        &&& core.len() >= 1
        &&& dump_prefix_valid(core.drop_last(), address)
        &&& core.last() is Recv
        &&& !dump_event_ok(core.last(), core.len() - 1, address)
    } else {
        dump_prefix_valid(core, address)
    }
}

/// No place in a dump exchange holds the resume command, so a trailing
/// resume can only be the bracket-releasing one a failure appends.
pub proof fn lemma_dump_prefix_no_resume(d: Seq<WireEvent>, address: u32)
    requires
        dump_prefix_valid(d, address),
        d.len() > 0,
    ensures
        d.last() != WireEvent::Sent(resume_cmd()),
{
    if d.last() == WireEvent::Sent(resume_cmd()) {
        let i = d.len() - 1;
        assert(dump_event_ok(d[i], i, address));
        assert(resume_cmd().len() == 3);
        assert(halt_cmd()[1] != resume_cmd()[1]);
        assert(dump_cmd(address).len() == 9);
        assert(cont_cmd().len() == 2);
    }
}

/// How many 16-byte chunks a dump of `len` bytes takes.
pub open spec fn spec_chunk_count(len: nat) -> nat {
    (len + 15) / 16
}

/// Whether an event sequence is a run of `n` complete dump-continue
/// groups: continue command, 18-byte header, 32-digit chunk.
pub open spec fn dump_groups_valid(d: Seq<WireEvent>, n: nat) -> bool
    decreases n,
{
    if n == 0 {
        d.len() == 0
    } else {
        &&& d.len() >= 3
        &&& d[0] == WireEvent::Sent(cont_cmd())
        &&& d[1] matches WireEvent::Recv(h) && h.len() == 18
        &&& d[2] matches WireEvent::Recv(c) && c.len() == 32 && hex_seq_valid(c)
        &&& dump_groups_valid(d.skip(3), (n - 1) as nat)
    }
}

/// The bytes the chunks of a run of dump-continue groups decode to.
pub open spec fn dump_groups_payload(d: Seq<WireEvent>, n: nat) -> Seq<u8>
    recommends
        dump_groups_valid(d, n),
    decreases n,
{
    if n == 0 {
        Seq::empty()
    } else {
        spec_hex_decode(d[2]->Recv_0) + dump_groups_payload(d.skip(3), (n - 1) as nat)
    }
}

/// Whether an event sequence is exactly the exchange of a successful
/// memory dump of `len` bytes starting at `address`: halt, dump command,
/// 27-byte header, a first chunk when anything was requested, one
/// continue group per further chunk, resume.
pub open spec fn dump_delta_valid(d: Seq<WireEvent>, address: u32, len: nat) -> bool {
    let k = spec_chunk_count(len);
    &&& d.len() >= 4
    &&& d[0] == WireEvent::Sent(halt_cmd())
    &&& d[1] == WireEvent::Sent(dump_cmd(address))
    &&& d[2] matches WireEvent::Recv(h) && h.len() == 27
    &&& d.last() == WireEvent::Sent(resume_cmd())
    &&& if k == 0 {
        d.len() == 4
    } else {
        &&& d.len() == 5 + 3 * (k - 1)
        &&& d[3] matches WireEvent::Recv(c) && c.len() == 32 && hex_seq_valid(c)
        &&& dump_groups_valid(d.subrange(4, d.len() - 1), (k - 1) as nat)
    }
}

/// The payload a successful dump exchange carries: the decoded chunks,
/// truncated to the requested length.
pub open spec fn dump_delta_payload(d: Seq<WireEvent>, len: nat) -> Seq<u8> {
    let k = spec_chunk_count(len);
    if k == 0 {
        Seq::empty()
    } else {
        (spec_hex_decode(d[3]->Recv_0) + dump_groups_payload(
            d.subrange(4, d.len() - 1),
            (k - 1) as nat,
        )).take(len as int)
    }
}

/// Appending one further complete group to a valid run keeps it valid
/// and appends the group's decoded chunk to the payload.
pub proof fn lemma_dump_groups_append(d: Seq<WireEvent>, n: nat, g: Seq<WireEvent>)
    requires
        dump_groups_valid(d, n),
        g.len() == 3,
        g[0] == WireEvent::Sent(cont_cmd()),
        g[1] matches WireEvent::Recv(h) && h.len() == 18,
        g[2] matches WireEvent::Recv(c) && c.len() == 32 && hex_seq_valid(c),
    ensures
        dump_groups_valid(d + g, n + 1),
        dump_groups_payload(d + g, n + 1) == dump_groups_payload(d, n) + spec_hex_decode(
            g[2]->Recv_0,
        ),
    decreases n,
{
    if n == 0 {
        assert(d + g =~= g);
        assert(g.skip(3) =~= Seq::<WireEvent>::empty());
        assert(dump_groups_valid(g.skip(3), 0));
        assert(dump_groups_valid(g, 1));
        assert(dump_groups_payload(g.skip(3), 0) == Seq::<u8>::empty());
        assert(dump_groups_payload(d + g, 1) =~= dump_groups_payload(d, 0) + spec_hex_decode(
            g[2]->Recv_0,
        ));
    } else {
        assert((d + g).skip(3) =~= d.skip(3) + g);
        lemma_dump_groups_append(d.skip(3), (n - 1) as nat, g);
        assert((d + g)[0] == d[0]);
        assert((d + g)[1] == d[1]);
        assert((d + g)[2] == d[2]);
        assert(dump_groups_valid((d + g).skip(3), n));
        assert(dump_groups_valid(d + g, n + 1));
        assert(dump_groups_payload(d + g, n + 1) =~= dump_groups_payload(d, n) + spec_hex_decode(
            g[2]->Recv_0,
        ));
    }
}

} // verus!
