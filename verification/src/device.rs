//! A model of the monitor endpoint itself, and the round-trip theorem.
//!
//! `LbModel` is the ghost state of an in-memory device double: a flat
//! memory, the response bytes queued for the host, and the little state
//! the monitor keeps between commands.  `lb_step` says how each logged
//! message changes that state — commands are parsed exactly as the
//! builders in `protocol` print them.  On top of it, the lemmas below
//! prove the protocol's central property: a memory write followed by a
//! memory dump of the same range hands back exactly the bytes written.

use vstd::prelude::*;

use crate::hexcode::{
    is_hex_digit, lemma_hex7_injective, lemma_hex_decode_of_encode, lemma_hex_min_digits,
    lemma_hex_min_injective, spec_hex7, spec_hex_min, spec_hex_of_bytes,
};
use crate::protocol::{
    cont_cmd, dump_cmd, dump_delta_payload, dump_delta_valid, dump_groups_payload,
    dump_groups_valid, halt_cmd, resume_cmd, spec_chunk_count, write_delta, write_range_cmd,
    write_request_valid,
};
use crate::transport::WireEvent;

verus! {

/// How many bytes of memory the modelled device has.
pub const DEVICE_MEM_SIZE: usize = 0x10000;

/// A run of zero bytes, standing in for a response header's content.
pub open spec fn zero_bytes(n: nat) -> Seq<u8> {
    Seq::new(n, |i: int| 0u8)
}

/// The byte a dump shows at an address: memory content inside the
/// device's memory, zero beyond it.
pub open spec fn byte_at(mem: Seq<u8>, i: int) -> u8 {
    if 0 <= i < mem.len() {
        mem[i]
    } else {
        0
    }
}

/// One 16-byte dump chunk starting at an address.
pub open spec fn window16(mem: Seq<u8>, a: int) -> Seq<u8> {
    Seq::new(16, |i: int| byte_at(mem, a + i))
}

/// The `len` bytes a dump of that length starting at `a` shows.
pub open spec fn read_window(mem: Seq<u8>, a: int, len: nat) -> Seq<u8> {
    Seq::new(len, |i: int| byte_at(mem, a + i))
}

/// Memory after writing `data` at address `a`.
pub open spec fn write_window(mem: Seq<u8>, a: int, data: Seq<u8>) -> Seq<u8> {
    Seq::new(mem.len(), |i: int| if a <= i < a + data.len() {
        data[i - a]
    } else {
        mem[i]
    })
}

/// The state of the modelled monitor endpoint.
#[verifier::ext_equal]
pub struct LbModel {
    /// Device memory.
    pub mem: Seq<u8>,
    /// Response bytes queued for the host.
    pub pending: Seq<u8>,
    /// The address the next dump-continue chunk starts at.
    pub dump_addr: int,
    /// Whether a dump was started, so that dump-continue is meaningful.
    pub dumping: bool,
    /// A write range that was announced and now awaits its raw payload.
    pub expect: Option<(u16, u32)>,
}

/// A model state ready for a fresh exchange: nothing queued, no write
/// pending, full-size memory.
pub open spec fn lb_ready(m: LbModel) -> bool {
    &&& m.mem.len() == DEVICE_MEM_SIZE
    &&& m.pending.len() == 0
    &&& m.expect is None
}

/// How a message from the host changes the endpoint's state.
///
/// After an announced write range, the next message is taken as the raw
/// payload.  Otherwise the message is matched against the command forms
/// the engine can emit; anything unrecognized changes nothing.
pub open spec fn lb_sent(m: LbModel, msg: Seq<u8>) -> LbModel {
    if m.expect is Some {
        let se = m.expect->0;
        if msg.len() == se.1 - se.0 {
            LbModel { mem: write_window(m.mem, se.0 as int, msg), expect: None, ..m }
        } else {
            LbModel { expect: None, ..m }
        }
    } else if msg == cont_cmd() {
        if m.dumping {
            LbModel {
                pending: m.pending + zero_bytes(18) + spec_hex_of_bytes(
                    window16(m.mem, m.dump_addr),
                ),
                dump_addr: m.dump_addr + 16,
                ..m
            }
        } else {
            m
        }
    } else if exists|a: u32| a < 0x10000000 && msg == dump_cmd(a) {
        let a = choose|a: u32| a < 0x10000000 && msg == dump_cmd(a);
        LbModel {
            pending: m.pending + zero_bytes(27) + spec_hex_of_bytes(window16(m.mem, a as int)),
            dump_addr: a as int + 16,
            dumping: true,
            ..m
        }
    } else if exists|se: (u16, u32)| msg == write_range_cmd(se.0, se.1) {
        let se = choose|se: (u16, u32)| msg == write_range_cmd(se.0, se.1);
        LbModel { expect: Some(se), ..m }
    } else {
        m
    }
}

/// Whether the endpoint can hand out exactly these bytes: they are the
/// front of its queued response.
pub open spec fn lb_recv_ok(m: LbModel, data: Seq<u8>) -> bool {
    data.len() <= m.pending.len() && data == m.pending.take(data.len() as int)
}

/// How one logged event changes the endpoint's state.
pub open spec fn lb_step(m: LbModel, ev: WireEvent) -> LbModel {
    match ev {
        WireEvent::Sent(msg) => lb_sent(m, msg),
        WireEvent::Recv(data) => if lb_recv_ok(m, data) {
            LbModel { pending: m.pending.skip(data.len() as int), ..m }
        } else {
            m
        },
    }
}

/// The endpoint's state after a whole exchange.
pub open spec fn lb_run(m: LbModel, d: Seq<WireEvent>) -> LbModel
    decreases d.len(),
{
    if d.len() == 0 {
        m
    } else {
        lb_run(lb_step(m, d[0]), d.skip(1))
    }
}

/// Whether the endpoint, stepping through an exchange, could have handed
/// out every `Recv` entry in it.
pub open spec fn lb_accepts(m: LbModel, d: Seq<WireEvent>) -> bool
    decreases d.len(),
{
    if d.len() == 0 {
        true
    } else {
        &&& (d[0] matches WireEvent::Recv(data) ==> lb_recv_ok(m, data))
        &&& lb_accepts(lb_step(m, d[0]), d.skip(1))
    }
}

/// The seven-digit dump command pins its address.
proof fn lemma_dump_cmd_injective(a: u32, b: u32)
    requires
        a < 0x10000000,
        b < 0x10000000,
        dump_cmd(a) == dump_cmd(b),
    ensures
        a == b,
{
    assert(spec_hex7(a) =~= dump_cmd(a).subrange(1, 8));
    assert(spec_hex7(b) =~= dump_cmd(b).subrange(1, 8));
    lemma_hex7_injective(a, b);
}

/// The write-range command pins its start and end address.
proof fn lemma_write_range_cmd_injective(s1: u16, e1: u32, s2: u16, e2: u32)
    requires
        write_range_cmd(s1, e1) == write_range_cmd(s2, e2),
    ensures
        s1 == s2,
        e1 == e2,
{
    let h1 = spec_hex_min(s1 as u32);
    let h2 = spec_hex_min(s2 as u32);
    let g1 = spec_hex_min(e1);
    let g2 = spec_hex_min(e2);
    lemma_hex_min_digits(s1 as u32);
    lemma_hex_min_digits(s2 as u32);
    lemma_hex_min_digits(e1);
    lemma_hex_min_digits(e2);
    let c1 = write_range_cmd(s1, e1);
    let c2 = write_range_cmd(s2, e2);
    assert(c1[1 + h1.len() as int] == 0x20);
    assert(c2[1 + h2.len() as int] == 0x20);
    if h1.len() < h2.len() {
        assert(c2[1 + h1.len() as int] == h2[h1.len() as int]);
        assert(is_hex_digit(h2[h1.len() as int]));
        assert(false);
    }
    if h2.len() < h1.len() {
        assert(c1[1 + h2.len() as int] == h1[h2.len() as int]);
        assert(is_hex_digit(h1[h2.len() as int]));
        assert(false);
    }
    assert(h1 =~= c1.subrange(1, 1 + h1.len() as int));
    assert(h2 =~= c2.subrange(1, 1 + h2.len() as int));
    lemma_hex_min_injective(s1 as u32, s2 as u32);
    assert(c1.len() == 3 + h1.len() + g1.len());
    assert(c2.len() == 3 + h2.len() + g2.len());
    assert(g1 =~= c1.subrange(2 + h1.len() as int, c1.len() - 1));
    assert(g2 =~= c2.subrange(2 + h2.len() as int, c2.len() - 1));
    lemma_hex_min_injective(e1, e2);
}

/// A message that parses as none of the state-changing commands leaves
/// the endpoint unchanged.  This covers the halt, resume, reset, cancel,
/// keystroke and release commands, none of which starts with the dump
/// or write-range letter.
proof fn lemma_sent_noop(m: LbModel, msg: Seq<u8>)
    requires
        m.expect is None,
        msg.len() >= 1,
        msg[0] != 0x6d,
        msg[0] != 0x6c,
    ensures
        lb_sent(m, msg) == m,
{
    assert(cont_cmd()[0] == 0x6d);
    assert(msg != cont_cmd());
    assert forall|a: u32| !(a < 0x10000000 && msg == dump_cmd(a)) by {
        assert(dump_cmd(a)[0] == 0x6d);
    }
    assert forall|se: (u16, u32)| msg != write_range_cmd(se.0, se.1) by {
        assert(write_range_cmd(se.0, se.1)[0] == 0x6c);
    }
}

/// A dump or dump-continue queues one header and one encoded chunk; a
/// pair of receives taking exactly those leaves the queue empty again.
/// The concatenation of `n` chunks read through dump-continue groups.
pub open spec fn chunks_from(mem: Seq<u8>, a: int, n: nat) -> Seq<u8>
    decreases n,
{
    if n == 0 {
        Seq::empty()
    } else {
        window16(mem, a) + chunks_from(mem, a + 16, (n - 1) as nat)
    }
}

/// Every byte of a chunk run is the dump byte of its address.
proof fn lemma_chunks_from_index(mem: Seq<u8>, a: int, n: nat, i: int)
    requires
        0 <= i < 16 * n,
    ensures
        chunks_from(mem, a, n).len() == 16 * n,
        chunks_from(mem, a, n)[i] == byte_at(mem, a + i),
    decreases n,
{
    lemma_chunks_from_len(mem, a, n);
    if i < 16 {
        assert(chunks_from(mem, a, n)[i] == window16(mem, a)[i]);
    } else {
        lemma_chunks_from_index(mem, a + 16, (n - 1) as nat, i - 16);
        lemma_chunks_from_len(mem, a + 16, (n - 1) as nat);
        assert(chunks_from(mem, a, n)[i] == chunks_from(mem, a + 16, (n - 1) as nat)[i - 16]);
    }
}

/// A run of `n` chunks holds `16 * n` bytes.
proof fn lemma_chunks_from_len(mem: Seq<u8>, a: int, n: nat)
    ensures
        chunks_from(mem, a, n).len() == 16 * n,
    decreases n,
{
    if n > 0 {
        lemma_chunks_from_len(mem, a + 16, (n - 1) as nat);
    }
}

/// Stepping through a valid run of dump-continue groups that the
/// endpoint accepts yields exactly the chunks of its memory, advancing
/// the dump address by 16 per group and draining the queue.
proof fn lemma_loopback_groups(m: LbModel, d: Seq<WireEvent>, n: nat)
    requires
        m.pending.len() == 0,
        (m.expect is None),
        m.dumping,
        dump_groups_valid(d, n),
        lb_accepts(m, d),
    ensures
        dump_groups_payload(d, n) == chunks_from(m.mem, m.dump_addr, n),
        lb_run(m, d) == (LbModel { dump_addr: m.dump_addr + 16 * n, ..m }),
    decreases n,
{
    if n == 0 {
        assert(lb_run(m, d) == m);
        assert(LbModel { dump_addr: m.dump_addr + 16 * 0, ..m } =~= m);
    } else {
        let chunk = spec_hex_of_bytes(window16(m.mem, m.dump_addr));
        lemma_hex_decode_of_encode(window16(m.mem, m.dump_addr));
        // the continue command
        assert(d[0] == WireEvent::Sent(cont_cmd()));
        let m1 = lb_step(m, d[0]);
        assert(m1.pending =~= zero_bytes(18) + chunk);
        assert(m1.mem == m.mem && m1.dump_addr == m.dump_addr + 16 && m1.dumping == m.dumping
            && m1.expect == m.expect);
        assert(lb_accepts(m1, d.skip(1)));
        // the 18-byte header
        let h = d[1]->Recv_0;
        assert(d.skip(1)[0] == d[1]);
        assert(lb_recv_ok(m1, h));
        let m2 = lb_step(m1, d[1]);
        assert(h.len() == 18);
        assert(m2.pending =~= chunk);
        assert(d.skip(1).skip(1) =~= d.skip(2));
        assert(lb_accepts(m2, d.skip(2)));
        // the 32-digit chunk
        let c = d[2]->Recv_0;
        assert(d.skip(2)[0] == d[2]);
        assert(lb_recv_ok(m2, c));
        assert(c.len() == 32);
        assert(chunk.len() == 32);
        assert(c =~= chunk);
        let m3 = lb_step(m2, d[2]);
        assert(m3.pending =~= Seq::<u8>::empty());
        assert(m3.mem == m.mem && m3.dump_addr == m.dump_addr + 16 && m3.dumping == m.dumping
            && m3.expect == m.expect);
        assert(d.skip(2).skip(1) =~= d.skip(3));
        assert(lb_accepts(m3, d.skip(3)));
        // the remaining groups
        lemma_loopback_groups(m3, d.skip(3), (n - 1) as nat);
        assert(lb_run(m, d) == lb_run(m1, d.skip(1)));
        assert(lb_run(m1, d.skip(1)) == lb_run(m2, d.skip(2)));
        assert(lb_run(m2, d.skip(2)) == lb_run(m3, d.skip(3)));
        assert(lb_run(m, d) == lb_run(m3, d.skip(3)));
        assert(lb_run(m, d) =~= (LbModel { dump_addr: m.dump_addr + 16 * n, ..m }));
        assert(spec_hex_decode_of(c) == window16(m.mem, m.dump_addr));
        assert(dump_groups_payload(d, n) =~= chunks_from(m.mem, m.dump_addr, n));
    }
}

/// A valid dump exchange that a ready endpoint accepts carries exactly
/// the endpoint's memory over the requested range, and leaves the
/// endpoint ready again with its memory unchanged.
pub proof fn lemma_loopback_dump(m: LbModel, d: Seq<WireEvent>, address: u32, len: nat)
    requires
        lb_ready(m),
        address < 0x10000000,
        len >= 1,
        dump_delta_valid(d, address, len),
        lb_accepts(m, d),
    ensures
        dump_delta_payload(d, len) == read_window(m.mem, address as int, len),
        lb_run(m, d).mem == m.mem,
        lb_ready(lb_run(m, d)),
{
    let k = spec_chunk_count(len);
    assert(k >= 1);
    // halt
    assert(d[0] == WireEvent::Sent(halt_cmd()));
    lemma_sent_noop(m, halt_cmd());
    let m1 = lb_step(m, d[0]);
    assert(m1 == m);
    assert(lb_accepts(m1, d.skip(1)));
    // the dump command
    assert(d.skip(1)[0] == d[1]);
    assert(d[1] == WireEvent::Sent(dump_cmd(address)));
    let chunk0 = spec_hex_of_bytes(window16(m.mem, address as int));
    assert(address < 0x10000000 && dump_cmd(address) == dump_cmd(address));
    assert(exists|a: u32| a < 0x10000000 && dump_cmd(address) == dump_cmd(a));
    let a = choose|a: u32| a < 0x10000000 && dump_cmd(address) == dump_cmd(a);
    lemma_dump_cmd_injective(address, a);
    let m2 = lb_step(m1, d[1]);
    assert(m2.pending =~= zero_bytes(27) + chunk0);
    assert(m2.mem == m.mem && m2.dump_addr == address as int + 16 && m2.dumping
        && m2.expect == m.expect);
    assert(d.skip(1).skip(1) =~= d.skip(2));
    assert(lb_accepts(m2, d.skip(2)));
    // the 27-byte header
    let h = d[2]->Recv_0;
    assert(d.skip(2)[0] == d[2]);
    assert(lb_recv_ok(m2, h));
    assert(h.len() == 27);
    let m3 = lb_step(m2, d[2]);
    assert(m3.pending =~= chunk0);
    assert(d.skip(2).skip(1) =~= d.skip(3));
    assert(lb_accepts(m3, d.skip(3)));
    {
        // the first chunk
        let c0 = d[3]->Recv_0;
        assert(d.skip(3)[0] == d[3]);
        assert(lb_recv_ok(m3, c0));
        assert(c0.len() == 32);
        assert(chunk0.len() == 32);
        assert(c0 =~= chunk0);
        lemma_hex_decode_of_encode(window16(m.mem, address as int));
        let m4 = lb_step(m3, d[3]);
        assert(m4.pending =~= Seq::<u8>::empty());
        assert(m4.mem == m.mem && m4.dump_addr == address as int + 16 && m4.dumping
            && m4.expect == m.expect);
        assert(d.skip(3).skip(1) =~= d.skip(4));
        assert(lb_accepts(m4, d.skip(4)));
        // the continue groups
        let groups = d.subrange(4, d.len() - 1);
        let m5 = lb_run(m4, groups);
        assert(d.skip(4) =~= groups + seq![WireEvent::Sent(resume_cmd())]);
        lemma_accepts_append(m4, groups, seq![WireEvent::Sent(resume_cmd())]);
        lemma_loopback_groups(m4, groups, (k - 1) as nat);
        // the resume command
        lemma_sent_noop(m5, resume_cmd());
        lemma_run_append(m4, groups, seq![WireEvent::Sent(resume_cmd())]);
        assert(lb_run(m, d) == lb_run(m1, d.skip(1)));
        assert(lb_run(m1, d.skip(1)) == lb_run(m2, d.skip(2)));
        assert(lb_run(m2, d.skip(2)) == lb_run(m3, d.skip(3)));
        assert(lb_run(m3, d.skip(3)) == lb_run(m4, d.skip(4)));
        let rtail = seq![WireEvent::Sent(resume_cmd())];
        assert(lb_run(m4, d.skip(4)) == lb_run(m5, rtail));
        assert(rtail.skip(1) =~= Seq::<WireEvent>::empty());
        assert(rtail[0] == WireEvent::Sent(resume_cmd()));
        assert(lb_run(lb_step(m5, WireEvent::Sent(resume_cmd())), Seq::<WireEvent>::empty())
            == lb_step(m5, WireEvent::Sent(resume_cmd())));
        assert(lb_run(m5, rtail) == lb_step(m5, WireEvent::Sent(resume_cmd())));
        assert(lb_run(m, d) == m5);
        assert(lb_run(m, d).mem == m.mem);
        assert(lb_ready(lb_run(m, d)));
        // the payload
        let all = spec_hex_decode_of(c0) + dump_groups_payload(groups, (k - 1) as nat);
        assert(dump_delta_payload(d, len) == all.take(len as int));
        assert(spec_hex_decode_of(c0) == window16(m.mem, address as int));
        assert(all =~= chunks_from(m.mem, address as int, k));
        lemma_chunks_from_len(m.mem, address as int, k);
        assert(16 * k >= len);
        assert forall|i: int| 0 <= i < len implies all.take(len as int)[i] == read_window(
            m.mem,
            address as int,
            len,
        )[i] by {
            lemma_chunks_from_index(m.mem, address as int, k, i);
        }
        assert(all.take(len as int) =~= read_window(m.mem, address as int, len));
    }
}

/// Shorthand for the decoded form of a received chunk.
pub open spec fn spec_hex_decode_of(c: Seq<u8>) -> Seq<u8> {
    crate::hexcode::spec_hex_decode(c)
}

/// Running an exchange split in two parts runs its parts in order.
proof fn lemma_run_append(m: LbModel, d1: Seq<WireEvent>, d2: Seq<WireEvent>)
    ensures
        lb_run(m, d1 + d2) == lb_run(lb_run(m, d1), d2),
    decreases d1.len(),
{
    if d1.len() == 0 {
        assert(d1 + d2 =~= d2);
    } else {
        assert((d1 + d2)[0] == d1[0]);
        assert((d1 + d2).skip(1) =~= d1.skip(1) + d2);
        lemma_run_append(lb_step(m, d1[0]), d1.skip(1), d2);
    }
}

/// Accepting an exchange split in two parts means accepting the first,
/// and the second from where the first left off.
proof fn lemma_accepts_append(m: LbModel, d1: Seq<WireEvent>, d2: Seq<WireEvent>)
    requires
        lb_accepts(m, d1 + d2),
    ensures
        lb_accepts(m, d1),
        lb_accepts(lb_run(m, d1), d2),
    decreases d1.len(),
{
    if d1.len() == 0 {
        assert(d1 + d2 =~= d2);
    } else {
        assert((d1 + d2)[0] == d1[0]);
        assert((d1 + d2).skip(1) =~= d1.skip(1) + d2);
        lemma_accepts_append(lb_step(m, d1[0]), d1.skip(1), d2);
    }
}

/// A write exchange updates the endpoint's memory over exactly the
/// written range and leaves it ready again.
pub proof fn lemma_loopback_write(m: LbModel, address: u16, data: Seq<u8>)
    requires
        lb_ready(m),
        write_request_valid(address, data.len()),
    ensures
        lb_run(m, write_delta(address, data)).mem == write_window(m.mem, address as int, data),
        lb_ready(lb_run(m, write_delta(address, data))),
{
    let d = write_delta(address, data);
    let end = (address + data.len()) as u32;
    // halt
    assert(d[0] == WireEvent::Sent(halt_cmd()));
    lemma_sent_noop(m, halt_cmd());
    let m1 = lb_step(m, d[0]);
    assert(m1 == m);
    // the write-range command
    assert(d[1] == WireEvent::Sent(write_range_cmd(address, end)));
    let w: (u16, u32) = (address, end);
    assert(write_range_cmd(address, end) == write_range_cmd(w.0, w.1));
    assert(exists|se: (u16, u32)| write_range_cmd(address, end) == write_range_cmd(se.0, se.1));
    let se = choose|se: (u16, u32)| write_range_cmd(address, end) == write_range_cmd(se.0, se.1);
    lemma_write_range_cmd_injective(address, end, se.0, se.1);
    assert(write_range_cmd(address, end) != cont_cmd()) by {
        assert(write_range_cmd(address, end)[0] == 0x6c);
        assert(cont_cmd()[0] == 0x6d);
    }
    assert(forall|b: u32| write_range_cmd(address, end) != (#[trigger] dump_cmd(b))) by {
        assert forall|b: u32| write_range_cmd(address, end) != (#[trigger] dump_cmd(b)) by {
            assert(write_range_cmd(address, end)[0] == 0x6c);
            assert(dump_cmd(b)[0] == 0x6d);
        }
    }
    let m2 = lb_step(m1, d[1]);
    assert(m2.expect == Some((address, end)));
    assert(m2.mem == m.mem && m2.pending == m.pending);
    // the raw payload
    assert(d[2] == WireEvent::Sent(data));
    let m3 = lb_step(m2, d[2]);
    assert(data.len() == end - address);
    assert(m3.mem == write_window(m.mem, address as int, data));
    assert((m3.expect is None) && m3.pending == m.pending);
    // resume
    assert(d[3] == WireEvent::Sent(resume_cmd()));
    lemma_sent_noop(m3, resume_cmd());
    let m4 = lb_step(m3, d[3]);
    assert(m4 == m3);
    assert(d.skip(1)[0] == d[1]);
    assert(d.skip(2)[0] == d[2]);
    assert(d.skip(3)[0] == d[3]);
    assert(d.skip(1).skip(1) =~= d.skip(2));
    assert(d.skip(2).skip(1) =~= d.skip(3));
    assert(d.skip(3).skip(1) =~= d.skip(4));
    assert(d.skip(4).len() == 0);
    assert(lb_run(m, d) == lb_run(m1, d.skip(1)));
    assert(lb_run(m1, d.skip(1)) == lb_run(m2, d.skip(2)));
    assert(lb_run(m2, d.skip(2)) == lb_run(m3, d.skip(3)));
    assert(lb_run(m3, d.skip(3)) == lb_run(m4, d.skip(4)));
    assert(lb_run(m4, d.skip(4)) == m4);
    assert(lb_run(m, d) == m4);
}

/// Reading back a freshly written range shows exactly the written data.
proof fn lemma_window_round_trip(mem: Seq<u8>, address: u16, data: Seq<u8>)
    requires
        mem.len() == DEVICE_MEM_SIZE,
        write_request_valid(address, data.len()),
    ensures
        read_window(write_window(mem, address as int, data), address as int, data.len()) == data,
{
    let mem2 = write_window(mem, address as int, data);
    assert forall|i: int| 0 <= i < data.len() implies read_window(
        mem2,
        address as int,
        data.len(),
    )[i] == data[i] by {
        assert(byte_at(mem2, address + i) == mem2[address + i]);
    }
    assert(read_window(mem2, address as int, data.len()) =~= data);
}

/// The round trip: after a memory write of `data` at `address`, any
/// protocol-conformant memory dump of the same range that the endpoint
/// accepts carries back exactly `data`.
///
/// The write exchange is the one `write_memory` promises to emit; the
/// dump exchange is any one `read_memory` accepts for the same address
/// and length, answered from the endpoint's queue.
pub proof fn lemma_write_read_round_trip(
    m: LbModel,
    address: u16,
    data: Seq<u8>,
    d: Seq<WireEvent>,
)
    requires
        lb_ready(m),
        write_request_valid(address, data.len()),
        dump_delta_valid(d, address as u32, data.len()),
        lb_accepts(lb_run(m, write_delta(address, data)), d),
    ensures
        dump_delta_payload(d, data.len()) == data,
{
    lemma_loopback_write(m, address, data);
    let m1 = lb_run(m, write_delta(address, data));
    lemma_loopback_dump(m1, d, address as u32, data.len());
    lemma_window_round_trip(m.mem, address, data);
}

} // verus!
