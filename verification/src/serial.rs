//! The monitor session: memory transfers and CPU control over a transport.
//!
//! Every function here states, over the transport's exchange log, exactly
//! which command bytes it sends; `read_memory` additionally pins the shape
//! of the response frames it accepts and the payload they decode to.

use vstd::prelude::*;

use crate::hexcode::{hex_seq_valid, spec_hex_decode};
use crate::keyboard::{
    key_codes, keys_delta, lemma_keys_delta_snoc, normalize_escapes, spec_normalize,
    type_text_delta,
};
use crate::protocol::{
    cancel_cmd, cancel_cmd_bytes, cont_cmd, cont_cmd_bytes, dump_cmd, dump_cmd_bytes,
    dump_delta_payload, dump_delta_valid, dump_error_delta, dump_event_ok, dump_groups_payload,
    dump_groups_valid, dump_prefix_valid, halt_cmd,
    halt_cmd_bytes, key_cmd_bytes, lemma_dump_groups_append, lemma_dump_prefix_no_resume,
    release_cmd_bytes, reset_cmd,
    reset_cmd_bytes, resume_cmd, resume_cmd_bytes, spec_chunk_count, write_delta,
    write_error_delta, write_range_cmd, write_range_cmd_bytes, write_request_valid,
};
use crate::transport::{Transport, WireEvent};
use crate::{LoadAddress, M65Error};

verus! {

/// Default serial speed in bits per second.
pub const DEFAULT_BAUD_RATE: u32 = 2000000;

/// Milliseconds to let pass after handing a command to the device.
pub const DELAY_WRITE_MS: u64 = 20;

/// Milliseconds the device needs to boot after a reset.
pub const DELAY_RESET_MS: u64 = 4000;

/// Milliseconds a warm mode switch needs to complete.
pub const DELAY_MODE_SWITCH_MS: u64 = 1000;

/// How many empty-handed reads `flush_monitor` is willing to make before
/// calling the line drained.
pub const FLUSH_READ_LIMIT: usize = 65536;

/// Halt the CPU.
pub fn stop_cpu<T: Transport>(port: &mut T) -> (r: Result<(), M65Error>)
    ensures
        r is Ok ==> final(port).log() == old(port).log().push(WireEvent::Sent(halt_cmd())),
        r is Err ==> r->Err_0 == M65Error::Transport && final(port).log() == old(port).log(),
{
    let cmd = halt_cmd_bytes();
    match port.write_bytes(cmd.as_slice()) {
        Ok(()) => {},
        Err(e) => {
            return Err(e);
        },
    }
    port.wait_ms(DELAY_WRITE_MS);
    Ok(())
}

/// Resume the CPU after it was halted.
pub fn start_cpu<T: Transport>(port: &mut T) -> (r: Result<(), M65Error>)
    ensures
        r is Ok ==> final(port).log() == old(port).log().push(WireEvent::Sent(resume_cmd())),
        r is Err ==> r->Err_0 == M65Error::Transport && final(port).log() == old(port).log(),
{
    let cmd = resume_cmd_bytes();
    match port.write_bytes(cmd.as_slice()) {
        Ok(()) => {},
        Err(e) => {
            return Err(e);
        },
    }
    port.wait_ms(DELAY_WRITE_MS);
    Ok(())
}

/// Reset the device and wait out its boot time.
pub fn reset<T: Transport>(port: &mut T) -> (r: Result<(), M65Error>)
    ensures
        r is Ok ==> final(port).log() == old(port).log().push(WireEvent::Sent(reset_cmd())),
        r is Err ==> r->Err_0 == M65Error::Transport && final(port).log() == old(port).log(),
{
    let cmd = reset_cmd_bytes();
    match port.write_bytes(cmd.as_slice()) {
        Ok(()) => {},
        Err(e) => {
            return Err(e);
        },
    }
    port.wait_ms(DELAY_RESET_MS);
    Ok(())
}

/// Send the cancel sequence and read until the transport runs dry, to
/// resynchronize before a new exchange when stray response bytes may
/// still be buffered.
///
/// Draining reads one byte at a time; the drain is complete when a read
/// comes back empty.  A line that keeps producing bytes is given up on
/// after `FLUSH_READ_LIMIT` reads, so the call always returns.
pub fn flush_monitor<T: Transport>(port: &mut T) -> (r: Result<(), M65Error>)
    ensures
        r is Ok ==> ({
            let d = final(port).log().skip(old(port).log().len() as int);
            &&& final(port).log().len() > old(port).log().len() + 1
            &&& final(port).log().take(old(port).log().len() as int) == old(port).log()
            &&& d[0] == WireEvent::Sent(cancel_cmd())
            &&& forall|i: int|
                1 <= i < d.len() ==> ((#[trigger] d[i]) matches WireEvent::Recv(b) && b.len()
                    <= 1)
            &&& (d.last() matches WireEvent::Recv(b) && b.len() == 0) || d.len() - 1
                >= FLUSH_READ_LIMIT
        }),
        r is Err ==> r->Err_0 == M65Error::Transport,
{
    let ghost l0 = port.log();
    let cmd = cancel_cmd_bytes();
    match port.write_bytes(cmd.as_slice()) {
        Ok(()) => {},
        Err(e) => {
            return Err(e);
        },
    }
    proof {
        assert(port.log().take(l0.len() as int) =~= l0);
    }
    let mut budget: usize = FLUSH_READ_LIMIT;
    while budget > 0
        invariant_except_break
            port.log().len() > l0.len(),
            port.log().take(l0.len() as int) == l0,
            port.log().skip(l0.len() as int)[0] == WireEvent::Sent(cancel_cmd()),
            port.log().len() - l0.len() - 1 == FLUSH_READ_LIMIT - budget,
            forall|i: int|
                1 <= i < port.log().len() - l0.len() ==> ((#[trigger] port.log().skip(
                    l0.len() as int,
                )[i]) matches WireEvent::Recv(b) && b.len() == 1),
        ensures
            port.log().len() > l0.len() + 1,
            port.log().take(l0.len() as int) == l0,
            port.log().skip(l0.len() as int)[0] == WireEvent::Sent(cancel_cmd()),
            forall|i: int|
                1 <= i < port.log().len() - l0.len() ==> ((#[trigger] port.log().skip(
                    l0.len() as int,
                )[i]) matches WireEvent::Recv(b) && b.len() <= 1),
            (port.log().last() matches WireEvent::Recv(b) && b.len() == 0) || port.log().len()
                - l0.len() - 1 >= FLUSH_READ_LIMIT,
        decreases budget,
    {
        port.wait_ms(DELAY_WRITE_MS);
        let ghost lpre = port.log();
        let got = match port.read_bytes(1) {
            Ok(v) => v,
            Err(e) => {
                return Err(e);
            },
        };
        proof {
            assert(port.log().take(l0.len() as int) =~= l0);
            assert(port.log().skip(l0.len() as int).last() == port.log().last());
            assert(port.log().skip(l0.len() as int)[0] == lpre.skip(l0.len() as int)[0]);
            assert forall|i: int| 1 <= i < port.log().len() - l0.len() implies ((
            #[trigger] port.log().skip(l0.len() as int)[i]) matches WireEvent::Recv(b) && b.len()
                <= 1) by {
                if i < lpre.len() - l0.len() {
                    assert(port.log().skip(l0.len() as int)[i] == lpre.skip(l0.len() as int)[i]);
                } else {
                    assert(port.log().skip(l0.len() as int)[i] == port.log().last());
                }
            }
        }
        if got.len() == 0 {
            break ;
        }
        proof {
            assert forall|i: int| 1 <= i < port.log().len() - l0.len() implies ((
            #[trigger] port.log().skip(l0.len() as int)[i]) matches WireEvent::Recv(b) && b.len()
                == 1) by {
                if i < lpre.len() - l0.len() {
                    assert(port.log().skip(l0.len() as int)[i] == lpre.skip(l0.len() as int)[i]);
                } else {
                    assert(port.log().skip(l0.len() as int)[i] == port.log().last());
                }
            }
        }
        budget -= 1;
    }
    proof {
        let d = port.log().skip(l0.len() as int);
        assert(d[0] == port.log().skip(l0.len() as int)[0]);
        assert(d.last() == port.log().last());
    }
    Ok(())
}

/// Read exactly `n` bytes; anything shorter is a protocol error,
/// leaving the short response as the last logged message.
fn read_exactly<T: Transport>(port: &mut T, n: usize) -> (r: Result<Vec<u8>, M65Error>)
    ensures
        r is Ok ==> ({
            &&& r->Ok_0@.len() == n
            &&& final(port).log() == old(port).log().push(WireEvent::Recv(r->Ok_0@))
        }),
        r is Err ==> r->Err_0 == M65Error::Transport || r->Err_0 == M65Error::Protocol,
        r == Err::<Vec<u8>, M65Error>(M65Error::Transport) ==> final(port).log() == old(
            port,
        ).log(),
        r == Err::<Vec<u8>, M65Error>(M65Error::Protocol) ==> ({
            &&& final(port).log().len() == old(port).log().len() + 1
            &&& final(port).log().drop_last() == old(port).log()
            &&& final(port).log().last() matches WireEvent::Recv(b) && b.len() < n
        }),
{
    match port.read_bytes(n) {
        Ok(v) => {
            if v.len() == n {
                Ok(v)
            } else {
                proof {
                    assert(port.log().drop_last() =~= old(port).log());
                }
                Err(M65Error::Protocol)
            }
        },
        Err(e) => Err(e),
    }
}

/// Read one 32-digit dump chunk and decode it into 16 bytes.  A short
/// or non-hexadecimal frame is a protocol error, leaving the offending
/// response as the last logged message.
fn read_chunk<T: Transport>(port: &mut T) -> (r: Result<Vec<u8>, M65Error>)
    ensures
        r is Ok ==> ({
            &&& final(port).log().len() == old(port).log().len() + 1
            &&& final(port).log().drop_last() == old(port).log()
            &&& final(port).log().last() matches WireEvent::Recv(c) && c.len() == 32
                && hex_seq_valid(c) && r->Ok_0@ == spec_hex_decode(c)
            &&& r->Ok_0@.len() == 16
        }),
        r is Err ==> r->Err_0 == M65Error::Transport || r->Err_0 == M65Error::Protocol,
        r == Err::<Vec<u8>, M65Error>(M65Error::Transport) ==> final(port).log() == old(
            port,
        ).log(),
        r == Err::<Vec<u8>, M65Error>(M65Error::Protocol) ==> ({
            &&& final(port).log().len() == old(port).log().len() + 1
            &&& final(port).log().drop_last() == old(port).log()
            &&& final(port).log().last() matches WireEvent::Recv(b) && (b.len() < 32 || (b.len()
                == 32 && !hex_seq_valid(b)))
        }),
{
    let raw = match read_exactly(port, 32) {
        Ok(v) => v,
        Err(e) => {
            return Err(e);
        },
    };
    let decoded = match crate::hexcode::decode_hex_bytes(raw.as_slice()) {
        Ok(v) => v,
        Err(e) => {
            proof {
                assert(port.log().drop_last() =~= old(port).log());
            }
            return Err(e);
        },
    };
    proof {
        assert(port.log().drop_last() =~= old(port).log());
    }
    Ok(decoded)
}

/// Read `length` bytes of device memory starting at `address`.
///
/// The call halts the CPU, starts a memory dump, discards the 27-byte
/// response header, then takes one 16-byte chunk after another — each a
/// frame of exactly 32 hexadecimal digits, preceded on continuation by a
/// dump-continue command and an 18-byte header — until enough bytes
/// arrived, truncates to the requested length and resumes the CPU.
///
/// A response that came back successfully but shorter than its frame
/// requires, or a chunk that is not hexadecimal, is a protocol error;
/// short responses are never padded or accepted, and the offending
/// response is the last message received.  A failed transport call is a
/// transport error and logs nothing.  Either way the messages sent form
/// a prefix of the intended exchange — nothing is retried or re-sent —
/// and a resume is still attempted, so that the device is not left
/// halted.
pub fn read_memory<T: Transport>(port: &mut T, address: u32, length: usize) -> (r: Result<
    Vec<u8>,
    M65Error,
>)
    requires
        address < 0x10000000,
    ensures
        r is Ok ==> ({
            let d = final(port).log().skip(old(port).log().len() as int);
            &&& final(port).log().len() > old(port).log().len()
            &&& final(port).log().take(old(port).log().len() as int) == old(port).log()
            &&& dump_delta_valid(d, address, length as nat)
            &&& r->Ok_0@ == dump_delta_payload(d, length as nat)
            &&& r->Ok_0@.len() == length
        }),
        r is Err ==> r->Err_0 == M65Error::Transport || r->Err_0 == M65Error::Protocol,
        r is Err ==> ({
            let d = final(port).log().skip(old(port).log().len() as int);
            &&& final(port).log().take(old(port).log().len() as int) == old(port).log()
            &&& dump_error_delta(d, address, r->Err_0)
        }),
{
    let ghost l0 = port.log();
    match read_memory_exchange(port, address, length) {
        Ok(v) => Ok(v),
        Err(e) => {
            let ghost lex = port.log();
            let ghost dex = lex.skip(l0.len() as int);
            proof {
                assert(lex == port.log());
                assert(lex.take(l0.len() as int) == l0);
                assert(lex.len() >= l0.len());
            }
            match start_cpu(port) {
                Ok(()) => {
                    proof {
                        assert(port.log() == lex.push(WireEvent::Sent(resume_cmd())));
                        let d = port.log().skip(l0.len() as int);
                        assert(d =~= dex.push(WireEvent::Sent(resume_cmd())));
                        assert(d.last() == WireEvent::Sent(resume_cmd()));
                        assert(d.drop_last() =~= dex);
                        assert(port.log().take(l0.len() as int) =~= l0);
                        assert(dump_error_delta(d, address, e));
                    }
                },
                Err(_) => {
                    proof {
                        let d = port.log().skip(l0.len() as int);
                        assert(d == dex);
                        if e == M65Error::Transport {
                            if d.len() > 0 {
                                lemma_dump_prefix_no_resume(d, address);
                            }
                            assert(dump_error_delta(d, address, e));
                        } else {
                            assert(d.last() is Recv);
                            assert(dump_error_delta(d, address, e));
                        }
                    }
                },
            }
            Err(e)
        },
    }
}

/// The dump exchange itself, with no release of the halt bracket on
/// failure.
fn read_memory_exchange<T: Transport>(port: &mut T, address: u32, length: usize) -> (r: Result<
    Vec<u8>,
    M65Error,
>)
    requires
        address < 0x10000000,
    ensures
        r is Ok ==> ({
            let d = final(port).log().skip(old(port).log().len() as int);
            &&& final(port).log().len() > old(port).log().len()
            &&& final(port).log().take(old(port).log().len() as int) == old(port).log()
            &&& dump_delta_valid(d, address, length as nat)
            &&& r->Ok_0@ == dump_delta_payload(d, length as nat)
            &&& r->Ok_0@.len() == length
        }),
        r is Err ==> r->Err_0 == M65Error::Transport || r->Err_0 == M65Error::Protocol,
        r is Err ==> ({
            let d = final(port).log().skip(old(port).log().len() as int);
            &&& final(port).log().len() >= old(port).log().len()
            &&& final(port).log().take(old(port).log().len() as int) == old(port).log()
            &&& (r->Err_0 == M65Error::Transport ==> dump_prefix_valid(d, address))
            &&& (r->Err_0 == M65Error::Protocol ==> d.len() >= 1 && dump_prefix_valid(
                d.drop_last(),
                address,
            ) && d.last() is Recv && !dump_event_ok(d.last(), d.len() - 1, address))
        }),
{
    let ghost l0 = port.log();
    match stop_cpu(port) {
        Ok(()) => {},
        Err(e) => {
            proof {
                let d = port.log().skip(l0.len() as int);
                assert(d =~= Seq::<WireEvent>::empty());
                assert(port.log().take(l0.len() as int) =~= l0);
            }
            return Err(e);
        },
    }
    let cmd = dump_cmd_bytes(address);
    match port.write_bytes(cmd.as_slice()) {
        Ok(()) => {},
        Err(e) => {
            proof {
                let d = port.log().skip(l0.len() as int);
                assert(d =~= seq![WireEvent::Sent(halt_cmd())]);
                assert(port.log().take(l0.len() as int) =~= l0);
                assert forall|i: int| 0 <= i < d.len() implies dump_event_ok(
                    #[trigger] d[i],
                    i,
                    address,
                ) by {
                    assert(d[0] == WireEvent::Sent(halt_cmd()));
                }
            }
            return Err(e);
        },
    }
    port.wait_ms(DELAY_WRITE_MS);
    let ghost lh = port.log();
    proof {
        assert(lh.skip(l0.len() as int) =~= seq![
            WireEvent::Sent(halt_cmd()),
            WireEvent::Sent(dump_cmd(address)),
        ]);
        assert forall|i: int| 0 <= i < 2 implies dump_event_ok(
            #[trigger] lh.skip(l0.len() as int)[i],
            i,
            address,
        ) by {
            if i == 0 {
                assert(lh.skip(l0.len() as int)[0] == WireEvent::Sent(halt_cmd()));
            } else {
                assert(lh.skip(l0.len() as int)[1] == WireEvent::Sent(dump_cmd(address)));
            }
        }
    }
    let header = match read_exactly(port, 27) {
        Ok(v) => v,
        Err(e) => {
            proof {
                let d = port.log().skip(l0.len() as int);
                if e == M65Error::Transport {
                    assert(d == lh.skip(l0.len() as int));
                    assert(port.log().take(l0.len() as int) =~= l0);
                } else {
                    assert(port.log() == lh.push(port.log().last()));
                    assert(d =~= lh.skip(l0.len() as int).push(port.log().last()));
                    assert(d.drop_last() =~= lh.skip(l0.len() as int));
                    assert(port.log().take(l0.len() as int) =~= l0);
                    assert(d.last() is Recv);
                    assert(!dump_event_ok(d.last(), 2, address));
                }
            }
            return Err(e);
        },
    };
    let ghost lhd = port.log();
    proof {
        assert(lhd.skip(l0.len() as int) =~= seq![
            WireEvent::Sent(halt_cmd()),
            WireEvent::Sent(dump_cmd(address)),
            WireEvent::Recv(header@),
        ]);
        assert forall|i: int| 0 <= i < 3 implies dump_event_ok(
            #[trigger] lhd.skip(l0.len() as int)[i],
            i,
            address,
        ) by {
            assert(lhd.skip(l0.len() as int)[i] == lh.skip(l0.len() as int).push(
                WireEvent::Recv(header@),
            )[i]);
        }
        assert(lhd.take(l0.len() as int) =~= l0);
    }
    if length == 0 {
        match start_cpu(port) {
            Ok(()) => {},
            Err(e) => {
                proof {
                    let d = port.log().skip(l0.len() as int);
                    assert(d == lhd.skip(l0.len() as int));
                }
                return Err(e);
            },
        }
        proof {
            let d = port.log().skip(l0.len() as int);
            assert(d =~= seq![
                WireEvent::Sent(halt_cmd()),
                WireEvent::Sent(dump_cmd(address)),
                WireEvent::Recv(header@),
                WireEvent::Sent(resume_cmd()),
            ]);
            assert(port.log().take(l0.len() as int) =~= l0);
            assert(dump_delta_valid(d, address, 0));
        }
        return Ok(Vec::new());
    }
    let ghost lpre0 = port.log();
    let mut out = match read_chunk(port) {
        Ok(v) => v,
        Err(e) => {
            proof {
                let d = port.log().skip(l0.len() as int);
                if e == M65Error::Transport {
                    assert(d == lhd.skip(l0.len() as int));
                } else {
                    assert(port.log() == lhd.push(port.log().last()));
                    assert(d =~= lhd.skip(l0.len() as int).push(port.log().last()));
                    assert(d.drop_last() =~= lhd.skip(l0.len() as int));
                    assert(port.log().take(l0.len() as int) =~= l0);
                    assert(d.last() is Recv);
                    assert(!dump_event_ok(d.last(), 3, address));
                }
            }
            return Err(e);
        },
    };
    let ghost mut j: int = 1;
    let ghost mut gd: Seq<WireEvent> = seq![
        WireEvent::Sent(halt_cmd()),
        WireEvent::Sent(dump_cmd(address)),
        WireEvent::Recv(header@),
        port.log().last(),
    ];
    proof {
        assert(port.log() =~= lpre0.push(port.log().last()));
        assert(port.log() =~= l0 + gd);
        assert(gd.subrange(4, gd.len() as int) =~= Seq::<WireEvent>::empty());
        assert(out@ =~= spec_hex_decode(gd[3]->Recv_0) + dump_groups_payload(
            gd.subrange(4, gd.len() as int),
            0,
        ));
        assert forall|i: int| 0 <= i < gd.len() implies dump_event_ok(
            #[trigger] gd[i],
            i,
            address,
        ) by {
            if i < 3 {
                assert(gd[i] == lhd.skip(l0.len() as int)[i]);
            } else {
                assert(gd[3] == port.log().last());
            }
        }
        assert(dump_prefix_valid(gd, address));
    }
    while out.len() < length
        invariant
            address < 0x10000000,
            length > 0,
            1 <= j,
            out@.len() == 16 * j,
            16 * (j - 1) < length,
            l0 == old(port).log(),
            port.log() == l0 + gd,
            gd.len() == 4 + 3 * (j - 1),
            gd[0] == WireEvent::Sent(halt_cmd()),
            gd[1] == WireEvent::Sent(dump_cmd(address)),
            gd[2] matches WireEvent::Recv(h) && h.len() == 27,
            gd[3] matches WireEvent::Recv(c) && c.len() == 32 && hex_seq_valid(c),
            dump_groups_valid(gd.subrange(4, gd.len() as int), (j - 1) as nat),
            dump_prefix_valid(gd, address),
            out@ == spec_hex_decode(gd[3]->Recv_0) + dump_groups_payload(
                gd.subrange(4, gd.len() as int),
                (j - 1) as nat,
            ),
        decreases 16 + length - out.len(),
    {
        proof {
            assert(port.log().take(l0.len() as int) =~= l0);
            assert((3 * (j - 1)) % 3 == 0) by (nonlinear_arith)
                requires
                    j >= 1,
            ;
            assert((3 * (j - 1) + 1) % 3 == 1) by (nonlinear_arith)
                requires
                    j >= 1,
            ;
            assert((3 * (j - 1) + 2) % 3 == 2) by (nonlinear_arith)
                requires
                    j >= 1,
            ;
        }
        let cont = cont_cmd_bytes();
        match port.write_bytes(cont.as_slice()) {
            Ok(()) => {},
            Err(e) => {
                proof {
                    let d = port.log().skip(l0.len() as int);
                    assert(d == gd);
                }
                return Err(e);
            },
        }
        port.wait_ms(DELAY_WRITE_MS);
        let ghost lc = port.log();
        proof {
            assert(lc =~= l0 + gd.push(WireEvent::Sent(cont_cmd())));
            assert(lc.skip(l0.len() as int) =~= gd.push(WireEvent::Sent(cont_cmd())));
            assert(lc.take(l0.len() as int) =~= l0);
            assert(dump_event_ok(WireEvent::Sent(cont_cmd()), gd.len() as int, address));
            assert forall|i: int| 0 <= i < gd.len() + 1 implies dump_event_ok(
                #[trigger] gd.push(WireEvent::Sent(cont_cmd()))[i],
                i,
                address,
            ) by {
                if i < gd.len() {
                    assert(gd.push(WireEvent::Sent(cont_cmd()))[i] == gd[i]);
                }
            }
            assert(dump_prefix_valid(lc.skip(l0.len() as int), address));
        }
        let h18 = match read_exactly(port, 18) {
            Ok(v) => v,
            Err(e) => {
                proof {
                    let d = port.log().skip(l0.len() as int);
                    if e == M65Error::Transport {
                        assert(d == lc.skip(l0.len() as int));
                    } else {
                        assert(port.log() == lc.push(port.log().last()));
                        assert(d =~= lc.skip(l0.len() as int).push(port.log().last()));
                        assert(d.drop_last() =~= lc.skip(l0.len() as int));
                        assert(port.log().take(l0.len() as int) =~= l0);
                        assert(d.last() is Recv);
                        assert(d.len() - 1 == gd.len() + 1);
                        assert(!dump_event_ok(d.last(), d.len() - 1, address));
                    }
                }
                return Err(e);
            },
        };
        let ghost lch = port.log();
        proof {
            assert(lch =~= l0 + (gd + seq![
                WireEvent::Sent(cont_cmd()),
                WireEvent::Recv(h18@),
            ]));
            assert(lch.skip(l0.len() as int) =~= gd + seq![
                WireEvent::Sent(cont_cmd()),
                WireEvent::Recv(h18@),
            ]);
            assert(lch.take(l0.len() as int) =~= l0);
            assert(dump_event_ok(WireEvent::Recv(h18@), gd.len() + 1int, address));
            assert forall|i: int| 0 <= i < gd.len() + 2 implies dump_event_ok(
                #[trigger] lch.skip(l0.len() as int)[i],
                i,
                address,
            ) by {
                if i < gd.len() {
                    assert(lch.skip(l0.len() as int)[i] == gd[i]);
                } else if i == gd.len() {
                    assert(lch.skip(l0.len() as int)[i] == WireEvent::Sent(cont_cmd()));
                } else {
                    assert(lch.skip(l0.len() as int)[i] == WireEvent::Recv(h18@));
                }
            }
            assert(dump_prefix_valid(lch.skip(l0.len() as int), address));
        }
        let mut chunk = match read_chunk(port) {
            Ok(v) => v,
            Err(e) => {
                proof {
                    let d = port.log().skip(l0.len() as int);
                    if e == M65Error::Transport {
                        assert(d == lch.skip(l0.len() as int));
                    } else {
                        assert(port.log() == lch.push(port.log().last()));
                        assert(d =~= lch.skip(l0.len() as int).push(port.log().last()));
                        assert(d.drop_last() =~= lch.skip(l0.len() as int));
                        assert(port.log().take(l0.len() as int) =~= l0);
                        assert(d.last() is Recv);
                        assert(d.len() - 1 == gd.len() + 2);
                        assert(!dump_event_ok(d.last(), d.len() - 1, address));
                    }
                }
                return Err(e);
            },
        };
        let ghost cev = port.log().last();
        out.append(&mut chunk);
        proof {
            let g = seq![WireEvent::Sent(cont_cmd()), WireEvent::Recv(h18@), cev];
            assert(port.log() =~= lch.push(cev));
            assert(port.log() =~= l0 + (gd + g));
            lemma_dump_groups_append(gd.subrange(4, gd.len() as int), (j - 1) as nat, g);
            assert((gd + g).subrange(4, (gd + g).len() as int) =~= gd.subrange(
                4,
                gd.len() as int,
            ) + g);
            assert((gd + g)[3] == gd[3]);
            assert(dump_event_ok(cev, gd.len() + 2int, address));
            assert forall|i: int| 0 <= i < (gd + g).len() implies dump_event_ok(
                #[trigger] (gd + g)[i],
                i,
                address,
            ) by {
                if i < gd.len() {
                    assert((gd + g)[i] == gd[i]);
                } else {
                    assert((gd + g)[i] == g[i - gd.len()]);
                }
            }
            gd = gd + g;
            j = j + 1;
            assert(dump_prefix_valid(gd, address));
            assert(out@ =~= spec_hex_decode(gd[3]->Recv_0) + dump_groups_payload(
                gd.subrange(4, gd.len() as int),
                (j - 1) as nat,
            ));
        }
    }
    match start_cpu(port) {
        Ok(()) => {},
        Err(e) => {
            proof {
                let d = port.log().skip(l0.len() as int);
                assert(d == gd);
                assert(port.log().take(l0.len() as int) =~= l0);
            }
            return Err(e);
        },
    }
    out.truncate(length);
    proof {
        let k = spec_chunk_count(length as nat);
        assert(k == j);
        let d = gd + seq![WireEvent::Sent(resume_cmd())];
        assert(port.log().skip(l0.len() as int) =~= d);
        assert(port.log().take(l0.len() as int) =~= l0);
        assert(d.subrange(4, d.len() - 1) =~= gd.subrange(4, gd.len() as int));
        assert(d[0] == gd[0] && d[1] == gd[1] && d[2] == gd[2] && d[3] == gd[3]);
        assert(dump_delta_valid(d, address, length as nat));
        assert(out@ =~= dump_delta_payload(d, length as nat));
    }
    Ok(out)
}

/// Write `bytes` into device memory at `address`.
///
/// The request is validated first: an empty payload or one whose
/// exclusive end address would leave the 16-bit domain is rejected
/// before anything reaches the transport.  A valid request halts the
/// CPU, announces the range, sends the raw payload and resumes the CPU.
/// When the exchange fails midway, the messages already sent form a
/// prefix of the intended exchange — nothing is retried or re-sent —
/// and a resume is still attempted, so that the device is not left
/// halted.
pub fn write_memory<T: Transport>(port: &mut T, address: u16, bytes: &[u8]) -> (r: Result<
    (),
    M65Error,
>)
    ensures
        r is Ok ==> write_request_valid(address, bytes@.len()) && final(port).log() == old(
            port,
        ).log() + write_delta(address, bytes@),
        bytes@.len() == 0 ==> r == Err::<(), M65Error>(M65Error::EmptyPayload) && final(port).log()
            == old(port).log(),
        bytes@.len() > 0 && address + bytes@.len() > 0xffff ==> r == Err::<(), M65Error>(
            M65Error::AddressOverflow,
        ) && final(port).log() == old(port).log(),
        r is Err ==> r->Err_0 == M65Error::EmptyPayload || r->Err_0 == M65Error::AddressOverflow
            || r->Err_0 == M65Error::Transport,
        r == Err::<(), M65Error>(M65Error::EmptyPayload) ==> bytes@.len() == 0,
        r == Err::<(), M65Error>(M65Error::AddressOverflow) ==> bytes@.len() > 0 && address
            + bytes@.len() > 0xffff,
        r is Err && write_request_valid(address, bytes@.len()) ==> ({
            let d = final(port).log().skip(old(port).log().len() as int);
            &&& final(port).log().take(old(port).log().len() as int) == old(port).log()
            &&& write_error_delta(d, address, bytes@)
        }),
{
    if bytes.len() == 0 {
        return Err(M65Error::EmptyPayload);
    }
    if bytes.len() > 0xffff - (address as usize) {
        return Err(M65Error::AddressOverflow);
    }
    let ghost l0 = port.log();
    match write_memory_exchange(port, address, bytes) {
        Ok(()) => Ok(()),
        Err(e) => {
            let ghost wd = write_delta(address, bytes@);
            let ghost lex = port.log();
            let ghost dex = lex.skip(l0.len() as int);
            let ghost kk = choose|k: int| 0 <= k <= 3 && dex == wd.take(k);
            proof {
                assert(lex == port.log());
                assert(lex.take(l0.len() as int) == l0);
                assert(lex.len() >= l0.len());
                assert(0 <= kk <= 3 && dex == wd.take(kk));
            }
            match start_cpu(port) {
                Ok(()) => {
                    proof {
                        assert(port.log() == lex.push(WireEvent::Sent(resume_cmd())));
                        let d = port.log().skip(l0.len() as int);
                        assert(d =~= dex.push(WireEvent::Sent(resume_cmd())));
                        assert(d.last() == WireEvent::Sent(resume_cmd()));
                        assert(d.drop_last() =~= dex);
                        assert(port.log().take(l0.len() as int) =~= l0);
                        assert(write_error_delta(d, address, bytes@));
                    }
                },
                Err(_) => {
                    proof {
                        let d = port.log().skip(l0.len() as int);
                        assert(d == dex);
                        if d.len() > 0 && d.last() == WireEvent::Sent(resume_cmd()) {
                            assert(halt_cmd()[1] != resume_cmd()[1]);
                            assert(write_range_cmd(
                                address,
                                (address + bytes@.len()) as u32,
                            )[0] == 0x6c);
                            assert(resume_cmd()[0] == 0x74);
                            assert(kk == 3);
                            assert(d.drop_last() =~= wd.take(2));
                            assert(write_error_delta(d, address, bytes@));
                        } else {
                            assert(write_error_delta(d, address, bytes@));
                        }
                    }
                },
            }
            Err(e)
        },
    }
}

/// The write exchange itself, with no release of the halt bracket on
/// failure.
fn write_memory_exchange<T: Transport>(port: &mut T, address: u16, bytes: &[u8]) -> (r: Result<
    (),
    M65Error,
>)
    requires
        write_request_valid(address, bytes@.len()),
    ensures
        r is Ok ==> final(port).log() == old(port).log() + write_delta(address, bytes@),
        r is Err ==> r->Err_0 == M65Error::Transport && ({
            let d = final(port).log().skip(old(port).log().len() as int);
            &&& final(port).log().len() >= old(port).log().len()
            &&& final(port).log().take(old(port).log().len() as int) == old(port).log()
            &&& exists|k: int| #![auto] 0 <= k <= 3 && d == write_delta(address, bytes@).take(k)
        }),
{
    let ghost l0 = port.log();
    let ghost wd = write_delta(address, bytes@);
    let end: u32 = address as u32 + bytes.len() as u32;
    match stop_cpu(port) {
        Ok(()) => {},
        Err(e) => {
            proof {
                assert(port.log().take(l0.len() as int) =~= l0);
                assert(port.log().skip(l0.len() as int) =~= wd.take(0));
            }
            return Err(e);
        },
    }
    let cmd = write_range_cmd_bytes(address, end);
    match port.write_bytes(cmd.as_slice()) {
        Ok(()) => {},
        Err(e) => {
            proof {
                assert(port.log().take(l0.len() as int) =~= l0);
                assert(port.log().skip(l0.len() as int) =~= wd.take(1));
            }
            return Err(e);
        },
    }
    port.wait_ms(DELAY_WRITE_MS);
    match port.write_bytes(bytes) {
        Ok(()) => {},
        Err(e) => {
            proof {
                assert(port.log().take(l0.len() as int) =~= l0);
                assert(port.log().skip(l0.len() as int) =~= wd.take(2));
            }
            return Err(e);
        },
    }
    port.wait_ms(DELAY_WRITE_MS);
    match start_cpu(port) {
        Ok(()) => {},
        Err(e) => {
            proof {
                assert(port.log().take(l0.len() as int) =~= l0);
                assert(port.log().skip(l0.len() as int) =~= wd.take(3));
            }
            return Err(e);
        },
    }
    proof {
        assert(port.log() =~= l0 + write_delta(address, bytes@));
    }
    Ok(())
}

/// The characters of a string, in order.
///
/// Relies on `str::chars`: iterating a string yields exactly the
/// characters its view consists of.
#[verifier::external_body]
pub(crate) fn str_chars_vec(s: &str) -> (r: Vec<char>)
    ensures
        r@ == s@,
{
    s.chars().collect()
}

/// Type `text` on the device, one keystroke command per character.
///
/// The escape sequences `\r` and `\n` in the text are first normalized
/// to the device's return character.  Every character is sent, mapped
/// through the keyboard-matrix table — unmapped characters press "no
/// key" — and the matrix is released afterwards.
pub fn type_text<T: Transport>(port: &mut T, text: &str) -> (r: Result<(), M65Error>)
    ensures
        r is Ok ==> final(port).log() == old(port).log() + type_text_delta(spec_normalize(text@)),
        r is Err ==> r->Err_0 == M65Error::Transport,
{
    let chars = str_chars_vec(text);
    let keys = normalize_escapes(&chars);
    port.wait_ms(DELAY_WRITE_MS);
    let ghost l0 = port.log();
    let mut i: usize = 0;
    proof {
        assert(keys@.take(0) =~= Seq::<char>::empty());
        assert(port.log() =~= l0 + keys_delta(keys@.take(0)));
    }
    while i < keys.len()
        invariant
            i <= keys@.len(),
            port.log() == l0 + keys_delta(keys@.take(i as int)),
        decreases keys@.len() - i,
    {
        let codes = key_codes(keys[i]);
        let cmd = key_cmd_bytes(codes.0, codes.1);
        match port.write_bytes(cmd.as_slice()) {
            Ok(()) => {},
            Err(e) => {
                return Err(e);
            },
        }
        port.wait_ms(DELAY_WRITE_MS);
        proof {
            lemma_keys_delta_snoc(keys@, i as int);
            assert(port.log() =~= l0 + keys_delta(keys@.take(i + 1)));
        }
        i += 1;
    }
    let rel = release_cmd_bytes();
    match port.write_bytes(rel.as_slice()) {
        Ok(()) => {},
        Err(e) => {
            return Err(e);
        },
    }
    port.wait_ms(DELAY_WRITE_MS);
    proof {
        assert(keys@.take(keys@.len() as int) =~= keys@);
        assert(port.log() =~= l0 + type_text_delta(keys@));
    }
    Ok(())
}

/// The memory address whose content tells the operating mode apart.
pub const MODE_PROBE_ADDRESS: u32 = 0xffd3030;

/// The probe byte's value when the device runs in its native mode.
pub const NATIVE_MODE_BYTE: u8 = 0x64;

/// Whether a completed mode-probe exchange shows the native mode.
pub open spec fn probe_native(d: Seq<WireEvent>) -> bool {
    dump_delta_payload(d, 1) == seq![NATIVE_MODE_BYTE]
}

/// Probe whether the device is in its native (C65) operating mode, by
/// reading the status byte at `MODE_PROBE_ADDRESS` and comparing it
/// against `NATIVE_MODE_BYTE`.  The mode is never cached: it can change
/// under the engine's feet, so every caller probes anew.
pub fn is_c65_mode<T: Transport>(port: &mut T) -> (r: Result<bool, M65Error>)
    ensures
        r is Ok ==> ({
            let d = final(port).log().skip(old(port).log().len() as int);
            &&& final(port).log().len() == old(port).log().len() + 5
            &&& final(port).log().take(old(port).log().len() as int) == old(port).log()
            &&& dump_delta_valid(d, MODE_PROBE_ADDRESS, 1)
            &&& r->Ok_0 == probe_native(d)
        }),
        r is Err ==> r->Err_0 == M65Error::Transport || r->Err_0 == M65Error::Protocol,
{
    let bytes = match read_memory(port, MODE_PROBE_ADDRESS, 1) {
        Ok(v) => v,
        Err(e) => {
            return Err(e);
        },
    };
    let native = bytes[0] == NATIVE_MODE_BYTE;
    proof {
        let d = port.log().skip(old(port).log().len() as int);
        assert(d.len() == 5);
        assert(port.log().len() == old(port).log().len() + 5);
        if native {
            assert(bytes@ =~= seq![NATIVE_MODE_BYTE]);
        } else {
            if bytes@ == seq![NATIVE_MODE_BYTE] {
                assert(bytes@[0] == NATIVE_MODE_BYTE);
            }
        }
    }
    Ok(native)
}

/// The keystroke sequence that launches the compatibility mode.
pub open spec fn go64_keys() -> Seq<char> {
    seq!['g', 'o', '6', '4', '\r', 'y', '\r']
}

/// The keystroke sequence that starts a transferred program.
pub open spec fn run_keys() -> Seq<char> {
    seq!['r', 'u', 'n', '\r']
}

/// Text without backslashes normalizes to itself.
proof fn lemma_normalize_no_escapes(s: Seq<char>)
    requires
        forall|i: int| 0 <= i < s.len() ==> s[i] != '\\',
    ensures
        spec_normalize(s) == s,
    decreases s.len(),
{
    if s.len() > 0 {
        lemma_normalize_no_escapes(s.skip(1));
        assert(seq![s[0]] + s.skip(1) =~= s);
    }
}

/// The exchange of a `go64` call: a mode probe, then — only when the
/// device was in native mode — the `go64` keystroke sequence.
pub open spec fn go64_delta_valid(d: Seq<WireEvent>) -> bool {
    &&& d.len() >= 5
    &&& dump_delta_valid(d.take(5), MODE_PROBE_ADDRESS, 1)
    &&& (probe_native(d.take(5)) ==> d.skip(5) == type_text_delta(go64_keys()))
    &&& (!probe_native(d.take(5)) ==> d.skip(5) == Seq::<WireEvent>::empty())
}

/// The exchange of a `go65` call: a mode probe, then — only when the
/// device was not in native mode — a reset.
pub open spec fn go65_delta_valid(d: Seq<WireEvent>) -> bool {
    &&& d.len() >= 5
    &&& dump_delta_valid(d.take(5), MODE_PROBE_ADDRESS, 1)
    &&& (probe_native(d.take(5)) ==> d.skip(5) == Seq::<WireEvent>::empty())
    &&& (!probe_native(d.take(5)) ==> d.skip(5) == seq![WireEvent::Sent(reset_cmd())])
}

/// If not already there, go to the compatibility (C64) mode by typing
/// its launch sequence and confirming the prompt.
pub fn go64<T: Transport>(port: &mut T) -> (r: Result<(), M65Error>)
    ensures
        r is Ok ==> ({
            let d = final(port).log().skip(old(port).log().len() as int);
            &&& final(port).log().len() >= old(port).log().len() + 5
            &&& final(port).log().take(old(port).log().len() as int) == old(port).log()
            &&& go64_delta_valid(d)
        }),
        r is Err ==> r->Err_0 == M65Error::Transport || r->Err_0 == M65Error::Protocol,
{
    let ghost l0 = port.log();
    let native = match is_c65_mode(port) {
        Ok(v) => v,
        Err(e) => {
            return Err(e);
        },
    };
    let ghost lp = port.log();
    let ghost d1 = lp.skip(l0.len() as int);
    proof {
        assert(lp.take(l0.len() as int) == l0);
        assert(d1.len() == 5);
        lp.lemma_split_at(l0.len() as int);
        assert(lp =~= l0 + d1);
    }
    if native {
        let text = "go64\ry\r";
        match type_text(port, text) {
            Ok(()) => {},
            Err(e) => {
                return Err(e);
            },
        }
        port.wait_ms(DELAY_MODE_SWITCH_MS);
        proof {
            reveal_strlit("go64\ry\r");
            assert(text@ =~= go64_keys());
            lemma_normalize_no_escapes(go64_keys());
            assert(port.log() =~= l0 + (d1 + type_text_delta(go64_keys())));
            let d = port.log().skip(l0.len() as int);
            assert(d =~= d1 + type_text_delta(go64_keys()));
            assert(d.take(5) =~= d1);
            assert(d.skip(5) =~= type_text_delta(go64_keys()));
            assert(port.log().take(l0.len() as int) =~= l0);
        }
    } else {
        proof {
            let d = port.log().skip(l0.len() as int);
            assert(d.take(5) =~= d1);
            assert(d.skip(5) =~= Seq::<WireEvent>::empty());
        }
    }
    Ok(())
}

/// If not already there, go to the native (C65) mode via a cold reset,
/// which always lands there.
pub fn go65<T: Transport>(port: &mut T) -> (r: Result<(), M65Error>)
    ensures
        r is Ok ==> ({
            let d = final(port).log().skip(old(port).log().len() as int);
            &&& final(port).log().len() >= old(port).log().len() + 5
            &&& final(port).log().take(old(port).log().len() as int) == old(port).log()
            &&& go65_delta_valid(d)
        }),
        r is Err ==> r->Err_0 == M65Error::Transport || r->Err_0 == M65Error::Protocol,
{
    let ghost l0 = port.log();
    let native = match is_c65_mode(port) {
        Ok(v) => v,
        Err(e) => {
            return Err(e);
        },
    };
    let ghost lp = port.log();
    let ghost d1 = lp.skip(l0.len() as int);
    proof {
        assert(lp.take(l0.len() as int) == l0);
        assert(d1.len() == 5);
        lp.lemma_split_at(l0.len() as int);
        assert(lp =~= l0 + d1);
    }
    if !native {
        match reset(port) {
            Ok(()) => {},
            Err(e) => {
                return Err(e);
            },
        }
        proof {
            assert(port.log() =~= l0 + (d1 + seq![WireEvent::Sent(reset_cmd())]));
            let d = port.log().skip(l0.len() as int);
            assert(d =~= d1 + seq![WireEvent::Sent(reset_cmd())]);
            assert(d.take(5) =~= d1);
            assert(d.skip(5) =~= seq![WireEvent::Sent(reset_cmd())]);
            assert(port.log().take(l0.len() as int) =~= l0);
        }
    } else {
        proof {
            let d = port.log().skip(l0.len() as int);
            assert(d.take(5) =~= d1);
            assert(d.skip(5) =~= Seq::<WireEvent>::empty());
        }
    }
    Ok(())
}

/// Write a single byte into device memory.
pub fn poke<T: Transport>(port: &mut T, destination: u16, value: u8) -> (r: Result<(), M65Error>)
    ensures
        r is Ok ==> final(port).log() == old(port).log() + write_delta(destination, seq![value]),
        destination >= 0xffff ==> r == Err::<(), M65Error>(M65Error::AddressOverflow)
            && final(port).log() == old(port).log(),
        r == Err::<(), M65Error>(M65Error::AddressOverflow) ==> destination >= 0xffff,
        r is Err ==> r->Err_0 == M65Error::AddressOverflow || r->Err_0 == M65Error::Transport,
{
    let mut bytes: Vec<u8> = Vec::new();
    bytes.push(value);
    proof {
        assert(bytes@ =~= seq![value]);
    }
    write_memory(port, destination, bytes.as_slice())
}

/// Read a single byte of device memory.
pub fn peek<T: Transport>(port: &mut T, address: u32) -> (r: Result<u8, M65Error>)
    requires
        address < 0x10000000,
    ensures
        r is Ok ==> ({
            let d = final(port).log().skip(old(port).log().len() as int);
            &&& final(port).log().len() == old(port).log().len() + 5
            &&& final(port).log().take(old(port).log().len() as int) == old(port).log()
            &&& dump_delta_valid(d, address, 1)
            &&& seq![r->Ok_0] == dump_delta_payload(d, 1)
        }),
        r is Err ==> r->Err_0 == M65Error::Transport || r->Err_0 == M65Error::Protocol,
{
    let bytes = match read_memory(port, address, 1) {
        Ok(v) => v,
        Err(e) => {
            return Err(e);
        },
    };
    proof {
        let d = port.log().skip(old(port).log().len() as int);
        assert(d.len() == 5);
        assert(port.log().len() == old(port).log().len() + 5);
        assert(bytes@ =~= seq![bytes@[0]]);
    }
    Ok(bytes[0])
}

/// The exchange of a whole program transfer: an optional reset, the
/// mode switch matching the load address, the memory write of the
/// payload at that address, and optionally the `run` keystrokes.
pub open spec fn handle_prg_delta_valid(
    d: Seq<WireEvent>,
    la: LoadAddress,
    reset_before_run: bool,
    run: bool,
    data: Seq<u8>,
) -> bool {
    let pre: int = if reset_before_run {
        1
    } else {
        0
    };
    let tail = write_delta(la.value_spec(), data) + (if run {
        type_text_delta(run_keys())
    } else {
        Seq::<WireEvent>::empty()
    });
    &&& d.len() >= pre
    &&& (reset_before_run ==> d[0] == WireEvent::Sent(reset_cmd()))
    &&& exists|m: int|
        #![auto]
        pre <= m <= d.len() && {
            &&& (la == LoadAddress::Commodore64 ==> go64_delta_valid(d.subrange(pre, m)))
            &&& (la == LoadAddress::Commodore65 ==> go65_delta_valid(d.subrange(pre, m)))
            &&& d.skip(m) == tail
        }
}

/// Transfer a program to the device and optionally run it.
///
/// The load address decides the operating mode: the C65 entry point
/// routes through `go65`, the C64 entry point through `go64`, and every
/// other address is rejected as unsupported.  The payload is then
/// written at the load address, and when `run` is requested the `run`
/// command is typed.
#[verifier::rlimit(100)]
pub fn handle_prg_from_bytes<T: Transport>(
    port: &mut T,
    bytes: &[u8],
    load_address: LoadAddress,
    reset_before_run: bool,
    run: bool,
) -> (r: Result<(), M65Error>)
    ensures
        r is Ok ==> ({
            &&& (load_address == LoadAddress::Commodore64 || load_address
                == LoadAddress::Commodore65)
            &&& write_request_valid(load_address.value_spec(), bytes@.len())
            &&& final(port).log().take(old(port).log().len() as int) == old(port).log()
            &&& handle_prg_delta_valid(
                final(port).log().skip(old(port).log().len() as int),
                load_address,
                reset_before_run,
                run,
                bytes@,
            )
        }),
        load_address != LoadAddress::Commodore64 && load_address != LoadAddress::Commodore65
            ==> r is Err && (r->Err_0 == M65Error::UnsupportedLoadAddress || r->Err_0
            == M65Error::Transport),
        load_address != LoadAddress::Commodore64 && load_address != LoadAddress::Commodore65
            && !reset_before_run ==> r == Err::<(), M65Error>(M65Error::UnsupportedLoadAddress)
            && final(port).log() == old(port).log(),
        load_address != LoadAddress::Commodore64 && load_address != LoadAddress::Commodore65
            && reset_before_run ==> (r == Err::<(), M65Error>(M65Error::UnsupportedLoadAddress)
            ==> final(port).log() == old(port).log().push(WireEvent::Sent(reset_cmd()))) && (
        r->Err_0 == M65Error::Transport ==> final(port).log() == old(port).log()),
        r is Err ==> r->Err_0 == M65Error::UnsupportedLoadAddress || r->Err_0
            == M65Error::EmptyPayload || r->Err_0 == M65Error::AddressOverflow || r->Err_0
            == M65Error::Transport || r->Err_0 == M65Error::Protocol,
{
    let ghost l0 = port.log();
    if reset_before_run {
        match reset(port) {
            Ok(()) => {},
            Err(e) => {
                return Err(e);
            },
        }
    }
    let ghost pre: int = if reset_before_run {
        1int
    } else {
        0int
    };
    let ghost lr = port.log();
    proof {
        if reset_before_run {
            assert(lr =~= l0 + seq![WireEvent::Sent(reset_cmd())]);
        } else {
            assert(lr == l0);
        }
        assert(lr.len() == l0.len() + pre);
    }
    match load_address {
        LoadAddress::Commodore65 => {
            match go65(port) {
                Ok(()) => {},
                Err(e) => {
                    return Err(e);
                },
            }
        },
        LoadAddress::Commodore64 => {
            match go64(port) {
                Ok(()) => {},
                Err(e) => {
                    return Err(e);
                },
            }
        },
        _ => {
            return Err(M65Error::UnsupportedLoadAddress);
        },
    }
    let ghost lm = port.log();
    let ghost dm = lm.skip(lr.len() as int);
    let ghost m: int = lm.len() - l0.len();
    proof {
        lm.lemma_split_at(lr.len() as int);
        assert(lm =~= lr + dm);
    }
    let address = load_address.value();
    match write_memory(port, address, bytes) {
        Ok(()) => {},
        Err(e) => {
            return Err(e);
        },
    }
    if run {
        let text = "run\r";
        match type_text(port, text) {
            Ok(()) => {},
            Err(e) => {
                return Err(e);
            },
        }
        proof {
            reveal_strlit("run\r");
            assert(text@ =~= run_keys());
            lemma_normalize_no_escapes(run_keys());
        }
    }
    proof {
        let tail = write_delta(load_address.value_spec(), bytes@) + (if run {
            type_text_delta(run_keys())
        } else {
            Seq::<WireEvent>::empty()
        });
        assert(port.log() =~= lm + tail);
        let d = port.log().skip(l0.len() as int);
        assert(port.log().take(l0.len() as int) =~= l0);
        assert(d =~= lr.skip(l0.len() as int) + dm + tail);
        if reset_before_run {
            assert(d[0] == WireEvent::Sent(reset_cmd()));
        }
        assert(d.subrange(pre, m) =~= dm);
        assert(d.skip(m) =~= tail);
        assert(pre <= m <= d.len());
        assert(handle_prg_delta_valid(d, load_address, reset_before_run, run, bytes@));
    }
    Ok(())
}

} // verus!
