//! Session tests against in-memory transport doubles.

use matrix65::serial::{
    flush_monitor, go64, go65, handle_prg_from_bytes, is_c65_mode, peek, poke, read_memory, reset,
    start_cpu, stop_cpu, type_text, write_memory,
};
use matrix65::transport::Transport;
use matrix65::{LoadAddress, M65Error};

/// An in-memory double of the device's monitor endpoint.
///
/// It parses each written message the way the real monitor would and
/// queues the response bytes a dump produces; reads serve from that
/// queue.
struct LoopbackDevice {
    mem: Vec<u8>,
    /// The byte served for the operating-mode probe address.
    probe_byte: u8,
    pending: Vec<u8>,
    dump_addr: u32,
    dumping: bool,
    expect: Option<(u16, u32)>,
    sent_messages: Vec<Vec<u8>>,
    chunk_reads: usize,
    resets: usize,
}

const MODE_PROBE_ADDRESS: u32 = 0xffd3030;

impl LoopbackDevice {
    fn new() -> LoopbackDevice {
        LoopbackDevice {
            mem: vec![0u8; 0x10000],
            probe_byte: 0,
            pending: Vec::new(),
            dump_addr: 0,
            dumping: false,
            expect: None,
            sent_messages: Vec::new(),
            chunk_reads: 0,
            resets: 0,
        }
    }

    fn read_at(&self, addr: u32) -> u8 {
        if (addr as usize) < self.mem.len() {
            self.mem[addr as usize]
        } else if addr == MODE_PROBE_ADDRESS {
            self.probe_byte
        } else {
            0
        }
    }

    fn queue_chunk(&mut self, header_len: usize) {
        for _ in 0..header_len {
            self.pending.push(0);
        }
        let mut chunk = Vec::new();
        for i in 0..16u32 {
            chunk.push(self.read_at(self.dump_addr.wrapping_add(i)));
        }
        let hex = matrix65::hexcode::encode_hex_pairs(&chunk);
        self.pending.extend_from_slice(&hex);
        self.dump_addr = self.dump_addr.wrapping_add(16);
    }
}

fn parse_hex(digits: &[u8]) -> Option<u32> {
    let mut v: u32 = 0;
    if digits.is_empty() {
        return None;
    }
    for &d in digits {
        let x = match d {
            b'0'..=b'9' => d - b'0',
            b'a'..=b'f' => d - b'a' + 10,
            b'A'..=b'F' => d - b'A' + 10,
            _ => return None,
        };
        v = v * 16 + x as u32;
    }
    Some(v)
}

impl Transport for LoopbackDevice {
    fn write_bytes(&mut self, data: &[u8]) -> Result<(), M65Error> {
        self.sent_messages.push(data.to_vec());
        if let Some((start, end)) = self.expect {
            self.expect = None;
            if data.len() == (end - start as u32) as usize {
                for (i, &b) in data.iter().enumerate() {
                    let a = start as usize + i;
                    if a < self.mem.len() {
                        self.mem[a] = b;
                    }
                }
            }
            return Ok(());
        }
        match data {
            b"t1\r" | b"t0\r" => {}
            b"!\n" => {
                self.resets += 1;
            }
            [0x15, b'#', b'\r'] => {
                self.pending.clear();
            }
            b"m\r" => {
                if self.dumping {
                    self.queue_chunk(18);
                }
            }
            _ if data.first() == Some(&b'm') && data.len() == 9 && data.last() == Some(&b'\r') => {
                if let Some(a) = parse_hex(&data[1..8]) {
                    self.dump_addr = a;
                    self.dumping = true;
                    self.queue_chunk(27);
                }
            }
            _ if data.first() == Some(&b'l') && data.last() == Some(&b'\r') => {
                let inner = &data[1..data.len() - 1];
                let mut parts = inner.split(|&b| b == b' ');
                let start = parts.next().and_then(parse_hex);
                let end = parts.next().and_then(parse_hex);
                if let (Some(s), Some(e)) = (start, end) {
                    self.expect = Some((s as u16, e));
                }
            }
            _ => {}
        }
        Ok(())
    }

    fn read_bytes(&mut self, max: usize) -> Result<Vec<u8>, M65Error> {
        if max == 32 {
            self.chunk_reads += 1;
        }
        let n = max.min(self.pending.len());
        let out: Vec<u8> = self.pending.drain(..n).collect();
        Ok(out)
    }

    fn wait_ms(&mut self, _ms: u64) {}
}

/// A transport whose reads come from a fixed script, for fault cases.
struct ScriptedTransport {
    reads: Vec<Vec<u8>>,
    next: usize,
    sent_messages: Vec<Vec<u8>>,
}

impl ScriptedTransport {
    fn new(reads: Vec<Vec<u8>>) -> ScriptedTransport {
        ScriptedTransport { reads, next: 0, sent_messages: Vec::new() }
    }
}

impl Transport for ScriptedTransport {
    fn write_bytes(&mut self, data: &[u8]) -> Result<(), M65Error> {
        self.sent_messages.push(data.to_vec());
        Ok(())
    }

    fn read_bytes(&mut self, max: usize) -> Result<Vec<u8>, M65Error> {
        let out = if self.next < self.reads.len() {
            let mut v = self.reads[self.next].clone();
            self.next += 1;
            v.truncate(max);
            v
        } else {
            Vec::new()
        };
        Ok(out)
    }

    fn wait_ms(&mut self, _ms: u64) {}
}

/// A transport whose reads fail outright, for I/O-failure cases.
struct BrokenTransport {
    sent_messages: Vec<Vec<u8>>,
}

impl Transport for BrokenTransport {
    fn write_bytes(&mut self, data: &[u8]) -> Result<(), M65Error> {
        self.sent_messages.push(data.to_vec());
        Ok(())
    }

    fn read_bytes(&mut self, _max: usize) -> Result<Vec<u8>, M65Error> {
        Err(M65Error::Transport)
    }

    fn wait_ms(&mut self, _ms: u64) {}
}

#[test]
fn write_then_read_round_trips() {
    let mut dev = LoopbackDevice::new();
    let payload: Vec<u8> = vec![0x01, 0x08, 0x0a, 0xff, 0x42, 0x00, 0x99];
    write_memory(&mut dev, 0x0801, &payload).unwrap();
    let back = read_memory(&mut dev, 0x0801, payload.len()).unwrap();
    assert_eq!(back, payload);
}

#[test]
fn round_trip_across_chunk_boundaries() {
    let mut dev = LoopbackDevice::new();
    let payload: Vec<u8> = (0..100u32).map(|i| (i * 7 % 256) as u8).collect();
    write_memory(&mut dev, 0x1ff8, &payload).unwrap();
    let back = read_memory(&mut dev, 0x1ff8, payload.len()).unwrap();
    assert_eq!(back, payload);
}

#[test]
fn round_trip_single_byte_at_low_address() {
    let mut dev = LoopbackDevice::new();
    write_memory(&mut dev, 0x0000, &[0xa5]).unwrap();
    let back = read_memory(&mut dev, 0x0000, 1).unwrap();
    assert_eq!(back, vec![0xa5]);
}

#[test]
fn twenty_byte_read_takes_two_chunks_and_returns_twenty() {
    let mut dev = LoopbackDevice::new();
    for i in 0..32usize {
        dev.mem[0x2000 + i] = i as u8;
    }
    let got = read_memory(&mut dev, 0x2000, 20).unwrap();
    assert_eq!(got.len(), 20);
    assert_eq!(dev.chunk_reads, 2);
    let expected: Vec<u8> = (0..20).map(|i| i as u8).collect();
    assert_eq!(got, expected);
    // exactly one dump-continue was sent
    let conts = dev.sent_messages.iter().filter(|m| m.as_slice() == b"m\r").count();
    assert_eq!(conts, 1);
}

#[test]
fn round_trip_at_the_top_of_the_16_bit_domain() {
    let mut dev = LoopbackDevice::new();
    write_memory(&mut dev, 0xfffd, &[0xde, 0xad]).unwrap();
    let back = read_memory(&mut dev, 0xfffd, 2).unwrap();
    assert_eq!(back, vec![0xde, 0xad]);
}

#[test]
fn exact_chunk_read_needs_no_continuation() {
    let mut dev = LoopbackDevice::new();
    for i in 0..16usize {
        dev.mem[0x3000 + i] = (0xf0 + i) as u8;
    }
    let got = read_memory(&mut dev, 0x3000, 16).unwrap();
    assert_eq!(got.len(), 16);
    assert_eq!(dev.chunk_reads, 1);
    let conts = dev.sent_messages.iter().filter(|m| m.as_slice() == b"m\r").count();
    assert_eq!(conts, 0);
}

#[test]
fn short_chunk_is_a_protocol_error_not_a_padded_block() {
    // 27-byte header, then only 10 bytes where a 32-digit chunk is due.
    let reads = vec![vec![0u8; 27], vec![b'0'; 10]];
    let mut t = ScriptedTransport::new(reads);
    let r = read_memory(&mut t, 0x1000, 16);
    assert_eq!(r, Err(M65Error::Protocol));
}

#[test]
fn failed_read_still_releases_the_halt_bracket() {
    let reads = vec![vec![0u8; 27], vec![b'0'; 10]];
    let mut t = ScriptedTransport::new(reads);
    let r = read_memory(&mut t, 0x1000, 16);
    assert_eq!(r, Err(M65Error::Protocol));
    assert_eq!(t.sent_messages.last().unwrap(), &b"t0\r".to_vec());
}

#[test]
fn transport_failure_is_a_transport_error_with_no_resend() {
    let mut t = BrokenTransport { sent_messages: Vec::new() };
    let r = read_memory(&mut t, 0x1000, 16);
    assert_eq!(r, Err(M65Error::Transport));
    // halt, dump command, then only the attempted bracket release
    assert_eq!(t.sent_messages[0], b"t1\r".to_vec());
    assert_eq!(t.sent_messages[1], b"m0001000\r".to_vec());
    assert_eq!(t.sent_messages[2], b"t0\r".to_vec());
    assert_eq!(t.sent_messages.len(), 3);
}

#[test]
fn short_header_is_a_protocol_error() {
    let reads = vec![vec![0u8; 5]];
    let mut t = ScriptedTransport::new(reads);
    let r = read_memory(&mut t, 0x1000, 16);
    assert_eq!(r, Err(M65Error::Protocol));
}

#[test]
fn non_hexadecimal_chunk_is_a_protocol_error() {
    let reads = vec![vec![0u8; 27], vec![b'z'; 32]];
    let mut t = ScriptedTransport::new(reads);
    let r = read_memory(&mut t, 0x1000, 16);
    assert_eq!(r, Err(M65Error::Protocol));
}

#[test]
fn zero_length_read_returns_empty_block() {
    let mut dev = LoopbackDevice::new();
    let got = read_memory(&mut dev, 0x0400, 0).unwrap();
    assert!(got.is_empty());
}

#[test]
fn write_at_top_of_memory_is_rejected_before_any_transport_call() {
    let mut dev = LoopbackDevice::new();
    let r = write_memory(&mut dev, 0xffff, &[1, 2, 3]);
    assert_eq!(r, Err(M65Error::AddressOverflow));
    assert!(dev.sent_messages.is_empty());

    let r1 = write_memory(&mut dev, 0xffff, &[1]);
    assert_eq!(r1, Err(M65Error::AddressOverflow));
    assert!(dev.sent_messages.is_empty());
}

#[test]
fn empty_write_is_rejected() {
    let mut dev = LoopbackDevice::new();
    let r = write_memory(&mut dev, 0x1000, &[]);
    assert_eq!(r, Err(M65Error::EmptyPayload));
    assert!(dev.sent_messages.is_empty());
}

#[test]
fn poke_and_peek_single_byte() {
    let mut dev = LoopbackDevice::new();
    poke(&mut dev, 0x00d0, 0x7b).unwrap();
    assert_eq!(dev.mem[0x00d0], 0x7b);
    let b = peek(&mut dev, 0x00d0).unwrap();
    assert_eq!(b, 0x7b);
}

#[test]
fn halt_and_resume_send_their_commands() {
    let mut dev = LoopbackDevice::new();
    stop_cpu(&mut dev).unwrap();
    start_cpu(&mut dev).unwrap();
    assert_eq!(dev.sent_messages[0], b"t1\r".to_vec());
    assert_eq!(dev.sent_messages[1], b"t0\r".to_vec());
}

#[test]
fn reset_sends_the_reset_command() {
    let mut dev = LoopbackDevice::new();
    reset(&mut dev).unwrap();
    assert_eq!(dev.resets, 1);
}

#[test]
fn flush_monitor_drains_buffered_bytes() {
    let mut dev = LoopbackDevice::new();
    dev.pending.extend_from_slice(b"stray bytes");
    flush_monitor(&mut dev).unwrap();
    assert!(dev.pending.is_empty());
}

#[test]
fn mode_probe_reads_the_status_byte() {
    let mut dev = LoopbackDevice::new();
    dev.probe_byte = 0x64;
    assert_eq!(is_c65_mode(&mut dev).unwrap(), true);
    dev.probe_byte = 0x00;
    assert_eq!(is_c65_mode(&mut dev).unwrap(), false);
}

#[test]
fn go64_types_the_switch_sequence_only_in_native_mode() {
    let mut dev = LoopbackDevice::new();
    dev.probe_byte = 0x64;
    let before = dev.sent_messages.len();
    go64(&mut dev).unwrap();
    // keystroke commands for g o 6 4 \r y \r plus the release command
    let keys: Vec<&Vec<u8>> = dev.sent_messages[before..]
        .iter()
        .filter(|m| m.first() == Some(&b's'))
        .collect();
    assert_eq!(keys.len(), 8);

    let mut compat = LoopbackDevice::new();
    compat.probe_byte = 0x00;
    go64(&mut compat).unwrap();
    let keys2 = compat.sent_messages.iter().filter(|m| m.first() == Some(&b's')).count();
    assert_eq!(keys2, 0);
}

#[test]
fn go65_resets_only_outside_native_mode() {
    let mut dev = LoopbackDevice::new();
    dev.probe_byte = 0x00;
    go65(&mut dev).unwrap();
    assert_eq!(dev.resets, 1);

    let mut native = LoopbackDevice::new();
    native.probe_byte = 0x64;
    go65(&mut native).unwrap();
    assert_eq!(native.resets, 0);
}

#[test]
fn type_text_sends_one_keystroke_per_character_and_releases() {
    let mut dev = LoopbackDevice::new();
    type_text(&mut dev, "run\r").unwrap();
    let keys: Vec<&Vec<u8>> =
        dev.sent_messages.iter().filter(|m| m.first() == Some(&b's')).collect();
    assert_eq!(keys.len(), 5);
    assert_eq!(keys[4].as_slice(), b"sffd3615 7f 7f 7f \n");
}

#[test]
fn type_text_normalizes_escape_sequences() {
    let mut dev = LoopbackDevice::new();
    type_text(&mut dev, "\\r").unwrap();
    let keys: Vec<&Vec<u8>> =
        dev.sent_messages.iter().filter(|m| m.first() == Some(&b's')).collect();
    // one keystroke (return) plus the release command
    assert_eq!(keys.len(), 2);
    assert_eq!(keys[0].as_slice(), b"sffd3615 01 7f\n");
}

#[test]
fn keystrokes_for_a_and_return_are_distinct_and_not_the_sentinel() {
    let sentinel = (matrix65::keyboard::NO_KEY, matrix65::keyboard::NO_KEY);
    let a = matrix65::keyboard::key_codes('A');
    let ret = matrix65::keyboard::key_codes('\r');
    assert_ne!(a, sentinel);
    assert_ne!(ret, sentinel);
    assert_ne!(a, ret);
}

#[test]
fn unmapped_character_types_the_no_key_sentinel_without_an_error() {
    let sentinel = (matrix65::keyboard::NO_KEY, matrix65::keyboard::NO_KEY);
    assert_eq!(matrix65::keyboard::key_codes('🙂'), sentinel);
    let mut dev = LoopbackDevice::new();
    type_text(&mut dev, "🙂").unwrap();
    let keys: Vec<&Vec<u8>> =
        dev.sent_messages.iter().filter(|m| m.first() == Some(&b's')).collect();
    assert_eq!(keys.len(), 2);
    assert_eq!(keys[0].as_slice(), b"sffd3615 7f 7f\n");
}

#[test]
fn shifted_character_carries_the_shift_code() {
    assert_eq!(
        matrix65::keyboard::key_codes('!'),
        (0x38, matrix65::keyboard::SHIFT_CODE)
    );
    assert_eq!(
        matrix65::keyboard::key_codes('1'),
        (0x38, matrix65::keyboard::NO_KEY)
    );
}

#[test]
fn handle_prg_writes_payload_at_the_load_address() {
    let mut dev = LoopbackDevice::new();
    dev.probe_byte = 0x00;  // already in compatibility mode
    let payload = vec![0xa9u8, 0x01, 0x8d, 0x20, 0xd0];
    handle_prg_from_bytes(&mut dev, &payload, LoadAddress::Commodore64, false, false).unwrap();
    assert_eq!(&dev.mem[0x0801..0x0801 + payload.len()], payload.as_slice());
}

#[test]
fn handle_prg_with_run_types_the_run_command() {
    let mut dev = LoopbackDevice::new();
    dev.probe_byte = 0x64;  // native mode: the C65 path needs no switch
    let payload = vec![0x12u8, 0x34];
    handle_prg_from_bytes(&mut dev, &payload, LoadAddress::Commodore65, false, true).unwrap();
    assert_eq!(&dev.mem[0x2001..0x2003], payload.as_slice());
    let keys = dev.sent_messages.iter().filter(|m| m.first() == Some(&b's')).count();
    // r u n \r plus the release command
    assert_eq!(keys, 5);
}

#[test]
fn handle_prg_rejects_unsupported_load_addresses() {
    let mut dev = LoopbackDevice::new();
    let r = handle_prg_from_bytes(&mut dev, &[1, 2], LoadAddress::Custom(0xc000), false, false);
    assert_eq!(r, Err(M65Error::UnsupportedLoadAddress));
    let r2 = handle_prg_from_bytes(&mut dev, &[1, 2], LoadAddress::PET, false, false);
    assert_eq!(r2, Err(M65Error::UnsupportedLoadAddress));
    assert!(dev.sent_messages.is_empty());
}

#[test]
fn handle_prg_resets_first_when_asked() {
    let mut dev = LoopbackDevice::new();
    dev.probe_byte = 0x64;
    handle_prg_from_bytes(&mut dev, &[0x01], LoadAddress::Commodore65, true, false).unwrap();
    assert_eq!(dev.resets, 1);
    assert_eq!(dev.sent_messages[0], b"!\n".to_vec());
}
