//! Packet codec: builds ICMP echo-request packets and decodes echo-reply,
//! time-exceeded and destination-unreachable responses from raw captures.
//!
//! All functions work on plain bytes; the socket layer outside the library
//! hands captures in and sends the built packets out.

use vstd::prelude::*;

use crate::addr::IpAddress;
use crate::probe::IcmpResponseType;

verus! {

/// A big-endian 16-bit word read from two bytes.
pub open spec fn be_word(hi: u8, lo: u8) -> int {
    hi as int * 256 + lo as int
}

/// Sum of the big-endian 16-bit words of `s` starting at index `i`; an odd
/// trailing byte counts as the high byte of a final word.
pub open spec fn sum_words_from(s: Seq<u8>, i: int) -> int
    decreases s.len() - i,
{
    if i < 0 || i >= s.len() {
        0
    } else if i + 1 == s.len() {
        s[i] as int * 256
    } else {
        be_word(s[i], s[i + 1]) + sum_words_from(s, i + 2)
    }
}

/// Fold the carries of a one's-complement sum back into the low 16 bits.
pub open spec fn fold_carries(sum: int) -> int
    decreases sum,
        via fold_carries_decreases
{
    if sum >= 0x10000 {
        fold_carries(sum % 0x10000 + sum / 0x10000)
    } else if sum >= 0 {
        sum
    } else {
        0
    }
}

#[via_fn]
proof fn fold_carries_decreases(sum: int) {
    if sum >= 0x10000 {
        vstd::arithmetic::div_mod::lemma_div_non_zero(sum, 0x10000);
        vstd::arithmetic::div_mod::lemma_fundamental_div_mod(sum, 0x10000);
    }
}

/// The internet checksum of `s`: one's-complement sum of 16-bit words with
/// end-around carry, complemented.
pub open spec fn checksum_spec(s: Seq<u8>) -> int {
    0xFFFF - fold_carries(sum_words_from(s, 0))
}

proof fn lemma_sum_words_bounds(s: Seq<u8>, i: int)
    requires
        0 <= i <= s.len(),
    ensures
        0 <= sum_words_from(s, i) <= 0x10000 * (s.len() - i),
    decreases s.len() - i,
{
    if i >= s.len() {
    } else if i + 1 == s.len() {
    } else {
        lemma_sum_words_bounds(s, i + 2);
    }
}

proof fn lemma_fold_carries_bounds(sum: int)
    requires
        sum >= 0,
    ensures
        0 <= fold_carries(sum) <= 0xFFFF,
    decreases sum,
{
    if sum >= 0x10000 {
        vstd::arithmetic::div_mod::lemma_div_non_zero(sum, 0x10000);
        vstd::arithmetic::div_mod::lemma_fundamental_div_mod(sum, 0x10000);
        lemma_fold_carries_bounds(sum % 0x10000 + sum / 0x10000);
    }
}

/// Calculate the internet checksum of a packet (RFC 1071 semantics: sum the
/// big-endian 16-bit words, fold carries back in, complement the result).
pub fn calculate_checksum(packet: &[u8]) -> (r: u16)
    requires
        packet@.len() <= 65535,
    ensures
        r as int == checksum_spec(packet@),
{
    let ghost s = packet@;
    let n = packet.len();
    let mut sum: u64 = 0;
    let mut i: usize = 0;
    proof {
        lemma_sum_words_bounds(s, 0);
    }
    while i < n
        invariant
            0 <= i <= n,
            n == s.len() <= 65535,
            packet@ == s,
            sum + sum_words_from(s, i as int) == sum_words_from(s, 0),
            0 <= sum_words_from(s, 0) <= 0x10000 * (n as int),
            0 <= sum <= 0x10000 * (n as int),
        decreases n - i,
    {
        proof {
            lemma_sum_words_bounds(s, i as int);
        }
        if i + 1 < n {
            sum = sum + ((packet[i] as u64) * 256 + (packet[i + 1] as u64));
            i = i + 2;
        } else {
            sum = sum + (packet[i] as u64) * 256;
            i = i + 1;
        }
        proof {
            lemma_sum_words_bounds(s, i as int);
        }
    }
    while sum >= 0x10000
        invariant
            sum >= 0,
            fold_carries(sum as int) == fold_carries(sum_words_from(s, 0)),
        decreases sum,
    {
        proof {
            vstd::arithmetic::div_mod::lemma_div_non_zero(sum as int, 0x10000);
            vstd::arithmetic::div_mod::lemma_fundamental_div_mod(sum as int, 0x10000);
        }
        sum = sum % 0x10000 + sum / 0x10000;
    }
    proof {
        lemma_sum_words_bounds(s, 0);
        lemma_fold_carries_bounds(sum_words_from(s, 0));
    }
    0xFFFFu16 - (sum as u16)
}

/// An ICMPv4 echo request for `seq` and `id` with a zeroed checksum field.
pub open spec fn echo_v4_zeroed(seq: u16, id: u16) -> Seq<u8> {
    seq![
        8u8,
        0u8,
        0u8,
        0u8,
        (id / 256) as u8,
        (id % 256) as u8,
        (seq / 256) as u8,
        (seq % 256) as u8,
    ]
}

/// The finished ICMPv4 echo request: the checksum of the zeroed packet is
/// embedded big-endian in bytes 2 and 3.
pub open spec fn echo_v4_packet(seq: u16, id: u16) -> Seq<u8> {
    let c = checksum_spec(echo_v4_zeroed(seq, id));
    seq![
        8u8,
        0u8,
        (c / 256) as u8,
        (c % 256) as u8,
        (id / 256) as u8,
        (id % 256) as u8,
        (seq / 256) as u8,
        (seq % 256) as u8,
    ]
}

/// An ICMPv6 echo request; its checksum field stays zero because the
/// kernel fills it in when the packet is sent.
pub open spec fn echo_v6_packet(seq: u16, id: u16) -> Seq<u8> {
    seq![
        128u8,
        0u8,
        0u8,
        0u8,
        (id / 256) as u8,
        (id % 256) as u8,
        (seq / 256) as u8,
        (seq % 256) as u8,
    ]
}

/// Build an ICMPv4 echo-request packet: type 8, code 0, computed checksum,
/// then identifier and sequence number, all big-endian.
pub fn construct_icmp_packet(seq: u16, id: u16) -> (r: Vec<u8>)
    ensures
        r@ == echo_v4_packet(seq, id),
        r@.len() == 8,
{
    let id_hi = (id / 256) as u8;
    let id_lo = (id % 256) as u8;
    let seq_hi = (seq / 256) as u8;
    let seq_lo = (seq % 256) as u8;

    let mut zeroed: Vec<u8> = Vec::new();
    zeroed.push(8);
    zeroed.push(0);
    zeroed.push(0);
    zeroed.push(0);
    zeroed.push(id_hi);
    zeroed.push(id_lo);
    zeroed.push(seq_hi);
    zeroed.push(seq_lo);
    assert(zeroed@ =~= echo_v4_zeroed(seq, id));

    let checksum = calculate_checksum(zeroed.as_slice());
    proof {
        lemma_sum_words_bounds(echo_v4_zeroed(seq, id), 0);
        lemma_fold_carries_bounds(sum_words_from(echo_v4_zeroed(seq, id), 0));
    }

    let mut packet: Vec<u8> = Vec::new();
    packet.push(8);
    packet.push(0);
    packet.push((checksum / 256) as u8);
    packet.push((checksum % 256) as u8);
    packet.push(id_hi);
    packet.push(id_lo);
    packet.push(seq_hi);
    packet.push(seq_lo);
    assert(packet@ =~= echo_v4_packet(seq, id));
    packet
}

/// Build an ICMPv6 echo-request packet: type 128, code 0, zero checksum
/// (computed by the kernel), then identifier and sequence number.
pub fn construct_icmp6_packet(seq: u16, id: u16) -> (r: Vec<u8>)
    ensures
        r@ == echo_v6_packet(seq, id),
        r@.len() == 8,
{
    let mut packet: Vec<u8> = Vec::new();
    packet.push(128);
    packet.push(0);
    packet.push(0);
    packet.push(0);
    packet.push((id / 256) as u8);
    packet.push((id % 256) as u8);
    packet.push((seq / 256) as u8);
    packet.push((seq % 256) as u8);
    assert(packet@ =~= echo_v6_packet(seq, id));
    packet
}

/// Read the big-endian sequence number out of an echo packet, if the
/// packet is long enough to hold one.
pub fn extract_sequence_from_packet(packet: &[u8]) -> (r: Option<u16>)
    ensures
        r == if packet@.len() >= 8 {
            Some(be_word(packet@[6], packet@[7]) as u16)
        } else {
            None::<u16>
        },
{
    if packet.len() >= 8 {
        Some((packet[6] as u16) * 256 + (packet[7] as u16))
    } else {
        None
    }
}

/// What a raw capture decodes to: the recognised response kind, the
/// sequence number it answers, and (for v4, where the IP header is part of
/// the capture) the source address.
#[derive(Clone, Copy, PartialEq, Eq, Structural, Debug)]
pub struct DecodedResponse {
    pub icmp_type: IcmpResponseType,
    pub seq: u16,
    pub source: IpAddress,
}

/// Decoding of a raw ICMPv4 capture.  The capture starts with the IP
/// header (whose length is the low nibble of byte 0 times 4); the source
/// address sits in bytes 12 to 15; echo replies carry the sequence in the
/// ICMP header, error responses carry it inside the embedded copy of the
/// original packet, past a second IP header.  Anything too short or of an
/// unrecognised type decodes to nothing.
pub open spec fn decode_v4_spec(s: Seq<u8>) -> Option<DecodedResponse> {
    if s.len() < 28 {
        None
    } else {
        let ihl = (s[0] as int % 16) * 4;
        if s.len() < ihl + 8 {
            None
        } else {
            let src = IpAddress::V4(s[12], s[13], s[14], s[15]);
            let t = s[ihl];
            if t == 0 {
                Some(
                    DecodedResponse {
                        icmp_type: IcmpResponseType::EchoReply,
                        seq: be_word(s[ihl + 6], s[ihl + 7]) as u16,
                        source: src,
                    },
                )
            } else if t == 11 || t == 3 {
                if s.len() - ihl >= 36 {
                    Some(
                        DecodedResponse {
                            icmp_type: if t == 11 {
                                IcmpResponseType::TimeExceeded
                            } else {
                                IcmpResponseType::DestinationUnreachable
                            },
                            seq: be_word(s[ihl + 34], s[ihl + 35]) as u16,
                            source: src,
                        },
                    )
                } else {
                    None
                }
            } else {
                None
            }
        }
    }
}

/// Decode a raw ICMPv4 capture into the response it carries, or nothing
/// for a truncated or unrecognised packet.
pub fn decode_response_v4(buf: &[u8]) -> (r: Option<DecodedResponse>)
    ensures
        r == decode_v4_spec(buf@),
{
    if buf.len() < 28 {
        return None;
    }
    let ihl: usize = ((buf[0] % 16) as usize) * 4;
    if buf.len() < ihl + 8 {
        return None;
    }
    let src = IpAddress::V4(buf[12], buf[13], buf[14], buf[15]);
    let t = buf[ihl];
    if t == 0 {
        let seq = (buf[ihl + 6] as u16) * 256 + (buf[ihl + 7] as u16);
        Some(DecodedResponse { icmp_type: IcmpResponseType::EchoReply, seq, source: src })
    } else if t == 11 || t == 3 {
        if buf.len() - ihl >= 36 {
            let seq = (buf[ihl + 34] as u16) * 256 + (buf[ihl + 35] as u16);
            Some(
                DecodedResponse {
                    icmp_type: if t == 11 {
                        IcmpResponseType::TimeExceeded
                    } else {
                        IcmpResponseType::DestinationUnreachable
                    },
                    seq,
                    source: src,
                },
            )
        } else {
            None
        }
    } else {
        None
    }
}

/// Decoding of a raw ICMPv6 capture.  The capture starts directly at the
/// ICMPv6 header; echo replies carry the sequence in bytes 6 and 7, error
/// responses carry it inside the embedded original packet past the
/// embedded IPv6 header.  The source address is not part of the capture;
/// the socket layer reports it separately.
pub open spec fn decode_v6_spec(s: Seq<u8>) -> Option<(IcmpResponseType, u16)> {
    if s.len() < 8 {
        None
    } else {
        let t = s[0];
        if t == 129 {
            Some((IcmpResponseType::EchoReply, be_word(s[6], s[7]) as u16))
        } else if t == 3 || t == 1 {
            if s.len() >= 56 {
                Some(
                    (
                        if t == 3 {
                            IcmpResponseType::TimeExceeded
                        } else {
                            IcmpResponseType::DestinationUnreachable
                        },
                        be_word(s[54], s[55]) as u16,
                    ),
                )
            } else {
                None
            }
        } else {
            None
        }
    }
}

/// Decode a raw ICMPv6 capture into the response kind and sequence number
/// it carries, or nothing for a truncated or unrecognised packet.
pub fn decode_response_v6(buf: &[u8]) -> (r: Option<(IcmpResponseType, u16)>)
    ensures
        r == decode_v6_spec(buf@),
{
    if buf.len() < 8 {
        return None;
    }
    let t = buf[0];
    if t == 129 {
        let seq = (buf[6] as u16) * 256 + (buf[7] as u16);
        Some((IcmpResponseType::EchoReply, seq))
    } else if t == 3 || t == 1 {
        if buf.len() >= 56 {
            let seq = (buf[54] as u16) * 256 + (buf[55] as u16);
            Some(
                (
                    if t == 3 {
                        IcmpResponseType::TimeExceeded
                    } else {
                        IcmpResponseType::DestinationUnreachable
                    },
                    seq,
                ),
            )
        } else {
            None
        }
    } else {
        None
    }
}

} // verus!
