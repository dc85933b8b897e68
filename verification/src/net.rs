//! Raw frame construction: fixed Ethernet and IPv4/UDP packet images.

use vstd::prelude::*;

verus! {

pub const ETHERNET_HEADER_LENGTH: usize = 14;

pub const MIN_PAYLOAD_LENGTH: usize = 46;

pub const MIN_FRAME_LENGTH: usize = 60;

/// Reserved for the packet assembly the network service grows into.
pub fn build_packet() {
}

/// A minimum-size Ethernet frame: destination, source, the frame length in
/// the type field, and a zero payload.
pub fn empty_ethernet_frame(src_mac: [u8; 6], dst_mac: [u8; 6]) -> (r: [u8; 60])
    ensures
        forall|i: int| 0 <= i < 6 ==> r@[i] == dst_mac@[i],
        forall|i: int| 6 <= i < 12 ==> r@[i] == src_mac@[i - 6],
        r@[12] == 0x05u8,
        r@[13] == 0xDCu8,
        forall|i: int| 14 <= i < 60 ==> r@[i] == 0u8,
{
    let mut frame = [0u8; 60];
    let mut i: usize = 0;
    while i < 6
        invariant
            0 <= i <= 6,
            forall|j: int| 0 <= j < i ==> frame@[j] == dst_mac@[j],
            forall|j: int| i <= j < 60 ==> frame@[j] == 0u8,
        decreases 6 - i,
    {
        frame[i] = dst_mac[i];
        i = i + 1;
    }
    let mut k: usize = 0;
    while k < 6
        invariant
            0 <= k <= 6,
            forall|j: int| 0 <= j < 6 ==> frame@[j] == dst_mac@[j],
            forall|j: int| 0 <= j < k ==> frame@[6 + j] == src_mac@[j],
            forall|j: int| 6 + k <= j < 60 ==> frame@[j] == 0u8,
        decreases 6 - k,
    {
        frame[6 + k] = src_mac[k];
        k = k + 1;
    }
    frame[12] = 0x05;
    frame[13] = 0xDC;
    frame
}

/// A fixed test datagram: an Ethernet header for IPv4, a minimal IPv4
/// header with a UDP payload, and a five-byte greeting, as used to smoke
/// the network path.
pub fn create_eth_ipv4_udp_packet() -> (r: [u8; 62])
    ensures
        r@.len() == 62,
        r@[12] == 0x08u8 && r@[13] == 0x00u8,
        r@[14] == 0x45u8,
        r@[16] == 0x00u8 && r@[17] == 0x2Eu8,
        r@[22] == 0x40u8,
        r@[23] == 0x11u8,
        r@[26] == 192u8 && r@[27] == 168u8 && r@[28] == 100u8 && r@[29] == 2u8,
        r@[30] == 192u8 && r@[31] == 168u8 && r@[32] == 100u8 && r@[33] == 3u8,
        r@[34] == 0x15u8 && r@[35] == 0xB3u8,
        r@[36] == 0x15u8 && r@[37] == 0xB3u8,
        r@[38] == 0x00u8 && r@[39] == 0x0Du8,
        r@[40] == 0u8 && r@[41] == 0u8,
        r@[42] == 72u8 && r@[43] == 101u8 && r@[44] == 108u8 && r@[45] == 108u8 && r@[46]
            == 111u8,
        forall|i: int| 47 <= i < 62 ==> r@[i] == 0u8,
{
    let mut packet = [0u8; 62];
    let src_mac: [u8; 6] = [0x00, 0x11, 0x22, 0x33, 0x44, 0x55];
    let dst_mac: [u8; 6] = [0x18, 0xC0, 0x4D, 0x32, 0xC3, 0x34];
    let mut i: usize = 0;
    while i < 6
        invariant
            0 <= i <= 6,
            forall|j: int| 0 <= j < i ==> packet@[j] == dst_mac@[j],
            forall|j: int| i <= j < 62 ==> packet@[j] == 0u8,
        decreases 6 - i,
    {
        packet[i] = dst_mac[i];
        i = i + 1;
    }
    let mut k: usize = 0;
    while k < 6
        invariant
            0 <= k <= 6,
            forall|j: int| 0 <= j < 6 ==> packet@[j] == dst_mac@[j],
            forall|j: int| 0 <= j < k ==> packet@[6 + j] == src_mac@[j],
            forall|j: int| 6 + k <= j < 62 ==> packet@[j] == 0u8,
        decreases 6 - k,
    {
        packet[6 + k] = src_mac[k];
        k = k + 1;
    }
    // the frame carries IPv4
    packet[12] = 0x08;
    packet[13] = 0x00;
    // IPv4: version and header length, then total length, time to live,
    // the UDP protocol number, and a zero header checksum
    packet[14] = 0x45;
    packet[15] = 0x00;
    packet[16] = 0x00;
    packet[17] = 0x2E;
    packet[18] = 0x00;
    packet[19] = 0x00;
    packet[20] = 0x00;
    packet[21] = 0x00;
    packet[22] = 0x40;
    packet[23] = 0x11;
    packet[24] = 0x00;
    packet[25] = 0x00;
    packet[26] = 192;
    packet[27] = 168;
    packet[28] = 100;
    packet[29] = 2;
    packet[30] = 192;
    packet[31] = 168;
    packet[32] = 100;
    packet[33] = 3;
    // UDP: source and destination port 5555, length, zero checksum
    packet[34] = 0x15;
    packet[35] = 0xB3;
    packet[36] = 0x15;
    packet[37] = 0xB3;
    packet[38] = 0x00;
    packet[39] = 0x0D;
    packet[40] = 0x00;
    packet[41] = 0x00;
    // the greeting payload
    packet[42] = 72;
    packet[43] = 101;
    packet[44] = 108;
    packet[45] = 108;
    packet[46] = 111;
    packet
}

} // verus!
