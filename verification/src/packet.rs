use vstd::prelude::*;

use crate::varint::{
    encode_varint, is_varint, lemma_varint_bytes_len, lemma_varint_round_trip, varint_bytes,
    varint_value,
};

verus! {

/// A framed TCP packet: the total length (id plus payload) as a VarInt,
/// then the packet id as a VarInt, then the payload itself.
pub open spec fn packet_bytes(payload: Seq<u8>, id: u32) -> Seq<u8> {
    varint_bytes(((payload.len() + varint_bytes(id).len()) as u32)) + varint_bytes(id) + payload
}

/// Build a packet by:
/// * Encoding a representation of the ID into a VarInt
/// * Encoding the length of the ID and data into a VarInt
/// * Creating a Vec to store that metadata along with the data
pub fn build_packet(data: Vec<u8>, id: u32) -> (r: Vec<u8>)
    requires
        data@.len() + 5 <= u32::MAX,
    ensures
        r@ == packet_bytes(data@, id),
{
    let ghost payload = data@;
    let mut id_enc = encode_varint(id);
    proof {
        lemma_varint_bytes_len(id);
    }
    let total = data.len() + id_enc.len();
    let mut len_enc = encode_varint(total as u32);
    let mut packet: Vec<u8> = Vec::new();
    let mut data = data;
    packet.append(&mut len_enc);
    packet.append(&mut id_enc);
    packet.append(&mut data);
    proof {
        assert(packet@ =~= packet_bytes(payload, id));
    }
    packet
}

/// A reader that consumes a built packet finds, in order: the total length
/// (the id's encoding plus the payload), the id, and the payload itself.
pub proof fn lemma_packet_reader(payload: Seq<u8>, id: u32)
    requires
        payload.len() + 5 <= u32::MAX,
    ensures
        ({
            let idb = varint_bytes(id);
            let total = ((payload.len() + idb.len()) as u32);
            let lenb = varint_bytes(total);
            let p = packet_bytes(payload, id);
            &&& p.len() == (lenb.len() + idb.len()) as int + payload.len()
            &&& is_varint(p.subrange(0, lenb.len() as int))
            &&& varint_value(p.subrange(0, lenb.len() as int)) == total
            &&& total == idb.len() + payload.len()
            &&& is_varint(p.subrange(lenb.len() as int, (lenb.len() + idb.len()) as int))
            &&& varint_value(p.subrange(lenb.len() as int, (lenb.len() + idb.len()) as int)) == id
            &&& p.subrange((lenb.len() + idb.len()) as int, p.len() as int) == payload
        }),
{
    let idb = varint_bytes(id);
    lemma_varint_bytes_len(id);
    lemma_varint_round_trip(id);
    let total = ((payload.len() + idb.len()) as u32);
    let lenb = varint_bytes(total);
    lemma_varint_bytes_len(total);
    lemma_varint_round_trip(total);
    let p = packet_bytes(payload, id);
    assert(p.subrange(0, lenb.len() as int) =~= lenb);
    assert(p.subrange(lenb.len() as int, (lenb.len() + idb.len()) as int) =~= idb);
    assert(p.subrange((lenb.len() + idb.len()) as int, p.len() as int) =~= payload);
}

/// The two-byte big-endian form of a port number.
pub open spec fn be16(port: u16) -> Seq<u8> {
    seq![(port >> 8) as u8, (port & 0xff) as u8]
}

/// The handshake payload: a protocol version hint, the host name with its
/// length, the port in big-endian, and the status next-state marker.
pub open spec fn handshake_bytes(host: Seq<char>, port: u16) -> Seq<u8> {
    varint_bytes(0x47) + varint_bytes(vstd::utf8::encode_utf8(host).len() as u32)
        + vstd::utf8::encode_utf8(host) + be16(port) + varint_bytes(1)
}

/// Build a handshake packet payload by adding:
/// * Magic data
/// * Host length as a VarInt, the host, and the port
/// * Next state of status
pub fn build_handshake(host: &str, port: u16) -> (r: Vec<u8>)
    requires
        vstd::utf8::encode_utf8(host@).len() + 14 <= u32::MAX,
    ensures
        r@ == handshake_bytes(host@, port),
{
    let mut data = encode_varint(0x47);
    let mut host_bytes = vstd::string::StrSliceExecFns::as_bytes_vec(host);
    let mut len_enc = encode_varint(host_bytes.len() as u32);
    data.append(&mut len_enc);
    data.append(&mut host_bytes);
    proof {
        assert((port >> 8) < 256 && (port & 0xff) < 256) by (bit_vector);
    }
    data.push((port >> 8) as u8);
    data.push((port & 0xff) as u8);
    let mut next_state = encode_varint(1);
    data.append(&mut next_state);
    proof {
        assert(data@ =~= handshake_bytes(host@, port));
    }
    data
}

} // verus!
