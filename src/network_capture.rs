use crate::model::PacketData;
use crate::pcap_helper::{decodes_to, frame_accepted, packet_mapper};
use vstd::prelude::*;

verus! {

pub open spec fn frame_views(frames: Seq<Vec<u8>>) -> Seq<Seq<u8>> {
    frames.map_values(|f: Vec<u8>| f@)
}

/// `recs` are the records that the frames decode to, in order, the rejected
/// frames left out.
pub open spec fn decodes_all(frames: Seq<Seq<u8>>, recs: Seq<PacketData>) -> bool
    decreases frames.len(),
{
    if frames.len() == 0 {
        recs.len() == 0
    } else if frame_accepted(frames.last()) {
        &&& recs.len() > 0
        &&& decodes_to(frames.last(), recs.last())
        &&& decodes_all(frames.drop_last(), recs.drop_last())
    } else {
        decodes_all(frames.drop_last(), recs)
    }
}

/// Decodes the frames of one capture file, keeping those that are accepted.
pub fn collect_packets(frames: &Vec<Vec<u8>>) -> (r: Vec<PacketData>)
    ensures
        decodes_all(frame_views(frames@), r@),
        r@.len() <= frames@.len(),
{
    let mut data_packets: Vec<PacketData> = Vec::new();
    let mut i: usize = 0;
    proof {
        assert(frame_views(frames@).subrange(0, 0) =~= Seq::<Seq<u8>>::empty());
    }
    while i < frames.len()
        invariant
            i <= frames.len(),
            decodes_all(frame_views(frames@).subrange(0, i as int), data_packets@),
            data_packets@.len() <= i,
        decreases frames.len() - i,
    {
        let ghost before = frame_views(frames@).subrange(0, i as int);
        let ghost after = frame_views(frames@).subrange(0, i as int + 1);
        let ghost old_packets = data_packets@;
        proof {
            assert(after.drop_last() =~= before);
            assert(after.last() == frames@[i as int]@);
        }
        match packet_mapper(frames[i].as_slice()) {
            Some(packet_data) => {
                data_packets.push(packet_data);
                assert(data_packets@.drop_last() =~= old_packets);
            },
            None => {},
        }
        i = i + 1;
    }
    assert(frame_views(frames@).subrange(0, frames.len() as int) =~= frame_views(frames@));
    data_packets
}

} // verus!
