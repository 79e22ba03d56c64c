use crate::job_dispatcher::is_pcap_path;
use crate::model::{NetworkStats, PacketData};
use crate::network_capture::{collect_packets, decodes_all, frame_views};
use crate::stat_helper::{generate_stats, stats_within_limits, summarizes, within_limits};
use vstd::prelude::*;

verus! {

/// The work on one capture file, given its frames: its records, and its report
/// when the report's counts fit their integer types.
pub fn process_local_pcap(frames: &Vec<Vec<u8>>) -> (r: (Vec<PacketData>, Option<NetworkStats>))
    ensures
        decodes_all(frame_views(frames@), r.0@),
        r.1 is Some <==> within_limits(r.0@),
        r.1 matches Some(stats) ==> summarizes(r.0@, stats),
{
    let packets = collect_packets(frames);
    if stats_within_limits(&packets) {
        let stats = generate_stats(&packets);
        (packets, Some(stats))
    } else {
        (packets, None)
    }
}

/// The batches one after the other.
pub open spec fn concat_batches(batches: Seq<Seq<PacketData>>) -> Seq<PacketData>
    decreases batches.len(),
{
    if batches.len() == 0 {
        Seq::empty()
    } else {
        concat_batches(batches.drop_last()) + batches.last()
    }
}

/// Holds every record received so far and reports on all of them.
pub struct Aggregator {
    all_records: Vec<PacketData>,
    batches: Ghost<Seq<Seq<PacketData>>>,
}

impl Aggregator {
    /// The batches received so far, in order.
    pub closed spec fn batches(&self) -> Seq<Seq<PacketData>> {
        self.batches@
    }

    pub closed spec fn wf(&self) -> bool {
        self.all_records@ == concat_batches(self.batches@)
    }

    pub fn new() -> (a: Self)
        ensures
            a.wf(),
            a.batches() == Seq::<Seq<PacketData>>::empty(),
    {
        Aggregator { all_records: Vec::new(), batches: Ghost(Seq::empty()) }
    }

    /// How many records have been received.
    pub fn record_count(&self) -> (r: usize)
        requires
            self.wf(),
        ensures
            r == concat_batches(self.batches()).len(),
    {
        self.all_records.len()
    }

    /// Adds a batch and returns the report on every record received so far;
    /// `None` when that report's counts no longer fit their integer types.
    pub fn absorb(&mut self, batch: Vec<PacketData>) -> (r: Option<NetworkStats>)
        requires
            old(self).wf(),
        ensures
            final(self).wf(),
            final(self).batches() == old(self).batches().push(batch@),
            r is Some <==> within_limits(concat_batches(final(self).batches())),
            r matches Some(stats) ==> summarizes(concat_batches(final(self).batches()), stats),
    {
        let ghost batches = self.batches@.push(batch@);
        assert(batches.drop_last() =~= self.batches@);
        let mut batch = batch;
        self.all_records.append(&mut batch);
        self.batches = Ghost(batches);
        if stats_within_limits(&self.all_records) {
            Some(generate_stats(&self.all_records))
        } else {
            None
        }
    }
}

pub open spec fn sum_total_packets(reports: Seq<NetworkStats>) -> int
    decreases reports.len(),
{
    if reports.len() == 0 {
        0
    } else {
        sum_total_packets(reports.drop_last()) + reports.last().total_packets
    }
}

/// The aggregate report counts exactly the packets of the per-file reports:
/// its `total_packets` is their sum.
pub proof fn lemma_aggregate_counts_every_batch(
    batches: Seq<Seq<PacketData>>,
    per_file: Seq<NetworkStats>,
    total: NetworkStats,
)
    requires
        per_file.len() == batches.len(),
        forall|i: int| 0 <= i < batches.len() ==> summarizes(#[trigger] batches[i], per_file[i]),
        summarizes(concat_batches(batches), total),
    ensures
        total.total_packets == sum_total_packets(per_file),
{
    lemma_concat_len_is_sum(batches, per_file);
}

proof fn lemma_concat_len_is_sum(batches: Seq<Seq<PacketData>>, per_file: Seq<NetworkStats>)
    requires
        per_file.len() == batches.len(),
        forall|i: int| 0 <= i < batches.len() ==> summarizes(#[trigger] batches[i], per_file[i]),
    ensures
        concat_batches(batches).len() == sum_total_packets(per_file),
    decreases batches.len(),
{
    if batches.len() > 0 {
        let b = batches.drop_last();
        let f = per_file.drop_last();
        assert forall|i: int| 0 <= i < b.len() implies summarizes(#[trigger] b[i], f[i]) by {
            assert(b[i] == batches[i]);
            assert(f[i] == per_file[i]);
        }
        lemma_concat_len_is_sum(b, f);
        assert(summarizes(batches[batches.len() - 1], per_file[per_file.len() - 1]));
    }
}

/// What a filesystem notification reports about its paths.
#[derive(Debug, Clone, Copy, PartialEq, Eq, Structural)]
pub enum WatchEventKind {
    Create,
    Modify,
    Other,
}

/// The `.pcap` paths among `paths`, in order.
pub open spec fn pcap_paths(paths: Seq<Seq<char>>) -> Seq<Seq<char>>
    decreases paths.len(),
{
    if paths.len() == 0 {
        Seq::empty()
    } else if is_pcap_path(paths.last()) {
        pcap_paths(paths.drop_last()).push(paths.last())
    } else {
        pcap_paths(paths.drop_last())
    }
}

pub open spec fn path_views(paths: Seq<String>) -> Seq<Seq<char>> {
    paths.map_values(|p: String| p@)
}

/// The paths of a notification that are passed on for processing: the `.pcap`
/// ones of a creation or a modification.
pub fn watched_pcap_paths(kind: WatchEventKind, paths: &Vec<String>) -> (r: Vec<String>)
    ensures
        path_views(r@) == if kind == WatchEventKind::Other {
            Seq::empty()
        } else {
            pcap_paths(path_views(paths@))
        },
{
    let mut selected: Vec<String> = Vec::new();
    if kind == WatchEventKind::Other {
        assert(path_views(selected@) =~= Seq::<Seq<char>>::empty());
        return selected;
    }
    let mut i: usize = 0;
    proof {
        assert(path_views(paths@).subrange(0, 0) =~= Seq::<Seq<char>>::empty());
        assert(path_views(selected@) =~= Seq::<Seq<char>>::empty());
    }
    while i < paths.len()
        invariant
            i <= paths.len(),
            path_views(selected@) == pcap_paths(path_views(paths@).subrange(0, i as int)),
        decreases paths.len() - i,
    {
        let ghost before = path_views(paths@).subrange(0, i as int);
        let ghost after = path_views(paths@).subrange(0, i as int + 1);
        let ghost old_selected = selected@;
        proof {
            assert(after.drop_last() =~= before);
            assert(after.last() == paths@[i as int]@);
        }
        if crate::job_dispatcher::has_pcap_extension(paths[i].as_str()) {
            selected.push(paths[i].clone());
            assert(path_views(selected@) =~= path_views(old_selected).push(paths@[i as int]@));
        }
        i = i + 1;
    }
    assert(path_views(paths@).subrange(0, paths.len() as int) =~= path_views(paths@));
    selected
}

/// Where the report on every file processed so far is published.
pub fn total_stats_path(output_dir: &str) -> (r: String)
    ensures
        r@ == output_dir@ + "/total_stats.json"@,
{
    let mut path = String::from_str(output_dir);
    path.append("/total_stats.json");
    path
}

} // verus!
