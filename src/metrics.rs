use crate::error::PipelineError;
use crate::snapshot::{
    count_playing, label_index, labels_unique, lemma_count_playing_bound, lemma_label_index,
    lemma_mode_counts_bounded, lemma_playing_bound, lemma_total_prefix, mode_counts,
    playing_clients, total_clients, ClientRecord, ServerRecord, Snapshot,
};
use vstd::prelude::*;

verus! {

/// Client count of one gamemode at one instant.
#[derive(Clone, Debug)]
pub struct ModeCount {
    pub label: String,
    pub count: usize,
}

/// The metrics of one snapshot: its time of day in seconds, the clients in
/// all, those playing and those spectating, and the clients per gamemode.
#[derive(Clone, Debug)]
pub struct AggregatePoint {
    pub time: u32,
    pub total: usize,
    pub playing: usize,
    pub spectating: usize,
    pub game_types: Vec<ModeCount>,
}

/// The gamemode counts of a point as labels and counts.
pub open spec fn modes_view(v: Seq<ModeCount>) -> Seq<(Seq<char>, nat)> {
    v.map_values(|m: ModeCount| (m.label@, m.count as nat))
}

/// What one snapshot taken at `time` reduces to, where its counts fit.
pub open spec fn is_point_of(p: AggregatePoint, time: u32, servers: Seq<ServerRecord>) -> bool {
    &&& p.time == time
    &&& p.total == total_clients(servers)
    &&& p.playing == playing_clients(servers)
    &&& p.spectating == total_clients(servers) - playing_clients(servers)
    &&& modes_view(p.game_types@) == mode_counts(servers)
}

proof fn lemma_unique_index(m: Seq<(Seq<char>, nat)>, label: Seq<char>, j: int)
    requires
        labels_unique(m),
        0 <= j < m.len(),
        m[j].0 == label,
    ensures
        label_index(m, label) == Some(j as nat),
    decreases m.len(),
{
    if j < m.len() - 1 {
        assert(m.last().0 != label);
        assert(m.drop_last()[j] == m[j]);
        lemma_unique_index(m.drop_last(), label, j);
    }
}

fn count_playing_clients(clients: &Vec<ClientRecord>) -> (r: usize)
    ensures
        r == count_playing(clients@),
{
    let mut r: usize = 0;
    let mut k: usize = 0;
    while k < clients.len()
        invariant
            k <= clients.len(),
            r == count_playing(clients@.take(k as int)),
        decreases clients.len() - k,
    {
        proof {
            assert(clients@.take(k + 1).drop_last() == clients@.take(k as int));
            lemma_count_playing_bound(clients@.take(k as int));
        }
        if clients[k].is_player {
            r = r + 1;
        }
        k = k + 1;
    }
    proof {
        assert(clients@.take(k as int) == clients@);
    }
    r
}

/// Finds the position of `label` among the gamemode counts.
fn find_mode(modes: &Vec<ModeCount>, label: &String) -> (r: Option<usize>)
    requires
        labels_unique(modes_view(modes@)),
    ensures
        match r {
            Some(j) => label_index(modes_view(modes@), label@) == Some(j as nat),
            None => label_index(modes_view(modes@), label@) is None,
        },
{
    let mut j: usize = 0;
    while j < modes.len()
        invariant
            j <= modes.len(),
            labels_unique(modes_view(modes@)),
            forall|k: int| 0 <= k < j ==> modes_view(modes@)[k].0 != label@,
        decreases modes.len() - j,
    {
        if modes[j].label == *label {
            proof {
                lemma_unique_index(modes_view(modes@), label@, j as int);
            }
            return Some(j);
        }
        j = j + 1;
    }
    proof {
        lemma_label_index(modes_view(modes@), label@);
        match label_index(modes_view(modes@), label@) {
            Some(i) => {
                assert(modes_view(modes@)[i as int].0 == label@);
            },
            None => {},
        }
    }
    None
}

/// Reduces one snapshot taken at `time` to its aggregate point. Fails
/// only where the number of clients does not fit in a `usize`.
pub fn extract_point(time: u32, snapshot: &Snapshot) -> (r: Result<AggregatePoint, PipelineError>)
    ensures
        total_clients(snapshot.servers@) > usize::MAX ==> r == Err::<AggregatePoint, PipelineError>(
            PipelineError::CountOverflow,
        ),
        total_clients(snapshot.servers@) <= usize::MAX ==> (r matches Ok(p) && is_point_of(
            p,
            time,
            snapshot.servers@,
        ) && p.playing + p.spectating == p.total && labels_unique(modes_view(p.game_types@))),
{
    let servers = &snapshot.servers;
    let mut total: usize = 0;
    let mut playing: usize = 0;
    let mut modes: Vec<ModeCount> = Vec::new();
    let mut i: usize = 0;
    while i < servers.len()
        invariant
            i <= servers.len(),
            servers@ == snapshot.servers@,
            total == total_clients(servers@.take(i as int)),
            playing == playing_clients(servers@.take(i as int)),
            modes_view(modes@) == mode_counts(servers@.take(i as int)),
        decreases servers.len() - i,
    {
        let ghost before = servers@.take(i as int);
        let ghost after = servers@.take(i + 1);
        proof {
            assert(after.drop_last() == before);
            assert(after.last() == servers@[i as int]);
            lemma_mode_counts_bounded(before);
            lemma_mode_counts_bounded(after);
            lemma_playing_bound(after);
            lemma_total_prefix(servers@, i + 1);
        }
        let server = &servers[i];
        if let Some(clients) = &server.clients {
            let n = clients.len();
            assert(total_clients(after) == total + n);
            assert(playing_clients(after) == playing + count_playing(clients@));
            total = match total.checked_add(n) {
                Some(t) => t,
                None => {
                    return Err(PipelineError::CountOverflow);
                },
            };
            let p = count_playing_clients(clients);
            playing = playing + p;
            if let Some(g) = &server.game_type {
                match find_mode(&modes, g) {
                    Some(j) => {
                        proof {
                            lemma_label_index(modes_view(modes@), g@);
                            assert(modes_view(modes@)[j as int].1 + n == mode_counts(after)[j as int].1);
                        }
                        let c = modes[j].count + n;
                        let label = modes[j].label.clone();
                        modes.set(j, ModeCount { label, count: c });
                    },
                    None => {
                        modes.push(ModeCount { label: g.clone(), count: n });
                    },
                }
                assert(modes_view(modes@) == mode_counts(after));
            }
        }
        i = i + 1;
    }
    proof {
        assert(servers@.take(i as int) == servers@);
        lemma_playing_bound(servers@);
        lemma_mode_counts_bounded(servers@);
    }
    Ok(AggregatePoint { time, total, playing, spectating: total - playing, game_types: modes })
}

} // verus!
