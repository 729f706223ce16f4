use vstd::prelude::*;

verus! {

/// One connected client; only whether it plays or spectates matters here.
#[derive(Clone, Copy, Debug, PartialEq, Eq, Structural)]
pub struct ClientRecord {
    pub is_player: bool,
}

/// One server's reported state at a snapshot instant. An absent roster and
/// an empty one both mean that the server has no clients.
#[derive(Clone, Debug)]
pub struct ServerRecord {
    pub game_type: Option<String>,
    pub clients: Option<Vec<ClientRecord>>,
}

/// The reported state of all servers at one instant.
#[derive(Clone, Debug)]
pub struct Snapshot {
    pub servers: Vec<ServerRecord>,
}

/// Number of players (not spectators) among `clients`.
pub open spec fn count_playing(clients: Seq<ClientRecord>) -> nat
    decreases clients.len(),
{
    if clients.len() == 0 {
        0
    } else {
        count_playing(clients.drop_last()) + if clients.last().is_player {
            1nat
        } else {
            0nat
        }
    }
}

/// Number of clients on a server; zero where the roster is absent.
pub open spec fn roster_size(server: ServerRecord) -> nat {
    match server.clients {
        Some(c) => c@.len(),
        None => 0,
    }
}

/// Number of playing clients on a server; zero where the roster is absent.
pub open spec fn roster_playing(server: ServerRecord) -> nat {
    match server.clients {
        Some(c) => count_playing(c@),
        None => 0,
    }
}

/// Number of clients over all servers.
pub open spec fn total_clients(servers: Seq<ServerRecord>) -> nat
    decreases servers.len(),
{
    if servers.len() == 0 {
        0
    } else {
        total_clients(servers.drop_last()) + roster_size(servers.last())
    }
}

/// Number of playing clients over all servers.
pub open spec fn playing_clients(servers: Seq<ServerRecord>) -> nat
    decreases servers.len(),
{
    if servers.len() == 0 {
        0
    } else {
        playing_clients(servers.drop_last()) + roster_playing(servers.last())
    }
}

/// Position of `label` in a list of labelled counts.
pub open spec fn label_index<V>(m: Seq<(Seq<char>, V)>, label: Seq<char>) -> Option<nat>
    decreases m.len(),
{
    if m.len() == 0 {
        None
    } else if m.last().0 == label {
        Some((m.len() - 1) as nat)
    } else {
        label_index(m.drop_last(), label)
    }
}

/// Whether no label occurs twice.
pub open spec fn labels_unique<V>(m: Seq<(Seq<char>, V)>) -> bool {
    forall|i: int, j: int| 0 <= i < j < m.len() ==> m[i].0 != m[j].0
}

/// Adds `n` to the count of `label`, appending the label with count `n`
/// where it is not yet listed.
pub open spec fn add_count(m: Seq<(Seq<char>, nat)>, label: Seq<char>, n: nat) -> Seq<(Seq<char>, nat)> {
    match label_index(m, label) {
        Some(i) => m.update(i as int, (label, m[i as int].1 + n)),
        None => m.push((label, n)),
    }
}

/// The gamemode counts after one more server: a server with a roster and a
/// gamemode adds its roster size to that gamemode; any other adds nothing.
pub open spec fn add_server(m: Seq<(Seq<char>, nat)>, server: ServerRecord) -> Seq<(Seq<char>, nat)> {
    match (server.game_type, server.clients) {
        (Some(g), Some(c)) => add_count(m, g@, c@.len()),
        _ => m,
    }
}

/// Client count per gamemode at one instant, summed over all servers that
/// report the gamemode, in order of the gamemode's first server.
pub open spec fn mode_counts(servers: Seq<ServerRecord>) -> Seq<(Seq<char>, nat)>
    decreases servers.len(),
{
    if servers.len() == 0 {
        Seq::empty()
    } else {
        add_server(mode_counts(servers.drop_last()), servers.last())
    }
}

pub proof fn lemma_label_index<V>(m: Seq<(Seq<char>, V)>, label: Seq<char>)
    ensures
        label_index(m, label) matches Some(i) ==> i < m.len() && m[i as int].0 == label,
        label_index(m, label) is None ==> forall|j: int| 0 <= j < m.len() ==> m[j].0 != label,
    decreases m.len(),
{
    if m.len() > 0 {
        lemma_label_index(m.drop_last(), label);
        assert forall|j: int| 0 <= j < m.len() - 1 implies m[j] == m.drop_last()[j] by {}
    }
}

pub proof fn lemma_count_playing_bound(clients: Seq<ClientRecord>)
    ensures
        count_playing(clients) <= clients.len(),
    decreases clients.len(),
{
    if clients.len() > 0 {
        lemma_count_playing_bound(clients.drop_last());
    }
}

pub proof fn lemma_playing_bound(servers: Seq<ServerRecord>)
    ensures
        playing_clients(servers) <= total_clients(servers),
    decreases servers.len(),
{
    if servers.len() > 0 {
        lemma_playing_bound(servers.drop_last());
        if let Some(c) = servers.last().clients {
            lemma_count_playing_bound(c@);
        }
    }
}

pub proof fn lemma_total_prefix(servers: Seq<ServerRecord>, i: int)
    requires
        0 <= i <= servers.len(),
    ensures
        total_clients(servers.take(i)) <= total_clients(servers),
    decreases servers.len() - i,
{
    if i < servers.len() {
        lemma_total_prefix(servers, i + 1);
        assert(servers.take(i + 1).drop_last() == servers.take(i));
    } else {
        assert(servers.take(i) == servers);
    }
}

/// Each gamemode count is at most the number of all clients, and no
/// gamemode is listed twice.
pub proof fn lemma_mode_counts_bounded(servers: Seq<ServerRecord>)
    ensures
        labels_unique(mode_counts(servers)),
        forall|j: int|
            0 <= j < mode_counts(servers).len() ==> #[trigger] mode_counts(servers)[j].1
                <= total_clients(servers),
    decreases servers.len(),
{
    if servers.len() > 0 {
        let prev = mode_counts(servers.drop_last());
        lemma_mode_counts_bounded(servers.drop_last());
        let srv = servers.last();
        if let (Some(g), Some(c)) = (srv.game_type, srv.clients) {
            lemma_label_index(prev, g@);
        }
    }
}

/// The count of `label` in a list of gamemode counts, if listed.
pub open spec fn count_in(m: Seq<(Seq<char>, nat)>, label: Seq<char>) -> Option<nat> {
    match label_index(m, label) {
        Some(i) => Some(m[i as int].1),
        None => None,
    }
}

/// Whether a server has a roster and reports gamemode `label`.
pub open spec fn reports(server: ServerRecord, label: Seq<char>) -> bool {
    server.clients is Some && match server.game_type {
        Some(g) => g@ == label,
        None => false,
    }
}

/// Whether some server with a roster reports gamemode `label`.
pub open spec fn label_reported(servers: Seq<ServerRecord>, label: Seq<char>) -> bool {
    exists|i: int| 0 <= i < servers.len() && #[trigger] reports(servers[i], label)
}

/// Clients over all servers that report gamemode `label`.
pub open spec fn label_clients(servers: Seq<ServerRecord>, label: Seq<char>) -> nat
    decreases servers.len(),
{
    if servers.len() == 0 {
        0
    } else {
        let s = servers.last();
        label_clients(servers.drop_last(), label) + match s.game_type {
            Some(g) if g@ == label => roster_size(s),
            _ => 0,
        }
    }
}

proof fn lemma_add_count_entry(m: Seq<(Seq<char>, nat)>, l0: Seq<char>, n: nat, label: Seq<char>)
    requires
        labels_unique(m),
    ensures
        count_in(add_count(m, l0, n), label) == if label == l0 {
            match count_in(m, label) {
                Some(c) => Some(c + n),
                None => Some(n),
            }
        } else {
            count_in(m, label)
        },
{
    let m2 = add_count(m, l0, n);
    lemma_label_index(m, l0);
    lemma_label_index(m, label);
    match label_index(m, l0) {
        Some(i) => {
            lemma_same_label_index(m2, m, label);
        },
        None => {
            assert(m2.drop_last() == m);
        },
    }
}

proof fn lemma_same_label_index(a: Seq<(Seq<char>, nat)>, b: Seq<(Seq<char>, nat)>, label: Seq<char>)
    requires
        a.len() == b.len(),
        forall|i: int| 0 <= i < a.len() ==> #[trigger] a[i].0 == b[i].0,
    ensures
        label_index(a, label) == label_index(b, label),
    decreases a.len(),
{
    if a.len() > 0 {
        lemma_same_label_index(a.drop_last(), b.drop_last(), label);
    }
}

/// Two servers that report the same gamemode at one instant are summed:
/// the count of a gamemode is the number of clients over all servers that
/// report it with a roster, and a gamemode is listed exactly when some such
/// server reports it.
pub proof fn lemma_mode_counts_sum(servers: Seq<ServerRecord>, label: Seq<char>)
    ensures
        count_in(mode_counts(servers), label) == if label_reported(servers, label) {
            Some(label_clients(servers, label))
        } else {
            None::<nat>
        },
    decreases servers.len(),
{
    if servers.len() > 0 {
        let prev = servers.drop_last();
        let s = servers.last();
        lemma_mode_counts_sum(prev, label);
        lemma_mode_counts_bounded(prev);
        lemma_clients_zero_unreported(prev, label);
        if let (Some(g), Some(c)) = (s.game_type, s.clients) {
            lemma_add_count_entry(mode_counts(prev), g@, c@.len(), label);
        }
        if label_reported(prev, label) {
            let w = choose|i: int| 0 <= i < prev.len() && #[trigger] reports(prev[i], label);
            assert(servers[w] == prev[w]);
        }
        if label_reported(servers, label) && !label_reported(prev, label) {
            let w = choose|i: int| 0 <= i < servers.len() && #[trigger] reports(servers[i], label);
            if w < servers.len() - 1 {
                assert(prev[w] == servers[w]);
            }
        }
        if reports(s, label) {
            assert(servers[servers.len() - 1] == s);
        }
    }
}

proof fn lemma_clients_zero_unreported(servers: Seq<ServerRecord>, label: Seq<char>)
    ensures
        !label_reported(servers, label) ==> label_clients(servers, label) == 0,
    decreases servers.len(),
{
    if servers.len() > 0 {
        let prev = servers.drop_last();
        lemma_clients_zero_unreported(prev, label);
        if !label_reported(servers, label) {
            assert(servers[servers.len() - 1] == servers.last());
            assert(!reports(servers[servers.len() - 1], label));
            assert forall|i: int| 0 <= i < prev.len() implies !#[trigger] reports(prev[i], label) by {
                assert(prev[i] == servers[i]);
            }
        }
    }
}

} // verus!
