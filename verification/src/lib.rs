//! Network speed measurement core: server selection, latency scoring, and
//! the bounded-duration bandwidth measurement engine.
//!
//! The library holds the algorithmic parts of a speed test client: catalog
//! filtering, geo-distance ranking, latency probing arithmetic, the
//! time-bounded download/upload engine decisions, and the self-throttling
//! synthetic upload source. Network and file I/O live with the caller, which
//! hands the results of each outside call back to these verified functions.

pub mod clock;
pub mod config;
pub mod file_utils;
pub mod record;
pub mod upload_data;
pub mod utils;

use vstd::prelude::*;

use crate::config::TestServerConfig;
use crate::utils::{contains_u64, lower_of, lowercase};

verus! {

/// Whether the ignore list keeps a server: true when its id is not listed.
pub open spec fn kept_by_ignore_list(ignore_ids: Seq<u64>, s: TestServerConfig) -> bool {
    !ignore_ids.contains(s.id)
}

/// The servers whose id is not on the ignore list, in catalog order.
///
/// Exactly the servers with an ignored id are removed and all others keep
/// their relative order: the result is the filter of the input.
pub fn filter_ignored(servers: &Vec<TestServerConfig>, ignore_ids: &Vec<u64>) -> (result: Vec<
    TestServerConfig,
>)
    ensures
        result@ == servers@.filter(|s: TestServerConfig| kept_by_ignore_list(ignore_ids@, s)),
{
    let ghost pred = |s: TestServerConfig| kept_by_ignore_list(ignore_ids@, s);
    let mut result: Vec<TestServerConfig> = Vec::new();
    for i in 0..servers.len()
        invariant
            pred == (|s: TestServerConfig| kept_by_ignore_list(ignore_ids@, s)),
            result@ == servers@.subrange(0, i as int).filter(pred),
    {
        proof {
            reveal(Seq::filter);
            assert(servers@.subrange(0, i + 1).drop_last() =~= servers@.subrange(0, i as int));
            assert(servers@.subrange(0, i + 1).last() == servers@[i as int]);
        }
        if !contains_u64(ignore_ids, servers[i].id) {
            result.push(servers[i].clone());
        }
    }
    proof {
        assert(servers@.subrange(0, servers@.len() as int) =~= servers@);
    }
    result
}

/// Whether a server's country name matches the requested one, ignoring case.
pub open spec fn country_matches(s: TestServerConfig, name: Seq<char>) -> bool {
    lower_of(s.country@) == lower_of(name)
}

/// Whether a server's country code matches the requested one, ignoring case.
pub open spec fn country_code_matches(s: TestServerConfig, code: Seq<char>) -> bool {
    lower_of(s.country_code@) == lower_of(code)
}

/// The servers whose country name equals `name` up to case, in catalog
/// order. Matching is an exact comparison of the lowercase forms; matching
/// no server is a valid outcome, not an error.
pub fn filter_by_country(servers: &Vec<TestServerConfig>, name: &str) -> (result: Vec<
    TestServerConfig,
>)
    ensures
        result@ == servers@.filter(|s: TestServerConfig| country_matches(s, name@)),
{
    let ghost pred = |s: TestServerConfig| country_matches(s, name@);
    let wanted = lowercase(name);
    let mut result: Vec<TestServerConfig> = Vec::new();
    for i in 0..servers.len()
        invariant
            pred == (|s: TestServerConfig| country_matches(s, name@)),
            wanted@ == lower_of(name@),
            result@ == servers@.subrange(0, i as int).filter(pred),
    {
        proof {
            reveal(Seq::filter);
            assert(servers@.subrange(0, i + 1).drop_last() =~= servers@.subrange(0, i as int));
            assert(servers@.subrange(0, i + 1).last() == servers@[i as int]);
        }
        if lowercase(servers[i].country.as_str()) == wanted {
            result.push(servers[i].clone());
        }
    }
    proof {
        assert(servers@.subrange(0, servers@.len() as int) =~= servers@);
    }
    result
}

/// How many of the nearest servers the distance ranking keeps.
pub const MAX_CLOSEST_SERVERS: usize = 5;

/// The ranking order: candidate `a` comes before candidate `b` when its
/// rounded distance is smaller, or on an exact tie when it appears earlier
/// in the catalog. Rounding before ordering is the documented tie-break
/// policy, and first-seen wins among equals.
pub open spec fn closer(dists: Seq<u64>, a: int, b: int) -> bool {
    dists[a] < dists[b] || (dists[a] == dists[b] && a < b)
}

/// Whether catalog position `i` occurs in the ranking `idxs`.
pub open spec fn in_ranking(idxs: Seq<usize>, i: int) -> bool {
    exists|j: int| 0 <= j < idxs.len() && idxs[j] == i
}

/// What a distance ranking returns: the catalog positions of the
/// `max_candidates` nearest servers (all of them, when fewer exist),
/// ordered by [`closer`], every listed position beating every unlisted one.
/// Since [`closer`] orders distinct positions totally, exactly one sequence
/// satisfies this.
pub open spec fn ranked_prefix(dists: Seq<u64>, max_candidates: int, idxs: Seq<usize>) -> bool {
    &&& idxs.len() == (if max_candidates < dists.len() {
        max_candidates
    } else {
        dists.len() as int
    })
    &&& forall|j: int| 0 <= j < idxs.len() ==> (#[trigger] idxs[j]) < dists.len()
    &&& forall|j1: int, j2: int|
        #![trigger idxs[j1], idxs[j2]]
        0 <= j1 < j2 < idxs.len() ==> closer(dists, idxs[j1] as int, idxs[j2] as int)
    &&& forall|j: int, i: int|
        #![trigger idxs[j], dists[i]]
        0 <= j < idxs.len() && 0 <= i < dists.len() && !in_ranking(idxs, i) ==> closer(
            dists,
            idxs[j] as int,
            i,
        )
}

/// The catalog positions of the up to `max_candidates` nearest servers,
/// ordered by rounded distance, ascending, first-seen first among exact
/// ties. The result never holds more than `max_candidates` entries and is
/// sorted by non-decreasing distance; which positions it holds is pinned by
/// [`ranked_prefix`].
pub fn rank_by_distance(distances: &Vec<u64>, max_candidates: usize) -> (idxs: Vec<usize>)
    ensures
        ranked_prefix(distances@, max_candidates as int, idxs@),
        idxs@.len() <= max_candidates,
{
    let ghost dists = distances@;
    let n = distances.len();
    let k = if max_candidates < n {
        max_candidates
    } else {
        n
    };

    let mut remaining: Vec<usize> = Vec::new();
    for c in 0..n
        invariant
            remaining@.len() == c,
            forall|p: int| 0 <= p < c ==> (#[trigger] remaining@[p]) == p,
    {
        remaining.push(c);
    }

    proof {
        assert forall|i: int| 0 <= i < n implies remaining@.contains(#[trigger] (i as usize)) by {
            assert(remaining@[i] == i);
        }
    }
    let mut idxs: Vec<usize> = Vec::new();
    while idxs.len() < k
        invariant
            n == dists.len(),
            dists == distances@,
            k <= n,
            k as int == (if (max_candidates as int) < dists.len() {
                max_candidates as int
            } else {
                dists.len() as int
            }),
            idxs@.len() <= k,
            remaining@.len() + idxs@.len() == n,
            forall|p: int| 0 <= p < remaining@.len() ==> (#[trigger] remaining@[p]) < n,
            forall|p1: int, p2: int|
                #![trigger remaining@[p1], remaining@[p2]]
                0 <= p1 < p2 < remaining@.len() ==> remaining@[p1] != remaining@[p2],
            forall|p: int|
                0 <= p < remaining@.len() ==> !in_ranking(idxs@, (#[trigger] remaining@[p]) as int),
            forall|i: int|
                0 <= i < n && !in_ranking(idxs@, i) ==> remaining@.contains(#[trigger] (i as usize)),
            forall|j: int| 0 <= j < idxs@.len() ==> (#[trigger] idxs@[j]) < n,
            forall|j1: int, j2: int|
                #![trigger idxs@[j1], idxs@[j2]]
                0 <= j1 < j2 < idxs@.len() ==> closer(dists, idxs@[j1] as int, idxs@[j2] as int),
            forall|j: int, p: int|
                #![trigger idxs@[j], remaining@[p]]
                0 <= j < idxs@.len() && 0 <= p < remaining@.len() ==> closer(
                    dists,
                    idxs@[j] as int,
                    remaining@[p] as int,
                ),
        decreases k - idxs.len(),
    {
        let mut best_pos: usize = 0;
        let mut p: usize = 1;
        while p < remaining.len()
            invariant
                dists == distances@,
                remaining@.len() > 0,
                forall|t: int| 0 <= t < remaining@.len() ==> (#[trigger] remaining@[t]) < n,
                forall|t1: int, t2: int|
                    #![trigger remaining@[t1], remaining@[t2]]
                    0 <= t1 < t2 < remaining@.len() ==> remaining@[t1] != remaining@[t2],
                n == dists.len(),
                best_pos < p,
                p <= remaining@.len(),
                forall|t: int|
                    0 <= t < p && t != best_pos ==> closer(
                        dists,
                        remaining@[best_pos as int] as int,
                        (#[trigger] remaining@[t]) as int,
                    ),
            decreases remaining@.len() - p,
        {
            let ghost ob = best_pos as int;
            let rb = remaining[best_pos];
            let rc = remaining[p];
            if distances[rc] < distances[rb] || (distances[rc] == distances[rb] && rc < rb) {
                proof {
                    assert forall|t: int| 0 <= t < p + 1 && t != p as int implies closer(
                        dists,
                        remaining@[p as int] as int,
                        (#[trigger] remaining@[t]) as int,
                    ) by {
                        if t != ob {
                            assert(closer(dists, remaining@[ob] as int, remaining@[t] as int));
                        }
                    }
                }
                best_pos = p;
            } else {
                proof {
                    assert(remaining@[best_pos as int] != remaining@[p as int]);
                    assert(closer(dists, remaining@[best_pos as int] as int, remaining@[p as int] as int));
                }
            }
            p = p + 1;
        }

        let ghost old_remaining = remaining@;
        let ghost old_idxs = idxs@;
        let ghost bp = best_pos as int;
        let best = remaining.swap_remove(best_pos);
        idxs.push(best);

        proof {
            let new_len: int = old_remaining.len() - 1;
            // where each surviving slot came from
            assert forall|q: int| 0 <= q < new_len implies #[trigger] remaining@[q]
                == old_remaining[if q == bp {
                new_len
            } else {
                q
            }] by {}
            // the new entry is part of the ranking, and nothing else changed
            assert(idxs@[old_idxs.len() as int] == best);
            assert(in_ranking(idxs@, best as int));
            assert forall|i: int| in_ranking(old_idxs, i) implies in_ranking(idxs@, i) by {
                let j = choose|j: int| 0 <= j < old_idxs.len() && old_idxs[j] == i;
                assert(idxs@[j] == i);
            }
            assert forall|i: int| in_ranking(idxs@, i) && i != best as int implies in_ranking(
                old_idxs,
                i,
            ) by {
                let j = choose|j: int| 0 <= j < idxs@.len() && idxs@[j] == i;
                assert(0 <= j < old_idxs.len());
                assert(old_idxs[j] == i);
            }
            // the chosen candidate beats everything still remaining
            assert forall|t: int|
                0 <= t < old_remaining.len() && t != bp implies closer(
                dists,
                best as int,
                (#[trigger] old_remaining[t]) as int,
            ) by {}
            // distinctness survives
            assert forall|q1: int, q2: int|
                #![trigger remaining@[q1], remaining@[q2]]
                0 <= q1 < q2 < remaining@.len() implies remaining@[q1] != remaining@[q2] by {
                let s1: int = if q1 == bp {
                    new_len
                } else {
                    q1
                };
                let s2: int = if q2 == bp {
                    new_len
                } else {
                    q2
                };
                assert(s1 != s2);
                assert(remaining@[q1] == old_remaining[s1]);
                assert(remaining@[q2] == old_remaining[s2]);
            }
            // disjointness of ranking and remainder survives
            assert forall|q: int| 0 <= q < remaining@.len() implies !in_ranking(
                idxs@,
                (#[trigger] remaining@[q]) as int,
            ) by {
                let src: int = if q == bp {
                    new_len
                } else {
                    q
                };
                assert(remaining@[q] == old_remaining[src]);
                assert(old_remaining[src] != old_remaining[bp]);
                assert(!in_ranking(old_idxs, old_remaining[src] as int));
            }
            // every unranked position is still remaining
            assert forall|i: int| 0 <= i < n && !in_ranking(idxs@, i) implies remaining@.contains(
                #[trigger] (i as usize),
            ) by {
                assert(!in_ranking(old_idxs, i));
                assert(old_remaining.contains(i as usize));
                let q = choose|q: int|
                    0 <= q < old_remaining.len() && old_remaining[q] == i as usize;
                assert(i != best as int);
                assert(q != bp);
                if q == new_len {
                    assert(remaining@[bp] == old_remaining[q]);
                } else {
                    assert(remaining@[q] == old_remaining[q]);
                }
            }
            // the ranking stays sorted and keeps beating the remainder
            assert forall|j1: int, j2: int|
                #![trigger idxs@[j1], idxs@[j2]]
                0 <= j1 < j2 < idxs@.len() implies closer(
                dists,
                idxs@[j1] as int,
                idxs@[j2] as int,
            ) by {
                if j2 < old_idxs.len() {
                    assert(closer(dists, old_idxs[j1] as int, old_idxs[j2] as int));
                } else {
                    assert(idxs@[j2] == best);
                    assert(closer(dists, old_idxs[j1] as int, old_remaining[bp] as int));
                }
            }
            assert forall|j: int, q: int|
                #![trigger idxs@[j], remaining@[q]]
                0 <= j < idxs@.len() && 0 <= q < remaining@.len() implies closer(
                dists,
                idxs@[j] as int,
                remaining@[q] as int,
            ) by {
                let src: int = if q == bp {
                    new_len
                } else {
                    q
                };
                assert(remaining@[q] == old_remaining[src]);
                assert(src != bp);
                if j < old_idxs.len() {
                    assert(closer(dists, old_idxs[j] as int, old_remaining[src] as int));
                } else {
                    assert(idxs@[j] == best);
                    assert(closer(dists, best as int, old_remaining[src] as int));
                }
            }
        }
    }

    proof {
        assert forall|j: int, i: int|
            #![trigger idxs@[j], dists[i]]
            0 <= j < idxs@.len() && 0 <= i < dists.len() && !in_ranking(idxs@, i) implies closer(
            dists,
            idxs@[j] as int,
            i,
        ) by {
            assert(remaining@.contains(i as usize));
            let p = choose|p: int| 0 <= p < remaining@.len() && remaining@[p] == i as usize;
            assert(closer(dists, idxs@[j] as int, remaining@[p] as int));
        }
    }
    idxs
}

/// Appends to `result` the up to [`MAX_CLOSEST_SERVERS`] catalog entries
/// nearest to the client, given the rounded great-circle distance of each
/// entry, ranked as [`rank_by_distance`] ranks them. The result stays a
/// plain server list, so a caller that skips distance ranking can pass its
/// catalog on unchanged.
pub fn pick_closest_servers(
    distances: &Vec<u64>,
    all_test_servers: &Vec<TestServerConfig>,
    result: &mut Vec<TestServerConfig>,
)
    requires
        distances@.len() == all_test_servers@.len(),
    ensures
        exists|idxs: Seq<usize>|
            ranked_prefix(distances@, MAX_CLOSEST_SERVERS as int, idxs) && final(result)@ == old(
                result,
            )@ + idxs.map_values(|u: usize| all_test_servers@[u as int]),
{
    let idxs = rank_by_distance(distances, MAX_CLOSEST_SERVERS);
    let ghost picked = idxs@.map_values(|u: usize| all_test_servers@[u as int]);
    let mut j: usize = 0;
    while j < idxs.len()
        invariant
            j <= idxs@.len(),
            forall|t: int| 0 <= t < idxs@.len() ==> (#[trigger] idxs@[t]) < all_test_servers@.len(),
            picked == idxs@.map_values(|u: usize| all_test_servers@[u as int]),
            result@ == old(result)@ + picked.subrange(0, j as int),
        decreases idxs@.len() - j,
    {
        result.push(all_test_servers[idxs[j]].clone());
        proof {
            assert(picked.subrange(0, j + 1) =~= picked.subrange(0, j as int).push(
                picked[j as int],
            ));
        }
        j = j + 1;
    }
    proof {
        assert(picked.subrange(0, idxs@.len() as int) =~= picked);
    }
}

/// Ping attempts per server; the attempts of one server run sequentially.
pub const PING_ATTEMPTS: usize = 3;

/// Weight of a response that came back with a wrong status: such a server is
/// ranked far worse without aborting the scan.
pub const BAD_STATUS_PENALTY_MS: u64 = 360000;

/// Weight of an attempt that failed at the transport layer.
pub const TRANSPORT_FAILURE_PENALTY_MS: u64 = 3600000;

/// What one latency probe attempt against a server came to.
#[derive(Clone, Copy, PartialEq, Eq, Structural, Debug)]
pub enum PingOutcome {
    /// A success response, with its measured round-trip time in milliseconds.
    Success(u64),
    /// A response with a non-success status.
    BadStatus,
    /// No response: the attempt failed at the transport layer.
    TransportFailure,
}

/// What an attempt contributes to a server's score: its round-trip time, or
/// the fixed penalty of its failure.
pub open spec fn ping_weight(o: PingOutcome) -> u64 {
    match o {
        PingOutcome::Success(ms) => ms,
        PingOutcome::BadStatus => BAD_STATUS_PENALTY_MS,
        PingOutcome::TransportFailure => TRANSPORT_FAILURE_PENALTY_MS,
    }
}

/// A server's latency score: the arithmetic mean of its three attempts'
/// weights, penalties included, rounded toward zero.
pub fn latency_score(attempts: &Vec<PingOutcome>) -> (score: u64)
    requires
        attempts@.len() == PING_ATTEMPTS,
        forall|i: int|
            0 <= i < attempts@.len() ==> ping_weight(#[trigger] attempts@[i]) <= u64::MAX / 3,
    ensures
        score == (ping_weight(attempts@[0]) + ping_weight(attempts@[1]) + ping_weight(
            attempts@[2],
        )) / 3,
{
    let w0 = ping_outcome_weight(&attempts[0]);
    let w1 = ping_outcome_weight(&attempts[1]);
    let w2 = ping_outcome_weight(&attempts[2]);
    let total = w0 + w1 + w2;
    total / 3
}

/// Weight of one attempt, computed.
fn ping_outcome_weight(o: &PingOutcome) -> (w: u64)
    ensures
        w == ping_weight(*o),
{
    match o {
        PingOutcome::Success(ms) => *ms,
        PingOutcome::BadStatus => BAD_STATUS_PENALTY_MS,
        PingOutcome::TransportFailure => TRANSPORT_FAILURE_PENALTY_MS,
    }
}

/// The winning server of a latency scan: the one with the minimum score,
/// the earliest in catalog order among exact ties, together with its score.
/// `None` exactly when there is no candidate at all.
pub fn find_best_server_by_ping(servers: &Vec<TestServerConfig>, scores: &Vec<u64>) -> (best:
    Option<(usize, u64)>)
    requires
        scores@.len() == servers@.len(),
    ensures
        (best is None) <==> servers@.len() == 0,
        best matches Some((i, s)) ==> {
            &&& i < servers@.len()
            &&& s == scores@[i as int]
            &&& forall|j: int| 0 <= j < scores@.len() ==> s <= #[trigger] scores@[j]
            &&& forall|j: int| 0 <= j < i ==> #[trigger] scores@[j] > s
        },
{
    if servers.len() == 0 {
        return None;
    }
    let mut best_i: usize = 0;
    for c in 1..scores.len()
        invariant
            scores@.len() == servers@.len(),
            best_i < c,
            c <= scores@.len(),
            forall|j: int| 0 <= j < c ==> scores@[best_i as int] <= #[trigger] scores@[j],
            forall|j: int| 0 <= j < best_i ==> #[trigger] scores@[j] > scores@[best_i as int],
    {
        if scores[c] < scores[best_i] {
            best_i = c;
        }
    }
    Some((best_i, scores[best_i]))
}

/// Concurrent fetches per payload dimension in the download test.
pub const DOWNLOAD_FANOUT: usize = 4;

/// Wall-clock ceiling, in seconds, shared by all download workers of one
/// engine run, measured from the engine's start.
pub const DOWNLOAD_TIME_LIMIT_SECS: u64 = 10;

/// The download request plan: each payload dimension is fetched by
/// [`DOWNLOAD_FANOUT`] workers, and every request carries a distinct counter
/// so its URL is cache-busted independently of its siblings'.
pub fn plan_download_requests(dimensions: &Vec<u64>) -> (plan: Vec<(u64, u64)>)
    requires
        dimensions@.len() * DOWNLOAD_FANOUT <= usize::MAX,
    ensures
        plan@.len() == dimensions@.len() * DOWNLOAD_FANOUT,
        forall|t: int|
            0 <= t < plan@.len() ==> #[trigger] plan@[t] == (
                dimensions@[t / (DOWNLOAD_FANOUT as int)],
                t as u64,
            ),
{
    let mut plan: Vec<(u64, u64)> = Vec::new();
    let mut counter: u64 = 0;
    for i in 0..dimensions.len()
        invariant
            dimensions@.len() * DOWNLOAD_FANOUT <= usize::MAX,
            plan@.len() == i * DOWNLOAD_FANOUT,
            counter == plan@.len(),
            forall|t: int|
                0 <= t < plan@.len() ==> #[trigger] plan@[t] == (
                    dimensions@[t / (DOWNLOAD_FANOUT as int)],
                    t as u64,
                ),
    {
        let dim = dimensions[i];
        for w in 0..DOWNLOAD_FANOUT
            invariant
                i < dimensions@.len(),
                dimensions@.len() * DOWNLOAD_FANOUT <= usize::MAX,
                dim == dimensions@[i as int],
                plan@.len() == i * DOWNLOAD_FANOUT + w,
                counter == plan@.len(),
                forall|t: int|
                    0 <= t < plan@.len() ==> #[trigger] plan@[t] == (
                        dimensions@[t / (DOWNLOAD_FANOUT as int)],
                        t as u64,
                    ),
        {
            plan.push((dim, counter));
            proof {
                let t = plan@.len() - 1;
                assert(t == i * (DOWNLOAD_FANOUT as int) + w);
                assert(t / (DOWNLOAD_FANOUT as int) == i as int) by (nonlinear_arith)
                    requires
                        t == i * (DOWNLOAD_FANOUT as int) + w,
                        0 <= w < (DOWNLOAD_FANOUT as int),
                        DOWNLOAD_FANOUT == 4,
                        i >= 0,
                ;
            }
            counter = counter + 1;
        }
    }
    plan
}

/// One download worker's accumulated state: the loop around the streamed
/// response body decides with these steps when to keep reading.
pub struct DownloadProgress {
    /// Bytes accumulated from the response body so far.
    pub bytes_read: u64,
    /// True once the worker has decided to stop reading.
    pub finished: bool,
}

impl DownloadProgress {
    /// A worker that has read nothing yet.
    pub fn new() -> (r: DownloadProgress)
        ensures
            r.bytes_read == 0,
            !r.finished,
    {
        DownloadProgress { bytes_read: 0, finished: false }
    }

    /// Whether the shared wall-clock ceiling has passed: at or past
    /// [`DOWNLOAD_TIME_LIMIT_SECS`] the worker stops reading immediately and
    /// keeps whatever it accumulated; a soft-fail, not an error.
    pub fn out_of_time(&self, elapsed_secs: u64) -> (stop: bool)
        ensures
            stop == (elapsed_secs >= DOWNLOAD_TIME_LIMIT_SECS),
    {
        elapsed_secs >= DOWNLOAD_TIME_LIMIT_SECS
    }

    /// Account one chunk read from the body. A zero-length read is the end
    /// of the body: everything was read.
    pub fn on_chunk(&mut self, byte_count: usize)
        requires
            old(self).bytes_read + byte_count <= u64::MAX,
        ensures
            final(self).bytes_read == old(self).bytes_read + byte_count,
            final(self).finished == (byte_count == 0),
    {
        self.bytes_read = self.bytes_read + byte_count as u64;
        self.finished = byte_count == 0;
    }

    /// A failed read mid-stream stops the worker; the bytes already
    /// accumulated still count.
    pub fn on_read_failure(&mut self)
        ensures
            final(self).bytes_read == old(self).bytes_read,
            final(self).finished,
    {
        self.finished = true;
    }
}

/// Sum of a sequence of per-worker byte counts.
pub open spec fn sum_bytes_spec(counts: Seq<u64>) -> int
    decreases counts.len(),
{
    if counts.len() == 0 {
        0
    } else {
        sum_bytes_spec(counts.drop_last()) + counts.last()
    }
}

/// Total bytes over all workers: the commutative reduction that closes a
/// bandwidth test. The sum saturates at `u64::MAX` instead of wrapping; real
/// transfers stay far below that.
pub fn sum_bytes(counts: &Vec<u64>) -> (total: u64)
    ensures
        sum_bytes_spec(counts@) <= u64::MAX ==> total == sum_bytes_spec(counts@),
        sum_bytes_spec(counts@) > u64::MAX ==> total == u64::MAX,
{
    let mut total: u64 = 0;
    for i in 0..counts.len()
        invariant
            sum_bytes_spec(counts@.subrange(0, i as int)) <= u64::MAX ==> total == sum_bytes_spec(
                counts@.subrange(0, i as int),
            ),
            sum_bytes_spec(counts@.subrange(0, i as int)) > u64::MAX ==> total == u64::MAX,
            total <= sum_bytes_spec(counts@.subrange(0, i as int)),
            sum_bytes_spec(counts@.subrange(0, i as int)) >= 0,
    {
        proof {
            assert(counts@.subrange(0, i + 1).drop_last() =~= counts@.subrange(0, i as int));
            assert(counts@.subrange(0, i + 1).last() == counts@[i as int]);
        }
        if total > u64::MAX - counts[i] {
            total = u64::MAX;
        } else {
            total = total + counts[i];
        }
    }
    proof {
        assert(counts@.subrange(0, counts@.len() as int) =~= counts@);
    }
    total
}

/// The upload schedule drawn from the standard size ladder: drop the
/// smallest `ratio - 1` entries, repeat each remaining size
/// `max_chunk_count * 2 / remaining` times (once in all when nothing
/// remains would leave the pool empty), and cut the pool off at
/// `max_chunk_count` uploads.
pub open spec fn upload_schedule(sizes: Seq<u64>, ratio: int, max_chunk_count: int) -> Seq<u64> {
    let start = if ratio - 1 < sizes.len() {
        ratio - 1
    } else {
        sizes.len() as int
    };
    let rem = sizes.subrange(start, sizes.len() as int);
    if rem.len() == 0 {
        Seq::empty()
    } else {
        let cnt = (max_chunk_count * 2) / (rem.len() as int);
        let total = if rem.len() * cnt < max_chunk_count {
            rem.len() * cnt
        } else {
            max_chunk_count
        };
        Seq::new(total as nat, |t: int| rem[t / cnt])
    }
}

/// The payload sizes the upload test actually exercises, one worker per
/// entry: exactly [`upload_schedule`] of the size ladder and the
/// server-advertised tuning, never more than `max_chunk_count` uploads.
pub fn select_upload_sizes(sizes: &Vec<u64>, ratio: u64, max_chunk_count: u64) -> (selected: Vec<
    u64,
>)
    requires
        ratio >= 1,
        max_chunk_count * 2 <= u64::MAX,
        max_chunk_count <= usize::MAX,
    ensures
        selected@ == upload_schedule(sizes@, ratio as int, max_chunk_count as int),
        selected@.len() <= max_chunk_count,
{
    let ghost goal = upload_schedule(sizes@, ratio as int, max_chunk_count as int);
    let n = sizes.len();
    let skip64 = ratio - 1;
    let start: usize = if skip64 < n as u64 {
        skip64 as usize
    } else {
        n
    };
    let rem_len = n - start;
    if rem_len == 0 {
        let selected: Vec<u64> = Vec::new();
        proof {
            assert(goal =~= selected@);
        }
        return selected;
    }
    let cnt = (max_chunk_count * 2) / (rem_len as u64);
    proof {
        assert((rem_len as int) * (cnt as int) <= max_chunk_count * 2) by (nonlinear_arith)
            requires
                cnt == (max_chunk_count * 2) as int / (rem_len as int),
                rem_len > 0,
                max_chunk_count >= 0,
        ;
    }
    let pool = (rem_len as u64) * cnt;
    let total64 = if pool < max_chunk_count {
        pool
    } else {
        max_chunk_count
    };
    let total = total64 as usize;
    proof {
        let rems = sizes@.subrange(start as int, n as int);
        assert(goal == Seq::new(total64 as nat, |t: int| rems[t / (cnt as int)]));
        assert forall|u: int| 0 <= u < goal.len() implies #[trigger] goal[u] == sizes@[start + u
            / (cnt as int)] by {
            assert(0 <= u / (cnt as int) < rems.len()) by (nonlinear_arith)
                requires
                    0 <= u,
                    u < (rem_len as int) * (cnt as int),
                    rems.len() == rem_len as int,
                    rem_len > 0,
            ;
            assert(goal[u] == rems[u / (cnt as int)]);
        }
    }
    let mut selected: Vec<u64> = Vec::new();
    let mut t: usize = 0;
    while t < total
        invariant
            n == sizes@.len(),
            start <= n,
            rem_len == n - start,
            rem_len > 0,
            cnt == (max_chunk_count * 2) as int / (rem_len as int),
            total == total64,
            total64 == (if (rem_len as int) * (cnt as int) < max_chunk_count as int {
                (rem_len as int) * (cnt as int)
            } else {
                max_chunk_count as int
            }),
            total64 <= (rem_len as int) * (cnt as int),
            goal == upload_schedule(sizes@, ratio as int, max_chunk_count as int),
            goal.len() == total64,
            forall|u: int|
                0 <= u < goal.len() ==> #[trigger] goal[u] == sizes@[start + u / (cnt as int)],
            t <= total,
            selected@.len() == t,
            forall|u: int| 0 <= u < t ==> #[trigger] selected@[u] == goal[u],
        decreases total - t,
    {
        proof {
            assert((t as int) / (cnt as int) < rem_len as int) by (nonlinear_arith)
                requires
                    0 <= t as int,
                    (t as int) < (rem_len as int) * (cnt as int),
                    cnt > 0,
                    rem_len > 0,
            ;
        }
        let q = (t as u64) / cnt;
        selected.push(sizes[start + q as usize]);
        t = t + 1;
    }
    proof {
        assert(goal =~= selected@);
    }
    selected
}

/// The selection precedence: an explicit country-name filter wins, then a
/// country-code filter, and with neither given the catalog is ranked by
/// distance and cut to the [`MAX_CLOSEST_SERVERS`] nearest. Exactly one of
/// the three paths runs; an empty result is reported to the caller, which
/// stops before probing, rather than treated as an error.
pub fn select_candidates(
    servers: &Vec<TestServerConfig>,
    country: &Option<String>,
    country_code: &Option<String>,
    distances: &Vec<u64>,
) -> (result: Vec<TestServerConfig>)
    requires
        distances@.len() == servers@.len(),
    ensures
        country matches Some(name) ==> result@ == servers@.filter(
            |s: TestServerConfig| country_matches(s, name@),
        ),
        country is None ==> (country_code matches Some(code) ==> result@ == servers@.filter(
            |s: TestServerConfig| country_code_matches(s, code@),
        )),
        country is None && country_code is None ==> exists|idxs: Seq<usize>|
            ranked_prefix(distances@, MAX_CLOSEST_SERVERS as int, idxs) && result@
                == idxs.map_values(|u: usize| servers@[u as int]),
{
    match country {
        Some(name) => filter_by_country(servers, name.as_str()),
        None => match country_code {
            Some(code) => filter_by_country_code(servers, code.as_str()),
            None => {
                let mut result: Vec<TestServerConfig> = Vec::new();
                pick_closest_servers(distances, servers, &mut result);
                proof {
                    let idxs = choose|idxs: Seq<usize>|
                        ranked_prefix(distances@, MAX_CLOSEST_SERVERS as int, idxs) && result@
                            == Seq::<TestServerConfig>::empty() + idxs.map_values(
                            |u: usize| servers@[u as int],
                        );
                    assert(result@ == Seq::<TestServerConfig>::empty() + idxs.map_values(
                        |u: usize| servers@[u as int],
                    ));
                    assert(Seq::<TestServerConfig>::empty() + idxs.map_values(
                        |u: usize| servers@[u as int],
                    ) =~= idxs.map_values(|u: usize| servers@[u as int]));
                }
                result
            },
        },
    }
}

/// The servers whose country code equals `code` up to case, in catalog
/// order; the counterpart of [`filter_by_country`] for codes.
pub fn filter_by_country_code(servers: &Vec<TestServerConfig>, code: &str) -> (result: Vec<
    TestServerConfig,
>)
    ensures
        result@ == servers@.filter(|s: TestServerConfig| country_code_matches(s, code@)),
{
    let ghost pred = |s: TestServerConfig| country_code_matches(s, code@);
    let wanted = lowercase(code);
    let mut result: Vec<TestServerConfig> = Vec::new();
    for i in 0..servers.len()
        invariant
            pred == (|s: TestServerConfig| country_code_matches(s, code@)),
            wanted@ == lower_of(code@),
            result@ == servers@.subrange(0, i as int).filter(pred),
    {
        proof {
            reveal(Seq::filter);
            assert(servers@.subrange(0, i + 1).drop_last() =~= servers@.subrange(0, i as int));
            assert(servers@.subrange(0, i + 1).last() == servers@[i as int]);
        }
        if lowercase(servers[i].country_code.as_str()) == wanted {
            result.push(servers[i].clone());
        }
    }
    proof {
        assert(servers@.subrange(0, servers@.len() as int) =~= servers@);
    }
    result
}


/// What `url::Url::parse` finds as the host of this text: `Some` of the
/// host component where the text parses as a URL with one, `None`
/// otherwise. Both depend on the text alone.
pub uninterp spec fn url_host_of(s: Seq<char>) -> Option<Seq<char>>;

/// Relies on url::Url::parse and url::Url::host_str: parsing is a function
/// of the text, and `host_str` reads the host component of the parsed URL.
#[verifier::external_body]
fn url_host(s: &str) -> (r: Option<String>)
    ensures
        (r is Some) == (url_host_of(s@) is Some),
        r matches Some(h) ==> (url_host_of(s@) matches Some(g) && h@ == g),
{
    match url::Url::parse(s) {
        Ok(u) => u.host_str().map(|h| h.to_string()),
        Err(_) => None,
    }
}

/// The host of a server's transfer URL, against which the probe and test
/// requests are addressed: `None` where the text is no URL or has no host.
pub fn parse_url(server_url: &str) -> (r: Option<String>)
    ensures
        (r is Some) == (url_host_of(server_url@) is Some),
        r matches Some(h) ==> (url_host_of(server_url@) matches Some(g) && h@ == g),
{
    url_host(server_url)
}

/// Law: a ranking is sorted by non-decreasing rounded distance, whatever
/// positions it holds: the ordering of [`ranked_prefix`] never puts a
/// farther candidate before a nearer one.
pub proof fn lemma_ranking_sorted(dists: Seq<u64>, max_candidates: int, idxs: Seq<usize>)
    requires
        ranked_prefix(dists, max_candidates, idxs),
    ensures
        forall|j1: int, j2: int|
            #![trigger idxs[j1], idxs[j2]]
            0 <= j1 < j2 < idxs.len() ==> dists[idxs[j1] as int] <= dists[idxs[j2] as int],
{
    assert forall|j1: int, j2: int|
        #![trigger idxs[j1], idxs[j2]]
        0 <= j1 < j2 < idxs.len() implies dists[idxs[j1] as int] <= dists[idxs[j2] as int] by {
        assert(closer(dists, idxs[j1] as int, idxs[j2] as int));
    }
}

} // verus!
