//! What both ends of a session share: sizes, names, and whether the relays can be reached.
use crate::console::status_bar::InternetState;
use crate::strings::same_str;
use crate::time::nanos;
use std::time::Duration;
use vstd::prelude::*;
use vstd::string::*;

verus! {

/// How many messages may wait to be handled.
pub const QUEUE_SIZE: usize = 1024;

/// The largest message that a helper takes, in bytes.
pub const CODEC_BUFFER_SIZE: usize = 262144;

/// The largest message that a victim takes, in bytes.
pub const VICTIM_FRAME_SIZE: usize = 8388608;

/// How the two ends name the protocol that they speak.
pub const ALPN: &'static str = "/rescue-shell/";

/// A relay, and whether it is connected.
pub struct RelayStatus {
    pub url: String,
    pub connected: bool,
}

/// How long a relay took to answer.
pub struct RelayLatency {
    pub url: String,
    pub latency: Duration,
}

/// The first relay from `i` on that is connected.
pub open spec fn first_connected(statuses: Seq<RelayStatus>, i: int) -> Option<Seq<char>>
    decreases statuses.len() - i,
{
    if i < 0 || i >= statuses.len() {
        None
    } else if statuses[i].connected {
        Some(statuses[i].url@)
    } else {
        first_connected(statuses, i + 1)
    }
}

/// Whether `best` is the shortest time in which the relay has answered.
pub open spec fn is_shortest(best: Duration, report: Seq<RelayLatency>, url: Seq<char>) -> bool {
    &&& exists|i: int|
        0 <= i < report.len() && (#[trigger] report[i]).url@ == url && report[i].latency == best
    &&& forall|i: int|
        0 <= i < report.len() && (#[trigger] report[i]).url@ == url ==> nanos(best) <= nanos(
            report[i].latency,
        )
}

/// Whether the relay has answered at all.
pub open spec fn has_answered(report: Seq<RelayLatency>, url: Seq<char>) -> bool {
    exists|i: int| 0 <= i < report.len() && (#[trigger] report[i]).url@ == url
}

fn find_connected(statuses: &Vec<RelayStatus>) -> (r: Option<usize>)
    ensures
        match r {
            Some(i) => i < statuses@.len() && first_connected(statuses@, 0) == Some(
                statuses@[i as int].url@,
            ),
            None => first_connected(statuses@, 0) is None,
        },
{
    let n: usize = statuses.len();
    let mut i: usize = 0;
    while i < n
        invariant
            i <= n,
            n == statuses@.len(),
            first_connected(statuses@, 0) == first_connected(statuses@, i as int),
        decreases n - i,
    {
        if statuses[i].connected {
            return Some(i);
        }
        i += 1;
    }
    None
}

fn shortest(report: &Vec<RelayLatency>, url: &str) -> (r: Option<Duration>)
    ensures
        r is Some <==> has_answered(report@, url@),
        r matches Some(best) ==> is_shortest(best, report@, url@),
{
    let n: usize = report.len();
    let mut i: usize = 0;
    let mut best: Option<Duration> = None;
    while i < n
        invariant
            i <= n,
            n == report@.len(),
            match best {
                Some(d) => {
                    &&& exists|j: int|
                        0 <= j < i && (#[trigger] report@[j]).url@ == url@ && report@[j].latency
                            == d
                    &&& forall|j: int|
                        0 <= j < i && (#[trigger] report@[j]).url@ == url@ ==> nanos(d) <= nanos(
                            report@[j].latency,
                        )
                },
                None => forall|j: int| 0 <= j < i ==> (#[trigger] report@[j]).url@ != url@,
            },
        decreases n - i,
    {
        if same_str(report[i].url.as_str(), url) {
            let latency: Duration = report[i].latency;
            assert(report@[i as int].url@ == url@ && report@[i as int].latency == latency);
            match best {
                Some(d) => {
                    if latency.as_nanos() < d.as_nanos() {
                        best = Some(latency);
                    }
                },
                None => {
                    best = Some(latency);
                },
            }
        }
        i += 1;
    }
    best
}

/// How fast the first relay that is connected answers, if one is and the last report tells it.
pub fn best_ping(statuses: &Vec<RelayStatus>, report: &Option<Vec<RelayLatency>>) -> (r: Option<
    Duration,
>)
    ensures
        r is Some <==> first_connected(statuses@, 0) is Some && report is Some && has_answered(
            report->Some_0@,
            first_connected(statuses@, 0)->Some_0,
        ),
        r matches Some(best) ==> is_shortest(
            best,
            report->Some_0@,
            first_connected(statuses@, 0)->Some_0,
        ),
{
    match (find_connected(statuses), report) {
        (Some(i), Some(latencies)) => shortest(latencies, statuses[i].url.as_str()),
        _ => None,
    }
}

/// What the status bar shows, as a relay answers or does not.
pub fn internet_state(ping: Option<Duration>) -> (r: InternetState)
    ensures
        r == (match ping {
            Some(p) => InternetState::Online(p),
            None => InternetState::Offline,
        }),
{
    match ping {
        Some(p) => InternetState::Online(p),
        None => InternetState::Offline,
    }
}

/// A relay that is not connected tells nothing, however fast it once was.
pub proof fn lemma_no_connected_relay(statuses: Seq<RelayStatus>, i: int)
    requires
        0 <= i <= statuses.len(),
        forall|j: int| i <= j < statuses.len() ==> !(#[trigger] statuses[j]).connected,
    ensures
        first_connected(statuses, i) is None,
    decreases statuses.len() - i,
{
    if i < statuses.len() {
        assert(!statuses[i].connected);
        lemma_no_connected_relay(statuses, i + 1);
    }
}

/// The relay that counts is the first one that is connected: all before it are not.
pub proof fn lemma_first_connected_relay_counts(statuses: Seq<RelayStatus>, k: int)
    requires
        0 <= k < statuses.len(),
        statuses[k].connected,
        forall|j: int| 0 <= j < k ==> !(#[trigger] statuses[j]).connected,
    ensures
        first_connected(statuses, 0) == Some(statuses[k].url@),
{
    lemma_first_connected_from(statuses, 0, k);
}

proof fn lemma_first_connected_from(statuses: Seq<RelayStatus>, i: int, k: int)
    requires
        0 <= i <= k < statuses.len(),
        statuses[k].connected,
        forall|j: int| i <= j < k ==> !(#[trigger] statuses[j]).connected,
    ensures
        first_connected(statuses, i) == Some(statuses[k].url@),
    decreases k - i,
{
    if i < k {
        assert(!statuses[i].connected);
        lemma_first_connected_from(statuses, i + 1, k);
    }
}

/// The shortest time is one in which the relay has answered, and it has never been faster.
pub proof fn lemma_relay_was_never_faster(
    best: Duration,
    report: Seq<RelayLatency>,
    url: Seq<char>,
    i: int,
)
    requires
        is_shortest(best, report, url),
    ensures
        exists|k: int|
            0 <= k < report.len() && (#[trigger] report[k]).url@ == url && nanos(best) == nanos(
                report[k].latency,
            ),
        0 <= i < report.len() && report[i].url@ == url ==> nanos(report[i].latency) >= nanos(best)
            && has_answered(report, url),
{
}

/// A relay has answered if and only if the report names it, wherever in the report.
pub proof fn lemma_who_has_answered(a: Seq<RelayLatency>, r: RelayLatency, b: Seq<RelayLatency>)
    ensures
        has_answered(a + seq![r] + b, r.url@),
        !has_answered(Seq::empty(), r.url@),
        forall|url: Seq<char>|
            url != r.url@ ==> (has_answered(a + seq![r] + b, url) <==> has_answered(a, url)
                || has_answered(b, url)),
{
    let all = a + seq![r] + b;
    let n = a.len() as int;
    assert(all[n] == r);
    assert forall|url: Seq<char>| url != r.url@ implies (has_answered(all, url) <==> has_answered(
        a,
        url,
    ) || has_answered(b, url)) by {
        if has_answered(all, url) {
            let i = choose|i: int| 0 <= i < all.len() && (#[trigger] all[i]).url@ == url;
            if i < n {
                assert(a[i] == all[i]);
            } else {
                assert(i != n);
                assert(b[i - n - 1] == all[i]);
            }
        }
        if has_answered(a, url) {
            let i = choose|i: int| 0 <= i < a.len() && (#[trigger] a[i]).url@ == url;
            assert(all[i] == a[i]);
        }
        if has_answered(b, url) {
            let i = choose|i: int| 0 <= i < b.len() && (#[trigger] b[i]).url@ == url;
            assert(all[n + 1 + i] == b[i]);
        }
    }
}

} // verus!
