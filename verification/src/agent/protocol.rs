use vstd::prelude::*;

use crate::text::{lemma_text_less_total, lemma_text_less_trans, str_eq, str_less, text_less};

verus! {

/// What an agent reports of another: its name.
pub struct AgentStatusInfo {
    name: String,
}

impl AgentStatusInfo {
    pub closed spec fn spec_name(&self) -> Seq<char> {
        self.name@
    }

    pub fn new(name: &str) -> (a: Self)
        ensures
            a.spec_name() == name@,
    {
        AgentStatusInfo { name: name.to_owned() }
    }

    pub fn name(&self) -> (r: &str)
        ensures
            r@ == self.spec_name(),
    {
        self.name.as_str()
    }
}

/// The messages agents, clients and the monitor exchange.
pub enum Message {
    Empty,
    Hello(String),
    RequireSpace(usize),
    RequireSpaceHere(usize),
    HasSpace(String, usize),
    Load(String),
    LoadHere(String, String),
    Status(String, String),
    ReadStatus,
    StatusResponse { agents: Vec<AgentStatusInfo> },
    /// list all local files created or modified after given change number
    List(usize),
    /// list all files created or modified after given change number
    ListAll(usize),
    /// result list of all entries found.
    ListResult { entries: Vec<String> },
}

/// What the coordinator does in answer to a message it received.
pub enum Action {
    /// Broadcast a hello with the own host name.
    BroadcastHello,
    /// Hand the message to the monitor.
    ToMonitor(Message),
    /// A status came while no monitor is attached.
    NoMonitor,
    /// Nothing to do.
    Ignore,
}

/// The map of the entries (name, value); a later entry for a name stands over an earlier
/// one.
pub open spec fn entries_map(s: Seq<(String, String)>) -> Map<Seq<char>, Seq<char>>
    decreases s.len(),
{
    if s.len() == 0 {
        Map::empty()
    } else {
        entries_map(s.drop_last()).insert(s.last().0@, s.last().1@)
    }
}

/// The names of the entries ascend strictly.
pub open spec fn ascending(s: Seq<(String, String)>) -> bool {
    forall|i: int, j: int|
        0 <= i < j < s.len() ==> text_less((#[trigger] s[i]).0@, (#[trigger] s[j]).0@)
}

/// No two hosts have the same name.
pub open spec fn distinct_names(s: Seq<String>) -> bool {
    forall|i: int, j: int| 0 <= i < j < s.len() ==> (#[trigger] s[i])@ != (#[trigger] s[j])@
}

/// The hosts' names contain `x`.
pub open spec fn has_name(s: Seq<String>, x: Seq<char>) -> bool {
    exists|i: int| 0 <= i < s.len() && (#[trigger] s[i])@ == x
}

/// Some entry has the name `k`.
pub open spec fn has_key(s: Seq<(String, String)>, k: Seq<char>) -> bool {
    exists|i: int| 0 <= i < s.len() && (#[trigger] s[i]).0@ == k
}

/// The entry at `i` gives the value of its name where no later entry has that name.
proof fn lemma_entries_map_at(s: Seq<(String, String)>, i: int)
    requires
        0 <= i < s.len(),
        forall|m: int| i < m < s.len() ==> (#[trigger] s[m]).0@ != s[i].0@,
    ensures
        entries_map(s).contains_key(s[i].0@),
        entries_map(s)[s[i].0@] == s[i].1@,
    decreases s.len(),
{
    if i < s.len() - 1 {
        assert(s.drop_last()[i] == s[i]);
        assert forall|m: int| i < m < s.drop_last().len() implies (
        #[trigger] s.drop_last()[m]).0@ != s.drop_last()[i].0@ by {
            assert(s.drop_last()[m] == s[m]);
        }
        lemma_entries_map_at(s.drop_last(), i);
        assert(s[s.len() - 1].0@ != s[i].0@);
    }
}

/// A name no entry has has no value.
proof fn lemma_entries_map_none(s: Seq<(String, String)>, k: Seq<char>)
    requires
        forall|m: int| 0 <= m < s.len() ==> (#[trigger] s[m]).0@ != k,
    ensures
        !entries_map(s).contains_key(k),
    decreases s.len(),
{
    if s.len() > 0 {
        assert forall|m: int| 0 <= m < s.drop_last().len() implies (
        #[trigger] s.drop_last()[m]).0@ != k by {
            assert(s.drop_last()[m] == s[m]);
        }
        lemma_entries_map_none(s.drop_last(), k);
    }
}

/// In ascending entries no later entry has the name of an earlier one.
proof fn lemma_ascending_unique(s: Seq<(String, String)>, i: int)
    requires
        ascending(s),
        0 <= i < s.len(),
    ensures
        forall|m: int| i < m < s.len() ==> (#[trigger] s[m]).0@ != s[i].0@,
{
    assert forall|m: int| i < m < s.len() implies (#[trigger] s[m]).0@ != s[i].0@ by {
        lemma_text_less_total(s[i].0@, s[m].0@);
    }
}

/// Replacing the entry at `i` by one of the same name, with no later entry of that name, sets
/// the value of that name.
proof fn lemma_entries_map_update(s: Seq<(String, String)>, i: int, e: (String, String))
    requires
        0 <= i < s.len(),
        e.0@ == s[i].0@,
        forall|m: int| i < m < s.len() ==> (#[trigger] s[m]).0@ != s[i].0@,
    ensures
        entries_map(s.update(i, e)) == entries_map(s).insert(e.0@, e.1@),
    decreases s.len(),
{
    let u = s.update(i, e);
    if i == s.len() - 1 {
        assert(u.drop_last() =~= s.drop_last());
        assert(entries_map(u) =~= entries_map(s).insert(e.0@, e.1@));
    } else {
        assert(u.drop_last() =~= s.drop_last().update(i, e));
        assert forall|m: int| i < m < s.drop_last().len() implies (
        #[trigger] s.drop_last()[m]).0@ != s.drop_last()[i].0@ by {
            assert(s.drop_last()[m] == s[m]);
        }
        lemma_entries_map_update(s.drop_last(), i, e);
        assert(s[s.len() - 1].0@ != e.0@);
        assert(entries_map(u) =~= entries_map(s).insert(e.0@, e.1@));
    }
}

/// The state of a coordinator: its host name, the hosts it knows in the order they said
/// hello, and the last status of each job in the order of the jobs' ids.
pub struct CoordinatorState {
    hostname: String,
    known_hosts: Vec<String>,
    jobs: Vec<(String, String)>,
}

impl CoordinatorState {
    pub closed spec fn spec_hostname(&self) -> Seq<char> {
        self.hostname@
    }

    pub closed spec fn spec_hosts(&self) -> Seq<String> {
        self.known_hosts@
    }

    /// The jobs in the order of their ids.
    pub closed spec fn spec_jobs(&self) -> Seq<(String, String)> {
        self.jobs@
    }

    /// The last status of each job.
    pub open spec fn job_status(&self) -> Map<Seq<char>, Seq<char>> {
        entries_map(self.spec_jobs())
    }

    /// No host is known twice, and the jobs ascend by id.
    pub open spec fn wf(&self) -> bool {
        distinct_names(self.spec_hosts()) && ascending(self.spec_jobs())
    }

    /// A coordinator that knows no host and no job.
    pub fn new(hostname: &str) -> (c: Self)
        ensures
            c.wf(),
            c.spec_hostname() == hostname@,
            c.spec_hosts().len() == 0,
            c.spec_jobs().len() == 0,
    {
        CoordinatorState { hostname: hostname.to_owned(), known_hosts: Vec::new(), jobs: Vec::new() }
    }

    pub fn hostname(&self) -> (r: String)
        ensures
            r@ == self.spec_hostname(),
    {
        self.hostname.clone()
    }

    /// A host said hello: a host not known yet is added after the others, and then the
    /// coordinator answers with its own hello (the result).
    pub fn on_hello(&mut self, x: String) -> (answer: bool)
        requires
            old(self).wf(),
        ensures
            final(self).wf(),
            answer == !has_name(old(self).spec_hosts(), x@),
            final(self).spec_hosts() == (if answer {
                old(self).spec_hosts().push(x)
            } else {
                old(self).spec_hosts()
            }),
            final(self).spec_hostname() == old(self).spec_hostname(),
            final(self).spec_jobs() == old(self).spec_jobs(),
    {
        let mut i: usize = 0;
        while i < self.known_hosts.len()
            invariant
                i <= self.known_hosts@.len(),
                *self == *old(self),
                self.wf(),
                forall|j: int| 0 <= j < i ==> (#[trigger] self.known_hosts@[j])@ != x@,
            decreases self.known_hosts.len() - i,
        {
            if str_eq(self.known_hosts[i].as_str(), x.as_str()) {
                return false;
            }
            i = i + 1;
        }
        self.known_hosts.push(x);
        proof {
            let h = self.known_hosts@;
            assert forall|a: int, b: int| 0 <= a < b < h.len() implies (#[trigger] h[a])@ != (
            #[trigger] h[b])@ by {
                if b < h.len() - 1 {
                    assert(h[a] == old(self).known_hosts@[a]);
                    assert(h[b] == old(self).known_hosts@[b]);
                } else {
                    assert(h[a] == old(self).known_hosts@[a]);
                }
            }
        }
        true
    }

    /// What the coordinator does with a message it received: a hello from a new host is added
    /// and answered by a hello; with a monitor attached, every hello is reported to it as an
    /// empty message and a status is handed on; a status without monitor is reported as such;
    /// other messages need nothing.
    pub fn on_message(&mut self, msg: Message, monitor: bool) -> (r: Vec<Action>)
        requires
            old(self).wf(),
        ensures
            final(self).wf(),
            final(self).spec_hostname() == old(self).spec_hostname(),
            final(self).spec_jobs() == old(self).spec_jobs(),
            match msg {
                Message::Hello(x) => {
                    let new_host = !has_name(old(self).spec_hosts(), x@);
                    &&& final(self).spec_hosts() == (if new_host {
                        old(self).spec_hosts().push(x)
                    } else {
                        old(self).spec_hosts()
                    })
                    &&& r@.len() == (if new_host {
                        1int
                    } else {
                        0
                    }) + (if monitor {
                        1int
                    } else {
                        0
                    })
                    &&& new_host ==> r@[0] is BroadcastHello
                    &&& monitor ==> r@.last() matches Action::ToMonitor(Message::Empty)
                },
                Message::Status(j, s) => {
                    &&& final(self).spec_hosts() == old(self).spec_hosts()
                    &&& r@.len() == 1
                    &&& if monitor {
                        r@[0] matches Action::ToMonitor(Message::Status(j2, s2)) && j2 == j && s2
                            == s
                    } else {
                        r@[0] is NoMonitor
                    }
                },
                _ => final(self).spec_hosts() == old(self).spec_hosts() && r@.len() == 1
                    && r@[0] is Ignore,
            },
    {
        let mut r: Vec<Action> = Vec::new();
        match msg {
            Message::Hello(x) => {
                if self.on_hello(x) {
                    r.push(Action::BroadcastHello);
                }
                if monitor {
                    r.push(Action::ToMonitor(Message::Empty));
                }
            },
            Message::Status(j, s) => {
                if monitor {
                    r.push(Action::ToMonitor(Message::Status(j, s)));
                } else {
                    r.push(Action::NoMonitor);
                }
            },
            _ => {
                r.push(Action::Ignore);
            },
        }
        r
    }

    /// The lines of the monitor's head, each with its row: "Host: " and the own name on row 1,
    /// then "known Host: " and the name of each known host from row 3 on.
    pub fn host_lines(&self) -> (r: Vec<(u16, String)>)
        requires
            self.spec_hosts().len() <= 65532,
        ensures
            r@.len() == self.spec_hosts().len() + 1,
            r@[0].0 == 1 && r@[0].1@ == "Host: "@ + self.spec_hostname(),
            forall|i: int|
                0 <= i < self.spec_hosts().len() ==> (#[trigger] r@[i + 1]).0 == 3 + i && r@[i
                    + 1].1@ == "known Host: "@ + self.spec_hosts()[i]@,
    {
        let mut r: Vec<(u16, String)> = Vec::new();
        let mut head = String::new();
        head.append("Host: ");
        head.append(self.hostname.as_str());
        r.push((1, head));
        let mut i: usize = 0;
        let mut line: u16 = 3;
        while i < self.known_hosts.len()
            invariant
                i <= self.known_hosts@.len() <= 65532,
                line == 3 + i,
                r@.len() == i + 1,
                r@[0].0 == 1 && r@[0].1@ == "Host: "@ + self.hostname@,
                forall|j: int|
                    0 <= j < i ==> (#[trigger] r@[j + 1]).0 == 3 + j && r@[j + 1].1@
                        == "known Host: "@ + self.known_hosts@[j]@,
            decreases self.known_hosts.len() - i,
        {
            let mut t = String::new();
            t.append("known Host: ");
            t.append(self.known_hosts[i].as_str());
            r.push((line, t));
            line = line + 1;
            i = i + 1;
        }
        r
    }

    /// The number of jobs.
    pub fn job_count(&self) -> (n: usize)
        ensures
            n == self.spec_jobs().len(),
    {
        self.jobs.len()
    }

    /// The lines of the jobs, each with its row: the id, " -> " and the status of each job in
    /// the order of the ids, from row 10 on.
    pub fn job_lines(&self) -> (r: Vec<(u16, String)>)
        requires
            self.spec_jobs().len() <= 65525,
        ensures
            r@.len() == self.spec_jobs().len(),
            forall|i: int|
                0 <= i < r@.len() ==> (#[trigger] r@[i]).0 == 10 + i && r@[i].1@
                    == self.spec_jobs()[i].0@ + " -> "@ + self.spec_jobs()[i].1@,
    {
        let mut r: Vec<(u16, String)> = Vec::new();
        let mut i: usize = 0;
        let mut idx: u16 = 10;
        while i < self.jobs.len()
            invariant
                i <= self.jobs@.len() <= 65525,
                idx == 10 + i,
                r@.len() == i,
                forall|j: int|
                    0 <= j < i ==> (#[trigger] r@[j]).0 == 10 + j && r@[j].1@ == self.jobs@[j].0@
                        + " -> "@ + self.jobs@[j].1@,
            decreases self.jobs.len() - i,
        {
            let mut t = String::new();
            t.append(self.jobs[i].0.as_str());
            t.append(" -> ");
            t.append(self.jobs[i].1.as_str());
            r.push((idx, t));
            idx = idx + 1;
            i = i + 1;
        }
        r
    }

    /// The information on each known host, in order.
    pub fn get_agent_infos(&self) -> (r: Vec<AgentStatusInfo>)
        ensures
            r@.len() == self.spec_hosts().len(),
            forall|i: int| 0 <= i < r@.len() ==> (#[trigger] r@[i]).spec_name() == self.spec_hosts()[i]@,
    {
        let mut r: Vec<AgentStatusInfo> = Vec::new();
        let mut i: usize = 0;
        while i < self.known_hosts.len()
            invariant
                i <= self.known_hosts@.len(),
                r@.len() == i,
                forall|j: int| 0 <= j < i ==> (#[trigger] r@[j]).spec_name() == self.known_hosts@[j]@,
            decreases self.known_hosts.len() - i,
        {
            r.push(AgentStatusInfo::new(self.known_hosts[i].as_str()));
            i = i + 1;
        }
        r
    }

    /// Records the status of a job, in place of the one it had.
    pub fn set_job(&mut self, jobid: String, status: String)
        requires
            old(self).wf(),
        ensures
            final(self).wf(),
            final(self).job_status() == old(self).job_status().insert(jobid@, status@),
            final(self).spec_hostname() == old(self).spec_hostname(),
            final(self).spec_hosts() == old(self).spec_hosts(),
    {
        let ghost old_jobs = self.jobs@;
        let mut p: usize = 0;
        while p < self.jobs.len() && str_less(self.jobs[p].0.as_str(), jobid.as_str())
            invariant
                p <= self.jobs@.len(),
                self.jobs@ == old_jobs,
                forall|m: int| 0 <= m < p ==> text_less((#[trigger] old_jobs[m]).0@, jobid@),
            decreases self.jobs.len() - p,
        {
            p = p + 1;
        }
        let ghost e = (jobid, status);
        if p < self.jobs.len() && str_eq(self.jobs[p].0.as_str(), jobid.as_str()) {
            self.jobs.set(p, (jobid, status));
            proof {
                let n = self.jobs@;
                assert(n == old_jobs.update(p as int, e));
                assert forall|i: int, j: int| 0 <= i < j < n.len() implies text_less(
                    (#[trigger] n[i]).0@,
                    (#[trigger] n[j]).0@,
                ) by {
                    assert(n[i].0@ == old_jobs[i].0@);
                    assert(n[j].0@ == old_jobs[j].0@);
                }
                lemma_ascending_unique(old_jobs, p as int);
                lemma_entries_map_update(old_jobs, p as int, e);
            }
        } else {
            proof {
                if p < old_jobs.len() {
                    lemma_text_less_total(old_jobs[p as int].0@, jobid@);
                }
            }
            self.jobs.insert(p, (jobid, status));
            proof {
                let n = self.jobs@;
                assert(n =~= old_jobs.insert(p as int, e));
                assert forall|i: int, j: int| 0 <= i < j < n.len() implies text_less(
                    (#[trigger] n[i]).0@,
                    (#[trigger] n[j]).0@,
                ) by {
                    if j < p {
                        assert(n[i] == old_jobs[i] && n[j] == old_jobs[j]);
                    } else if j == p {
                        assert(n[i] == old_jobs[i]);
                    } else if i == p {
                        assert(n[j] == old_jobs[j - 1]);
                        if j - 1 > p {
                            lemma_text_less_trans(jobid@, old_jobs[p as int].0@, old_jobs[j - 1].0@);
                        }
                    } else if i < p {
                        assert(n[i] == old_jobs[i] && n[j] == old_jobs[j - 1]);
                        if j - 1 > p {
                            lemma_text_less_trans(jobid@, old_jobs[p as int].0@, old_jobs[j - 1].0@);
                        }
                        assert(text_less(jobid@, old_jobs[j - 1].0@));
                        lemma_text_less_trans(old_jobs[i].0@, jobid@, old_jobs[j - 1].0@);
                    } else {
                        assert(n[i] == old_jobs[i - 1] && n[j] == old_jobs[j - 1]);
                    }
                }
                assert forall|m: int| 0 <= m < old_jobs.len() implies (#[trigger] old_jobs[m]).0@
                    != jobid@ by {
                    if m >= p {
                        if m > p {
                            lemma_text_less_trans(jobid@, old_jobs[p as int].0@, old_jobs[m].0@);
                        }
                        lemma_text_less_total(jobid@, old_jobs[m].0@);
                    } else {
                        lemma_text_less_total(old_jobs[m].0@, jobid@);
                    }
                }
                assert forall|k: Seq<char>| #[trigger] entries_map(n).contains_key(k) == (k
                    == jobid@ || entries_map(old_jobs).contains_key(k)) && (entries_map(
                    n,
                ).contains_key(k) ==> entries_map(n)[k] == (if k == jobid@ {
                    status@
                } else {
                    entries_map(old_jobs)[k]
                })) by {
                    if k == jobid@ {
                        assert(n[p as int] == e);
                        lemma_ascending_unique(n, p as int);
                        lemma_entries_map_at(n, p as int);
                    } else if has_key(old_jobs, k) {
                        let i = choose|i: int| 0 <= i < old_jobs.len() && (#[trigger] old_jobs[i]).0@ == k;
                        lemma_ascending_unique(old_jobs, i);
                        lemma_entries_map_at(old_jobs, i);
                        let ni = if i < p { i } else { i + 1 };
                        assert(n[ni] == old_jobs[i]);
                        lemma_ascending_unique(n, ni);
                        lemma_entries_map_at(n, ni);
                    } else {
                        assert forall|m: int| 0 <= m < n.len() implies (#[trigger] n[m]).0@ != k by {
                            if m < p {
                                assert(n[m] == old_jobs[m]);
                            } else if m > p {
                                assert(n[m] == old_jobs[m - 1]);
                            }
                        }
                        assert forall|m: int| 0 <= m < old_jobs.len() implies (#[trigger] old_jobs[m]).0@ != k by {
                        }
                        lemma_entries_map_none(n, k);
                        lemma_entries_map_none(old_jobs, k);
                    }
                }
                assert(entries_map(n) =~= entries_map(old_jobs).insert(jobid@, status@));
            }
        }
    }
}

/// The host with the most space among the answers (host, space) that hosts gave, the first of
/// those with the most.
pub fn choose_space(results: &Vec<(String, usize)>) -> (r: (usize, String))
    requires
        results@.len() > 0,
    ensures
        exists|i: int|
            0 <= i < results@.len() && results@[i].0@ == r.1@ && results@[i].1 == r.0 && (forall|
                j: int,
            | 0 <= j < results@.len() ==> (#[trigger] results@[j]).1 <= r.0) && (forall|j: int|
                0 <= j < i ==> (#[trigger] results@[j]).1 < r.0),
{
    let mut best: usize = 0;
    let mut i: usize = 1;
    while i < results.len()
        invariant
            1 <= i <= results@.len(),
            best < i,
            forall|j: int| 0 <= j < i ==> (#[trigger] results@[j]).1 <= results@[best as int].1,
            forall|j: int| 0 <= j < best ==> (#[trigger] results@[j]).1 < results@[best as int].1,
        decreases results.len() - i,
    {
        if results[i].1 > results[best].1 {
            best = i;
        }
        i = i + 1;
    }
    (results[best].1, results[best].0.clone())
}

} // verus!
