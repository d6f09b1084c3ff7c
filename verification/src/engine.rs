//! The engine model: the scraper's front-end-facing state, the messages
//! fanned into it (worker events and control inputs), and the directives it
//! hands back to its surroundings.
//!
//! The surroundings own the actual channels, files and windows; this module
//! owns every decision: which groups are kept and in what order, what each
//! message changes, and which broadcast or fetch must follow.

use crate::proxies::ProxyListError;
use crate::text::{all_digits, digits_val, parse_u32_range};
use crate::worker::{WorkerEvent, WorkerState};
use crate::GroupId;
use vstd::prelude::*;

verus! {

/// A proxy's connection state, as the front end shows it.
#[derive(Debug, Clone, Copy, PartialEq, Eq, Structural)]
pub enum Connectedness {
    Connected,
    Unconnected,
    RateLimited,
}

/// A message into the engine's update loop: a worker event fanned in, or a
/// control input from the front end.
#[derive(Debug, PartialEq, Eq)]
pub enum Msg {
    ProxyListLoaded(Result<Vec<String>, ProxyListError>),
    GenerateProxies,
    GroupFound { group: (Option<String>, GroupId), robux: u32 },
    ToggleRunning,
    ProxyConnected(usize, Connectedness),
    SetPremiumGroups(bool),
    UpdateMinimumRobux(Vec<char>),
    OpenGroup(GroupId),
    GroupChecked,
}

/// One discovered group, as the front end lists it.
#[derive(Debug, Clone, PartialEq, Eq)]
pub struct GroupInfo {
    pub name: Option<String>,
    pub id: GroupId,
    pub robux: u32,
}

/// What the engine asks its surroundings to do after an update.
#[derive(Debug, Clone, Copy, PartialEq, Eq, Structural)]
pub enum Directive {
    /// Nothing to do.
    NoEffect,
    /// Load the stored proxy list.
    LoadProxyList,
    /// Fetch a fresh proxy list from the list provider.
    FetchProxyList,
    /// Publish the run flag to the current channel generation.
    BroadcastRunning(bool),
    /// Open a fresh channel generation carrying this run flag, so that no
    /// worker of an earlier run can observe a stale value.
    FreshRunningChannel(bool),
    /// Publish the restricted-targets toggle.
    BroadcastPremium(bool),
    /// Publish the minimum balance threshold.
    BroadcastMinimum(u16),
    /// Open the page of this group.
    OpenGroupPage(GroupId),
}

// ---------------------------------------------------------------------------
// The groups list: balance descending, one entry per id, newest first among
// equal balances.
// ---------------------------------------------------------------------------

pub open spec fn groups_sorted(s: Seq<GroupInfo>) -> bool {
    forall|i: int, j: int| 0 <= i < j < s.len() ==> (#[trigger] s[i]).robux >= (#[trigger] s[j]).robux
}

pub open spec fn group_ids_distinct(s: Seq<GroupInfo>) -> bool {
    forall|i: int, j: int| 0 <= i < j < s.len() ==> (#[trigger] s[i]).id != (#[trigger] s[j]).id
}

pub open spec fn has_group(s: Seq<GroupInfo>, id: GroupId) -> bool {
    exists|i: int| 0 <= i < s.len() && (#[trigger] s[i]).id == id
}

/// A new group goes before every listed group with a strictly smaller
/// balance and before listed groups with the same balance.
pub open spec fn spec_add_group(s: Seq<GroupInfo>, g: GroupInfo) -> Seq<GroupInfo>
    decreases s.len(),
{
    if s.len() == 0 {
        seq![g]
    } else if s.last().robux > g.robux {
        s.push(g)
    } else {
        spec_add_group(s.drop_last(), g).push(s.last())
    }
}

pub proof fn lemma_add_group_at(s: Seq<GroupInfo>, g: GroupInfo, p: int)
    requires
        groups_sorted(s),
        0 <= p <= s.len(),
        forall|k: int| 0 <= k < p ==> (#[trigger] s[k]).robux > g.robux,
        p < s.len() ==> s[p].robux <= g.robux,
    ensures
        spec_add_group(s, g) == s.insert(p, g),
    decreases s.len(),
{
    if s.len() == 0 {
        assert(spec_add_group(s, g) =~= s.insert(0, g));
    } else if s.last().robux > g.robux {
        assert(p == s.len()) by {
            if p < s.len() {
                assert(s[p].robux <= g.robux);
                if p < s.len() - 1 {
                    assert(s[p].robux >= s[s.len() - 1].robux);
                }
                assert(s[s.len() - 1] == s.last());
            }
        }
        assert(s.push(g) =~= s.insert(p, g));
    } else {
        let s0 = s.drop_last();
        assert(p < s.len()) by {
            if p == s.len() {
                assert(s[s.len() - 1].robux > g.robux);
            }
        }
        assert forall|i: int, j: int| 0 <= i < j < s0.len() implies (#[trigger] s0[i]).robux >= (
        #[trigger] s0[j]).robux by {
            assert(s0[i] == s[i]);
            assert(s0[j] == s[j]);
        }
        assert forall|k: int| 0 <= k < p implies (#[trigger] s0[k]).robux > g.robux by {
            assert(s0[k] == s[k]);
        }
        if p < s0.len() {
            assert(s0[p] == s[p]);
        }
        lemma_add_group_at(s0, g, p);
        assert(spec_add_group(s, g) == s0.insert(p, g).push(s.last()));
        assert(s0.insert(p, g).push(s.last()) =~= s.insert(p, g));
    }
}

pub proof fn lemma_add_group_props(s: Seq<GroupInfo>, g: GroupInfo)
    requires
        groups_sorted(s),
        group_ids_distinct(s),
        !has_group(s, g.id),
    ensures
        spec_add_group(s, g).len() == s.len() + 1,
        groups_sorted(spec_add_group(s, g)),
        group_ids_distinct(spec_add_group(s, g)),
        spec_add_group(s, g).contains(g),
        forall|j: int|
            0 <= j < spec_add_group(s, g).len() ==> (#[trigger] spec_add_group(s, g)[j]) == g
                || s.contains(spec_add_group(s, g)[j]),
    decreases s.len(),
{
    let r = spec_add_group(s, g);
    if s.len() == 0 {
        assert(r[0] == g);
    } else if s.last().robux > g.robux {
        assert(r == s.push(g));
        assert forall|i: int, j: int| 0 <= i < j < r.len() implies (#[trigger] r[i]).robux >= (
        #[trigger] r[j]).robux && r[i].id != r[j].id by {
            if j < s.len() {
                assert(r[i] == s[i]);
                assert(r[j] == s[j]);
            } else {
                assert(r[j] == g);
                assert(r[i] == s[i]);
                if i < s.len() - 1 {
                    assert(s[i].robux >= s[s.len() - 1].robux);
                } else {
                    assert(s[i] == s.last());
                }
                assert(s[i].id != g.id);
            }
        }
        assert(r.contains(g)) by {
            assert(r[r.len() - 1] == g);
        }
        assert forall|j: int| 0 <= j < r.len() implies (#[trigger] r[j]) == g || s.contains(
            r[j],
        ) by {
            if j < s.len() {
                assert(r[j] == s[j]);
            }
        }
    } else {
        let s0 = s.drop_last();
        let r0 = spec_add_group(s0, g);
        assert forall|i: int, j: int| 0 <= i < j < s0.len() implies (#[trigger] s0[i]).robux >= (
        #[trigger] s0[j]).robux && s0[i].id != s0[j].id by {
            assert(s0[i] == s[i]);
            assert(s0[j] == s[j]);
        }
        assert(!has_group(s0, g.id)) by {
            if has_group(s0, g.id) {
                let k = choose|k: int| 0 <= k < s0.len() && s0[k].id == g.id;
                assert(s[k].id == g.id);
            }
        }
        lemma_add_group_props(s0, g);
        assert(r == r0.push(s.last()));
        assert forall|x: GroupInfo| s0.contains(x) implies s.contains(x) by {
            let k = choose|k: int| 0 <= k < s0.len() && s0[k] == x;
            assert(s[k] == x);
        }
        assert(s.contains(s.last())) by {
            assert(s[s.len() - 1] == s.last());
        }
        assert forall|i: int, j: int| 0 <= i < j < r.len() implies (#[trigger] r[i]).robux >= (
        #[trigger] r[j]).robux && r[i].id != r[j].id by {
            if j < r0.len() {
                assert(r[i] == r0[i]);
                assert(r[j] == r0[j]);
            } else {
                assert(r[j] == s.last());
                assert(r[i] == r0[i]);
                if r0[i] == g {
                    assert(g.robux >= s.last().robux);
                    assert(s[s.len() - 1].id != g.id);
                } else {
                    assert(s0.contains(r0[i]));
                    let k = choose|k: int| 0 <= k < s0.len() && s0[k] == r0[i];
                    assert(s[k] == r0[i]);
                    if k < s.len() - 1 {
                        assert(s[k].robux >= s[s.len() - 1].robux);
                        assert(s[k].id != s[s.len() - 1].id);
                    }
                }
            }
        }
        assert(r.contains(g)) by {
            assert(r0.contains(g));
            let k = choose|k: int| 0 <= k < r0.len() && r0[k] == g;
            assert(r[k] == g);
        }
        assert forall|j: int| 0 <= j < r.len() implies (#[trigger] r[j]) == g || s.contains(
            r[j],
        ) by {
            if j < r0.len() {
                assert(r[j] == r0[j]);
            } else {
                assert(r[j] == s.last());
            }
        }
    }
}

// ---------------------------------------------------------------------------
// The scraper model.
// ---------------------------------------------------------------------------

/// Threshold text parsing: a nonempty run of digits whose value fits.
pub open spec fn spec_parse_u16(s: Seq<char>) -> Option<u16> {
    if s.len() > 0 && all_digits(s) && digits_val(s) <= u16::MAX {
        Some(digits_val(s) as u16)
    } else {
        None
    }
}

/// The engine's front-end-facing state.
pub struct GroupScraper {
    /// The proxy list, once its load settled.
    pub proxies_list: Option<Result<Vec<String>, ProxyListError>>,
    /// Discovered groups, balance descending, one per id.
    pub groups: Vec<GroupInfo>,
    pub running: bool,
    /// Connection state per proxy index.
    pub proxies_connected: Vec<Connectedness>,
    pub premium_groups: bool,
    /// The threshold as last entered, when it parsed.
    pub minimum_robux: Option<u16>,
    pub groups_checked: u64,
}

/// What one update does: the state change and the directive, per message.
pub open spec fn spec_update_rel(s: GroupScraper, msg: Msg, t: GroupScraper, d: Directive) -> bool {
    match msg {
        Msg::ProxyListLoaded(res) => {
            &&& t.proxies_list == Some(res)
            &&& t.proxies_connected@ == Seq::new(
                match res {
                    Ok(list) => list@.len(),
                    Err(_) => 0,
                },
                |i: int| Connectedness::Unconnected,
            )
            &&& t.groups@ == s.groups@
            &&& t.running == s.running
            &&& t.premium_groups == s.premium_groups
            &&& t.minimum_robux == s.minimum_robux
            &&& t.groups_checked == s.groups_checked
            &&& d == Directive::NoEffect
        },
        Msg::GenerateProxies => {
            &&& t.proxies_list == s.proxies_list
            &&& t.groups@ == s.groups@
            &&& t.running == s.running
            &&& t.proxies_connected@ == s.proxies_connected@
            &&& t.premium_groups == s.premium_groups
            &&& t.minimum_robux == s.minimum_robux
            &&& t.groups_checked == s.groups_checked
            &&& d == Directive::FetchProxyList
        },
        Msg::GroupFound { group, robux } => {
            &&& (if has_group(s.groups@, group.1) {
                t.groups@ == s.groups@
            } else {
                t.groups@ == spec_add_group(
                    s.groups@,
                    GroupInfo { name: group.0, id: group.1, robux },
                )
            })
            &&& t.proxies_list == s.proxies_list
            &&& t.running == s.running
            &&& t.proxies_connected@ == s.proxies_connected@
            &&& t.premium_groups == s.premium_groups
            &&& t.minimum_robux == s.minimum_robux
            &&& t.groups_checked == s.groups_checked
            &&& d == Directive::NoEffect
        },
        Msg::ToggleRunning => {
            &&& t.running == !s.running
            &&& t.proxies_connected@ == Seq::new(
                s.proxies_connected@.len(),
                |i: int| Connectedness::Unconnected,
            )
            &&& t.proxies_list == s.proxies_list
            &&& t.groups@ == s.groups@
            &&& t.premium_groups == s.premium_groups
            &&& t.minimum_robux == s.minimum_robux
            &&& t.groups_checked == s.groups_checked
            &&& d == (if !s.running {
                Directive::FreshRunningChannel(true)
            } else {
                Directive::BroadcastRunning(false)
            })
        },
        Msg::ProxyConnected(idx, c) => {
            &&& t.proxies_connected@ == (if s.running && idx < s.proxies_connected@.len() {
                s.proxies_connected@.update(idx as int, c)
            } else {
                s.proxies_connected@
            })
            &&& t.proxies_list == s.proxies_list
            &&& t.groups@ == s.groups@
            &&& t.running == s.running
            &&& t.premium_groups == s.premium_groups
            &&& t.minimum_robux == s.minimum_robux
            &&& t.groups_checked == s.groups_checked
            &&& d == Directive::NoEffect
        },
        Msg::SetPremiumGroups(b) => {
            &&& t.premium_groups == b
            &&& t.proxies_list == s.proxies_list
            &&& t.groups@ == s.groups@
            &&& t.running == s.running
            &&& t.proxies_connected@ == s.proxies_connected@
            &&& t.minimum_robux == s.minimum_robux
            &&& t.groups_checked == s.groups_checked
            &&& d == Directive::BroadcastPremium(b)
        },
        Msg::UpdateMinimumRobux(text) => {
            &&& t.minimum_robux == spec_parse_u16(text@)
            &&& t.proxies_list == s.proxies_list
            &&& t.groups@ == s.groups@
            &&& t.running == s.running
            &&& t.proxies_connected@ == s.proxies_connected@
            &&& t.premium_groups == s.premium_groups
            &&& t.groups_checked == s.groups_checked
            &&& d == Directive::BroadcastMinimum(
                match spec_parse_u16(text@) {
                    Some(m) => m,
                    None => 1,
                },
            )
        },
        Msg::OpenGroup(gid) => {
            &&& t.proxies_list == s.proxies_list
            &&& t.groups@ == s.groups@
            &&& t.running == s.running
            &&& t.proxies_connected@ == s.proxies_connected@
            &&& t.premium_groups == s.premium_groups
            &&& t.minimum_robux == s.minimum_robux
            &&& t.groups_checked == s.groups_checked
            &&& d == Directive::OpenGroupPage(gid)
        },
        Msg::GroupChecked => {
            &&& t.groups_checked == (if s.groups_checked == u64::MAX {
                s.groups_checked
            } else {
                (s.groups_checked + 1) as u64
            })
            &&& t.proxies_list == s.proxies_list
            &&& t.groups@ == s.groups@
            &&& t.running == s.running
            &&& t.proxies_connected@ == s.proxies_connected@
            &&& t.premium_groups == s.premium_groups
            &&& t.minimum_robux == s.minimum_robux
            &&& d == Directive::NoEffect
        },
    }
}

impl GroupScraper {
    /// Well-formedness: the groups list is ordered and has one entry per id.
    pub open spec fn wf(&self) -> bool {
        groups_sorted(self.groups@) && group_ids_distinct(self.groups@)
    }

    /// A fresh scraper; its first directive is to load the stored proxy
    /// list.
    pub fn new() -> (r: (Self, Directive))
        ensures
            r.0.wf(),
            r.0.proxies_list is None,
            r.0.groups@ == Seq::<GroupInfo>::empty(),
            !r.0.running,
            r.0.proxies_connected@ == Seq::<Connectedness>::empty(),
            !r.0.premium_groups,
            r.0.minimum_robux is None,
            r.0.groups_checked == 0,
            r.1 == Directive::LoadProxyList,
    {
        (
            GroupScraper {
                proxies_list: None,
                groups: Vec::new(),
                running: false,
                proxies_connected: Vec::new(),
                premium_groups: false,
                minimum_robux: None,
                groups_checked: 0,
            },
            Directive::LoadProxyList,
        )
    }

    /// Whether a group with this id is already listed.
    fn group_known(&self, id: GroupId) -> (r: bool)
        ensures
            r == has_group(self.groups@, id),
    {
        let n = self.groups.len();
        let mut i: usize = 0;
        while i < n
            invariant
                0 <= i <= n,
                n == self.groups@.len(),
                forall|k: int| 0 <= k < i ==> (#[trigger] self.groups@[k]).id != id,
            decreases n - i,
        {
            if self.groups[i].id == id {
                return true;
            }
            i = i + 1;
        }
        false
    }

    /// One update step: applies the message and returns the directive the
    /// surroundings must carry out.
    pub fn update(&mut self, msg: Msg) -> (d: Directive)
        requires
            old(self).wf(),
        ensures
            final(self).wf(),
            spec_update_rel(*old(self), msg, *final(self), d),
    {
        match msg {
            Msg::ProxyListLoaded(res) => {
                let row_len = match &res {
                    Ok(list) => list.len(),
                    Err(_) => 0,
                };
                self.proxies_connected = unconnected_row(row_len);
                self.proxies_list = Some(res);
                Directive::NoEffect
            },
            Msg::GenerateProxies => Directive::FetchProxyList,
            Msg::GroupFound { group, robux } => {
                let (name, id) = group;
                if !self.group_known(id) {
                    let g = GroupInfo { name, id, robux };
                    let n = self.groups.len();
                    let mut p: usize = 0;
                    while p < n && group_outranks(&self.groups[p], robux)
                        invariant
                            0 <= p <= n,
                            n == self.groups@.len(),
                            forall|k: int| 0 <= k < p ==> (#[trigger] self.groups@[k]).robux
                                > robux,
                        decreases n - p,
                    {
                        p = p + 1;
                    }
                    proof {
                        lemma_add_group_at(self.groups@, g, p as int);
                        lemma_add_group_props(self.groups@, g);
                    }
                    self.groups.insert(p, g);
                }
                Directive::NoEffect
            },
            Msg::ToggleRunning => {
                self.running = !self.running;
                let row_len = self.proxies_connected.len();
                self.proxies_connected = unconnected_row(row_len);
                if self.running {
                    Directive::FreshRunningChannel(true)
                } else {
                    Directive::BroadcastRunning(false)
                }
            },
            Msg::ProxyConnected(idx, c) => {
                if self.running && idx < self.proxies_connected.len() {
                    self.proxies_connected.set(idx, c);
                }
                Directive::NoEffect
            },
            Msg::SetPremiumGroups(b) => {
                self.premium_groups = b;
                Directive::BroadcastPremium(b)
            },
            Msg::UpdateMinimumRobux(text) => {
                let parsed = parse_threshold(&text);
                self.minimum_robux = parsed;
                match parsed {
                    Some(m) => Directive::BroadcastMinimum(m),
                    None => Directive::BroadcastMinimum(1),
                }
            },
            Msg::OpenGroup(gid) => Directive::OpenGroupPage(gid),
            Msg::GroupChecked => {
                if self.groups_checked < u64::MAX {
                    self.groups_checked = self.groups_checked + 1;
                }
                Directive::NoEffect
            },
        }
    }
}

/// Whether a listed group strictly outranks a new balance.
fn group_outranks(g: &GroupInfo, robux: u32) -> (r: bool)
    ensures
        r == (g.robux > robux),
{
    g.robux > robux
}

/// A row of unconnected proxy states.
fn unconnected_row(n: usize) -> (r: Vec<Connectedness>)
    ensures
        r@ == Seq::new(n as nat, |i: int| Connectedness::Unconnected),
{
    let mut v: Vec<Connectedness> = Vec::new();
    let mut i: usize = 0;
    while i < n
        invariant
            0 <= i <= n,
            v@ == Seq::new(i as nat, |k: int| Connectedness::Unconnected),
        decreases n - i,
    {
        v.push(Connectedness::Unconnected);
        proof {
            assert(v@ =~= Seq::new(i as nat + 1, |k: int| Connectedness::Unconnected));
        }
        i = i + 1;
    }
    v
}

/// Parses the threshold text: a nonempty digit run whose value fits in a
/// `u16`.
fn parse_threshold(text: &Vec<char>) -> (r: Option<u16>)
    ensures
        r == spec_parse_u16(text@),
{
    let n = text.len();
    if n == 0 {
        return None;
    }
    proof {
        assert(text@.subrange(0, n as int) =~= text@);
    }
    match parse_u32_range(text, 0, n) {
        Some(x) => {
            if x <= u16::MAX as u32 {
                Some(x as u16)
            } else {
                None
            }
        },
        None => {
            proof {
                if all_digits(text@) {
                    assert(digits_val(text@) > u32::MAX);
                }
            }
            None
        },
    }
}

// ---------------------------------------------------------------------------
// The engine descriptor and its event fan-in.
// ---------------------------------------------------------------------------

/// The engine's spawn descriptor: one worker per proxy endpoint.
pub struct Scraping {
    pub proxy_list: Vec<String>,
}

impl Scraping {
    /// One freshly spawned worker state per proxy, in list order.
    pub fn initial_states(&self) -> (r: Vec<WorkerState>)
        ensures
            r@.len() == self.proxy_list@.len(),
            forall|i: int| 0 <= i < r@.len() ==> (#[trigger] r@[i]).wf() && r@[i].phase
                is Idle,
    {
        let n = self.proxy_list.len();
        let mut v: Vec<WorkerState> = Vec::new();
        let mut i: usize = 0;
        while i < n
            invariant
                0 <= i <= n,
                v@.len() == i,
                forall|k: int| 0 <= k < i ==> (#[trigger] v@[k]).wf() && v@[k].phase is Idle,
            decreases n - i,
        {
            v.push(WorkerState::new());
            i = i + 1;
        }
        v
    }
}

/// How a worker's event, tagged with its proxy index, enters the engine's
/// message stream.
pub fn worker_event_to_msg(index: usize, ev: WorkerEvent) -> (m: Msg)
    ensures
        match ev {
            WorkerEvent::ProxyConnected => m == Msg::ProxyConnected(
                index,
                Connectedness::Connected,
            ),
            WorkerEvent::ProxyDisconnected => m == Msg::ProxyConnected(
                index,
                Connectedness::Unconnected,
            ),
            WorkerEvent::HitFound { id, name, balance } => m == (Msg::GroupFound {
                group: (name, id),
                robux: balance,
            }),
            WorkerEvent::CandidateChecked => m == Msg::GroupChecked,
        },
{
    match ev {
        WorkerEvent::ProxyConnected => Msg::ProxyConnected(index, Connectedness::Connected),
        WorkerEvent::ProxyDisconnected => Msg::ProxyConnected(index, Connectedness::Unconnected),
        WorkerEvent::HitFound { id, name, balance } => Msg::GroupFound {
            group: (name, id),
            robux: balance,
        },
        WorkerEvent::CandidateChecked => Msg::GroupChecked,
    }
}

} // verus!
