//! Decisions of the Thread range extender: how its role shows on the LED,
//! when it may be promoted to router, when it asks for promotion, and which
//! radio counters moved since the last report.
//!
//! LED patterns:
//! - fast blink: searching — not attached to the network;
//! - slow blink: attached as child (not yet routing);
//! - solid with a short dip every 3 s: Router (or Leader of a shared
//!   partition), with one extra quick dip per attached child (up to five);
//! - double-flash then pause: Leader of a **singleton** partition.
use vstd::prelude::*;

verus! {

/// The role of the device in the Thread network.
#[derive(Debug, Clone, Copy, PartialEq, Eq, Structural)]
pub enum Role {
    Disabled,
    Detached,
    Child,
    Router,
    Leader,
    /// Any other role, by its numeric code.
    Other(u32),
}

impl Role {
    /// Attached to a network (child, router or leader).
    pub open spec fn spec_is_connected(self) -> bool {
        self is Child || self is Router || self is Leader
    }

    /// Whether the device is attached to a network.
    #[verifier::when_used_as_spec(spec_is_connected)]
    pub fn is_connected(self) -> (connected: bool)
        ensures
            connected == self.spec_is_connected(),
    {
        match self {
            Role::Child | Role::Router | Role::Leader => true,
            _ => false,
        }
    }
}

/// One step of an LED pattern.
#[derive(Debug, Clone, Copy, PartialEq, Eq, Structural)]
pub enum LedStep {
    /// Light the LED.
    On,
    /// Darken the LED.
    Off,
    /// Keep the LED as it is for this many milliseconds.
    Wait(u64),
}

/// Light for `on_ms`, then dark for `off_ms`.
pub open spec fn blink(on_ms: u64, off_ms: u64) -> Seq<LedStep> {
    seq![LedStep::On, LedStep::Wait(on_ms), LedStep::Off, LedStep::Wait(off_ms)]
}

/// `n` quick dips, one per attached child.
pub open spec fn child_dips(n: nat) -> Seq<LedStep>
    decreases n,
{
    if n == 0 {
        Seq::empty()
    } else {
        child_dips((n - 1) as nat) + blink(180, 180)
    }
}

/// Most child dips shown.
pub const MAX_CHILD_DIPS: u16 = 5;

/// The LED pattern of one status tick.
pub open spec fn led_pattern(role: Role, lonely: bool, children: u16) -> Seq<LedStep> {
    if role is Leader && lonely {
        blink(120, 120) + blink(120, 120) + seq![LedStep::Wait(1520)]
    } else if role is Router || role is Leader {
        blink(2900, 100) + child_dips(
            (if children < MAX_CHILD_DIPS {
                children
            } else {
                MAX_CHILD_DIPS
            }) as nat,
        )
    } else if role is Child {
        blink(500, 500)
    } else {
        blink(120, 120)
    }
}

/// Seconds-as-child at which the repeater asks to become a router: ten
/// seconds after attaching, then every thirty.
pub open spec fn solicit_due(child_secs: int) -> bool {
    child_secs % 30 == 10
}

/// Promotion is asked for on the 10th consecutive second as a child and
/// then every 30 seconds: within the first 30 seconds only at the 10th,
/// and the schedule repeats every 30 seconds.
pub proof fn lemma_solicit_schedule(n: int)
    requires
        n >= 0,
    ensures
        n < 30 ==> (solicit_due(n) <==> n == 10),
        solicit_due(n + 30) == solicit_due(n),
{
}

/// What one status tick asks the repeater to do, in order.
pub struct StatusActions {
    /// Whether the device just became (`Some(true)`) or stopped being
    /// (`Some(false)`) the leader of a singleton partition.
    pub lonely_changed: Option<bool>,
    /// The role differs from the last tick's (log it).
    pub role_changed: bool,
    /// Make the device router-eligible (`Some(true)`) or child-only.
    pub set_router_eligible: Option<bool>,
    /// The device just attached: log its addresses.
    pub log_addresses: bool,
    /// The number of attached children changed to this.
    pub children_changed: Option<u16>,
    /// Ask the leader for a router ID.
    pub solicit_router: bool,
    /// The LED pattern to play, which paces the ticks.
    pub led: Vec<LedStep>,
}

/// The abstract state of a [`RepeaterStatus`].
pub struct StatusModel {
    pub last_role: Option<Role>,
    pub child_secs: u32,
    pub last_children: u16,
    pub last_lonely: bool,
}

impl StatusModel {
    /// The device leads a partition of its own.
    pub open spec fn lonely(role: Role, singleton: bool) -> bool {
        role is Leader && singleton
    }

    /// The state after a tick in `role`, with the partition a singleton or
    /// not, and `children` attached.
    pub open spec fn next(self, role: Role, singleton: bool, children: u16) -> StatusModel {
        let lonely = Self::lonely(role, singleton);
        StatusModel {
            last_role: Some(role),
            last_lonely: lonely,
            child_secs: if role is Child {
                (self.child_secs + 1) as u32
            } else {
                0
            },
            last_children: if (role is Router || role is Leader) && !lonely {
                children
            } else {
                0
            },
        }
    }

    /// The router eligibility a tick in `role` asks for: eligible on
    /// becoming a child, child-only on losing the network, unchanged
    /// otherwise.
    pub open spec fn eligibility_setting(self, role: Role) -> Option<bool> {
        let changed = self.last_role != Some(role);
        if changed && role is Child {
            Some(true)
        } else if changed && (role is Detached || role is Disabled) {
            Some(false)
        } else {
            None
        }
    }

    /// The actions of a tick.
    pub open spec fn actions_match(
        self,
        role: Role,
        singleton: bool,
        children: u16,
        a: StatusActions,
    ) -> bool {
        let lonely = Self::lonely(role, singleton);
        let changed = self.last_role != Some(role);
        &&& a.lonely_changed == (if lonely != self.last_lonely {
            Some(lonely)
        } else {
            None
        })
        &&& a.role_changed == changed
        &&& a.set_router_eligible == self.eligibility_setting(role)
        &&& a.log_addresses == (changed && role.spec_is_connected() && !(self.last_role matches Some(
            r,
        ) && r.spec_is_connected()))
        &&& a.children_changed == (if (role is Router || role is Leader) && !lonely && children
            != self.last_children {
            Some(children)
        } else {
            None
        })
        &&& a.solicit_router == (role is Child && solicit_due(self.child_secs + 1))
        &&& a.led@ == led_pattern(role, lonely, children)
    }
}

/// Tracks the repeater's role from tick to tick.
pub struct RepeaterStatus {
    last_role: Option<Role>,
    child_secs: u32,
    last_children: u16,
    last_lonely: bool,
}

impl View for RepeaterStatus {
    type V = StatusModel;

    closed spec fn view(&self) -> StatusModel {
        StatusModel {
            last_role: self.last_role,
            child_secs: self.child_secs,
            last_children: self.last_children,
            last_lonely: self.last_lonely,
        }
    }
}

fn push_blink(v: &mut Vec<LedStep>, on_ms: u64, off_ms: u64)
    ensures
        final(v)@ == old(v)@ + blink(on_ms, off_ms),
{
    v.push(LedStep::On);
    v.push(LedStep::Wait(on_ms));
    v.push(LedStep::Off);
    v.push(LedStep::Wait(off_ms));
    assert(v@ =~= old(v)@ + blink(on_ms, off_ms));
}

/// The LED pattern of one tick.
fn led_steps(role: Role, lonely: bool, children: u16) -> (v: Vec<LedStep>)
    ensures
        v@ == led_pattern(role, lonely, children),
{
    let mut v = Vec::new();
    match role {
        Role::Leader if lonely => {
            push_blink(&mut v, 120, 120);
            push_blink(&mut v, 120, 120);
            v.push(LedStep::Wait(1520));
            assert(v@ =~= blink(120, 120) + blink(120, 120) + seq![LedStep::Wait(1520)]);
        },
        Role::Router | Role::Leader => {
            push_blink(&mut v, 2900, 100);
            let dips = if children < MAX_CHILD_DIPS {
                children
            } else {
                MAX_CHILD_DIPS
            };
            let mut i: u16 = 0;
            while i < dips
                invariant
                    i <= dips,
                    v@ == blink(2900, 100) + child_dips(i as nat),
                decreases dips - i,
            {
                push_blink(&mut v, 180, 180);
                i = i + 1;
                assert(v@ =~= blink(2900, 100) + child_dips(i as nat));
            }
        },
        Role::Child => {
            push_blink(&mut v, 500, 500);
            assert(v@ =~= blink(500, 500));
        },
        _ => {
            push_blink(&mut v, 120, 120);
            assert(v@ =~= blink(120, 120));
        },
    }
    v
}

impl RepeaterStatus {
    /// No role seen yet.
    pub fn new() -> (s: Self)
        ensures
            s@ == (StatusModel {
                last_role: None,
                child_secs: 0,
                last_children: 0,
                last_lonely: false,
            }),
    {
        RepeaterStatus { last_role: None, child_secs: 0, last_children: 0, last_lonely: false }
    }

    /// Consecutive ticks spent as a child.
    pub fn child_secs(&self) -> (n: u32)
        ensures
            n == self@.child_secs,
    {
        self.child_secs
    }

    /// One status tick: the device is in `role`, its partition is a
    /// singleton or not (consulted for a leader only), and `children`
    /// devices are attached through it (consulted for a router or leader).
    ///
    /// Stays child-only until attached, becomes router-eligible once
    /// attached as a child, and asks for promotion while a child.
    pub fn tick(&mut self, role: Role, singleton: bool, children: u16) -> (a: StatusActions)
        requires
            role is Child ==> old(self)@.child_secs < u32::MAX,
        ensures
            final(self)@ == old(self)@.next(role, singleton, children),
            old(self)@.actions_match(role, singleton, children, a),
    {
        let lonely = match role {
            Role::Leader => singleton,
            _ => false,
        };
        let lonely_changed = if lonely != self.last_lonely {
            self.last_lonely = lonely;
            Some(lonely)
        } else {
            None
        };
        let role_changed = match self.last_role {
            Some(r) => r != role,
            None => true,
        };
        let mut set_router_eligible = None;
        let mut log_addresses = false;
        if role_changed {
            match role {
                Role::Child => {
                    set_router_eligible = Some(true);
                },
                Role::Detached | Role::Disabled => {
                    set_router_eligible = Some(false);
                },
                _ => {},
            }
            let was_connected = match self.last_role {
                Some(r) => r.is_connected(),
                None => false,
            };
            log_addresses = role.is_connected() && !was_connected;
            self.last_role = Some(role);
        }
        let mut children_changed = None;
        let mut solicit_router = false;
        match role {
            Role::Leader if lonely => {
                self.child_secs = 0;
                self.last_children = 0;
            },
            Role::Router | Role::Leader => {
                self.child_secs = 0;
                if children != self.last_children {
                    children_changed = Some(children);
                    self.last_children = children;
                }
            },
            Role::Child => {
                self.child_secs = self.child_secs + 1;
                self.last_children = 0;
                solicit_router = self.child_secs % 30 == 10;
            },
            _ => {
                self.child_secs = 0;
                self.last_children = 0;
            },
        }
        let led = led_steps(role, lonely, children);
        StatusActions {
            lonely_changed,
            role_changed,
            set_router_eligible,
            log_addresses,
            children_changed,
            solicit_router,
            led,
        }
    }
}

/// The state before any tick.
pub open spec fn initial_status() -> StatusModel {
    StatusModel { last_role: None, child_secs: 0, last_children: 0, last_lonely: false }
}

/// The tick state and the router eligibility after `ticks` (each a role,
/// whether the partition is a singleton, and the number of children),
/// starting from `m` with eligibility `eligible`.
pub open spec fn run_ticks(m: StatusModel, eligible: bool, ticks: Seq<(Role, bool, u16)>) -> (
    StatusModel,
    bool,
)
    decreases ticks.len(),
{
    if ticks.len() == 0 {
        (m, eligible)
    } else {
        let (m1, e1) = run_ticks(m, eligible, ticks.drop_last());
        let t = ticks.last();
        (
            m1.next(t.0, t.1, t.2),
            match m1.eligibility_setting(t.0) {
                Some(e) => e,
                None => e1,
            },
        )
    }
}

/// A role in which the device has lost the network.
pub open spec fn is_lost(role: Role) -> bool {
    role is Detached || role is Disabled
}

/// The repeater never fractures the network: starting child-only, it is
/// router-eligible only after it has attached as a child with no loss of
/// the network since, and it is child-only whenever its latest role is a
/// loss of the network.
pub proof fn lemma_eligible_only_when_attached(ticks: Seq<(Role, bool, u16)>)
    ensures
        ({
            let (m, e) = run_ticks(initial_status(), false, ticks);
            &&& e ==> exists|i: int|
                0 <= i < ticks.len() && (#[trigger] ticks[i]).0 is Child && forall|j: int|
                    i < j < ticks.len() ==> !is_lost(#[trigger] ticks[j].0)
            &&& (m.last_role matches Some(r) && is_lost(r)) ==> !e
        }),
    decreases ticks.len(),
{
    if ticks.len() > 0 {
        let prefix = ticks.drop_last();
        lemma_eligible_only_when_attached(prefix);
        let (m1, e1) = run_ticks(initial_status(), false, prefix);
        let t = ticks.last();
        let (m, e) = run_ticks(initial_status(), false, ticks);
        let last = ticks.len() - 1;
        assert(t == ticks[last]);
        if e {
            if m1.eligibility_setting(t.0) is None {
                assert(e1);
                let i = choose|i: int|
                    0 <= i < prefix.len() && (#[trigger] prefix[i]).0 is Child && forall|j: int|
                        i < j < prefix.len() ==> !is_lost(#[trigger] prefix[j].0);
                assert(ticks[i] == prefix[i]);
                assert forall|j: int| i < j < ticks.len() implies !is_lost(#[trigger] ticks[j].0) by {
                    if j < last {
                        assert(ticks[j] == prefix[j]);
                    }
                }
            } else {
                assert(t.0 is Child);
                assert(forall|j: int| last < j < ticks.len() ==> !is_lost(#[trigger] ticks[j].0));
            }
        }
    }
}

/// The number of consecutive child ticks that `ticks` ends with.
pub open spec fn child_run(ticks: Seq<(Role, bool, u16)>) -> nat
    decreases ticks.len(),
{
    if ticks.len() == 0 {
        0
    } else if ticks.last().0 is Child {
        child_run(ticks.drop_last()) + 1
    } else {
        0
    }
}

/// A change of role at tick `i`: the first tick, or a role unlike the one
/// before.
pub open spec fn role_changes_at(ticks: Seq<(Role, bool, u16)>, i: int) -> bool {
    i == 0 || ticks[i - 1].0 != ticks[i].0
}

/// Each block of four steps of `n` dips is one 180/180 ms dip.
proof fn lemma_child_dips_blocks(n: nat)
    ensures
        child_dips(n).len() == 4 * n,
        forall|k: int|
            0 <= k < n ==> #[trigger] child_dips(n).subrange(4 * k, 4 * k + 4) == seq![
                LedStep::On,
                LedStep::Wait(180),
                LedStep::Off,
                LedStep::Wait(180),
            ],
    decreases n,
{
    if n > 0 {
        let p = (n - 1) as nat;
        lemma_child_dips_blocks(p);
        assert forall|k: int| 0 <= k < n implies #[trigger] child_dips(n).subrange(4 * k, 4 * k + 4)
            == seq![LedStep::On, LedStep::Wait(180), LedStep::Off, LedStep::Wait(180)] by {
            if k < p {
                assert(child_dips(n).subrange(4 * k, 4 * k + 4) =~= child_dips(p).subrange(
                    4 * k,
                    4 * k + 4,
                ));
            } else {
                assert(child_dips(n).subrange(4 * k, 4 * k + 4) =~= seq![
                    LedStep::On,
                    LedStep::Wait(180),
                    LedStep::Off,
                    LedStep::Wait(180),
                ]);
            }
        }
    }
}

/// The LED shows the role at every tick, whatever came before: a router,
/// or the leader of a shared partition, lights for 2.9 s with a 100 ms dip
/// for any number of children, none included, and then plays one 180/180 ms
/// dip per attached child up to five; a child plays the 500/500 ms slow
/// blink; the leader of a singleton partition a double 120 ms flash and a
/// 1.52 s pause; any other role the 120/120 ms fast blink. So a router
/// never shows the pattern of a child.
pub proof fn lemma_led_shows_role(
    m: StatusModel,
    role: Role,
    singleton: bool,
    children: u16,
    a: StatusActions,
)
    requires
        m.actions_match(role, singleton, children, a),
    ensures
        (role is Router || role is Leader) && !(role is Leader && singleton) ==> {
            let dips: int = if children < 5 {
                children as int
            } else {
                5
            };
            &&& a.led@.len() == 4 + 4 * dips
            &&& a.led@.subrange(0, 4) == seq![
                LedStep::On,
                LedStep::Wait(2900),
                LedStep::Off,
                LedStep::Wait(100),
            ]
            &&& forall|k: int|
                0 <= k < dips ==> #[trigger] a.led@.subrange(4 + 4 * k, 8 + 4 * k) == seq![
                    LedStep::On,
                    LedStep::Wait(180),
                    LedStep::Off,
                    LedStep::Wait(180),
                ]
            &&& a.led@ != seq![LedStep::On, LedStep::Wait(500), LedStep::Off, LedStep::Wait(500)]
        },
        role is Child ==> a.led@ == seq![
            LedStep::On,
            LedStep::Wait(500),
            LedStep::Off,
            LedStep::Wait(500),
        ],
        role is Leader && singleton ==> a.led@ == seq![
            LedStep::On,
            LedStep::Wait(120),
            LedStep::Off,
            LedStep::Wait(120),
            LedStep::On,
            LedStep::Wait(120),
            LedStep::Off,
            LedStep::Wait(120),
            LedStep::Wait(1520),
        ],
        !(role is Child || role is Router || role is Leader) ==> a.led@ == seq![
            LedStep::On,
            LedStep::Wait(120),
            LedStep::Off,
            LedStep::Wait(120),
        ],
{
    let led = a.led@;
    if role is Leader && singleton {
        assert(led =~= seq![
            LedStep::On,
            LedStep::Wait(120),
            LedStep::Off,
            LedStep::Wait(120),
            LedStep::On,
            LedStep::Wait(120),
            LedStep::Off,
            LedStep::Wait(120),
            LedStep::Wait(1520),
        ]);
    } else if role is Router || role is Leader {
        let n: u16 = if children < MAX_CHILD_DIPS {
            children
        } else {
            MAX_CHILD_DIPS
        };
        lemma_child_dips_blocks(n as nat);
        let head = seq![LedStep::On, LedStep::Wait(2900), LedStep::Off, LedStep::Wait(100)];
        assert(led == head + child_dips(n as nat));
        assert(led.subrange(0, 4) =~= head);
        assert forall|k: int| 0 <= k < n implies #[trigger] led.subrange(4 + 4 * k, 8 + 4 * k)
            == seq![LedStep::On, LedStep::Wait(180), LedStep::Off, LedStep::Wait(180)] by {
            assert(led.subrange(4 + 4 * k, 8 + 4 * k) =~= child_dips(n as nat).subrange(
                4 * k,
                4 * k + 4,
            ));
        }
        assert(led[1] == LedStep::Wait(2900));
    }
}

/// After any ticks from the start, the last role is that of the last tick
/// and the child count is the run of child ticks the sequence ends with.
proof fn lemma_run_state(ticks: Seq<(Role, bool, u16)>)
    requires
        ticks.len() < u32::MAX,
    ensures
        run_ticks(initial_status(), false, ticks).0.last_role == (if ticks.len() == 0 {
            None
        } else {
            Some(ticks.last().0)
        }),
        run_ticks(initial_status(), false, ticks).0.child_secs == child_run(ticks),
        child_run(ticks) <= ticks.len(),
    decreases ticks.len(),
{
    if ticks.len() > 0 {
        lemma_run_state(ticks.drop_last());
    }
}

/// What each status tick asks for, over any run of ticks from the start:
/// router eligibility is switched on exactly at a change of role to child
/// and off exactly at a change of role to detached or disabled; promotion is
/// solicited exactly on the 10th, 40th, 70th, ... consecutive child tick;
/// the addresses are logged exactly when the device attaches (connected
/// now, not connected at the tick before or at the first tick); a
/// router, or a leader of a shared partition, shows one dip plus one per
/// attached child up to five.
pub proof fn lemma_status_tick(ticks: Seq<(Role, bool, u16)>, i: int, a: StatusActions)
    requires
        0 <= i < ticks.len(),
        ticks.len() < u32::MAX,
        run_ticks(initial_status(), false, ticks.take(i)).0.actions_match(
            ticks[i].0,
            ticks[i].1,
            ticks[i].2,
            a,
        ),
    ensures
        a.set_router_eligible == (if role_changes_at(ticks, i) && ticks[i].0 is Child {
            Some(true)
        } else if role_changes_at(ticks, i) && is_lost(ticks[i].0) {
            Some(false)
        } else {
            None
        }),
        a.solicit_router == (ticks[i].0 is Child && solicit_due(child_run(ticks.take(i + 1)) as int)),
        a.log_addresses == (ticks[i].0.spec_is_connected() && (i == 0 || !ticks[i
            - 1].0.spec_is_connected())),
        (ticks[i].0 is Router || ticks[i].0 is Leader) && !StatusModel::lonely(ticks[i].0, ticks[i].1)
            ==> a.led@.len() == 4 * (1 + (if ticks[i].2 < MAX_CHILD_DIPS {
            ticks[i].2
        } else {
            MAX_CHILD_DIPS
        })),
{
    let pre = ticks.take(i);
    lemma_run_state(pre);
    if i > 0 {
        assert(pre.last() == ticks[i - 1]);
    }
    let upto = ticks.take(i + 1);
    assert(upto.drop_last() =~= pre);
    assert(upto.last() == ticks[i]);
    let t = ticks[i];
    let n: u16 = if t.2 < MAX_CHILD_DIPS {
        t.2
    } else {
        MAX_CHILD_DIPS
    };
    lemma_child_dips_blocks(n as nat);
}

/// The change of each counter from `prev` to `cur`, modulo 2^32.
pub fn counter_deltas(cur: &[u32], prev: &[u32]) -> (d: Vec<u32>)
    requires
        cur@.len() == prev@.len(),
    ensures
        d@.len() == cur@.len(),
        forall|i: int| 0 <= i < cur@.len() ==> #[trigger] d@[i] == cur@[i].wrapping_sub(prev@[i]),
{
    let mut d = Vec::new();
    let mut i: usize = 0;
    while i < cur.len()
        invariant
            cur@.len() == prev@.len(),
            i <= cur@.len(),
            d@.len() == i,
            forall|j: int| 0 <= j < i ==> #[trigger] d@[j] == cur@[j].wrapping_sub(prev@[j]),
        decreases cur@.len() - i,
    {
        d.push(cur[i].wrapping_sub(prev[i]));
        i = i + 1;
    }
    d
}

/// The counters among the first `n` whose value moved, each with its index
/// and change, in index order.
pub open spec fn moved_counters(cur: Seq<u32>, prev: Seq<u32>, n: nat) -> Seq<(usize, u32)>
    decreases n,
{
    if n == 0 {
        Seq::empty()
    } else {
        let i = n - 1;
        let d = cur[i].wrapping_sub(prev[i]);
        if d != 0 {
            moved_counters(cur, prev, i as nat).push((i as usize, d))
        } else {
            moved_counters(cur, prev, i as nat)
        }
    }
}

/// The counters that moved from `prev` to `cur`, with their changes.
pub fn changed_counters(cur: &[u32], prev: &[u32]) -> (moved: Vec<(usize, u32)>)
    requires
        cur@.len() == prev@.len(),
    ensures
        moved@ == moved_counters(cur@, prev@, cur@.len()),
{
    let mut moved = Vec::new();
    let mut i: usize = 0;
    while i < cur.len()
        invariant
            cur@.len() == prev@.len(),
            i <= cur@.len(),
            moved@ == moved_counters(cur@, prev@, i as nat),
        decreases cur@.len() - i,
    {
        let d = cur[i].wrapping_sub(prev[i]);
        if d != 0 {
            moved.push((i, d));
        }
        i = i + 1;
    }
    moved
}

} // verus!
