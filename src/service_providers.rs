//! The directory of provider nodes, the capability grants they install, and
//! the race that picks an available provider.
use vstd::prelude::*;
use crate::text::{clone_strings, strings_view};

verus! {

/// An explicit list of the operations that remote callers may invoke on a
/// node under one tag; there is no wildcard.
#[derive(Debug)]
pub struct CapGrant {
    pub tag: String,
    pub functions: Vec<String>,
}

impl CapGrant {
    /// Whether the grant lets a caller invoke `function`.
    pub fn is_authorized(&self, function: &String) -> (r: bool)
        ensures
            r == strings_view(self.functions@).contains(function@),
    {
        let ghost fv = strings_view(self.functions@);
        let mut i: usize = 0;
        while i < self.functions.len()
            invariant
                i <= self.functions.len(),
                fv == strings_view(self.functions@),
                forall|j: int| 0 <= j < i ==> fv[j] != function@,
            decreases self.functions.len() - i,
        {
            if self.functions[i] == *function {
                assert(fv[i as int] == function@);
                return true;
            }
            i = i + 1;
        }
        false
    }
}

/// The grant a provider installs when it announces itself: callers may only
/// ask whether it is available.
pub fn provider_grant() -> (g: CapGrant)
    ensures
        g.tag@ == Seq::<char>::empty(),
        strings_view(g.functions@) == seq!["available_as_provider"@],
{
    let mut functions: Vec<String> = Vec::new();
    functions.push(String::from_str("available_as_provider"));
    assert(strings_view(functions@) =~= seq!["available_as_provider"@]);
    CapGrant { tag: String::new(), functions }
}

/// The grant of a node's gateway: callers may register tokens and ask for
/// notifications to be sent.
pub fn gateway_grant() -> (g: CapGrant)
    ensures
        g.tag@ == "send_push_notification"@,
        strings_view(g.functions@) == seq!["register_fcm_token"@, "send_push_notifications"@],
{
    let mut functions: Vec<String> = Vec::new();
    functions.push(String::from_str("register_fcm_token"));
    functions.push(String::from_str("send_push_notifications"));
    assert(strings_view(functions@) =~= seq!["register_fcm_token"@, "send_push_notifications"@]);
    CapGrant { tag: String::from_str("send_push_notification"), functions }
}

/// The grant that lets other nodes tell this one of new shard requests.
pub fn remote_signal_grant() -> (g: CapGrant)
    ensures
        g.tag@ == "receive_messages"@,
        strings_view(g.functions@) == seq!["recv_remote_signal"@],
{
    let mut functions: Vec<String> = Vec::new();
    functions.push(String::from_str("recv_remote_signal"));
    assert(strings_view(functions@) =~= seq!["recv_remote_signal"@]);
    CapGrant { tag: String::from_str("receive_messages"), functions }
}

#[derive(Debug)]
pub enum InitCallbackResult {
    Pass,
    Fail(String),
}

/// The gateway's init result, from the outcome of announcing the node as a
/// provider: it passes exactly when the announcement succeeded.
pub fn gateway_init_result(announce: Result<(), String>) -> (r: InitCallbackResult)
    ensures
        announce is Ok ==> r is Pass,
        announce matches Err(e) ==> (r matches InitCallbackResult::Fail(m) && m@
            == "Failed to announce as provider: "@ + e@),
{
    match announce {
        Ok(()) => InitCallbackResult::Pass,
        Err(e) => InitCallbackResult::Fail(String::from_str("Failed to announce as provider: ").concat(e.as_str())),
    }
}

/// The providers that announced themselves, each listed once, in the order
/// of their first announcement.
pub struct ServiceProviders {
    providers: Vec<String>,
}

impl View for ServiceProviders {
    type V = Seq<Seq<char>>;

    closed spec fn view(&self) -> Seq<Seq<char>> {
        strings_view(self.providers@)
    }
}

impl ServiceProviders {
    pub fn new() -> (r: ServiceProviders)
        ensures
            r@.len() == 0,
    {
        let r = ServiceProviders { providers: Vec::new() };
        assert(r@ =~= Seq::<Seq<char>>::empty());
        r
    }

    /// Lists `agent` as a provider, unless it is listed already, and returns
    /// the grant it installs.
    pub fn announce_as_provider(&mut self, agent: String) -> (g: CapGrant)
        requires
            old(self)@.no_duplicates(),
        ensures
            final(self)@.no_duplicates(),
            final(self)@ == if old(self)@.contains(agent@) {
                old(self)@
            } else {
                old(self)@.push(agent@)
            },
            strings_view(g.functions@) == seq!["available_as_provider"@],
    {
        let ghost pv = self@;
        let mut i: usize = 0;
        let mut found = false;
        while i < self.providers.len()
            invariant
                i <= self.providers.len(),
                pv == self@,
                !found ==> forall|j: int| 0 <= j < i ==> pv[j] != agent@,
                found ==> pv.contains(agent@),
            decreases self.providers.len() - i,
        {
            if self.providers[i] == agent {
                assert(pv[i as int] == agent@);
                found = true;
            }
            i = i + 1;
        }
        if !found {
            self.providers.push(agent);
            assert(self@ =~= pv.push(agent@));
            assert forall|a: int, b: int| 0 <= a < self@.len() && 0 <= b < self@.len() && a != b implies self@[a]
                != self@[b] by {
                if a == pv.len() {
                    assert(pv.contains(pv[b]));
                } else if b == pv.len() {
                    assert(pv.contains(pv[a]));
                }
            }
        }
        provider_grant()
    }

    /// The listed providers.
    pub fn get_service_providers(&self) -> (r: Vec<String>)
        ensures
            strings_view(r@) == self@,
    {
        clone_strings(&self.providers)
    }
}

/// Where a race among candidate providers stands after a probe answer.
#[derive(Debug, PartialEq, Eq, Structural)]
pub enum RaceStep {
    /// This candidate answered first that it is available; the other probes
    /// are to be cancelled.
    Winner(usize),
    /// Probes are still out.
    Pending,
    /// Every candidate failed, or there was none.
    NoProviderAvailable,
}

/// Every candidate has failed.
pub open spec fn all_failed(s: Seq<bool>) -> bool {
    forall|i: int| 0 <= i < s.len() ==> #[trigger] s[i]
}

pub open spec fn count_true(s: Seq<bool>) -> nat
    decreases s.len(),
{
    if s.len() == 0 {
        0
    } else {
        count_true(s.drop_last()) + if s.last() {
            1nat
        } else {
            0nat
        }
    }
}

proof fn lemma_count_true_update(s: Seq<bool>, i: int)
    requires
        0 <= i < s.len(),
        !s[i],
    ensures
        count_true(s.update(i, true)) == count_true(s) + 1,
    decreases s.len(),
{
    let u = s.update(i, true);
    if i < s.len() - 1 {
        assert(u.drop_last() =~= s.drop_last().update(i, true));
        lemma_count_true_update(s.drop_last(), i);
    } else {
        assert(u.drop_last() =~= s.drop_last());
    }
}

proof fn lemma_count_true_bound(s: Seq<bool>)
    ensures
        count_true(s) <= s.len(),
        count_true(s) == s.len() ==> forall|i: int| 0 <= i < s.len() ==> s[i],
    decreases s.len(),
{
    if s.len() > 0 {
        lemma_count_true_bound(s.drop_last());
        if count_true(s) == s.len() {
            assert forall|i: int| 0 <= i < s.len() implies s[i] by {
                if i < s.len() - 1 {
                    assert(s.drop_last()[i] == s[i]);
                }
            }
        }
    }
}

/// Probes all candidates at once and takes the first that answers that it is
/// available.  The caller sends the probes and reports each answer as it
/// comes in.
pub struct ProviderRace {
    failed: Vec<bool>,
    failures: usize,
    decided: bool,
    winner: Option<usize>,
}

impl ProviderRace {
    /// Which candidates have failed so far.
    pub closed spec fn failed(&self) -> Seq<bool> {
        self.failed@
    }

    pub closed spec fn decided(&self) -> bool {
        self.decided
    }

    /// The candidate that answered first that it is available, if any did.
    pub closed spec fn winner(&self) -> Option<usize> {
        self.winner
    }

    /// How the race ended, or nothing while probes are out.
    pub open spec fn outcome(&self) -> Option<RaceStep> {
        if !self.decided() {
            None
        } else {
            match self.winner() {
                Some(c) => Some(RaceStep::Winner(c)),
                None => Some(RaceStep::NoProviderAvailable),
            }
        }
    }

    pub closed spec fn wf(&self) -> bool {
        &&& self.failures == count_true(self.failed@)
        &&& !self.decided ==> self.failures < self.failed@.len()
        &&& self.winner is Some ==> self.decided
        &&& (self.decided && self.winner is None) ==> all_failed(self.failed@)
    }

    /// A race among `candidates` providers; with none, it is lost at once.
    pub fn new(candidates: usize) -> (r: ProviderRace)
        ensures
            r.wf(),
            r.failed() == Seq::new(candidates as nat, |i: int| false),
            r.decided() == (candidates == 0),
            r.winner() is None,
            candidates == 0 ==> r.outcome() == Some(RaceStep::NoProviderAvailable),
    {
        let mut failed: Vec<bool> = Vec::new();
        let mut i: usize = 0;
        while i < candidates
            invariant
                i <= candidates,
                failed@ == Seq::new(i as nat, |k: int| false),
                count_true(failed@) == 0,
            decreases candidates - i,
        {
            let ghost prev = failed@;
            failed.push(false);
            assert(failed@.drop_last() == prev);
            assert(failed@ =~= Seq::new((i + 1) as nat, |k: int| false));
            i = i + 1;
        }
        ProviderRace { failed, failures: 0, decided: candidates == 0, winner: None }
    }

    pub fn is_decided(&self) -> (r: bool)
        ensures
            r == self.decided(),
    {
        self.decided
    }

    /// How the race ended, or nothing while probes are out.
    pub fn result(&self) -> (r: Option<RaceStep>)
        ensures
            r == self.outcome(),
    {
        if !self.decided {
            None
        } else {
            match self.winner {
                Some(c) => Some(RaceStep::Winner(c)),
                None => Some(RaceStep::NoProviderAvailable),
            }
        }
    }

    /// Reports the answer of candidate `candidate`'s probe.  The first
    /// available candidate wins at once, whatever the other probes would
    /// say; the race is lost when the last candidate fails.
    pub fn on_probe(&mut self, candidate: usize, available: bool) -> (r: RaceStep)
        requires
            old(self).wf(),
            !old(self).decided(),
            candidate < old(self).failed().len(),
            !old(self).failed()[candidate as int],
        ensures
            final(self).wf(),
            available ==> r == RaceStep::Winner(candidate) && final(self).decided() && final(self).failed()
                == old(self).failed() && final(self).winner() == Some(candidate),
            final(self).outcome() == if r == RaceStep::Pending {
                None
            } else {
                Some(r)
            },
            !available ==> {
                &&& final(self).winner() is None
                &&& final(self).failed() == old(self).failed().update(candidate as int, true)
                &&& final(self).decided() == all_failed(final(self).failed())
                &&& r == if final(self).decided() {
                    RaceStep::NoProviderAvailable
                } else {
                    RaceStep::Pending
                }
            },
    {
        if available {
            self.decided = true;
            self.winner = Some(candidate);
            return RaceStep::Winner(candidate);
        }
        assert(self.failures < self.failed.len());
        let failures = self.failures + 1;
        proof {
            lemma_count_true_update(self.failed@, candidate as int);
        }
        self.failed.set(candidate, true);
        self.failures = failures;
        proof {
            lemma_count_true_bound(self.failed@);
        }
        if self.failures == self.failed.len() {
            assert(all_failed(self.failed@));
            self.decided = true;
            RaceStep::NoProviderAvailable
        } else {
            proof {
                if all_failed(self.failed@) {
                    lemma_all_true_count(self.failed@);
                }
            }
            RaceStep::Pending
        }
    }
}

proof fn lemma_all_true_count(s: Seq<bool>)
    requires
        forall|i: int| 0 <= i < s.len() ==> #[trigger] s[i],
    ensures
        count_true(s) == s.len(),
    decreases s.len(),
{
    if s.len() > 0 {
        assert forall|i: int| 0 <= i < s.drop_last().len() implies #[trigger] s.drop_last()[i] by {
            assert(s.drop_last()[i] == s[i]);
        }
        lemma_all_true_count(s.drop_last());
        assert(s.last() == s[s.len() - 1]);
    }
}

} // verus!
