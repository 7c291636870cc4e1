//! Keeping a node's local shards in line with the shared request log.
//!
//! A pass compares the requests that are wanted with the shards the node
//! runs and plans the steps that close the gap; the caller performs each
//! step and reports how it went.  A failed step is recorded and the pass
//! goes on with the next one.
use vstd::prelude::*;
use crate::clone_service_request::{
    contains_request, requests_view, CloneServiceRequest, CloneServiceRequestView,
};

verus! {

/// A shard the node runs, bound to the request it was made from.
#[derive(Debug)]
pub struct LocalShard {
    pub request: CloneServiceRequest,
    pub clone_id: String,
    pub enabled: bool,
    /// Made by cloning, as opposed to the shard the node was installed with.
    pub cloned: bool,
}

pub struct LocalShardView {
    pub request: CloneServiceRequestView,
    pub clone_id: Seq<char>,
    pub enabled: bool,
    pub cloned: bool,
}

impl View for LocalShard {
    type V = LocalShardView;

    open spec fn view(&self) -> LocalShardView {
        LocalShardView {
            request: self.request@,
            clone_id: self.clone_id@,
            enabled: self.enabled,
            cloned: self.cloned,
        }
    }
}

impl LocalShard {
    pub fn duplicate(&self) -> (r: LocalShard)
        ensures
            r@ == self@,
    {
        LocalShard {
            request: self.request.duplicate(),
            clone_id: self.clone_id.clone(),
            enabled: self.enabled,
            cloned: self.cloned,
        }
    }
}

/// One step of a pass.
#[derive(Debug)]
pub enum ShardAction {
    /// Make a new shard from this request and enable it.
    Create(CloneServiceRequest),
    /// Enable the shard with this clone id.
    Enable(String),
    /// Disable the shard with this clone id.
    Disable(String),
}

pub enum ShardActionView {
    Create(CloneServiceRequestView),
    Enable(Seq<char>),
    Disable(Seq<char>),
}

impl View for ShardAction {
    type V = ShardActionView;

    open spec fn view(&self) -> ShardActionView {
        match self {
            ShardAction::Create(r) => ShardActionView::Create(r@),
            ShardAction::Enable(id) => ShardActionView::Enable(id@),
            ShardAction::Disable(id) => ShardActionView::Disable(id@),
        }
    }
}

pub open spec fn shards_view(s: Seq<LocalShard>) -> Seq<LocalShardView> {
    s.map_values(|x: LocalShard| x@)
}

pub open spec fn actions_view(s: Seq<ShardAction>) -> Seq<ShardActionView> {
    s.map_values(|a: ShardAction| a@)
}

/// Some shard is bound to `r`.
pub open spec fn has_shard(shards: Seq<LocalShardView>, r: CloneServiceRequestView) -> bool {
    exists|i: int| 0 <= i < shards.len() && (#[trigger] shards[i]).request == r
}

/// No two shards are bound to the same request.
pub open spec fn unique_requests(shards: Seq<LocalShardView>) -> bool {
    forall|i: int, j: int|
        0 <= i < shards.len() && 0 <= j < shards.len() && (#[trigger] shards[i]).request == (#[trigger] shards[j]).request
            ==> i == j
}

/// Exactly one shard is bound to `r`, and it is enabled.
pub open spec fn one_enabled_shard(shards: Seq<LocalShardView>, r: CloneServiceRequestView) -> bool {
    exists|k: int|
        0 <= k < shards.len() && (#[trigger] shards[k]).request == r && shards[k].enabled && forall|j: int|
            0 <= j < shards.len() && (#[trigger] shards[j]).request == r ==> j == k
}

/// The wanted requests that no shard is bound to, each once, in the order of
/// their first listing.
pub open spec fn missing(wanted: Seq<CloneServiceRequestView>, shards: Seq<LocalShardView>) -> Seq<
    CloneServiceRequestView,
>
    decreases wanted.len(),
{
    if wanted.len() == 0 {
        wanted
    } else {
        let rest = missing(wanted.drop_last(), shards);
        let r = wanted.last();
        if has_shard(shards, r) || wanted.drop_last().contains(r) {
            rest
        } else {
            rest.push(r)
        }
    }
}

/// The clone ids of the disabled shards bound to a wanted request, in the
/// order of the shards.
pub open spec fn to_enable(wanted: Seq<CloneServiceRequestView>, shards: Seq<LocalShardView>) -> Seq<Seq<char>>
    decreases shards.len(),
{
    if shards.len() == 0 {
        Seq::empty()
    } else {
        let rest = to_enable(wanted, shards.drop_last());
        let s = shards.last();
        if !s.enabled && wanted.contains(s.request) {
            rest.push(s.clone_id)
        } else {
            rest
        }
    }
}

pub open spec fn creates(rs: Seq<CloneServiceRequestView>) -> Seq<ShardActionView> {
    rs.map_values(|r: CloneServiceRequestView| ShardActionView::Create(r))
}

pub open spec fn enables(ids: Seq<Seq<char>>) -> Seq<ShardActionView> {
    ids.map_values(|id: Seq<char>| ShardActionView::Enable(id))
}

/// The steps of a pass: create a shard for each missing request, then enable
/// each disabled shard of a wanted request.
pub open spec fn reconcile_plan(wanted: Seq<CloneServiceRequestView>, shards: Seq<LocalShardView>) -> Seq<
    ShardActionView,
> {
    creates(missing(wanted, shards)) + enables(to_enable(wanted, shards))
}

pub open spec fn set_enabled(shards: Seq<LocalShardView>, id: Seq<char>, on: bool) -> Seq<LocalShardView> {
    shards.map_values(
        |s: LocalShardView|
            if s.clone_id == id {
                LocalShardView { enabled: on, ..s }
            } else {
                s
            },
    )
}

/// The node's shards after one step, given its outcome: the clone id of the
/// new shard, or any text on success of another step; nothing on failure.
pub open spec fn apply_action(shards: Seq<LocalShardView>, a: ShardActionView, outcome: Option<Seq<char>>) -> Seq<
    LocalShardView,
> {
    match outcome {
        None => shards,
        Some(id) => match a {
            ShardActionView::Create(r) => shards.push(
                LocalShardView { request: r, clone_id: id, enabled: true, cloned: true },
            ),
            ShardActionView::Enable(c) => set_enabled(shards, c, true),
            ShardActionView::Disable(c) => set_enabled(shards, c, false),
        },
    }
}

/// The node's shards after a run of steps with these outcomes.
pub open spec fn after_actions(
    shards: Seq<LocalShardView>,
    actions: Seq<ShardActionView>,
    outcomes: Seq<Option<Seq<char>>>,
) -> Seq<LocalShardView>
    decreases actions.len(),
{
    if actions.len() == 0 {
        shards
    } else {
        apply_action(
            after_actions(shards, actions.drop_last(), outcomes.drop_last()),
            actions.last(),
            outcomes.last(),
        )
    }
}

/// The shards that successful creations of `rs` add, in order.
pub open spec fn created(rs: Seq<CloneServiceRequestView>, outcomes: Seq<Option<Seq<char>>>) -> Seq<
    LocalShardView,
>
    decreases rs.len(),
{
    if rs.len() == 0 {
        Seq::empty()
    } else {
        let rest = created(rs.drop_last(), outcomes.drop_last());
        match outcomes.last() {
            Some(id) => rest.push(
                LocalShardView { request: rs.last(), clone_id: id, enabled: true, cloned: true },
            ),
            None => rest,
        }
    }
}

pub open spec fn all_succeeded(outcomes: Seq<Option<Seq<char>>>) -> bool {
    forall|i: int| 0 <= i < outcomes.len() ==> (#[trigger] outcomes[i]) is Some
}

proof fn lemma_compose(
    s: Seq<LocalShardView>,
    a1: Seq<ShardActionView>,
    o1: Seq<Option<Seq<char>>>,
    a2: Seq<ShardActionView>,
    o2: Seq<Option<Seq<char>>>,
)
    requires
        a1.len() == o1.len(),
        a2.len() == o2.len(),
    ensures
        after_actions(s, a1 + a2, o1 + o2) == after_actions(after_actions(s, a1, o1), a2, o2),
    decreases a2.len(),
{
    if a2.len() == 0 {
        assert(a1 + a2 == a1);
        assert(o1 + o2 == o1);
    } else {
        lemma_compose(s, a1, o1, a2.drop_last(), o2.drop_last());
        assert((a1 + a2).drop_last() == a1 + a2.drop_last());
        assert((o1 + o2).drop_last() == o1 + o2.drop_last());
        assert((a1 + a2).last() == a2.last());
        assert((o1 + o2).last() == o2.last());
    }
}

proof fn lemma_after_creates(s: Seq<LocalShardView>, rs: Seq<CloneServiceRequestView>, o: Seq<Option<Seq<char>>>)
    requires
        rs.len() == o.len(),
    ensures
        after_actions(s, creates(rs), o) == s + created(rs, o),
    decreases rs.len(),
{
    if rs.len() == 0 {
        assert(s + created(rs, o) == s);
    } else {
        lemma_after_creates(s, rs.drop_last(), o.drop_last());
        assert(creates(rs).drop_last() == creates(rs.drop_last()));
        let prev = s + created(rs.drop_last(), o.drop_last());
        match o.last() {
            Some(id) => {
                assert(s + created(rs, o) == prev.push(
                    LocalShardView { request: rs.last(), clone_id: id, enabled: true, cloned: true },
                ));
            },
            None => {},
        }
    }
}

/// What a run of enable steps does to the shard at index `k`.
proof fn lemma_after_enables(s: Seq<LocalShardView>, ids: Seq<Seq<char>>, o: Seq<Option<Seq<char>>>, k: int)
    requires
        ids.len() == o.len(),
        0 <= k < s.len(),
    ensures
        after_actions(s, enables(ids), o).len() == s.len(),
        after_actions(s, enables(ids), o)[k].request == s[k].request,
        after_actions(s, enables(ids), o)[k].clone_id == s[k].clone_id,
        after_actions(s, enables(ids), o)[k].cloned == s[k].cloned,
        after_actions(s, enables(ids), o)[k].enabled == (s[k].enabled || exists|p: int|
            0 <= p < ids.len() && ids[p] == s[k].clone_id && (#[trigger] o[p]) is Some),
    decreases ids.len(),
{
    if ids.len() > 0 {
        let d = ids.drop_last();
        let od = o.drop_last();
        lemma_after_enables(s, d, od, k);
        assert(enables(ids).drop_last() == enables(d));
        let prev = after_actions(s, enables(d), od);
        let now = after_actions(s, enables(ids), o);
        assert(now == apply_action(prev, ShardActionView::Enable(ids.last()), o.last()));
        if now[k].enabled && !s[k].enabled && !(exists|p: int|
            0 <= p < d.len() && d[p] == s[k].clone_id && (#[trigger] od[p]) is Some) {
            assert(o[ids.len() - 1] is Some);
        }
        if exists|p: int| 0 <= p < ids.len() && ids[p] == s[k].clone_id && (#[trigger] o[p]) is Some {
            let p = choose|p: int| 0 <= p < ids.len() && ids[p] == s[k].clone_id && (#[trigger] o[p]) is Some;
            if p < d.len() {
                assert(od[p] == o[p]);
            }
        }
        if exists|p: int| 0 <= p < d.len() && d[p] == s[k].clone_id && (#[trigger] od[p]) is Some {
            let p = choose|p: int| 0 <= p < d.len() && d[p] == s[k].clone_id && (#[trigger] od[p]) is Some;
            assert(o[p] == od[p]);
        }
    }
}

proof fn lemma_after_enables_len(s: Seq<LocalShardView>, ids: Seq<Seq<char>>, o: Seq<Option<Seq<char>>>)
    requires
        ids.len() == o.len(),
    ensures
        after_actions(s, enables(ids), o).len() == s.len(),
    decreases ids.len(),
{
    if ids.len() > 0 {
        lemma_after_enables_len(s, ids.drop_last(), o.drop_last());
        assert(enables(ids).drop_last() == enables(ids.drop_last()));
    }
}

proof fn lemma_missing_contains(wanted: Seq<CloneServiceRequestView>, shards: Seq<LocalShardView>, r: CloneServiceRequestView)
    ensures
        missing(wanted, shards).contains(r) <==> (wanted.contains(r) && !has_shard(shards, r)),
    decreases wanted.len(),
{
    if wanted.len() > 0 {
        let d = wanted.drop_last();
        lemma_missing_contains(d, shards, r);
        assert(wanted == d.push(wanted.last()));
        crate::index::lemma_push_contains(d, wanted.last(), r);
        crate::index::lemma_push_contains(missing(d, shards), wanted.last(), r);
    }
}

proof fn lemma_missing_no_duplicates(wanted: Seq<CloneServiceRequestView>, shards: Seq<LocalShardView>)
    ensures
        missing(wanted, shards).no_duplicates(),
    decreases wanted.len(),
{
    if wanted.len() > 0 {
        let d = wanted.drop_last();
        lemma_missing_no_duplicates(d, shards);
        let rest = missing(d, shards);
        let r = wanted.last();
        if !(has_shard(shards, r) || d.contains(r)) {
            lemma_missing_contains(d, shards, r);
            assert forall|i: int, j: int|
                0 <= i < rest.push(r).len() && 0 <= j < rest.push(r).len() && i != j implies rest.push(r)[i]
                != rest.push(r)[j] by {
                if i == rest.len() {
                    assert(rest.contains(rest[j]));
                } else if j == rest.len() {
                    assert(rest.contains(rest[i]));
                }
            }
        }
    }
}

proof fn lemma_to_enable_contains(wanted: Seq<CloneServiceRequestView>, shards: Seq<LocalShardView>, id: Seq<char>)
    ensures
        to_enable(wanted, shards).contains(id) <==> exists|k: int|
            0 <= k < shards.len() && (#[trigger] shards[k]).clone_id == id && !shards[k].enabled
                && wanted.contains(shards[k].request),
    decreases shards.len(),
{
    if shards.len() > 0 {
        let d = shards.drop_last();
        lemma_to_enable_contains(wanted, d, id);
        crate::index::lemma_push_contains(to_enable(wanted, d), shards.last().clone_id, id);
        if exists|k: int|
            0 <= k < shards.len() && (#[trigger] shards[k]).clone_id == id && !shards[k].enabled
                && wanted.contains(shards[k].request) {
            let k = choose|k: int|
                0 <= k < shards.len() && (#[trigger] shards[k]).clone_id == id && !shards[k].enabled
                    && wanted.contains(shards[k].request);
            if k < d.len() {
                assert(d[k] == shards[k]);
            }
        }
        if exists|k: int|
            0 <= k < d.len() && (#[trigger] d[k]).clone_id == id && !d[k].enabled && wanted.contains(d[k].request) {
            let k = choose|k: int|
                0 <= k < d.len() && (#[trigger] d[k]).clone_id == id && !d[k].enabled && wanted.contains(
                    d[k].request,
                );
            assert(shards[k] == d[k]);
        }
        if to_enable(wanted, shards).contains(id) && !to_enable(wanted, d).contains(id) {
            assert(shards[shards.len() - 1] == shards.last());
        }
    }
}

proof fn lemma_created_requests(rs: Seq<CloneServiceRequestView>, o: Seq<Option<Seq<char>>>, i: int)
    requires
        rs.len() == o.len(),
        0 <= i < created(rs, o).len(),
    ensures
        rs.contains(created(rs, o)[i].request),
        created(rs, o)[i].enabled,
    decreases rs.len(),
{
    let d = rs.drop_last();
    let rest = created(d, o.drop_last());
    if i < rest.len() {
        lemma_created_requests(d, o.drop_last(), i);
        let j = choose|j: int| 0 <= j < d.len() && d[j] == rest[i].request;
        assert(rs[j] == d[j]);
    } else {
        assert(rs[rs.len() - 1] == rs.last());
    }
}

proof fn lemma_created_contains(rs: Seq<CloneServiceRequestView>, o: Seq<Option<Seq<char>>>, i: int)
    requires
        rs.len() == o.len(),
        0 <= i < rs.len(),
        o[i] is Some,
    ensures
        created(rs, o).contains(
            LocalShardView { request: rs[i], clone_id: o[i]->Some_0, enabled: true, cloned: true },
        ),
    decreases rs.len(),
{
    let d = rs.drop_last();
    let od = o.drop_last();
    let rest = created(d, od);
    if i < d.len() {
        lemma_created_contains(d, od, i);
        assert(d[i] == rs[i] && od[i] == o[i]);
        let x = LocalShardView { request: rs[i], clone_id: o[i]->Some_0, enabled: true, cloned: true };
        crate::index::lemma_push_contains(rest, LocalShardView { request: rs.last(), clone_id: o.last()->Some_0, enabled: true, cloned: true }, x);
    } else {
        let x = LocalShardView { request: rs[i], clone_id: o[i]->Some_0, enabled: true, cloned: true };
        crate::index::lemma_push_contains(rest, x, x);
    }
}

proof fn lemma_created_unique(s: Seq<LocalShardView>, rs: Seq<CloneServiceRequestView>, o: Seq<Option<Seq<char>>>)
    requires
        rs.len() == o.len(),
        unique_requests(s),
        rs.no_duplicates(),
        forall|i: int| 0 <= i < rs.len() ==> !has_shard(s, #[trigger] rs[i]),
    ensures
        unique_requests(s + created(rs, o)),
    decreases rs.len(),
{
    if rs.len() > 0 {
        let d = rs.drop_last();
        let od = o.drop_last();
        assert forall|i: int| 0 <= i < d.len() implies !has_shard(s, #[trigger] d[i]) by {
            assert(d[i] == rs[i]);
        }
        lemma_created_unique(s, d, od);
        let prev = s + created(d, od);
        if let Some(id) = o.last() {
            let x = LocalShardView { request: rs.last(), clone_id: id, enabled: true, cloned: true };
            let now = s + created(rs, o);
            assert(now == prev.push(x));
            assert forall|i: int, j: int|
                0 <= i < now.len() && 0 <= j < now.len() && (#[trigger] now[i]).request == (#[trigger] now[j]).request
                    implies i == j by {
                if i == prev.len() && j < prev.len() {
                    lemma_prefix_or_created(s, d, od, j, rs.last());
                } else if j == prev.len() && i < prev.len() {
                    lemma_prefix_or_created(s, d, od, i, rs.last());
                } else if i < prev.len() && j < prev.len() {
                    assert(prev[i] == now[i] && prev[j] == now[j]);
                }
            }
        }
    }
}

proof fn lemma_prefix_or_created(
    s: Seq<LocalShardView>,
    d: Seq<CloneServiceRequestView>,
    od: Seq<Option<Seq<char>>>,
    j: int,
    r: CloneServiceRequestView,
)
    requires
        d.len() == od.len(),
        0 <= j < (s + created(d, od)).len(),
        !has_shard(s, r),
        !d.contains(r),
    ensures
        (s + created(d, od))[j].request != r,
{
    if j >= s.len() {
        lemma_created_requests(d, od, j - s.len());
    }
}

/// A step run that holds no disable step keeps each enabled shard enabled.
proof fn lemma_plan_keeps_enabled(
    s: Seq<LocalShardView>,
    wanted: Seq<CloneServiceRequestView>,
    o: Seq<Option<Seq<char>>>,
)
    requires
        o.len() == reconcile_plan(wanted, s).len(),
    ensures
        ({
            let m = missing(wanted, s);
            let om = o.take(m.len() as int);
            let mid = s + created(m, om);
            let fin = after_actions(s, reconcile_plan(wanted, s), o);
            &&& fin.len() == mid.len()
            &&& forall|k: int| 0 <= k < mid.len() ==> {
                &&& (#[trigger] fin[k]).request == mid[k].request
                &&& fin[k].clone_id == mid[k].clone_id
                &&& fin[k].cloned == mid[k].cloned
                &&& fin[k].enabled == (mid[k].enabled || exists|p: int|
                    0 <= p < to_enable(wanted, s).len() && to_enable(wanted, s)[p] == mid[k].clone_id
                        && (#[trigger] o[m.len() + p]) is Some)
            }
        }),
{
    let m = missing(wanted, s);
    let ids = to_enable(wanted, s);
    let om = o.take(m.len() as int);
    let oe = o.skip(m.len() as int);
    assert(creates(m).len() == m.len());
    assert(enables(ids).len() == ids.len());
    assert(o == om + oe);
    lemma_compose(s, creates(m), om, enables(ids), oe);
    lemma_after_creates(s, m, om);
    let mid = s + created(m, om);
    lemma_after_enables_len(mid, ids, oe);
    let fin = after_actions(s, reconcile_plan(wanted, s), o);
    assert forall|k: int| 0 <= k < mid.len() implies {
        &&& (#[trigger] fin[k]).request == mid[k].request
        &&& fin[k].clone_id == mid[k].clone_id
        &&& fin[k].cloned == mid[k].cloned
        &&& fin[k].enabled == (mid[k].enabled || exists|p: int|
            0 <= p < ids.len() && ids[p] == mid[k].clone_id && (#[trigger] o[m.len() + p]) is Some)
    } by {
        lemma_after_enables(mid, ids, oe, k);
        if exists|p: int| 0 <= p < ids.len() && ids[p] == mid[k].clone_id && (#[trigger] oe[p]) is Some {
            let p = choose|p: int| 0 <= p < ids.len() && ids[p] == mid[k].clone_id && (#[trigger] oe[p]) is Some;
            assert(o[m.len() + p] == oe[p]);
        }
        if exists|p: int| 0 <= p < ids.len() && ids[p] == mid[k].clone_id && (#[trigger] o[m.len() + p]) is Some {
            let p = choose|p: int|
                0 <= p < ids.len() && ids[p] == mid[k].clone_id && (#[trigger] o[m.len() + p]) is Some;
            assert(o[m.len() + p] == oe[p]);
        }
    }
}

/// One failed step does not hold back the others: every request whose
/// creation succeeded has an enabled shard after the pass, whatever became
/// of the other steps.
pub proof fn lemma_partial_failure_isolation(
    existing: Seq<LocalShardView>,
    wanted: Seq<CloneServiceRequestView>,
    outcomes: Seq<Option<Seq<char>>>,
    i: int,
)
    requires
        outcomes.len() == reconcile_plan(wanted, existing).len(),
        0 <= i < missing(wanted, existing).len(),
        outcomes[i] is Some,
    ensures
        reconcile_plan(wanted, existing)[i] == ShardActionView::Create(missing(wanted, existing)[i]),
        after_actions(existing, reconcile_plan(wanted, existing), outcomes).contains(
            LocalShardView {
                request: missing(wanted, existing)[i],
                clone_id: outcomes[i]->Some_0,
                enabled: true,
                cloned: true,
            },
        ),
{
    let m = missing(wanted, existing);
    let om = outcomes.take(m.len() as int);
    assert(om[i] == outcomes[i]);
    lemma_created_contains(m, om, i);
    let x = LocalShardView { request: m[i], clone_id: outcomes[i]->Some_0, enabled: true, cloned: true };
    let c = created(m, om);
    let q = choose|q: int| 0 <= q < c.len() && c[q] == x;
    let mid = existing + c;
    assert(mid[existing.len() + q] == x);
    lemma_plan_keeps_enabled(existing, wanted, outcomes);
    let fin = after_actions(existing, reconcile_plan(wanted, existing), outcomes);
    let k = existing.len() + q;
    assert(fin[k].request == mid[k].request);
    assert(fin[k] == x);
    assert(fin.contains(x));
}

proof fn lemma_nonempty_contains<A>(s: Seq<A>)
    requires
        s.len() > 0,
    ensures
        s.contains(s[0]),
{
}

/// With nothing left to do, every wanted request has exactly one shard, and
/// it is enabled.
proof fn lemma_quiescent(existing: Seq<LocalShardView>, wanted: Seq<CloneServiceRequestView>)
    requires
        unique_requests(existing),
        reconcile_plan(wanted, existing).len() == 0,
    ensures
        forall|r: CloneServiceRequestView| wanted.contains(r) ==> one_enabled_shard(existing, r),
{
    assert forall|r: CloneServiceRequestView| wanted.contains(r) implies one_enabled_shard(existing, r) by {
        lemma_missing_contains(wanted, existing, r);
        if !has_shard(existing, r) {
            lemma_nonempty_contains(missing(wanted, existing));
            assert(missing(wanted, existing).len() > 0);
        }
        let k = choose|k: int| 0 <= k < existing.len() && (#[trigger] existing[k]).request == r;
        if !existing[k].enabled {
            lemma_to_enable_contains(wanted, existing, existing[k].clone_id);
            lemma_nonempty_contains(to_enable(wanted, existing));
            assert(to_enable(wanted, existing).len() > 0);
        }
    }
}

/// A pass whose steps all succeed leaves nothing to do: a second pass over
/// the same requests, listed in any order, plans no step, so it adds no
/// shard and meets no error.
pub proof fn lemma_reconciliation_idempotence(
    existing: Seq<LocalShardView>,
    wanted: Seq<CloneServiceRequestView>,
    outcomes: Seq<Option<Seq<char>>>,
    relisted: Seq<CloneServiceRequestView>,
)
    requires
        outcomes.len() == reconcile_plan(wanted, existing).len(),
        all_succeeded(outcomes),
        forall|r: CloneServiceRequestView| relisted.contains(r) ==> wanted.contains(r),
    ensures
        ({
            let fin = after_actions(existing, reconcile_plan(wanted, existing), outcomes);
            &&& reconcile_plan(relisted, fin).len() == 0
            &&& after_actions(fin, reconcile_plan(relisted, fin), Seq::empty()) == fin
        }),
{
    let m = missing(wanted, existing);
    let ids = to_enable(wanted, existing);
    let om = outcomes.take(m.len() as int);
    let c = created(m, om);
    let mid = existing + c;
    let fin = after_actions(existing, reconcile_plan(wanted, existing), outcomes);
    lemma_plan_keeps_enabled(existing, wanted, outcomes);
    // every listed request has a shard
    assert forall|r: CloneServiceRequestView| relisted.contains(r) implies has_shard(fin, r) by {
        if has_shard(existing, r) {
            let k = choose|k: int| 0 <= k < existing.len() && (#[trigger] existing[k]).request == r;
            assert(mid[k] == existing[k]);
            assert(fin[k].request == r);
        } else {
            lemma_missing_contains(wanted, existing, r);
            let i = choose|i: int| 0 <= i < m.len() && m[i] == r;
            assert(outcomes[i] is Some);
            assert(om[i] == outcomes[i]);
            lemma_created_contains(m, om, i);
            let x = LocalShardView { request: r, clone_id: om[i]->Some_0, enabled: true, cloned: true };
            let q = choose|q: int| 0 <= q < c.len() && c[q] == x;
            assert(mid[existing.len() + q] == x);
            assert(fin[existing.len() + q].request == r);
        }
    }
    if missing(relisted, fin).len() > 0 {
        let r = missing(relisted, fin)[0];
        lemma_nonempty_contains(missing(relisted, fin));
        lemma_missing_contains(relisted, fin, r);
    }
    // every shard of a listed request is enabled
    assert forall|k: int| 0 <= k < fin.len() && relisted.contains(#[trigger] fin[k].request) implies fin[k].enabled by {
        if k >= existing.len() {
            lemma_created_requests(m, om, k - existing.len());
            assert(mid[k] == c[k - existing.len()]);
        } else {
            assert(mid[k] == existing[k]);
            if !existing[k].enabled {
                lemma_to_enable_contains(wanted, existing, existing[k].clone_id);
                let p = choose|p: int| 0 <= p < ids.len() && ids[p] == existing[k].clone_id;
                assert(outcomes[m.len() + p] is Some);
            }
        }
    }
    if to_enable(relisted, fin).len() > 0 {
        let id = to_enable(relisted, fin)[0];
        lemma_nonempty_contains(to_enable(relisted, fin));
        lemma_to_enable_contains(relisted, fin, id);
    }
    assert(reconcile_plan(relisted, fin).len() == 0);
}

/// Reconciliation converges.  A pass never binds a second shard to a
/// request, whatever its steps' outcomes; once a pass has nothing to do,
/// every wanted request has exactly one shard, and it is enabled; and a pass
/// whose steps all succeed gets there at once, whatever the order in which
/// the requests are listed.
pub proof fn lemma_reconciliation_convergence(
    existing: Seq<LocalShardView>,
    wanted: Seq<CloneServiceRequestView>,
    outcomes: Seq<Option<Seq<char>>>,
    relisted: Seq<CloneServiceRequestView>,
)
    requires
        unique_requests(existing),
        outcomes.len() == reconcile_plan(wanted, existing).len(),
    ensures
        ({
            let fin = after_actions(existing, reconcile_plan(wanted, existing), outcomes);
            &&& unique_requests(fin)
            &&& reconcile_plan(wanted, existing).len() == 0 ==> forall|r: CloneServiceRequestView|
                wanted.contains(r) ==> one_enabled_shard(existing, r)
            &&& (all_succeeded(outcomes) && relisted.to_set() == wanted.to_set()) ==> {
                &&& reconcile_plan(relisted, fin).len() == 0
                &&& forall|r: CloneServiceRequestView| relisted.contains(r) ==> one_enabled_shard(fin, r)
            }
        }),
{
    let m = missing(wanted, existing);
    let om = outcomes.take(m.len() as int);
    let mid = existing + created(m, om);
    let fin = after_actions(existing, reconcile_plan(wanted, existing), outcomes);
    lemma_missing_no_duplicates(wanted, existing);
    assert forall|i: int| 0 <= i < m.len() implies !has_shard(existing, #[trigger] m[i]) by {
        assert(m.contains(m[i]));
        lemma_missing_contains(wanted, existing, m[i]);
    }
    lemma_created_unique(existing, m, om);
    lemma_plan_keeps_enabled(existing, wanted, outcomes);
    assert forall|i: int, j: int|
        0 <= i < fin.len() && 0 <= j < fin.len() && (#[trigger] fin[i]).request == (#[trigger] fin[j]).request
            implies i == j by {
        assert(mid[i].request == fin[i].request);
        assert(mid[j].request == fin[j].request);
    }
    if reconcile_plan(wanted, existing).len() == 0 {
        lemma_quiescent(existing, wanted);
    }
    if all_succeeded(outcomes) && relisted.to_set() == wanted.to_set() {
        assert forall|r: CloneServiceRequestView| relisted.contains(r) implies wanted.contains(r) by {
            assert(relisted.to_set().contains(r));
        }
        lemma_reconciliation_idempotence(existing, wanted, outcomes, relisted);
        lemma_quiescent(fin, relisted);
    }
}

/// The requests the shards are bound to, each with whether its shard is
/// enabled.
pub open spec fn request_states(shards: Seq<LocalShardView>) -> Set<(CloneServiceRequestView, bool)> {
    Set::new(
        |x: (CloneServiceRequestView, bool)|
            exists|k: int| 0 <= k < shards.len() && (shards[k].request, shards[k].enabled) == x,
    )
}

/// Starting from a node with no shards, the convergence law holds with no
/// further condition.
pub proof fn lemma_convergence_from_no_shards(
    wanted: Seq<CloneServiceRequestView>,
    outcomes: Seq<Option<Seq<char>>>,
    relisted: Seq<CloneServiceRequestView>,
)
    requires
        outcomes.len() == reconcile_plan(wanted, Seq::empty()).len(),
    ensures
        ({
            let fin = after_actions(Seq::empty(), reconcile_plan(wanted, Seq::empty()), outcomes);
            &&& unique_requests(fin)
            &&& (all_succeeded(outcomes) && relisted.to_set() == wanted.to_set()) ==> {
                &&& reconcile_plan(relisted, fin).len() == 0
                &&& forall|r: CloneServiceRequestView| relisted.contains(r) ==> one_enabled_shard(fin, r)
            }
        }),
{
    lemma_reconciliation_convergence(Seq::empty(), wanted, outcomes, relisted);
}

proof fn lemma_to_enable_same(first: Seq<CloneServiceRequestView>, second: Seq<CloneServiceRequestView>, shards: Seq<LocalShardView>)
    requires
        first.to_set() == second.to_set(),
    ensures
        to_enable(first, shards) == to_enable(second, shards),
    decreases shards.len(),
{
    if shards.len() > 0 {
        lemma_to_enable_same(first, second, shards.drop_last());
        let r = shards.last().request;
        assert(first.to_set().contains(r) == first.contains(r));
        assert(second.to_set().contains(r) == second.contains(r));
        assert(first.contains(r) == second.contains(r));
        assert(to_enable(first, shards.drop_last()) == to_enable(second, shards.drop_last()));
    }
}

proof fn lemma_states_subset(
    existing: Seq<LocalShardView>,
    first: Seq<CloneServiceRequestView>,
    second: Seq<CloneServiceRequestView>,
    o1: Seq<Option<Seq<char>>>,
    o2: Seq<Option<Seq<char>>>,
)
    requires
        first.to_set() == second.to_set(),
        o1.len() == reconcile_plan(first, existing).len(),
        o2.len() == reconcile_plan(second, existing).len(),
        all_succeeded(o1),
        all_succeeded(o2),
    ensures
        request_states(after_actions(existing, reconcile_plan(first, existing), o1)).subset_of(
            request_states(after_actions(existing, reconcile_plan(second, existing), o2)),
        ),
{
    let f1 = after_actions(existing, reconcile_plan(first, existing), o1);
    let f2 = after_actions(existing, reconcile_plan(second, existing), o2);
    let m1 = missing(first, existing);
    let m2 = missing(second, existing);
    let om1 = o1.take(m1.len() as int);
    let om2 = o2.take(m2.len() as int);
    let c1 = created(m1, om1);
    let c2 = created(m2, om2);
    let mid1 = existing + c1;
    let mid2 = existing + c2;
    let ids = to_enable(first, existing);
    lemma_to_enable_same(first, second, existing);
    lemma_plan_keeps_enabled(existing, first, o1);
    lemma_plan_keeps_enabled(existing, second, o2);
    assert forall|x: (CloneServiceRequestView, bool)| request_states(f1).contains(x) implies request_states(f2).contains(
        x,
    ) by {
        let k = choose|k: int| 0 <= k < f1.len() && (f1[k].request, f1[k].enabled) == x;
        if k < existing.len() {
            assert(mid1[k] == existing[k] && mid2[k] == existing[k]);
            assert(f1[k].enabled == f2[k].enabled) by {
                if exists|p: int| 0 <= p < ids.len() && ids[p] == mid1[k].clone_id && (#[trigger] o1[m1.len() + p]) is Some {
                    let p = choose|p: int|
                        0 <= p < ids.len() && ids[p] == mid1[k].clone_id && (#[trigger] o1[m1.len() + p]) is Some;
                    assert(o2[m2.len() + p] is Some);
                }
                if exists|p: int| 0 <= p < ids.len() && ids[p] == mid2[k].clone_id && (#[trigger] o2[m2.len() + p]) is Some {
                    let p = choose|p: int|
                        0 <= p < ids.len() && ids[p] == mid2[k].clone_id && (#[trigger] o2[m2.len() + p]) is Some;
                    assert(o1[m1.len() + p] is Some);
                }
            }
            assert((f2[k].request, f2[k].enabled) == x);
        } else {
            let i = k - existing.len();
            assert(mid1[k] == c1[i]);
            lemma_created_requests(m1, om1, i);
            let r = c1[i].request;
            lemma_missing_contains(first, existing, r);
            assert(first.to_set().contains(r));
            assert(second.to_set().contains(r));
            lemma_missing_contains(second, existing, r);
            let j = choose|j: int| 0 <= j < m2.len() && m2[j] == r;
            assert(om2[j] == o2[j]);
            assert(o2[j] is Some);
            lemma_created_contains(m2, om2, j);
            let y = LocalShardView { request: r, clone_id: om2[j]->Some_0, enabled: true, cloned: true };
            let q = choose|q: int| 0 <= q < c2.len() && c2[q] == y;
            assert(mid2[existing.len() + q] == y);
            assert(f2[existing.len() + q].request == r);
            assert(f2[existing.len() + q].enabled);
            assert(x == (r, true));
            assert((f2[existing.len() + q].request, f2[existing.len() + q].enabled) == x);
        }
    }
}

/// The outcome of a fully successful pass does not depend on the order in
/// which the requests are listed: the same requests end up bound to shards,
/// each enabled or not alike.
pub proof fn lemma_reconciliation_order_independent(
    existing: Seq<LocalShardView>,
    first: Seq<CloneServiceRequestView>,
    second: Seq<CloneServiceRequestView>,
    o1: Seq<Option<Seq<char>>>,
    o2: Seq<Option<Seq<char>>>,
)
    requires
        first.to_set() == second.to_set(),
        o1.len() == reconcile_plan(first, existing).len(),
        o2.len() == reconcile_plan(second, existing).len(),
        all_succeeded(o1),
        all_succeeded(o2),
    ensures
        request_states(after_actions(existing, reconcile_plan(first, existing), o1)) == request_states(
            after_actions(existing, reconcile_plan(second, existing), o2),
        ),
{
    lemma_states_subset(existing, first, second, o1, o2);
    lemma_states_subset(existing, second, first, o2, o1);
    assert(request_states(after_actions(existing, reconcile_plan(first, existing), o1)) =~= request_states(
        after_actions(existing, reconcile_plan(second, existing), o2),
    ));
}

/// Whether some shard of `existing` is bound to `r`.
pub fn has_shard_for(existing: &Vec<LocalShard>, r: &CloneServiceRequest) -> (b: bool)
    ensures
        b == has_shard(shards_view(existing@), r@),
{
    let ghost ev = shards_view(existing@);
    let mut i: usize = 0;
    while i < existing.len()
        invariant
            i <= existing.len(),
            ev == shards_view(existing@),
            forall|j: int| 0 <= j < i ==> ev[j].request != r@,
        decreases existing.len() - i,
    {
        if existing[i].request == *r {
            assert(ev[i as int].request == r@);
            return true;
        }
        i = i + 1;
    }
    false
}

/// Plans one pass: a creation for each wanted request that no shard is bound
/// to, then an enabling for each disabled shard of a wanted request.
pub fn plan_reconciliation(wanted: &Vec<CloneServiceRequest>, existing: &Vec<LocalShard>) -> (r: Vec<ShardAction>)
    ensures
        actions_view(r@) == reconcile_plan(requests_view(wanted@), shards_view(existing@)),
{
    let ghost wv = requests_view(wanted@);
    let ghost ev = shards_view(existing@);
    let mut actions: Vec<ShardAction> = Vec::new();
    let mut i: usize = 0;
    while i < wanted.len()
        invariant
            i <= wanted.len(),
            wv == requests_view(wanted@),
            ev == shards_view(existing@),
            actions_view(actions@) == creates(missing(wv.take(i as int), ev)),
        decreases wanted.len() - i,
    {
        let ghost prev = actions@;
        assert(wv.take(i + 1).drop_last() =~= wv.take(i as int));
        assert(wv.take(i + 1).last() == wv[i as int]);
        if !has_shard_for(existing, &wanted[i]) && !contains_request(wanted, i, &wanted[i]) {
            actions.push(ShardAction::Create(wanted[i].duplicate()));
            assert(actions_view(actions@) =~= actions_view(prev).push(ShardActionView::Create(wv[i as int])));
            assert(creates(missing(wv.take(i + 1), ev)) =~= creates(missing(wv.take(i as int), ev)).push(
                ShardActionView::Create(wv[i as int]),
            ));
        }
        i = i + 1;
    }
    assert(wv.take(wanted.len() as int) =~= wv);
    let mut j: usize = 0;
    assert(enables(to_enable(wv, ev.take(0))) =~= Seq::<ShardActionView>::empty());
    assert(actions_view(actions@) =~= creates(missing(wv, ev)) + enables(to_enable(wv, ev.take(0))));
    while j < existing.len()
        invariant
            j <= existing.len(),
            wv == requests_view(wanted@),
            ev == shards_view(existing@),
            actions_view(actions@) == creates(missing(wv, ev)) + enables(to_enable(wv, ev.take(j as int))),
        decreases existing.len() - j,
    {
        let ghost prev = actions@;
        assert(ev.take(j + 1).drop_last() =~= ev.take(j as int));
        assert(ev.take(j + 1).last() == ev[j as int]);
        assert(wv.take(wanted.len() as int) =~= wv);
        if !existing[j].enabled && contains_request(wanted, wanted.len(), &existing[j].request) {
            actions.push(ShardAction::Enable(existing[j].clone_id.clone()));
            assert(actions_view(actions@) =~= actions_view(prev).push(ShardActionView::Enable(ev[j as int].clone_id)));
            assert(enables(to_enable(wv, ev.take(j + 1))) =~= enables(to_enable(wv, ev.take(j as int))).push(
                ShardActionView::Enable(ev[j as int].clone_id),
            ));
        }
        j = j + 1;
    }
    assert(ev.take(existing.len() as int) =~= ev);
    actions
}

fn set_enabled_exec(shards: &Vec<LocalShard>, id: &String, on: bool) -> (r: Vec<LocalShard>)
    ensures
        shards_view(r@) == set_enabled(shards_view(shards@), id@, on),
{
    let ghost target = set_enabled(shards_view(shards@), id@, on);
    let mut r: Vec<LocalShard> = Vec::new();
    let mut i: usize = 0;
    while i < shards.len()
        invariant
            i <= shards.len(),
            target == set_enabled(shards_view(shards@), id@, on),
            shards_view(r@) =~= target.take(i as int),
        decreases shards.len() - i,
    {
        let ghost prev = r@;
        let mut s = shards[i].duplicate();
        if s.clone_id == *id {
            s.enabled = on;
        }
        r.push(s);
        assert(shards_view(r@) =~= shards_view(prev).push(target[i as int]));
        assert(target.take(i + 1) =~= target.take(i as int).push(target[i as int]));
        i = i + 1;
    }
    assert(target.take(shards.len() as int) =~= target);
    r
}

/// One pass in progress: the planned steps, how many have been reported,
/// and the node's shards as the reported outcomes leave them.
pub struct ReconcilePass {
    actions: Vec<ShardAction>,
    next: usize,
    shards: Vec<LocalShard>,
    errors: Vec<String>,
    start: Ghost<Seq<LocalShardView>>,
    outcomes: Ghost<Seq<Option<Seq<char>>>>,
}

impl ReconcilePass {
    /// The planned steps.
    pub closed spec fn planned(&self) -> Seq<ShardActionView> {
        actions_view(self.actions@)
    }

    /// The shards when the pass began.
    pub closed spec fn initial(&self) -> Seq<LocalShardView> {
        self.start@
    }

    /// The outcomes reported so far, one per step.
    pub closed spec fn reported(&self) -> Seq<Option<Seq<char>>> {
        self.outcomes@
    }

    /// The shards as the reported outcomes leave them.
    pub closed spec fn current(&self) -> Seq<LocalShardView> {
        shards_view(self.shards@)
    }

    pub closed spec fn failures(&self) -> Seq<Seq<char>> {
        crate::text::strings_view(self.errors@)
    }

    pub closed spec fn wf(&self) -> bool {
        &&& self.next <= self.actions.len()
        &&& self.outcomes@.len() == self.next
        &&& shards_view(self.shards@) == after_actions(
            self.start@,
            actions_view(self.actions@).take(self.next as int),
            self.outcomes@,
        )
    }

    /// Starts a pass that runs `actions` on the shards `existing`.
    pub fn new(existing: Vec<LocalShard>, actions: Vec<ShardAction>) -> (p: ReconcilePass)
        ensures
            p.wf(),
            p.planned() == actions_view(actions@),
            p.initial() == shards_view(existing@),
            p.reported().len() == 0,
            p.current() == shards_view(existing@),
            p.failures().len() == 0,
    {
        let p = ReconcilePass {
            actions,
            next: 0,
            shards: existing,
            errors: Vec::new(),
            start: Ghost(shards_view(existing@)),
            outcomes: Ghost(Seq::empty()),
        };
        assert(actions_view(p.actions@).take(0) =~= Seq::<ShardActionView>::empty());
        assert(crate::text::strings_view(p.errors@) =~= Seq::<Seq<char>>::empty());
        p
    }

    /// Starts a pass that brings `existing` in line with the `wanted` requests.
    pub fn reconcile(wanted: &Vec<CloneServiceRequest>, existing: Vec<LocalShard>) -> (p: ReconcilePass)
        ensures
            p.wf(),
            p.planned() == reconcile_plan(requests_view(wanted@), shards_view(existing@)),
            p.initial() == shards_view(existing@),
            p.reported().len() == 0,
            p.current() == shards_view(existing@),
            p.failures().len() == 0,
    {
        let actions = plan_reconciliation(wanted, &existing);
        ReconcilePass::new(existing, actions)
    }

    /// The step to perform next, if any is left.
    pub fn next_action(&self) -> (r: Option<&ShardAction>)
        requires
            self.wf(),
        ensures
            match r {
                Some(a) => self.reported().len() < self.planned().len() && a@ == self.planned()[
                    self.reported().len() as int],
                None => self.reported().len() == self.planned().len(),
            },
    {
        if self.next < self.actions.len() {
            Some(&self.actions[self.next])
        } else {
            None
        }
    }

    pub fn is_finished(&self) -> (r: bool)
        requires
            self.wf(),
        ensures
            r == (self.reported().len() == self.planned().len()),
            self.reported().len() <= self.planned().len(),
    {
        self.next == self.actions.len()
    }

    /// Reports how the next step went: `Ok` with the clone id of the new
    /// shard for a creation (any text for another step), or `Err` with what
    /// went wrong.  The pass moves on either way.
    pub fn report(&mut self, result: Result<String, String>)
        requires
            old(self).wf(),
            old(self).reported().len() < old(self).planned().len(),
        ensures
            final(self).wf(),
            final(self).reported().len() <= final(self).planned().len(),
            final(self).planned() == old(self).planned(),
            final(self).initial() == old(self).initial(),
            final(self).reported() == old(self).reported().push(
                match result {
                    Ok(id) => Some(id@),
                    Err(_) => None,
                },
            ),
            final(self).current() == apply_action(
                old(self).current(),
                old(self).planned()[old(self).reported().len() as int],
                final(self).reported().last(),
            ),
            final(self).failures() == match result {
                Ok(_) => old(self).failures(),
                Err(e) => old(self).failures().push(e@),
            },
    {
        let ghost old_errors = self.errors@;
        let ghost outcome: Option<Seq<char>> = match &result {
            Ok(id) => Some(id@),
            Err(_) => None,
        };
        let ghost old_shards = shards_view(self.shards@);
        let ok = match result {
            Ok(id) => Some(id),
            Err(e) => {
                self.errors.push(e);
                assert(crate::text::strings_view(self.errors@) =~= crate::text::strings_view(old_errors).push(e@));
                None
            },
        };
        match ok {
            Some(id) => {
                match &self.actions[self.next] {
                    ShardAction::Create(r) => {
                        let shard = LocalShard { request: r.duplicate(), clone_id: id, enabled: true, cloned: true };
                        self.shards.push(shard);
                        assert(shards_view(self.shards@) =~= old_shards.push(shard@));
                    },
                    ShardAction::Enable(c) => {
                        self.shards = set_enabled_exec(&self.shards, c, true);
                    },
                    ShardAction::Disable(c) => {
                        self.shards = set_enabled_exec(&self.shards, c, false);
                    },
                }
            },
            None => {},
        }
        let ghost av = actions_view(self.actions@);
        assert(av.take(self.next + 1).drop_last() =~= av.take(self.next as int));
        assert(av.take(self.next + 1).last() == av[self.next as int]);
        self.outcomes = Ghost(self.outcomes@.push(outcome));
        assert(self.outcomes@.drop_last() =~= old(self).outcomes@);
        self.next = self.next + 1;
    }

    /// The shards as the reported outcomes leave them.
    pub fn shards(&self) -> (r: &Vec<LocalShard>)
        ensures
            shards_view(r@) == self.current(),
    {
        &self.shards
    }

    /// What went wrong in the failed steps, in order.
    pub fn errors(&self) -> (r: &Vec<String>)
        ensures
            crate::text::strings_view(r@) == self.failures(),
    {
        &self.errors
    }
}

/// The first cloned shard whose network seed is `seed`.
pub open spec fn clone_with_seed(shards: Seq<LocalShardView>, seed: Seq<char>) -> Option<LocalShardView>
    decreases shards.len(),
{
    if shards.len() == 0 {
        None
    } else if shards[0].cloned && shards[0].request.network_seed == seed {
        Some(shards[0])
    } else {
        clone_with_seed(shards.skip(1), seed)
    }
}

pub open spec fn with_seed(base: CloneServiceRequestView, seed: Seq<char>) -> CloneServiceRequestView {
    CloneServiceRequestView { network_seed: seed, ..base }
}

/// For each supported seed, once: enable its cloned shard if that is
/// disabled, or create one from `base` if there is none.
pub open spec fn seed_actions(seeds: Seq<Seq<char>>, shards: Seq<LocalShardView>, base: CloneServiceRequestView) -> Seq<
    ShardActionView,
>
    decreases seeds.len(),
{
    if seeds.len() == 0 {
        Seq::empty()
    } else {
        let rest = seed_actions(seeds.drop_last(), shards, base);
        let seed = seeds.last();
        if seeds.drop_last().contains(seed) {
            rest
        } else {
            match clone_with_seed(shards, seed) {
                Some(c) => if c.enabled {
                    rest
                } else {
                    rest.push(ShardActionView::Enable(c.clone_id))
                },
                None => rest.push(ShardActionView::Create(with_seed(base, seed))),
            }
        }
    }
}

/// Disable each enabled cloned shard whose seed is not supported.
pub open spec fn disable_actions(seeds: Seq<Seq<char>>, shards: Seq<LocalShardView>) -> Seq<ShardActionView>
    decreases shards.len(),
{
    if shards.len() == 0 {
        Seq::empty()
    } else {
        let rest = disable_actions(seeds, shards.drop_last());
        let s = shards.last();
        if s.cloned && s.enabled && !seeds.contains(s.request.network_seed) {
            rest.push(ShardActionView::Disable(s.clone_id))
        } else {
            rest
        }
    }
}

/// The steps that make the cloned shards match a fixed list of supported
/// seeds.
pub open spec fn supported_seeds_plan(seeds: Seq<Seq<char>>, shards: Seq<LocalShardView>, base: CloneServiceRequestView) -> Seq<
    ShardActionView,
> {
    seed_actions(seeds, shards, base) + disable_actions(seeds, shards)
}

fn find_clone_with_seed(existing: &Vec<LocalShard>, seed: &String) -> (r: Option<usize>)
    ensures
        match r {
            Some(i) => i < existing.len() && clone_with_seed(shards_view(existing@), seed@) == Some(
                shards_view(existing@)[i as int],
            ),
            None => clone_with_seed(shards_view(existing@), seed@) is None,
        },
{
    let ghost ev = shards_view(existing@);
    let mut i: usize = 0;
    assert(ev.skip(0) =~= ev);
    while i < existing.len()
        invariant
            i <= existing.len(),
            ev == shards_view(existing@),
            clone_with_seed(ev, seed@) == clone_with_seed(ev.skip(i as int), seed@),
        decreases existing.len() - i,
    {
        assert(ev.skip(i as int)[0] == ev[i as int]);
        assert(ev.skip(i as int).skip(1) =~= ev.skip(i + 1));
        if existing[i].cloned && existing[i].request.network_seed == *seed {
            return Some(i);
        }
        i = i + 1;
    }
    assert(ev.skip(i as int).len() == 0);
    None
}

/// Whether `s` is among the first `n` strings of `v`.
fn contains_string(v: &Vec<String>, n: usize, s: &String) -> (b: bool)
    requires
        n <= v.len(),
    ensures
        b == crate::text::strings_view(v@).take(n as int).contains(s@),
{
    let ghost t = crate::text::strings_view(v@).take(n as int);
    let mut i: usize = 0;
    while i < n
        invariant
            n <= v.len(),
            i <= n,
            t == crate::text::strings_view(v@).take(n as int),
            forall|j: int| 0 <= j < i ==> t[j] != s@,
        decreases n - i,
    {
        if v[i] == *s {
            assert(t[i as int] == s@);
            return true;
        }
        i = i + 1;
    }
    false
}

/// Plans the steps that leave exactly the supported seeds running as cloned
/// shards: enable or create one per supported seed, disable the others.
pub fn plan_supported_seeds(seeds: &Vec<String>, existing: &Vec<LocalShard>, base: &CloneServiceRequest) -> (r: Vec<
    ShardAction,
>)
    ensures
        actions_view(r@) == supported_seeds_plan(crate::text::strings_view(seeds@), shards_view(existing@), base@),
{
    let ghost sv = crate::text::strings_view(seeds@);
    let ghost ev = shards_view(existing@);
    let mut actions: Vec<ShardAction> = Vec::new();
    let mut i: usize = 0;
    while i < seeds.len()
        invariant
            i <= seeds.len(),
            sv == crate::text::strings_view(seeds@),
            ev == shards_view(existing@),
            actions_view(actions@) == seed_actions(sv.take(i as int), ev, base@),
        decreases seeds.len() - i,
    {
        let ghost prev = actions@;
        assert(sv.take(i + 1).drop_last() =~= sv.take(i as int));
        assert(sv.take(i + 1).last() == sv[i as int]);
        if !contains_string(seeds, i, &seeds[i]) {
            match find_clone_with_seed(existing, &seeds[i]) {
                Some(k) => {
                    if !existing[k].enabled {
                        actions.push(ShardAction::Enable(existing[k].clone_id.clone()));
                        assert(actions_view(actions@) =~= actions_view(prev).push(
                            ShardActionView::Enable(ev[k as int].clone_id),
                        ));
                    }
                },
                None => {
                    let mut request = base.duplicate();
                    request.network_seed = seeds[i].clone();
                    actions.push(ShardAction::Create(request));
                    assert(actions_view(actions@) =~= actions_view(prev).push(
                        ShardActionView::Create(with_seed(base@, sv[i as int])),
                    ));
                },
            }
        }
        i = i + 1;
    }
    assert(sv.take(seeds.len() as int) =~= sv);
    let ghost seeded = actions_view(actions@);
    let mut j: usize = 0;
    assert(actions_view(actions@) =~= seeded + disable_actions(sv, ev.take(0)));
    while j < existing.len()
        invariant
            j <= existing.len(),
            sv == crate::text::strings_view(seeds@),
            ev == shards_view(existing@),
            seeded == seed_actions(sv, ev, base@),
            actions_view(actions@) == seeded + disable_actions(sv, ev.take(j as int)),
        decreases existing.len() - j,
    {
        let ghost prev = actions@;
        assert(ev.take(j + 1).drop_last() =~= ev.take(j as int));
        assert(ev.take(j + 1).last() == ev[j as int]);
        assert(sv.take(seeds.len() as int) =~= sv);
        if existing[j].cloned && existing[j].enabled && !contains_string(
            seeds,
            seeds.len(),
            &existing[j].request.network_seed,
        ) {
            actions.push(ShardAction::Disable(existing[j].clone_id.clone()));
            assert(actions_view(actions@) =~= actions_view(prev).push(ShardActionView::Disable(ev[j as int].clone_id)));
        }
        j = j + 1;
    }
    assert(ev.take(existing.len() as int) =~= ev);
    actions
}

/// The request of the first shard the node was installed with, as opposed to
/// one made by cloning: the template for new shards of the role.
pub fn installed_request(existing: &Vec<LocalShard>) -> (r: Option<CloneServiceRequest>)
    ensures
        match r {
            Some(q) => exists|i: int|
                0 <= i < existing.len() && !existing@[i].cloned && existing@[i].request@ == q@ && forall|j: int|
                    0 <= j < i ==> (#[trigger] existing@[j]).cloned,
            None => forall|i: int| 0 <= i < existing.len() ==> (#[trigger] existing@[i]).cloned,
        },
{
    let mut i: usize = 0;
    while i < existing.len()
        invariant
            i <= existing.len(),
            forall|j: int| 0 <= j < i ==> (#[trigger] existing@[j]).cloned,
        decreases existing.len() - i,
    {
        if !existing[i].cloned {
            return Some(existing[i].request.duplicate());
        }
        i = i + 1;
    }
    None
}

proof fn lemma_clone_with_seed(shards: Seq<LocalShardView>, seed: Seq<char>)
    ensures
        match clone_with_seed(shards, seed) {
            Some(c) => exists|k: int|
                0 <= k < shards.len() && shards[k] == c && c.cloned && c.request.network_seed == seed,
            None => forall|k: int|
                0 <= k < shards.len() ==> !((#[trigger] shards[k]).cloned && shards[k].request.network_seed == seed),
        },
    decreases shards.len(),
{
    if shards.len() > 0 && !(shards[0].cloned && shards[0].request.network_seed == seed) {
        let rest = shards.skip(1);
        lemma_clone_with_seed(rest, seed);
        match clone_with_seed(rest, seed) {
            Some(c) => {
                let k = choose|k: int| 0 <= k < rest.len() && rest[k] == c && c.cloned && c.request.network_seed == seed;
                assert(shards[k + 1] == rest[k]);
            },
            None => {
                assert forall|k: int| 0 <= k < shards.len() implies !((#[trigger] shards[k]).cloned
                    && shards[k].request.network_seed == seed) by {
                    if k > 0 {
                        assert(shards[k] == rest[k - 1]);
                    }
                }
            },
        }
    } else if shards.len() > 0 {
        assert(shards[0] == shards[0]);
    }
}

/// What the per-seed steps hold: enablings of cloned shards of supported
/// seeds, and creations for supported seeds; and one step for each supported
/// seed whose cloned shard is missing or disabled.
proof fn lemma_seed_actions(seeds: Seq<Seq<char>>, shards: Seq<LocalShardView>, base: CloneServiceRequestView)
    ensures
        forall|i: int|
            0 <= i < seed_actions(seeds, shards, base).len() ==> match #[trigger] seed_actions(seeds, shards, base)[i] {
                ShardActionView::Enable(c) => exists|k: int|
                    0 <= k < shards.len() && shards[k].clone_id == c && shards[k].cloned && seeds.contains(
                        shards[k].request.network_seed,
                    ),
                ShardActionView::Create(r) => seeds.contains(r.network_seed),
                ShardActionView::Disable(_) => false,
            },
        forall|s: Seq<char>|
            #[trigger] seeds.contains(s) ==> match clone_with_seed(shards, s) {
                Some(c) => !c.enabled ==> seed_actions(seeds, shards, base).contains(ShardActionView::Enable(c.clone_id)),
                None => seed_actions(seeds, shards, base).contains(ShardActionView::Create(with_seed(base, s))),
            },
    decreases seeds.len(),
{
    if seeds.len() > 0 {
        let d = seeds.drop_last();
        let last = seeds.last();
        let rest = seed_actions(d, shards, base);
        let all = seed_actions(seeds, shards, base);
        lemma_seed_actions(d, shards, base);
        lemma_clone_with_seed(shards, last);
        assert(seeds == d.push(last));
        assert forall|x: Seq<char>| d.contains(x) implies seeds.contains(x) by {
            crate::index::lemma_push_contains(d, last, x);
        }
        assert(seeds.contains(last)) by {
            crate::index::lemma_push_contains(d, last, last);
        }
        assert forall|i: int| 0 <= i < all.len() implies match #[trigger] all[i] {
            ShardActionView::Enable(c) => exists|k: int|
                0 <= k < shards.len() && shards[k].clone_id == c && shards[k].cloned && seeds.contains(
                    shards[k].request.network_seed,
                ),
            ShardActionView::Create(r) => seeds.contains(r.network_seed),
            ShardActionView::Disable(_) => false,
        } by {
            if i < rest.len() {
                assert(all[i] == rest[i]);
                match rest[i] {
                    ShardActionView::Enable(c) => {
                        let k = choose|k: int|
                            0 <= k < shards.len() && shards[k].clone_id == c && shards[k].cloned && d.contains(
                                shards[k].request.network_seed,
                            );
                        assert(seeds.contains(shards[k].request.network_seed));
                    },
                    _ => {},
                }
            }
        }
        assert forall|s: Seq<char>| #[trigger] seeds.contains(s) implies match clone_with_seed(shards, s) {
            Some(c) => !c.enabled ==> all.contains(ShardActionView::Enable(c.clone_id)),
            None => all.contains(ShardActionView::Create(with_seed(base, s))),
        } by {
            crate::index::lemma_push_contains(d, last, s);
            if d.contains(s) {
                match clone_with_seed(shards, s) {
                    Some(c) => {
                        if !c.enabled {
                            crate::index::lemma_push_contains(rest, all.last(), ShardActionView::Enable(c.clone_id));
                        }
                    },
                    None => {
                        crate::index::lemma_push_contains(rest, all.last(), ShardActionView::Create(with_seed(base, s)));
                    },
                }
            } else {
                assert(s == last);
                match clone_with_seed(shards, s) {
                    Some(c) => {
                        if !c.enabled {
                            crate::index::lemma_push_contains(rest, ShardActionView::Enable(c.clone_id), ShardActionView::Enable(c.clone_id));
                        }
                    },
                    None => {
                        crate::index::lemma_push_contains(rest, ShardActionView::Create(with_seed(base, s)), ShardActionView::Create(with_seed(base, s)));
                    },
                }
            }
        }
    }
}

/// The disabling steps: exactly one per enabled cloned shard of an
/// unsupported seed.
proof fn lemma_disable_actions(seeds: Seq<Seq<char>>, shards: Seq<LocalShardView>)
    ensures
        forall|i: int|
            0 <= i < disable_actions(seeds, shards).len() ==> match #[trigger] disable_actions(seeds, shards)[i] {
                ShardActionView::Disable(c) => exists|k: int|
                    0 <= k < shards.len() && shards[k].clone_id == c && shards[k].cloned && shards[k].enabled
                        && !seeds.contains(shards[k].request.network_seed),
                _ => false,
            },
        forall|k: int|
            0 <= k < shards.len() && (#[trigger] shards[k]).cloned && shards[k].enabled && !seeds.contains(
                shards[k].request.network_seed,
            ) ==> disable_actions(seeds, shards).contains(ShardActionView::Disable(shards[k].clone_id)),
    decreases shards.len(),
{
    if shards.len() > 0 {
        let d = shards.drop_last();
        let rest = disable_actions(seeds, d);
        let all = disable_actions(seeds, shards);
        lemma_disable_actions(seeds, d);
        assert forall|i: int| 0 <= i < all.len() implies match #[trigger] all[i] {
            ShardActionView::Disable(c) => exists|k: int|
                0 <= k < shards.len() && shards[k].clone_id == c && shards[k].cloned && shards[k].enabled
                    && !seeds.contains(shards[k].request.network_seed),
            _ => false,
        } by {
            if i < rest.len() {
                assert(all[i] == rest[i]);
                if let ShardActionView::Disable(c) = rest[i] {
                    let k = choose|k: int|
                        0 <= k < d.len() && d[k].clone_id == c && d[k].cloned && d[k].enabled && !seeds.contains(
                            d[k].request.network_seed,
                        );
                    assert(shards[k] == d[k]);
                }
            } else {
                assert(shards[shards.len() - 1] == shards.last());
            }
        }
        assert forall|k: int|
            0 <= k < shards.len() && (#[trigger] shards[k]).cloned && shards[k].enabled && !seeds.contains(
                shards[k].request.network_seed,
            ) implies all.contains(ShardActionView::Disable(shards[k].clone_id)) by {
            if k < d.len() {
                assert(d[k] == shards[k]);
                if all != rest {
                    crate::index::lemma_push_contains(rest, all.last(), ShardActionView::Disable(shards[k].clone_id));
                }
            } else {
                crate::index::lemma_push_contains(rest, ShardActionView::Disable(shards[k].clone_id), ShardActionView::Disable(shards[k].clone_id));
            }
        }
    }
}

/// A fully successful run of steps with no disabling: earlier shards keep
/// their binding and get enabled when a step enabled their clone id; every
/// added shard is enabled and comes from a creation step.
proof fn lemma_after_no_disable(s: Seq<LocalShardView>, a: Seq<ShardActionView>, o: Seq<Option<Seq<char>>>)
    requires
        a.len() == o.len(),
        all_succeeded(o),
        forall|i: int| 0 <= i < a.len() ==> !(#[trigger] a[i] is Disable),
    ensures
        ({
            let f = after_actions(s, a, o);
            &&& f.len() >= s.len()
            &&& forall|k: int|
                0 <= k < s.len() ==> {
                    &&& (#[trigger] f[k]).request == s[k].request
                    &&& f[k].clone_id == s[k].clone_id
                    &&& f[k].cloned == s[k].cloned
                    &&& f[k].enabled == (s[k].enabled || a.contains(ShardActionView::Enable(s[k].clone_id)))
                }
            &&& forall|j: int|
                s.len() <= j < f.len() ==> (#[trigger] f[j]).enabled && f[j].cloned && a.contains(
                    ShardActionView::Create(f[j].request),
                )
            &&& forall|p: int|
                0 <= p < a.len() && (#[trigger] a[p]) is Create ==> exists|j: int|
                    s.len() <= j < f.len() && f[j] == LocalShardView {
                        request: a[p]->Create_0,
                        clone_id: o[p]->Some_0,
                        enabled: true,
                        cloned: true,
                    }
        }),
    decreases a.len(),
{
    if a.len() > 0 {
        let ad = a.drop_last();
        let od = o.drop_last();
        assert forall|i: int| 0 <= i < ad.len() implies !(#[trigger] ad[i] is Disable) by {
            assert(ad[i] == a[i]);
        }
        assert forall|i: int| 0 <= i < od.len() implies (#[trigger] od[i]) is Some by {
            assert(od[i] == o[i]);
        }
        lemma_after_no_disable(s, ad, od);
        let g = after_actions(s, ad, od);
        let f = after_actions(s, a, o);
        let last = a.last();
        assert(a == ad.push(last));
        assert(o[a.len() - 1] is Some);
        assert(a[a.len() - 1] == last);
        assert forall|x: ShardActionView| ad.contains(x) implies a.contains(x) by {
            crate::index::lemma_push_contains(ad, last, x);
        }
        assert forall|k: int| 0 <= k < s.len() implies {
            &&& (#[trigger] f[k]).request == s[k].request
            &&& f[k].clone_id == s[k].clone_id
            &&& f[k].cloned == s[k].cloned
            &&& f[k].enabled == (s[k].enabled || a.contains(ShardActionView::Enable(s[k].clone_id)))
        } by {
            crate::index::lemma_push_contains(ad, last, ShardActionView::Enable(s[k].clone_id));
            assert(g[k].request == s[k].request);
        }
        assert forall|j: int| s.len() <= j < f.len() implies (#[trigger] f[j]).enabled && f[j].cloned && a.contains(
            ShardActionView::Create(f[j].request),
        ) by {
            if j < g.len() {
                assert(g[j].enabled);
                crate::index::lemma_push_contains(ad, last, ShardActionView::Create(g[j].request));
            } else {
                crate::index::lemma_push_contains(ad, last, last);
            }
        }
        assert forall|p: int| 0 <= p < a.len() && (#[trigger] a[p]) is Create implies exists|j: int|
            s.len() <= j < f.len() && f[j] == LocalShardView {
                request: a[p]->Create_0,
                clone_id: o[p]->Some_0,
                enabled: true,
                cloned: true,
            } by {
            if p < ad.len() {
                assert(ad[p] == a[p] && od[p] == o[p]);
                let j = choose|j: int|
                    s.len() <= j < g.len() && g[j] == LocalShardView {
                        request: ad[p]->Create_0,
                        clone_id: od[p]->Some_0,
                        enabled: true,
                        cloned: true,
                    };
                assert(f[j] == g[j]);
            } else {
                assert(f[g.len() as int] == LocalShardView {
                    request: a[p]->Create_0,
                    clone_id: o[p]->Some_0,
                    enabled: true,
                    cloned: true,
                });
            }
        }
    }
}

/// A fully successful run of disabling steps: each shard keeps its binding
/// and is disabled when a step named its clone id.
proof fn lemma_after_disables(s: Seq<LocalShardView>, a: Seq<ShardActionView>, o: Seq<Option<Seq<char>>>)
    requires
        a.len() == o.len(),
        all_succeeded(o),
        forall|i: int| 0 <= i < a.len() ==> (#[trigger] a[i]) is Disable,
    ensures
        ({
            let f = after_actions(s, a, o);
            &&& f.len() == s.len()
            &&& forall|k: int|
                0 <= k < s.len() ==> {
                    &&& (#[trigger] f[k]).request == s[k].request
                    &&& f[k].clone_id == s[k].clone_id
                    &&& f[k].cloned == s[k].cloned
                    &&& f[k].enabled == (s[k].enabled && !a.contains(ShardActionView::Disable(s[k].clone_id)))
                }
        }),
    decreases a.len(),
{
    if a.len() > 0 {
        let ad = a.drop_last();
        let od = o.drop_last();
        assert forall|i: int| 0 <= i < ad.len() implies (#[trigger] ad[i]) is Disable by {
            assert(ad[i] == a[i]);
        }
        assert forall|i: int| 0 <= i < od.len() implies (#[trigger] od[i]) is Some by {
            assert(od[i] == o[i]);
        }
        lemma_after_disables(s, ad, od);
        let g = after_actions(s, ad, od);
        let f = after_actions(s, a, o);
        let last = a.last();
        assert(a == ad.push(last));
        assert(o[a.len() - 1] is Some);
        assert(a[a.len() - 1] is Disable);
        assert forall|k: int| 0 <= k < s.len() implies {
            &&& (#[trigger] f[k]).request == s[k].request
            &&& f[k].clone_id == s[k].clone_id
            &&& f[k].cloned == s[k].cloned
            &&& f[k].enabled == (s[k].enabled && !a.contains(ShardActionView::Disable(s[k].clone_id)))
        } by {
            crate::index::lemma_push_contains(ad, last, ShardActionView::Disable(s[k].clone_id));
            assert(g[k].request == s[k].request);
        }
    }
}

/// A supported-seeds pass whose steps all succeed, with clone ids that tell
/// shards apart, leaves every supported seed with an enabled cloned shard and
/// no cloned shard of another seed enabled.
pub proof fn lemma_supported_seeds_converge(
    seeds: Seq<Seq<char>>,
    existing: Seq<LocalShardView>,
    base: CloneServiceRequestView,
    outcomes: Seq<Option<Seq<char>>>,
)
    requires
        forall|i: int, j: int|
            0 <= i < existing.len() && 0 <= j < existing.len() && (#[trigger] existing[i]).clone_id == (
            #[trigger] existing[j]).clone_id ==> i == j,
        outcomes.len() == supported_seeds_plan(seeds, existing, base).len(),
        all_succeeded(outcomes),
        forall|p: int, k: int|
            0 <= p < outcomes.len() && (#[trigger] supported_seeds_plan(seeds, existing, base)[p]) is Create && 0 <= k
                < existing.len() ==> (#[trigger] existing[k]).clone_id != outcomes[p]->Some_0,
    ensures
        ({
            let fin = after_actions(existing, supported_seeds_plan(seeds, existing, base), outcomes);
            &&& forall|s: Seq<char>|
                #[trigger] seeds.contains(s) ==> exists|k: int|
                    0 <= k < fin.len() && fin[k].cloned && fin[k].enabled && fin[k].request.network_seed == s
            &&& forall|k: int|
                0 <= k < fin.len() && (#[trigger] fin[k]).cloned && !seeds.contains(fin[k].request.network_seed)
                    ==> !fin[k].enabled
        }),
{
    let plan = supported_seeds_plan(seeds, existing, base);
    let a1 = seed_actions(seeds, existing, base);
    let a2 = disable_actions(seeds, existing);
    let o1 = outcomes.take(a1.len() as int);
    let o2 = outcomes.skip(a1.len() as int);
    assert(outcomes == o1 + o2);
    lemma_compose(existing, a1, o1, a2, o2);
    lemma_seed_actions(seeds, existing, base);
    lemma_disable_actions(seeds, existing);
    assert forall|i: int| 0 <= i < o1.len() implies (#[trigger] o1[i]) is Some by {
        assert(o1[i] == outcomes[i]);
    }
    assert forall|i: int| 0 <= i < o2.len() implies (#[trigger] o2[i]) is Some by {
        assert(o2[i] == outcomes[a1.len() + i]);
    }
    assert forall|i: int| 0 <= i < a1.len() implies !(#[trigger] a1[i] is Disable) by {
        match a1[i] {
            ShardActionView::Disable(_) => {},
            _ => {},
        }
    }
    assert forall|i: int| 0 <= i < a2.len() implies (#[trigger] a2[i]) is Disable by {
        match a2[i] {
            ShardActionView::Disable(_) => {},
            _ => {},
        }
    }
    lemma_after_no_disable(existing, a1, o1);
    let mid = after_actions(existing, a1, o1);
    lemma_after_disables(mid, a2, o2);
    let fin = after_actions(mid, a2, o2);
    assert(fin == after_actions(existing, plan, outcomes));
    // a disabling names the clone id of an existing shard of an unsupported seed
    assert forall|c: Seq<char>| a2.contains(ShardActionView::Disable(c)) implies exists|k: int|
        0 <= k < existing.len() && existing[k].clone_id == c && existing[k].cloned && existing[k].enabled
            && !seeds.contains(existing[k].request.network_seed) by {
        let i = choose|i: int| 0 <= i < a2.len() && a2[i] == ShardActionView::Disable(c);
        assert(match a2[i] {
            ShardActionView::Disable(c) => exists|k: int|
                0 <= k < existing.len() && existing[k].clone_id == c && existing[k].cloned && existing[k].enabled
                    && !seeds.contains(existing[k].request.network_seed),
            _ => false,
        });
    }
    assert forall|s: Seq<char>| #[trigger] seeds.contains(s) implies exists|k: int|
        0 <= k < fin.len() && fin[k].cloned && fin[k].enabled && fin[k].request.network_seed == s by {
        lemma_clone_with_seed(existing, s);
        match clone_with_seed(existing, s) {
            Some(c) => {
                let k = choose|k: int|
                    0 <= k < existing.len() && existing[k] == c && c.cloned && c.request.network_seed == s;
                assert(mid[k].enabled);
                if a2.contains(ShardActionView::Disable(c.clone_id)) {
                    let k2 = choose|k2: int|
                        0 <= k2 < existing.len() && existing[k2].clone_id == c.clone_id && existing[k2].cloned
                            && existing[k2].enabled && !seeds.contains(existing[k2].request.network_seed);
                    assert(existing[k2].clone_id == existing[k].clone_id);
                }
                assert(fin[k].enabled && fin[k].cloned && fin[k].request.network_seed == s);
            },
            None => {
                let x = ShardActionView::Create(with_seed(base, s));
                let p = choose|p: int| 0 <= p < a1.len() && a1[p] == x;
                assert(plan[p] == a1[p]);
                assert(o1[p] == outcomes[p]);
                let id = o1[p]->Some_0;
                let y = LocalShardView { request: with_seed(base, s), clone_id: id, enabled: true, cloned: true };
                assert(a1[p] is Create);
                let j = choose|j: int| existing.len() <= j < mid.len() && mid[j] == y;
                if a2.contains(ShardActionView::Disable(id)) {
                    let k2 = choose|k2: int|
                        0 <= k2 < existing.len() && existing[k2].clone_id == id && existing[k2].cloned
                            && existing[k2].enabled && !seeds.contains(existing[k2].request.network_seed);
                    assert(plan[p] is Create);
                    assert(existing[k2].clone_id != outcomes[p]->Some_0);
                }
                assert(fin[j].enabled && fin[j].cloned && fin[j].request.network_seed == s);
            },
        }
    }
    assert forall|k: int|
        0 <= k < fin.len() && (#[trigger] fin[k]).cloned && !seeds.contains(fin[k].request.network_seed)
            implies !fin[k].enabled by {
        if k < existing.len() {
            if existing[k].enabled {
                assert(a2.contains(ShardActionView::Disable(existing[k].clone_id)));
            } else if a1.contains(ShardActionView::Enable(existing[k].clone_id)) {
                let i = choose|i: int| 0 <= i < a1.len() && a1[i] == ShardActionView::Enable(existing[k].clone_id);
                assert(match a1[i] {
                    ShardActionView::Enable(c) => exists|k2: int|
                        0 <= k2 < existing.len() && existing[k2].clone_id == c && existing[k2].cloned
                            && seeds.contains(existing[k2].request.network_seed),
                    _ => true,
                });
                let k2 = choose|k2: int|
                    0 <= k2 < existing.len() && existing[k2].clone_id == existing[k].clone_id && existing[k2].cloned
                        && seeds.contains(existing[k2].request.network_seed);
                assert(k2 == k);
            }
        } else {
            assert(mid[k].request == fin[k].request);
            let r = mid[k].request;
            let i = choose|i: int| 0 <= i < a1.len() && a1[i] == ShardActionView::Create(r);
            assert(match a1[i] {
                ShardActionView::Create(r) => seeds.contains(r.network_seed),
                _ => true,
            });
        }
    }
}

} // verus!
