//! Per-agent push tokens: each agent has at most one current token, and a
//! new registration supersedes the old one, across projects too.
use vstd::prelude::*;
use crate::index::{
    count_key, keys_unique, lemma_lookup_count, lemma_replace_unique, lookup, without_key,
};

verus! {

/// Where to deliver an agent's notifications: a token of a gateway project.
#[derive(Debug)]
pub struct FcmTokenTag {
    pub fcm_project_id: String,
    pub token: String,
}

impl View for FcmTokenTag {
    type V = (Seq<char>, Seq<char>);

    open spec fn view(&self) -> (Seq<char>, Seq<char>) {
        (self.fcm_project_id@, self.token@)
    }
}

impl PartialEq for FcmTokenTag {
    fn eq(&self, o: &FcmTokenTag) -> (r: bool) {
        self.fcm_project_id == o.fcm_project_id && self.token == o.token
    }
}

impl vstd::std_specs::cmp::PartialEqSpecImpl for FcmTokenTag {
    open spec fn obeys_eq_spec() -> bool {
        true
    }

    open spec fn eq_spec(&self, o: &FcmTokenTag) -> bool {
        self@ == o@
    }
}

impl FcmTokenTag {
    pub fn duplicate(&self) -> (r: FcmTokenTag)
        ensures
            r@ == self@,
    {
        FcmTokenTag { fcm_project_id: self.fcm_project_id.clone(), token: self.token.clone() }
    }
}

/// A registration request: the agent and the token it delivers to.
pub struct RegisterFcmTokenForAgentInput {
    pub agent: String,
    pub fcm_project_id: String,
    pub token: String,
}

pub type TokenLinksView = Seq<(Seq<char>, (Seq<char>, Seq<char>))>;

pub struct TokenLink {
    pub agent: String,
    pub tag: FcmTokenTag,
}

pub open spec fn token_link_view(l: TokenLink) -> (Seq<char>, (Seq<char>, Seq<char>)) {
    (l.agent@, l.tag@)
}

pub open spec fn token_links_view(s: Seq<TokenLink>) -> TokenLinksView {
    s.map_values(|l: TokenLink| token_link_view(l))
}

/// The current token of `agent`, if any.
pub open spec fn current_token(links: TokenLinksView, agent: Seq<char>) -> Option<(Seq<char>, Seq<char>)> {
    lookup(links, agent)
}

/// The index after `agent` registers `tag`: unchanged when `tag` is already
/// current, else every entry of the agent removed and one for `tag` added.
pub open spec fn registered(links: TokenLinksView, agent: Seq<char>, tag: (Seq<char>, Seq<char>)) -> TokenLinksView {
    if lookup(links, agent) == Some(tag) {
        links
    } else {
        without_key(links, agent).push((agent, tag))
    }
}

pub proof fn lemma_registered(links: TokenLinksView, agent: Seq<char>, tag: (Seq<char>, Seq<char>))
    requires
        keys_unique(links),
    ensures
        keys_unique(registered(links, agent, tag)),
        current_token(registered(links, agent, tag), agent) == Some(tag),
        count_key(registered(links, agent, tag), agent) == 1,
{
    if lookup(links, agent) == Some(tag) {
        lemma_lookup_count(links, agent);
        assert(count_key(links, agent) <= 1);
    } else {
        lemma_replace_unique(links, agent, tag);
    }
}

/// After an agent registers `(p1, t1)` and then `(p2, t2)`, its current
/// token is `(p2, t2)` and it has exactly one live index entry.
pub proof fn lemma_token_supersession(
    links: TokenLinksView,
    agent: Seq<char>,
    first: (Seq<char>, Seq<char>),
    second: (Seq<char>, Seq<char>),
)
    requires
        keys_unique(links),
    ensures
        ({
            let after = registered(registered(links, agent, first), agent, second);
            &&& keys_unique(after)
            &&& current_token(after, agent) == Some(second)
            &&& count_key(after, agent) == 1
        }),
{
    lemma_registered(links, agent, first);
    lemma_registered(registered(links, agent, first), agent, second);
}

/// The agents' token index.
pub struct TokenRegistry {
    links: Vec<TokenLink>,
}

impl View for TokenRegistry {
    type V = TokenLinksView;

    closed spec fn view(&self) -> TokenLinksView {
        token_links_view(self.links@)
    }
}

impl TokenRegistry {
    pub open spec fn wf(&self) -> bool {
        keys_unique(self@)
    }

    pub fn new() -> (r: TokenRegistry)
        ensures
            r.wf(),
            r@.len() == 0,
    {
        let r = TokenRegistry { links: Vec::new() };
        assert(r@ =~= TokenLinksView::empty());
        assert forall|k: Seq<char>| #[trigger] count_key(r@, k) <= 1 by {}
        r
    }

    /// Makes `(fcm_project_id, token)` the agent's only current token; a
    /// registration equal to the current one changes nothing.
    pub fn register_fcm_token_for_agent(&mut self, input: RegisterFcmTokenForAgentInput)
        requires
            old(self).wf(),
        ensures
            final(self).wf(),
            final(self)@ == registered(old(self)@, input.agent@, (input.fcm_project_id@, input.token@)),
            current_token(final(self)@, input.agent@) == Some((input.fcm_project_id@, input.token@)),
            count_key(final(self)@, input.agent@) == 1,
    {
        let ghost tag = (input.fcm_project_id@, input.token@);
        proof {
            lemma_registered(self@, input.agent@, tag);
        }
        let tag = FcmTokenTag { fcm_project_id: input.fcm_project_id, token: input.token };
        if let Some(current) = self.get_fcm_token_for_agent(&input.agent) {
            if current == tag {
                return;
            }
        }
        let mut kept: Vec<TokenLink> = Vec::new();
        let mut i: usize = 0;
        while i < self.links.len()
            invariant
                i <= self.links.len(),
                token_links_view(kept@) == without_key(token_links_view(self.links@.take(i as int)), input.agent@),
            decreases self.links.len() - i,
        {
            let ghost prev = kept@;
            let ghost t = token_links_view(self.links@.take(i + 1));
            assert(self.links@.take(i + 1).drop_last() == self.links@.take(i as int));
            assert(t.drop_last() =~= token_links_view(self.links@.take(i as int)));
            assert(t.last() == token_link_view(self.links@[i as int]));
            if self.links[i].agent != input.agent {
                kept.push(TokenLink { agent: self.links[i].agent.clone(), tag: self.links[i].tag.duplicate() });
                assert(token_links_view(kept@) =~= token_links_view(prev).push(token_link_view(self.links@[i as int])));
            }
            i = i + 1;
        }
        assert(self.links@ == self.links@.take(self.links.len() as int));
        let ghost kept_view = kept@;
        kept.push(TokenLink { agent: input.agent, tag });
        assert(token_links_view(kept@) =~= token_links_view(kept_view).push((input.agent@, tag@)));
        self.links = kept;
    }

    /// The agent's current token, if it registered one.
    pub fn get_fcm_token_for_agent(&self, agent: &String) -> (r: Option<FcmTokenTag>)
        requires
            self.wf(),
        ensures
            match r {
                Some(t) => current_token(self@, agent@) == Some(t@),
                None => current_token(self@, agent@) is None,
            },
    {
        let mut i: usize = self.links.len();
        assert(self.links@.take(i as int) == self.links@);
        while i > 0
            invariant
                i <= self.links.len(),
                lookup(self@, agent@) == lookup(token_links_view(self.links@.take(i as int)), agent@),
            decreases i,
        {
            let j = i - 1;
            let ghost t = token_links_view(self.links@.take(i as int));
            assert(self.links@.take(i as int).drop_last() == self.links@.take(j as int));
            assert(t.drop_last() =~= token_links_view(self.links@.take(j as int)));
            assert(t.last() == token_link_view(self.links@[j as int]));
            if self.links[j].agent == *agent {
                return Some(self.links[j].tag.duplicate());
            }
            i = j;
        }
        assert(self.links@.take(0).len() == 0);
        None
    }
}

} // verus!
