//! Push-gateway credentials and the per-project index of the current one.
use vstd::prelude::*;
use crate::index::{
    count_key, keys_unique, lemma_remove_unique, lemma_replace_unique, lemma_without_key_contains,
    lemma_without_key_lookup, lookup, without_key,
};
use crate::text::{clone_opt, opt_eq, opt_view, strings_view};

verus! {

/// Authentication material of a push-gateway project.
#[derive(Debug)]
pub struct ServiceAccountKey {
    pub key_type: Option<String>,
    pub project_id: Option<String>,
    pub private_key_id: Option<String>,
    pub private_key: String,
    pub client_email: String,
    pub client_id: Option<String>,
    pub auth_uri: Option<String>,
    pub token_uri: String,
    pub auth_provider_x509_cert_url: Option<String>,
    pub client_x509_cert_url: Option<String>,
}

pub struct ServiceAccountKeyView {
    pub key_type: Option<Seq<char>>,
    pub project_id: Option<Seq<char>>,
    pub private_key_id: Option<Seq<char>>,
    pub private_key: Seq<char>,
    pub client_email: Seq<char>,
    pub client_id: Option<Seq<char>>,
    pub auth_uri: Option<Seq<char>>,
    pub token_uri: Seq<char>,
    pub auth_provider_x509_cert_url: Option<Seq<char>>,
    pub client_x509_cert_url: Option<Seq<char>>,
}

impl View for ServiceAccountKey {
    type V = ServiceAccountKeyView;

    open spec fn view(&self) -> ServiceAccountKeyView {
        ServiceAccountKeyView {
            key_type: opt_view(self.key_type),
            project_id: opt_view(self.project_id),
            private_key_id: opt_view(self.private_key_id),
            private_key: self.private_key@,
            client_email: self.client_email@,
            client_id: opt_view(self.client_id),
            auth_uri: opt_view(self.auth_uri),
            token_uri: self.token_uri@,
            auth_provider_x509_cert_url: opt_view(self.auth_provider_x509_cert_url),
            client_x509_cert_url: opt_view(self.client_x509_cert_url),
        }
    }
}

impl PartialEq for ServiceAccountKey {
    fn eq(&self, o: &ServiceAccountKey) -> (r: bool) {
        opt_eq(&self.key_type, &o.key_type) && opt_eq(&self.project_id, &o.project_id) && opt_eq(
            &self.private_key_id,
            &o.private_key_id,
        ) && self.private_key == o.private_key && self.client_email == o.client_email && opt_eq(
            &self.client_id,
            &o.client_id,
        ) && opt_eq(&self.auth_uri, &o.auth_uri) && self.token_uri == o.token_uri && opt_eq(
            &self.auth_provider_x509_cert_url,
            &o.auth_provider_x509_cert_url,
        ) && opt_eq(&self.client_x509_cert_url, &o.client_x509_cert_url)
    }
}

impl vstd::std_specs::cmp::PartialEqSpecImpl for ServiceAccountKey {
    open spec fn obeys_eq_spec() -> bool {
        true
    }

    open spec fn eq_spec(&self, o: &ServiceAccountKey) -> bool {
        self@ == o@
    }
}

impl ServiceAccountKey {
    pub fn duplicate(&self) -> (r: ServiceAccountKey)
        ensures
            r@ == self@,
    {
        ServiceAccountKey {
            key_type: clone_opt(&self.key_type),
            project_id: clone_opt(&self.project_id),
            private_key_id: clone_opt(&self.private_key_id),
            private_key: self.private_key.clone(),
            client_email: self.client_email.clone(),
            client_id: clone_opt(&self.client_id),
            auth_uri: clone_opt(&self.auth_uri),
            token_uri: self.token_uri.clone(),
            auth_provider_x509_cert_url: clone_opt(&self.auth_provider_x509_cert_url),
            client_x509_cert_url: clone_opt(&self.client_x509_cert_url),
        }
    }
}

/// The project a key can be filed under: its project id, when present and
/// not empty.
pub open spec fn project_of(key: ServiceAccountKeyView) -> Option<Seq<char>> {
    match key.project_id {
        Some(p) => if p.len() > 0 {
            Some(p)
        } else {
            None
        },
        None => None,
    }
}

#[derive(Debug, PartialEq, Eq, Structural)]
pub enum KeyError {
    /// The key names no project.
    MissingProjectId,
    /// Reading the key back after publishing it did not give the same key.
    NotPublished,
}

/// One index entry: the project it is filed under, and the position of the
/// key it points to in the store.
pub struct KeyLink {
    pub project_id: String,
    pub target: usize,
}

pub open spec fn link_view(l: KeyLink) -> (Seq<char>, int) {
    (l.project_id@, l.target as int)
}

pub open spec fn links_view(s: Seq<KeyLink>) -> Seq<(Seq<char>, int)> {
    s.map_values(|l: KeyLink| link_view(l))
}

pub open spec fn keys_view(s: Seq<ServiceAccountKey>) -> Seq<ServiceAccountKeyView> {
    s.map_values(|k: ServiceAccountKey| k@)
}

/// The registry as the ledger holds it: every key ever published, in the
/// order of publishing, and the live index entries that point into them.
pub struct RegistryView {
    pub entries: Seq<ServiceAccountKeyView>,
    pub links: Seq<(Seq<char>, int)>,
}

impl RegistryView {
    pub open spec fn wf(self) -> bool {
        &&& keys_unique(self.links)
        &&& forall|i: int|
            0 <= i < self.links.len() ==> 0 <= #[trigger] self.links[i].1 < self.entries.len()
                && self.entries[self.links[i].1].project_id == Some(self.links[i].0)
    }

    /// The key that the index designates for `project`.
    pub open spec fn current(self, project: Seq<char>) -> Option<ServiceAccountKeyView> {
        match lookup(self.links, project) {
            Some(t) => Some(self.entries[t]),
            None => None,
        }
    }

    /// How many live index entries `project` has.
    pub open spec fn live_entries(self, project: Seq<char>) -> nat {
        count_key(self.links, project)
    }

    /// The projects that have a current key, in the order of their entries.
    pub open spec fn projects(self) -> Seq<Seq<char>> {
        self.links.map_values(|l: (Seq<char>, int)| l.0)
    }

    /// Stores `key` and makes it the only entry of `project`.
    pub open spec fn published(self, key: ServiceAccountKeyView, project: Seq<char>) -> RegistryView {
        RegistryView {
            entries: self.entries.push(key),
            links: without_key(self.links, project).push((project, self.entries.len() as int)),
        }
    }

    /// Drops every entry of `project`; stored keys stay.
    pub open spec fn project_deleted(self, project: Seq<char>) -> RegistryView {
        RegistryView { entries: self.entries, links: without_key(self.links, project) }
    }

    /// Publishes each key of `keys` in turn under `project`.
    pub open spec fn published_all(self, keys: Seq<ServiceAccountKeyView>, project: Seq<char>) -> RegistryView
        decreases keys.len(),
    {
        if keys.len() == 0 {
            self
        } else {
            self.published_all(keys.drop_last(), project).published(keys.last(), project)
        }
    }
}

pub proof fn lemma_published_wf(r: RegistryView, key: ServiceAccountKeyView, project: Seq<char>)
    requires
        r.wf(),
        key.project_id == Some(project),
    ensures
        r.published(key, project).wf(),
        r.published(key, project).current(project) == Some(key),
        r.published(key, project).live_entries(project) == 1,
        forall|p: Seq<char>| p != project ==> r.published(key, project).current(p) == #[trigger] r.current(p),
{
    let n = r.published(key, project);
    let kept = without_key(r.links, project);
    lemma_replace_unique(r.links, project, r.entries.len() as int);
    assert forall|i: int| 0 <= i < n.links.len() implies 0 <= #[trigger] n.links[i].1 < n.entries.len()
        && n.entries[n.links[i].1].project_id == Some(n.links[i].0) by {
        if i < kept.len() {
            assert(kept.contains(kept[i]));
            lemma_without_key_contains(r.links, project, kept[i]);
            let j = choose|j: int| 0 <= j < r.links.len() && r.links[j] == kept[i];
            assert(r.links[j].1 < r.entries.len());
        }
    }
    assert forall|p: Seq<char>| p != project implies n.current(p) == #[trigger] r.current(p) by {
        crate::index::lemma_push_count(kept, (project, r.entries.len() as int), p);
        lemma_without_key_lookup(r.links, project, p);
        if let Some(t) = lookup(r.links, p) {
            lemma_lookup_in_range(r, p);
        }
    }
}

proof fn lemma_lookup_in_range(r: RegistryView, p: Seq<char>)
    requires
        r.wf(),
        lookup(r.links, p) is Some,
    ensures
        0 <= lookup(r.links, p)->Some_0 < r.entries.len(),
        r.entries[lookup(r.links, p)->Some_0].project_id == Some(p),
{
    lemma_lookup_found(r.links, p);
    let i = choose|i: int| 0 <= i < r.links.len() && r.links[i] == (p, lookup(r.links, p)->Some_0);
    assert(0 <= r.links[i].1 < r.entries.len());
}

proof fn lemma_lookup_found(s: Seq<(Seq<char>, int)>, p: Seq<char>)
    requires
        lookup(s, p) is Some,
    ensures
        exists|i: int| 0 <= i < s.len() && s[i] == (p, lookup(s, p)->Some_0),
    decreases s.len(),
{
    if s.last().0 == p {
        assert(s[s.len() - 1] == (p, lookup(s, p)->Some_0));
    } else {
        lemma_lookup_found(s.drop_last(), p);
        let i = choose|i: int| 0 <= i < s.drop_last().len() && s.drop_last()[i] == (p, lookup(s, p)->Some_0);
        assert(s[i] == s.drop_last()[i]);
    }
}

/// Publishing credentials one after another for the same project leaves the
/// last one current, and at every state along the way the project has
/// exactly one live index entry, so no two entries can disagree.
pub proof fn lemma_credential_uniqueness(r: RegistryView, project: Seq<char>, keys: Seq<ServiceAccountKeyView>)
    requires
        r.wf(),
        forall|i: int| 0 <= i < keys.len() ==> project_of(#[trigger] keys[i]) == Some(project),
    ensures
        forall|n: int|
            0 < n <= keys.len() ==> {
                let s = #[trigger] r.published_all(keys.take(n), project);
                &&& s.wf()
                &&& s.live_entries(project) == 1
                &&& s.current(project) == Some(keys[n - 1])
            },
    decreases keys.len(),
{
    if keys.len() > 0 {
        let d = keys.drop_last();
        assert forall|i: int| 0 <= i < d.len() implies project_of(#[trigger] d[i]) == Some(project) by {
            assert(d[i] == keys[i]);
        }
        lemma_credential_uniqueness(r, project, d);
        assert forall|n: int| 0 < n <= keys.len() implies {
            let s = #[trigger] r.published_all(keys.take(n), project);
            &&& s.wf()
            &&& s.live_entries(project) == 1
            &&& s.current(project) == Some(keys[n - 1])
        } by {
            let t = keys.take(n);
            assert(t.drop_last() == keys.take(n - 1));
            assert(t.last() == keys[n - 1]);
            assert(project_of(keys[n - 1]) == Some(project));
            if n > 1 {
                assert(d.take(n - 1) == keys.take(n - 1));
                assert(r.published_all(d.take(n - 1), project).wf());
            } else {
                assert(keys.take(0).len() == 0);
            }
            lemma_published_wf(r.published_all(keys.take(n - 1), project), keys[n - 1], project);
        }
    }
}

/// Publishes credentials and answers which one is current per project.
pub struct ServiceAccountKeyRegistry {
    entries: Vec<ServiceAccountKey>,
    links: Vec<KeyLink>,
}

impl View for ServiceAccountKeyRegistry {
    type V = RegistryView;

    closed spec fn view(&self) -> RegistryView {
        RegistryView { entries: keys_view(self.entries@), links: links_view(self.links@) }
    }
}

fn remove_links_of(links: &Vec<KeyLink>, project: &String) -> (r: Vec<KeyLink>)
    ensures
        links_view(r@) == without_key(links_view(links@), project@),
{
    let mut r: Vec<KeyLink> = Vec::new();
    let mut i: usize = 0;
    while i < links.len()
        invariant
            i <= links.len(),
            links_view(r@) == without_key(links_view(links@.take(i as int)), project@),
        decreases links.len() - i,
    {
        let ghost prev = r@;
        let ghost t = links_view(links@.take(i + 1));
        assert(links@.take(i + 1).drop_last() == links@.take(i as int));
        assert(t.drop_last() =~= links_view(links@.take(i as int)));
        assert(t.last() == link_view(links@[i as int]));
        if links[i].project_id != *project {
            r.push(KeyLink { project_id: links[i].project_id.clone(), target: links[i].target });
            assert(links_view(r@) =~= links_view(prev).push(link_view(links@[i as int])));
        }
        i = i + 1;
    }
    assert(links@ == links@.take(links.len() as int));
    r
}

impl ServiceAccountKeyRegistry {
    pub open spec fn wf(&self) -> bool {
        self@.wf()
    }

    pub fn new() -> (r: ServiceAccountKeyRegistry)
        ensures
            r.wf(),
            r@.entries.len() == 0,
            r@.links.len() == 0,
    {
        let r = ServiceAccountKeyRegistry { entries: Vec::new(), links: Vec::new() };
        assert(r@.links =~= Seq::<(Seq<char>, int)>::empty());
        assert forall|k: Seq<char>| #[trigger] count_key(r@.links, k) <= 1 by {}
        r
    }

    /// Makes `key` the current credential of its project, replacing the
    /// previous one in a single step.  A key without a project id is refused.
    pub fn publish(&mut self, key: ServiceAccountKey) -> (r: Result<(), KeyError>)
        requires
            old(self).wf(),
        ensures
            final(self).wf(),
            match project_of(key@) {
                None => r == Err::<(), KeyError>(KeyError::MissingProjectId) && final(self)@ == old(self)@,
                Some(p) => {
                    &&& r is Ok
                    &&& final(self)@ == old(self)@.published(key@, p)
                    &&& final(self)@.current(p) == Some(key@)
                    &&& final(self)@.live_entries(p) == 1
                    &&& forall|q: Seq<char>| q != p ==> #[trigger] final(self)@.current(q) == old(self)@.current(q)
                },
            },
    {
        let project = match project_of_key(&key) {
            Some(p) => p,
            None => {
                return Err(KeyError::MissingProjectId);
            },
        };
        proof {
            lemma_published_wf(self@, key@, project@);
        }
        let kept = remove_links_of(&self.links, &project);
        let target = self.entries.len();
        let ghost old_entries = self.entries@;
        self.entries.push(key);
        assert(keys_view(self.entries@) =~= keys_view(old_entries).push(key@));
        let ghost kept_view = kept@;
        self.links = kept;
        self.links.push(KeyLink { project_id: project, target });
        assert(links_view(self.links@) =~= links_view(kept_view).push((project@, target as int)));
        Ok(())
    }

    /// The current credential of `project_id`, if any.
    pub fn get_current(&self, project_id: &String) -> (r: Option<ServiceAccountKey>)
        requires
            self.wf(),
        ensures
            match r {
                Some(k) => self@.current(project_id@) == Some(k@),
                None => self@.current(project_id@) is None,
            },
    {
        let mut i: usize = self.links.len();
        assert(self.links@.take(i as int) == self.links@);
        while i > 0
            invariant
                i <= self.links.len(),
                lookup(self@.links, project_id@) == lookup(links_view(self.links@.take(i as int)), project_id@),
                self@.wf(),
            decreases i,
        {
            let j = i - 1;
            let ghost t = links_view(self.links@.take(i as int));
            assert(self.links@.take(i as int).drop_last() == self.links@.take(j as int));
            assert(t.drop_last() =~= links_view(self.links@.take(j as int)));
            assert(t.last() == link_view(self.links@[j as int]));
            if self.links[j].project_id == *project_id {
                proof {
                    lemma_lookup_in_range(self@, project_id@);
                }
                let target = self.links[j].target;
                return Some(self.entries[target].duplicate());
            }
            i = j;
        }
        assert(self.links@.take(0).len() == 0);
        None
    }

    /// Whether publishing `key` would change what is current for its project.
    pub fn needs_publish(&self, key: &ServiceAccountKey) -> (r: bool)
        requires
            self.wf(),
        ensures
            r == match project_of(key@) {
                Some(p) => self@.current(p) != Some(key@),
                None => true,
            },
    {
        match &key.project_id {
            Some(p) => {
                if p.as_str().is_empty() {
                    return true;
                }
                should_publish(&self.get_current(p), key)
            },
            None => true,
        }
    }

    /// Retires `project_id`: removes every index entry of it.
    pub fn delete_project(&mut self, project_id: &String)
        requires
            old(self).wf(),
        ensures
            final(self).wf(),
            final(self)@ == old(self)@.project_deleted(project_id@),
            final(self)@.current(project_id@) is None,
            final(self)@.live_entries(project_id@) == 0,
            forall|q: Seq<char>| q != project_id@ ==> #[trigger] final(self)@.current(q) == old(self)@.current(q),
    {
        proof {
            lemma_remove_unique(self@.links, project_id@);
            assert forall|q: Seq<char>| q != project_id@ implies #[trigger] self@.project_deleted(project_id@).current(q)
                == self@.current(q) by {
                lemma_without_key_lookup(self@.links, project_id@, q);
            }
            let kept = without_key(self@.links, project_id@);
            assert forall|i: int| 0 <= i < kept.len() implies 0 <= #[trigger] kept[i].1 < self@.entries.len()
                && self@.entries[kept[i].1].project_id == Some(kept[i].0) by {
                assert(kept.contains(kept[i]));
                lemma_without_key_contains(self@.links, project_id@, kept[i]);
                let j = choose|j: int| 0 <= j < self@.links.len() && self@.links[j] == kept[i];
                assert(self@.links[j].1 < self@.entries.len());
            }
        }
        self.links = remove_links_of(&self.links, project_id);
    }

    /// The projects that have a current credential.
    pub fn get_all_projects(&self) -> (r: Vec<String>)
        ensures
            strings_view(r@) == self@.projects(),
    {
        let mut r: Vec<String> = Vec::new();
        let mut i: usize = 0;
        while i < self.links.len()
            invariant
                i <= self.links.len(),
                strings_view(r@) =~= self@.projects().take(i as int),
            decreases self.links.len() - i,
        {
            let ghost prev = r@;
            r.push(self.links[i].project_id.clone());
            assert(strings_view(r@) =~= strings_view(prev).push(self.links@[i as int].project_id@));
            assert(self@.projects().take(i + 1) =~= self@.projects().take(i as int).push(
                self.links@[i as int].project_id@,
            ));
            i = i + 1;
        }
        assert(self@.projects() =~= self@.projects().take(self.links.len() as int));
        r
    }
}

/// Checks the key read back after a publish: anything but the published key
/// fails the whole publish.
pub fn confirm_published(sent: &ServiceAccountKey, read_back: &Option<ServiceAccountKey>) -> (r: Result<
    (),
    KeyError,
>)
    ensures
        r is Ok <==> (read_back is Some && read_back->Some_0@ == sent@),
        r is Err ==> r == Err::<(), KeyError>(KeyError::NotPublished),
{
    match read_back {
        Some(k) => if *k == *sent {
            Ok(())
        } else {
            Err(KeyError::NotPublished)
        },
        None => Err(KeyError::NotPublished),
    }
}

/// The project `key` is filed under, if it names one.
pub fn project_of_key(key: &ServiceAccountKey) -> (r: Option<String>)
    ensures
        opt_view(r) == project_of(key@),
{
    match &key.project_id {
        Some(p) => if p.as_str().is_empty() {
            None
        } else {
            Some(p.clone())
        },
        None => None,
    }
}

/// Whether `key` has to be published, given the key currently published for
/// its project: only when there is none or it differs.
pub fn should_publish(existing: &Option<ServiceAccountKey>, key: &ServiceAccountKey) -> (r: bool)
    ensures
        r == match existing {
            Some(e) => e@ != key@,
            None => true,
        },
{
    match existing {
        Some(e) => *e != *key,
        None => true,
    }
}

} // verus!
