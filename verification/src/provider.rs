//! The search provider of one application: the index of its recent
//! workspaces and the five operations of the search protocol.
//!
//! The provider decides; it neither reads the document of recent workspaces
//! nor launches anything. Its caller reads the document and hands in what came
//! of it, and performs the launch that an operation asks for.

use vstd::prelude::*;
use vstd::string::*;
use indexmap::IndexMap;
use crate::index::{
    distinct_keys, holds_key, index_clear, index_entries, index_get, index_get_index, index_insert,
    index_len, index_new, position_of, upsert,
};
use crate::ranking::{find_matching_workspaces, is_ranked, is_ranking, keys, models};
use crate::score::texts;
use crate::storage::{lemma_generations_agree, same_in_two_generations, ReadError, Storage};
use crate::workspace::{
    id_of, name_of, workspace_id, workspace_name, RecentWorkspace, WorkspaceModel,
};

verus! {

/// What the shell shows of one result.
#[derive(Debug, Clone, PartialEq, Eq)]
pub struct ResultMeta {
    /// The id of the result.
    pub id: String,
    /// The name of the workspace.
    pub name: String,
    /// The icon of the application, as text.
    pub gicon: String,
    /// The location of the workspace.
    pub description: String,
}

/// A [`ResultMeta`] in the contracts.
pub ghost struct ResultMetaModel {
    pub id: Seq<char>,
    pub name: Seq<char>,
    pub gicon: Seq<char>,
    pub description: Seq<char>,
}

impl View for ResultMeta {
    type V = ResultMetaModel;

    open spec fn view(&self) -> ResultMetaModel {
        ResultMetaModel {
            id: self.id@,
            name: self.name@,
            gicon: self.gicon@,
            description: self.description@,
        }
    }
}

/// Why an operation of the provider failed.
#[derive(Debug, Clone, PartialEq, Eq)]
pub enum ProviderError {
    /// The document of recent workspaces could not be read; with the reason.
    Io(String),
    /// The document of recent workspaces is malformed; with the reason.
    Parse(String),
    /// No workspace has the id; with the id.
    NotFound(String),
    /// The application could not be launched; with the reason.
    LaunchFailed(String),
}

/// A location from which no workspace name derives.
#[derive(Debug, Clone, PartialEq, Eq)]
pub struct NameError {
    /// The location.
    pub url: String,
}

/// What the caller is to launch.
#[derive(Debug, Clone, PartialEq, Eq)]
pub enum LaunchRequest {
    /// The application, with these locations as its arguments.
    Uris(Vec<String>),
    /// The application, with no argument.
    App,
}

/// The pair derives from the location of its workspace, for the application
/// `app_id`.
pub open spec fn entry_derived(app_id: Seq<char>, entry: (Seq<char>, WorkspaceModel)) -> bool {
    &&& entry.0 == workspace_id(app_id, entry.1.url)
    &&& workspace_name(entry.1.url) == Some(entry.1.name)
}

/// The invariant of an index: no id occurs twice, and each id and name derive
/// from the location of the workspace.
pub open spec fn well_indexed(app_id: Seq<char>, entries: Seq<(Seq<char>, WorkspaceModel)>) -> bool {
    &&& distinct_keys(entries)
    &&& forall|p: int| 0 <= p < entries.len() ==> entry_derived(app_id, #[trigger] entries[p])
}

/// The index after the workspace at `url` was added: unchanged where the
/// location gives no name.
pub open spec fn with_workspace(
    entries: Seq<(Seq<char>, WorkspaceModel)>,
    app_id: Seq<char>,
    url: Seq<char>,
) -> Seq<(Seq<char>, WorkspaceModel)> {
    match workspace_name(url) {
        Some(name) => upsert(entries, workspace_id(app_id, url), WorkspaceModel { name, url }),
        None => entries,
    }
}

/// The index built from a list of locations, added one after the other to an
/// empty index.
pub open spec fn indexed(app_id: Seq<char>, urls: Seq<Seq<char>>) -> Seq<(Seq<char>, WorkspaceModel)>
    decreases urls.len(),
{
    if urls.len() == 0 {
        Seq::empty()
    } else {
        with_workspace(indexed(app_id, urls.drop_last()), app_id, urls.last())
    }
}

/// The ids of the pairs.
pub open spec fn entry_keys(entries: Seq<(Seq<char>, WorkspaceModel)>) -> Seq<Seq<char>> {
    Seq::new(entries.len(), |i: int| entries[i].0)
}

/// The workspaces of the pairs.
pub open spec fn entry_models(entries: Seq<(Seq<char>, WorkspaceModel)>) -> Seq<WorkspaceModel> {
    Seq::new(entries.len(), |i: int| entries[i].1)
}

/// Those of `ids` that the index has, in the order of `ids`, each with its
/// workspace.
pub open spec fn present(entries: Seq<(Seq<char>, WorkspaceModel)>, ids: Seq<Seq<char>>) -> Seq<
    (Seq<char>, WorkspaceModel),
>
    decreases ids.len(),
{
    if ids.len() == 0 {
        Seq::empty()
    } else {
        let before = present(entries, ids.drop_last());
        if holds_key(entries, ids.last()) {
            before.push((ids.last(), entries[position_of(entries, ids.last())].1))
        } else {
            before
        }
    }
}

/// What is shown of a pair, with the icon `icon`.
pub open spec fn meta_of(entry: (Seq<char>, WorkspaceModel), icon: Seq<char>) -> ResultMetaModel {
    ResultMetaModel { id: entry.0, name: entry.1.name, gicon: icon, description: entry.1.url }
}

/// Adding a workspace keeps the invariant of the index.
pub proof fn lemma_with_workspace_well_indexed(
    app_id: Seq<char>,
    entries: Seq<(Seq<char>, WorkspaceModel)>,
    url: Seq<char>,
)
    requires
        well_indexed(app_id, entries),
    ensures
        well_indexed(app_id, with_workspace(entries, app_id, url)),
{
    if let Some(name) = workspace_name(url) {
        let key = workspace_id(app_id, url);
        let value = WorkspaceModel { name, url };
        let after = upsert(entries, key, value);
        if holds_key(entries, key) {
            let at = position_of(entries, key);
            assert(entries[at].0 == key);
            assert forall|p: int, q: int| 0 <= p < q < after.len() implies (#[trigger] after[p]).0 != (
            #[trigger] after[q]).0 by {
                assert(after[p].0 == entries[p].0);
                assert(after[q].0 == entries[q].0);
            }
            assert forall|p: int| 0 <= p < after.len() implies entry_derived(
                app_id,
                #[trigger] after[p],
            ) by {
                if p != at {
                    assert(after[p] == entries[p]);
                }
            }
        } else {
            assert forall|p: int, q: int| 0 <= p < q < after.len() implies (#[trigger] after[p]).0 != (
            #[trigger] after[q]).0 by {
                assert(after[p] == entries[p]);
                if q < entries.len() {
                    assert(after[q] == entries[q]);
                }
            }
            assert forall|p: int| 0 <= p < after.len() implies entry_derived(
                app_id,
                #[trigger] after[p],
            ) by {
                if p < entries.len() {
                    assert(after[p] == entries[p]);
                }
            }
        }
    }
}

/// An index built from a list of locations has the invariant of an index.
pub proof fn lemma_indexed_well_indexed(app_id: Seq<char>, urls: Seq<Seq<char>>)
    ensures
        well_indexed(app_id, indexed(app_id, urls)),
    decreases urls.len(),
{
    if urls.len() > 0 {
        lemma_indexed_well_indexed(app_id, urls.drop_last());
        lemma_with_workspace_well_indexed(app_id, indexed(app_id, urls.drop_last()), urls.last());
    }
}

/// A document of the older generation and one of the newer generation that
/// describe the same locations give the same index: the same ids, names and
/// locations, in the same order.
pub proof fn lemma_generations_index_alike(app_id: Seq<char>, legacy: Storage, modern: Storage)
    requires
        same_in_two_generations(legacy, modern),
    ensures
        indexed(app_id, legacy.workspace_urls()) == indexed(app_id, modern.workspace_urls()),
{
    lemma_generations_agree(legacy, modern);
}

/// Each pair of [`present`] has an id that is among `ids` and in the index.
pub proof fn lemma_present_from_ids(
    entries: Seq<(Seq<char>, WorkspaceModel)>,
    ids: Seq<Seq<char>>,
    k: int,
)
    requires
        0 <= k < present(entries, ids).len(),
    ensures
        ids.contains(present(entries, ids)[k].0),
        holds_key(entries, present(entries, ids)[k].0),
    decreases ids.len(),
{
    if ids.len() > 0 {
        let before = present(entries, ids.drop_last());
        if k < before.len() {
            lemma_present_from_ids(entries, ids.drop_last(), k);
            let j = choose|j: int|
                0 <= j < ids.drop_last().len() && ids.drop_last()[j] == before[k].0;
            assert(ids[j] == before[k].0);
        } else {
            assert(ids[ids.len() - 1] == ids.last());
        }
    }
}

/// Ranks the candidates against `terms` and returns the ids of those that
/// match as strings of their own.
pub fn rank_ids(candidates: &Vec<(&String, &RecentWorkspace)>, terms: &Vec<String>) -> (ids: Vec<
    String,
>)
    ensures
        is_ranked(
            texts(ids@),
            Seq::new(candidates@.len(), |i: int| candidates@[i].0@),
            models(candidates@),
            texts(terms@),
        ),
{
    let found: Vec<&String> = find_matching_workspaces(candidates, terms);
    let ghost order = choose|order: Seq<int>|
        {
            &&& #[trigger] is_ranking(models(candidates@), texts(terms@), order)
            &&& found@.len() == order.len()
            &&& forall|k: int| 0 <= k < order.len() ==> found@[k] == keys(candidates@)[order[k]]
        };
    let mut ids: Vec<String> = Vec::new();
    let n: usize = found.len();
    let mut k: usize = 0;
    while k < n
        invariant
            n == found.len(),
            k <= n,
            ids.len() == k,
            forall|j: int| 0 <= j < k ==> ids@[j]@ == found@[j]@,
        decreases n - k,
    {
        ids.push(found[k].clone());
        k += 1;
    }
    proof {
        let labels = Seq::new(candidates@.len(), |i: int| candidates@[i].0@);
        assert forall|j: int| 0 <= j < order.len() implies texts(ids@)[j] == labels[order[j]] by {
            assert(found@[j] == keys(candidates@)[order[j]]);
        }
    }
    ids
}

/// A search provider for one application.
pub struct VscodeSearchProvider {
    app_id: String,
    recent_workspaces: IndexMap<String, RecentWorkspace>,
}

impl VscodeSearchProvider {
    /// The id of the application.
    pub closed spec fn app_id(&self) -> Seq<char> {
        self.app_id@
    }

    /// The index: the pairs of id and workspace, in the order in which the
    /// ids came in.
    pub closed spec fn entries(&self) -> Seq<(Seq<char>, WorkspaceModel)> {
        index_entries(self.recent_workspaces)
    }

    /// The index has its invariant.
    pub open spec fn wf(&self) -> bool {
        well_indexed(self.app_id(), self.entries())
    }

    /// A provider for the application `app_id`, with an empty index.
    pub fn new(app_id: String) -> (provider: Self)
        ensures
            provider.app_id() == app_id@,
            provider.entries() == Seq::<(Seq<char>, WorkspaceModel)>::empty(),
            provider.wf(),
    {
        VscodeSearchProvider { app_id, recent_workspaces: index_new() }
    }

    /// The number of workspaces in the index.
    pub fn len(&self) -> (len: usize)
        ensures
            len == self.entries().len(),
    {
        index_len(&self.recent_workspaces)
    }

    /// The workspace with the id `id`, if the index has one.
    pub fn get(&self, id: &str) -> (found: Option<&RecentWorkspace>)
        ensures
            found.is_some() == holds_key(self.entries(), id@),
            match found {
                Some(workspace) => workspace@ == self.entries()[position_of(self.entries(), id@)].1,
                None => true,
            },
    {
        index_get(&self.recent_workspaces, id)
    }

    /// The pairs of id and workspace, in the order of the index.
    pub fn workspaces(&self) -> (pairs: Vec<(&String, &RecentWorkspace)>)
        ensures
            pairs@.len() == self.entries().len(),
            forall|i: int|
                0 <= i < pairs@.len() ==> (pairs@[i].0@, pairs@[i].1@) == self.entries()[i],
    {
        let n: usize = index_len(&self.recent_workspaces);
        let mut pairs: Vec<(&String, &RecentWorkspace)> = Vec::new();
        let mut i: usize = 0;
        while i < n
            invariant
                n == self.entries().len(),
                i <= n,
                pairs@.len() == i,
                forall|j: int| 0 <= j < i ==> (pairs@[j].0@, pairs@[j].1@) == self.entries()[j],
            decreases n - i,
        {
            if let Some(pair) = index_get_index(&self.recent_workspaces, i) {
                pairs.push(pair);
            }
            i += 1;
        }
        pairs
    }

    /// Those of `ids` that the index has, each with its workspace.
    pub fn candidates<'a>(&'a self, ids: &'a Vec<String>) -> (pairs: Vec<
        (&'a String, &'a RecentWorkspace),
    >)
        ensures
            pairs@.len() == present(self.entries(), texts(ids@)).len(),
            forall|i: int|
                0 <= i < pairs@.len() ==> (pairs@[i].0@, pairs@[i].1@) == present(
                    self.entries(),
                    texts(ids@),
                )[i],
    {
        let ghost all = texts(ids@);
        let n: usize = ids.len();
        let mut pairs: Vec<(&String, &RecentWorkspace)> = Vec::new();
        let mut i: usize = 0;
        while i < n
            invariant
                n == ids.len(),
                i <= n,
                all == texts(ids@),
                pairs@.len() == present(self.entries(), all.take(i as int)).len(),
                forall|j: int|
                    0 <= j < pairs@.len() ==> (pairs@[j].0@, pairs@[j].1@) == present(
                        self.entries(),
                        all.take(i as int),
                    )[j],
            decreases n - i,
        {
            proof {
                assert(all.take(i + 1).drop_last() =~= all.take(i as int));
                assert(all.take(i + 1).last() == ids@[i as int]@);
            }
            if let Some(workspace) = index_get(&self.recent_workspaces, ids[i].as_str()) {
                pairs.push((&ids[i], workspace));
            }
            i += 1;
        }
        proof {
            assert(all.take(n as int) =~= all);
        }
        pairs
    }

    /// Adds the workspace at `url` to the index, under the id and the name
    /// that derive from the location. Where the index has the id, the
    /// workspace takes the place of the one that had it. A location without
    /// a name is refused, and the index stays as it is.
    pub fn add_workspace(&mut self, url: String) -> (res: Result<(), NameError>)
        requires
            old(self).wf(),
        ensures
            final(self).wf(),
            final(self).app_id() == old(self).app_id(),
            final(self).entries() == with_workspace(old(self).entries(), old(self).app_id(), url@),
            res.is_ok() == workspace_name(url@).is_some(),
            match res {
                Ok(_) => true,
                Err(e) => e.url@ == url@,
            },
    {
        proof {
            lemma_with_workspace_well_indexed(self.app_id(), self.entries(), url@);
        }
        match name_of(url.as_str()) {
            Some(name) => {
                let id = id_of(self.app_id.as_str(), url.as_str());
                index_insert(&mut self.recent_workspaces, id, RecentWorkspace { name, url });
                Ok(())
            },
            None => Err(NameError { url }),
        }
    }

    /// Builds the index anew from what came of reading the document of
    /// recent workspaces.
    ///
    /// The index is emptied first. A failed read is handed back and leaves
    /// the index empty. Otherwise the locations of the document are added in
    /// their order; one without a name is passed over.
    pub fn update_recent_workspaces(&mut self, read: Result<Storage, ReadError>) -> (res: Result<
        (),
        ReadError,
    >)
        ensures
            final(self).wf(),
            final(self).app_id() == old(self).app_id(),
            match read {
                Ok(storage) => res.is_ok() && final(self).entries() == indexed(
                    old(self).app_id(),
                    storage.workspace_urls(),
                ),
                Err(error) => res == Err::<(), ReadError>(error) && final(self).entries() == Seq::<
                    (Seq<char>, WorkspaceModel),
                >::empty(),
            },
    {
        index_clear(&mut self.recent_workspaces);
        match read {
            Err(error) => Err(error),
            Ok(storage) => {
                let ghost all = storage.workspace_urls();
                let urls = storage.into_workspace_urls();
                let n: usize = urls.len();
                let mut i: usize = 0;
                while i < n
                    invariant
                        n == urls.len(),
                        i <= n,
                        all == texts(urls@),
                        self.wf(),
                        self.app_id() == old(self).app_id(),
                        self.entries() == indexed(self.app_id(), all.take(i as int)),
                    decreases n - i,
                {
                    proof {
                        assert(all.take(i + 1).drop_last() =~= all.take(i as int));
                        assert(all.take(i + 1).last() == urls@[i as int]@);
                    }
                    let _ = self.add_workspace(urls[i].clone());
                    i += 1;
                }
                proof {
                    assert(all.take(n as int) =~= all);
                }
                Ok(())
            },
        }
    }

    /// Starts a search: builds the index anew from what came of reading the
    /// document, then ranks all its workspaces against `terms`.
    ///
    /// A failed read fails the search, and leaves the index empty.
    pub fn get_initial_result_set(&mut self, read: Result<Storage, ReadError>, terms: Vec<String>) -> (res:
        Result<Vec<String>, ProviderError>)
        ensures
            final(self).wf(),
            final(self).app_id() == old(self).app_id(),
            match read {
                Ok(storage) => {
                    &&& final(self).entries() == indexed(
                        old(self).app_id(),
                        storage.workspace_urls(),
                    )
                    &&& res.is_ok()
                    &&& is_ranked(
                        texts(res->Ok_0@),
                        entry_keys(final(self).entries()),
                        entry_models(final(self).entries()),
                        texts(terms@),
                    )
                },
                Err(error) => {
                    &&& final(self).entries() == Seq::<(Seq<char>, WorkspaceModel)>::empty()
                    &&& res == Err::<Vec<String>, ProviderError>(read_failure(error))
                },
            },
    {
        match self.update_recent_workspaces(read) {
            Err(error) => Err(failed_read(error)),
            Ok(_) => {
                let pairs = self.workspaces();
                let ids = rank_ids(&pairs, &terms);
                proof {
                    assert(Seq::new(pairs@.len(), |i: int| pairs@[i].0@) =~= entry_keys(
                        self.entries(),
                    ));
                    assert(models(pairs@) =~= entry_models(self.entries()));
                }
                Ok(ids)
            },
        }
    }

    /// Refines a search: ranks against `terms` those of the earlier results
    /// that the index still has. The index is not built anew, and an id that
    /// it has not got is passed over.
    pub fn get_subsearch_result_set(&self, previous_results: Vec<String>, terms: Vec<String>) -> (ids:
        Vec<String>)
        ensures
            is_ranked(
                texts(ids@),
                entry_keys(present(self.entries(), texts(previous_results@))),
                entry_models(present(self.entries(), texts(previous_results@))),
                texts(terms@),
            ),
            forall|j: int|
                0 <= j < ids@.len() ==> texts(previous_results@).contains(#[trigger] ids@[j]@)
                    && holds_key(self.entries(), ids@[j]@),
    {
        let pairs = self.candidates(&previous_results);
        let ids = rank_ids(&pairs, &terms);
        proof {
            let there = present(self.entries(), texts(previous_results@));
            let labels = entry_keys(there);
            assert(Seq::new(pairs@.len(), |i: int| pairs@[i].0@) =~= labels);
            assert(models(pairs@) =~= entry_models(there));
            let order = choose|order: Seq<int>|
                {
                    &&& #[trigger] is_ranking(entry_models(there), texts(terms@), order)
                    &&& texts(ids@).len() == order.len()
                    &&& forall|k: int| 0 <= k < order.len() ==> texts(ids@)[k] == labels[order[k]]
                };
            assert forall|j: int| 0 <= j < ids@.len() implies texts(previous_results@).contains(
                #[trigger] ids@[j]@,
            ) && holds_key(self.entries(), ids@[j]@) by {
                assert(texts(ids@)[j] == labels[order[j]]);
                lemma_present_from_ids(self.entries(), texts(previous_results@), order[j]);
            }
        }
        ids
    }

    /// What to show of the results `results`: for each id that the index
    /// has, in the order given, the id, the name of the workspace, the icon
    /// `icon` and, as the description, the location of the workspace. An id
    /// that the index has not got gives nothing.
    pub fn get_result_metas(&self, results: Vec<String>, icon: &str) -> (metas: Vec<ResultMeta>)
        ensures
            metas@.len() == present(self.entries(), texts(results@)).len(),
            forall|i: int|
                0 <= i < metas@.len() ==> metas@[i]@ == meta_of(
                    present(self.entries(), texts(results@))[i],
                    icon@,
                ),
    {
        let pairs = self.candidates(&results);
        let mut metas: Vec<ResultMeta> = Vec::new();
        let n: usize = pairs.len();
        let mut i: usize = 0;
        while i < n
            invariant
                n == pairs.len(),
                i <= n,
                metas@.len() == i,
                forall|j: int|
                    0 <= j < i ==> metas@[j]@ == meta_of((pairs@[j].0@, pairs@[j].1@), icon@),
            decreases n - i,
        {
            let id: &String = pairs[i].0;
            let workspace: &RecentWorkspace = pairs[i].1;
            metas.push(
                ResultMeta {
                    id: id.clone(),
                    name: workspace.name.clone(),
                    gicon: String::from_str(icon),
                    description: workspace.url.clone(),
                },
            );
            i += 1;
        }
        metas
    }

    /// Activates a result: asks for the launch of the application with the
    /// location of the workspace `id` as its only argument. Where the index
    /// has no such id, the operation fails and asks for no launch.
    #[allow(unused_variables)]
    pub fn activate_result(&self, id: String, terms: Vec<String>, timestamp: u32) -> (res: Result<
        LaunchRequest,
        ProviderError,
    >)
        ensures
            res.is_ok() == holds_key(self.entries(), id@),
            match res {
                Ok(LaunchRequest::Uris(uris)) => texts(uris@) == seq![
                    self.entries()[position_of(self.entries(), id@)].1.url,
                ],
                Ok(LaunchRequest::App) => false,
                Err(error) => error == ProviderError::NotFound(id),
            },
    {
        match index_get(&self.recent_workspaces, id.as_str()) {
            Some(workspace) => {
                let mut uris: Vec<String> = Vec::new();
                uris.push(workspace.url.clone());
                proof {
                    assert(texts(uris@) =~= seq![workspace@.url]);
                }
                Ok(LaunchRequest::Uris(uris))
            },
            None => Err(ProviderError::NotFound(id)),
        }
    }

    /// Launches a search in the application: asks for the launch of the
    /// application with no argument.
    #[allow(unused_variables)]
    pub fn launch_search(&self, terms: Vec<String>, timestamp: u32) -> (request: LaunchRequest)
        ensures
            request == LaunchRequest::App,
    {
        LaunchRequest::App
    }
}

/// The failure of a search whose document could not be had.
pub open spec fn read_failure(error: ReadError) -> ProviderError {
    match error {
        ReadError::Io(reason) => ProviderError::Io(reason),
        ReadError::Parse(reason) => ProviderError::Parse(reason),
    }
}

/// Turns the failure of a read into the failure of a search.
pub fn failed_read(error: ReadError) -> (failure: ProviderError)
    ensures
        failure == read_failure(error),
{
    match error {
        ReadError::Io(reason) => ProviderError::Io(reason),
        ReadError::Parse(reason) => ProviderError::Parse(reason),
    }
}

/// What an operation that asked for a launch comes to, given what the launch
/// came to: it fails with the reason if the launch failed.
pub fn launch_outcome(launched: Result<(), String>) -> (res: Result<(), ProviderError>)
    ensures
        match launched {
            Ok(_) => res.is_ok(),
            Err(reason) => res == Err::<(), ProviderError>(ProviderError::LaunchFailed(reason)),
        },
{
    match launched {
        Ok(_) => Ok(()),
        Err(reason) => Err(ProviderError::LaunchFailed(reason)),
    }
}

} // verus!
