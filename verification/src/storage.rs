//! The document in which an editor keeps the workspaces it opened recently,
//! and the list of workspace locations that it holds.
//!
//! The document comes in two generations: an older one with a plain list of
//! locations, and a newer one with a list of entries, each with the location
//! of a folder or of a file. A document may hold either, both or none.

use vstd::prelude::*;
use crate::score::texts;

verus! {

/// An entry of the newer list.
#[derive(Debug, Clone)]
pub struct StorageOpenedPathsListEntry {
    /// The location of a folder, if the entry is one.
    pub folder_uri: Option<String>,
    /// The location of a file, if the entry is one.
    pub file_uri: Option<String>,
}

/// The lists of opened paths.
#[derive(Debug, Clone)]
pub struct StorageOpenedPathsList {
    /// The older list: locations of workspaces.
    pub workspaces3: Option<Vec<String>>,
    /// The newer list.
    pub entries: Option<Vec<StorageOpenedPathsListEntry>>,
}

/// The document.
#[derive(Debug, Clone)]
pub struct Storage {
    pub opened_paths_list: Option<StorageOpenedPathsList>,
}

/// Why a document could not be had.
#[derive(Debug, Clone, PartialEq, Eq)]
pub enum ReadError {
    /// The document could not be opened or read; with the reason.
    Io(String),
    /// The document is not of the expected form; with the reason.
    Parse(String),
}

/// The folder locations of a list of entries, in the order of the entries.
/// Entries without one give nothing.
pub open spec fn folder_uris(entries: Seq<StorageOpenedPathsListEntry>) -> Seq<Seq<char>>
    decreases entries.len(),
{
    if entries.len() == 0 {
        Seq::empty()
    } else {
        let before = folder_uris(entries.drop_last());
        match entries.last().folder_uri {
            Some(uri) => before.push(uri@),
            None => before,
        }
    }
}

impl StorageOpenedPathsList {
    /// The entries of the newer list; none where the list is absent.
    pub open spec fn entry_list(&self) -> Seq<StorageOpenedPathsListEntry> {
        match self.entries {
            Some(entries) => entries@,
            None => Seq::empty(),
        }
    }

    /// The locations of the older list; none where the list is absent.
    pub open spec fn legacy_list(&self) -> Seq<Seq<char>> {
        match self.workspaces3 {
            Some(urls) => texts(urls@),
            None => Seq::empty(),
        }
    }
}

impl Storage {
    /// The workspace locations of the document: the folder locations of the
    /// newer list, then the locations of the older list.
    pub open spec fn workspace_urls(&self) -> Seq<Seq<char>> {
        match self.opened_paths_list {
            Some(paths) => folder_uris(paths.entry_list()) + paths.legacy_list(),
            None => Seq::empty(),
        }
    }

    /// Turns the document into its workspace locations: the folder locations
    /// of the newer list, then the locations of the older list. Locations of
    /// files are left out, and an absent list gives nothing.
    pub fn into_workspace_urls(self) -> (urls: Vec<String>)
        ensures
            texts(urls@) == self.workspace_urls(),
    {
        let mut urls: Vec<String> = Vec::new();
        if let Some(paths) = self.opened_paths_list {
            if let Some(entries) = paths.entries {
                let n: usize = entries.len();
                let mut i: usize = 0;
                while i < n
                    invariant
                        n == entries.len(),
                        i <= n,
                        texts(urls@) == folder_uris(entries@.take(i as int)),
                    decreases n - i,
                {
                    proof {
                        assert(entries@.take(i + 1).drop_last() =~= entries@.take(i as int));
                    }
                    let ghost before = urls@;
                    if let Some(uri) = &entries[i].folder_uri {
                        urls.push(uri.clone());
                        proof {
                            assert(texts(urls@) =~= texts(before).push(uri@));
                        }
                    }
                    i += 1;
                }
                proof {
                    assert(entries@.take(n as int) =~= entries@);
                }
            }
            let ghost folders = urls@;
            if let Some(legacy) = paths.workspaces3 {
                let n: usize = legacy.len();
                let mut i: usize = 0;
                while i < n
                    invariant
                        n == legacy.len(),
                        i <= n,
                        texts(urls@) == texts(folders) + texts(legacy@).take(i as int),
                    decreases n - i,
                {
                    let ghost before = urls@;
                    urls.push(legacy[i].clone());
                    proof {
                        assert(texts(urls@) =~= texts(before).push(legacy@[i as int]@));
                        assert(texts(urls@) =~= texts(folders) + texts(legacy@).take(i + 1));
                    }
                    i += 1;
                }
                proof {
                    assert(texts(legacy@).take(n as int) =~= texts(legacy@));
                }
            } else {
                proof {
                    assert(texts(urls@) =~= texts(folders) + Seq::<Seq<char>>::empty());
                }
            }
        } else {
            proof {
                assert(texts(urls@) =~= Seq::<Seq<char>>::empty());
            }
        }
        urls
    }
}

/// `legacy` holds only the older list, `modern` only the newer one, each entry
/// of the newer list is a folder, and the folders are, one by one, the
/// locations of the older list.
pub open spec fn same_in_two_generations(legacy: Storage, modern: Storage) -> bool {
    &&& legacy.opened_paths_list is Some
    &&& legacy.opened_paths_list->0.entries is None
    &&& modern.opened_paths_list is Some
    &&& modern.opened_paths_list->0.workspaces3 is None
    &&& modern.opened_paths_list->0.entry_list().len()
        == legacy.opened_paths_list->0.legacy_list().len()
    &&& forall|i: int|
        0 <= i < modern.opened_paths_list->0.entry_list().len() ==> {
            let entry = #[trigger] modern.opened_paths_list->0.entry_list()[i];
            entry.folder_uri is Some && entry.folder_uri->0@
                == legacy.opened_paths_list->0.legacy_list()[i]
        }
}

/// A document of the older generation and one of the newer generation that
/// describe the same locations give the same workspace locations.
pub proof fn lemma_generations_agree(legacy: Storage, modern: Storage)
    requires
        same_in_two_generations(legacy, modern),
    ensures
        legacy.workspace_urls() == modern.workspace_urls(),
{
    let entries = modern.opened_paths_list->0.entry_list();
    let urls = legacy.opened_paths_list->0.legacy_list();
    lemma_all_folders(entries, urls);
    assert(folder_uris(Seq::<StorageOpenedPathsListEntry>::empty()) =~= Seq::<Seq<char>>::empty());
    assert(legacy.workspace_urls() =~= urls);
    assert(modern.workspace_urls() =~= urls);
}

/// Entries that are all folders give the locations of their folders.
pub proof fn lemma_all_folders(entries: Seq<StorageOpenedPathsListEntry>, urls: Seq<Seq<char>>)
    requires
        entries.len() == urls.len(),
        forall|i: int|
            0 <= i < entries.len() ==> (#[trigger] entries[i]).folder_uri is Some
                && entries[i].folder_uri->0@ == urls[i],
    ensures
        folder_uris(entries) == urls,
    decreases entries.len(),
{
    if entries.len() == 0 {
        assert(folder_uris(entries) =~= urls);
    } else {
        let shorter = entries.drop_last();
        assert forall|i: int| 0 <= i < shorter.len() implies (#[trigger] shorter[i]).folder_uri is Some
            && shorter[i].folder_uri->0@ == urls.drop_last()[i] by {
            assert(shorter[i] == entries[i]);
        }
        lemma_all_folders(shorter, urls.drop_last());
        assert(entries.last() == entries[entries.len() - 1]);
        assert(folder_uris(entries) =~= urls);
    }
}

} // verus!
