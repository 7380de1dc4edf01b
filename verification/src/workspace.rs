//! A recently opened workspace, and how its name and its id derive from its
//! location.

use vstd::prelude::*;
use vstd::string::*;

verus! {

/// A recently opened workspace.
#[derive(Debug, Clone, PartialEq, Eq)]
pub struct RecentWorkspace {
    /// The name shown to the user.
    pub name: String,
    /// The location of the workspace.
    pub url: String,
}

/// What a workspace is to the contracts: its two texts.
pub ghost struct WorkspaceModel {
    pub name: Seq<char>,
    pub url: Seq<char>,
}

impl View for RecentWorkspace {
    type V = WorkspaceModel;

    open spec fn view(&self) -> WorkspaceModel {
        WorkspaceModel { name: self.name@, url: self.url@ }
    }
}

/// The length of `url` without the slashes at its end.
pub open spec fn name_end(url: Seq<char>) -> int
    decreases url.len(),
{
    if url.len() == 0 {
        0
    } else if url.last() != '/' {
        url.len() as int
    } else {
        name_end(url.drop_last())
    }
}

/// Where the run of characters other than a slash that ends before `end`
/// starts.
pub open spec fn name_start(url: Seq<char>, end: int) -> int
    decreases end,
{
    if end <= 0 {
        0
    } else if url[end - 1] == '/' {
        end
    } else {
        name_start(url, end - 1)
    }
}

/// The name of the workspace at `url`: the last segment of the location that
/// is not empty, the segments being what slashes separate. A location of
/// slashes alone, or an empty one, has no name.
pub open spec fn workspace_name(url: Seq<char>) -> Option<Seq<char>> {
    let end = name_end(url);
    if end == 0 {
        None
    } else {
        Some(url.subrange(name_start(url, end), end))
    }
}

/// The id of the workspace at `url` among those of the application `app_id`.
pub open spec fn workspace_id(app_id: Seq<char>, url: Seq<char>) -> Seq<char> {
    "vscode-search-provider-"@ + app_id + "-"@ + url
}

/// What [`name_end`] and [`name_start`] find is the last segment that is not
/// empty: it has a character; no slash is in it; a slash or nothing stands
/// before it; and only slashes follow it.
pub proof fn lemma_name_is_last_segment(url: Seq<char>)
    ensures
        0 <= name_end(url) <= url.len(),
        forall|i: int| name_end(url) <= i < url.len() ==> url[i] == '/',
        name_end(url) > 0 ==> {
            let end = name_end(url);
            let start = name_start(url, end);
            &&& 0 <= start < end
            &&& forall|i: int| start <= i < end ==> url[i] != '/'
            &&& start > 0 ==> url[start - 1] == '/'
        },
    decreases url.len(),
{
    if url.len() == 0 {
    } else if url.last() != '/' {
        lemma_start_of_segment(url, url.len() as int);
    } else {
        let shorter = url.drop_last();
        lemma_name_is_last_segment(shorter);
        let end = name_end(shorter);
        assert forall|i: int| end <= i < url.len() implies url[i] == '/' by {
            if i < shorter.len() {
                assert(shorter[i] == url[i]);
            }
        }
        if end > 0 {
            lemma_start_same(shorter, url, end);
            let start = name_start(url, end);
            assert forall|i: int| start <= i < end implies url[i] != '/' by {
                assert(shorter[i] == url[i]);
            }
            if start > 0 {
                assert(shorter[start - 1] == url[start - 1]);
            }
        }
    }
}

/// A run that ends behind a character other than a slash is not empty, holds
/// no slash, and has a slash or nothing before it.
pub proof fn lemma_start_of_segment(url: Seq<char>, end: int)
    requires
        0 < end <= url.len(),
        url[end - 1] != '/',
    ensures
        0 <= name_start(url, end) < end,
        forall|i: int| name_start(url, end) <= i < end ==> url[i] != '/',
        name_start(url, end) > 0 ==> url[name_start(url, end) - 1] == '/',
    decreases end,
{
    assert(name_start(url, end) == name_start(url, end - 1));
    if end - 1 > 0 && url[end - 2] != '/' {
        lemma_start_of_segment(url, end - 1);
    } else if end - 1 > 0 {
        assert(name_start(url, end - 1) == end - 1);
    } else {
        assert(name_start(url, end - 1) == 0);
    }
}

/// The start of a run depends only on the characters before its end.
pub proof fn lemma_start_same(a: Seq<char>, b: Seq<char>, end: int)
    requires
        0 <= end <= a.len(),
        end <= b.len(),
        forall|i: int| 0 <= i < end ==> a[i] == b[i],
    ensures
        name_start(a, end) == name_start(b, end),
    decreases end,
{
    if end > 0 && a[end - 1] != '/' {
        lemma_start_same(a, b, end - 1);
    }
}

/// Derives the name of the workspace at `url`, if it has one.
pub fn name_of(url: &str) -> (name: Option<String>)
    ensures
        match name {
            Some(n) => workspace_name(url@) == Some(n@),
            None => workspace_name(url@) is None,
        },
{
    let len: usize = url.unicode_len();
    let mut end: usize = len;
    proof {
        assert(url@.take(len as int) =~= url@);
    }
    while end > 0 && url.get_char(end - 1) == '/'
        invariant
            len == url@.len(),
            end <= len,
            name_end(url@) == name_end(url@.take(end as int)),
        decreases end,
    {
        proof {
            assert(url@.take(end as int).drop_last() =~= url@.take(end - 1));
        }
        end -= 1;
    }
    if end == 0 {
        return None;
    }
    let mut start: usize = end;
    while start > 0 && url.get_char(start - 1) != '/'
        invariant
            len == url@.len(),
            start <= end <= len,
            name_start(url@, end as int) == name_start(url@, start as int),
        decreases start,
    {
        start -= 1;
    }
    Some(String::from_str(url.substring_char(start, end)))
}

/// Derives the id of the workspace at `url` among those of the application
/// `app_id`.
pub fn id_of(app_id: &str, url: &str) -> (id: String)
    ensures
        id@ == workspace_id(app_id@, url@),
{
    let mut id = String::from_str("vscode-search-provider-");
    id.append(app_id);
    id.append("-");
    id.append(url);
    id
}

} // verus!
