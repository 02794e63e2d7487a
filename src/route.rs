//! The front end's pages and the paths that lead to them.
use vstd::prelude::*;
use vstd::string::{StrSliceExecFns, StringExecFns};

verus! {

/// A page of the front end: the upload form at `/`, or the download page of
/// a share at `/<id>`.
#[derive(Debug, Clone, PartialEq, Eq)]
pub enum Route {
    Upload,
    Download { id: String },
}

/// What the download page is given: the share id from its path.
#[derive(Debug, Clone, PartialEq, Eq)]
pub struct DownloadProps {
    pub id: String,
}

impl Route {
    /// The page `path` leads to, if any: `/` is the upload form; `/<id>`,
    /// with a non-empty `id` holding no `/`, is that share's download page;
    /// any other path leads nowhere.
    pub fn recognize(path: &str) -> (r: Option<Route>)
        ensures
            path@ == seq!['/'] <==> r == Some(Route::Upload),
            r matches Some(Route::Download { id }) ==> path@ == seq!['/'] + id@,
            (r matches Some(Route::Download { id }) ==> id@.len() >= 1 && !id@.contains('/')),
            (path@.len() >= 2 && path@[0] == '/' && !path@.drop_first().contains('/')) ==> r is Some && r != Some(Route::Upload),
            path@ != seq!['/'] && (path@.len() < 2 || path@[0] != '/' || path@.drop_first().contains('/')) ==> r is None,
    {
        let len = path.unicode_len();
        if len == 0 || path.get_char(0) != '/' {
            return None;
        }
        if len == 1 {
            proof {
                assert(path@ =~= seq!['/']);
            }
            return Some(Route::Upload);
        }
        let mut k: usize = 1;
        while k < len
            invariant
                1 <= k <= len,
                len == path@.len(),
                forall|j: int| 1 <= j < k ==> path@[j] != '/',
            decreases len - k,
        {
            if path.get_char(k) == '/' {
                proof {
                    assert(path@.drop_first()[k - 1] == '/');
                }
                return None;
            }
            k = k + 1;
        }
        let id = String::from_str(path.substring_char(1, len));
        proof {
            assert(path@ =~= seq!['/'] + id@);
            assert(id@ =~= path@.drop_first());
            assert forall|j: int| 0 <= j < id@.len() implies id@[j] != '/' by {
                assert(id@[j] == path@[j + 1]);
            }
        }
        Some(Route::Download { id })
    }

    /// The path that leads to this page.
    pub fn to_path(&self) -> (path: String)
        ensures
            *self == Route::Upload ==> path@ == seq!['/'],
            self matches Route::Download { id } ==> path@ == seq!['/'] + id@,
    {
        proof {
            reveal_strlit("/");
        }
        let mut path = String::from_str("/");
        match self {
            Route::Upload => {},
            Route::Download { id } => path.append(id.as_str()),
        }
        path
    }
}

} // verus!
