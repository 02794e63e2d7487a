//! Which bundled front-end files the relay serves, and as what.
use vstd::prelude::*;
use vstd::string::{StrSliceExecFns, StringExecFns, StringSliceAdditionalSpecFns};

verus! {

/// Longest file name, in bytes, the relay looks up.
pub const MAX_STATIC_NAME_LEN: usize = 1000;

/// The kinds of bundled file the relay serves.
#[derive(Debug, Clone, Copy, PartialEq, Eq, Structural)]
pub enum StaticKind {
    /// `.js`: `application/javascript; charset=utf-8`.
    JavaScript,
    /// `.css`: `text/css; charset=utf-8`.
    Css,
    /// `.png`: `image/png`.
    Png,
    /// `.json`: `application/json`.
    Json,
    /// `.ico`: `image/x-icon`.
    Icon,
    /// `.wasm`: `application/wasm`.
    Wasm,
}

/// The kind served for a file with extension `ext`.
pub open spec fn kind_of_extension(ext: Seq<char>) -> Option<StaticKind> {
    if ext == "js"@ {
        Some(StaticKind::JavaScript)
    } else if ext == "css"@ {
        Some(StaticKind::Css)
    } else if ext == "png"@ {
        Some(StaticKind::Png)
    } else if ext == "json"@ {
        Some(StaticKind::Json)
    } else if ext == "ico"@ {
        Some(StaticKind::Icon)
    } else if ext == "wasm"@ {
        Some(StaticKind::Wasm)
    } else {
        None
    }
}

/// `j` is the position of the last `.` of `name`.
pub open spec fn last_dot_at(name: Seq<char>, j: int) -> bool {
    &&& 0 <= j < name.len()
    &&& name[j] == '.'
    &&& forall|k: int| j < k < name.len() ==> name[k] != '.'
}

/// How the relay serves the bundled file `name`: by the extension after its
/// last `.`, and not at all for a name without one, with an unknown one, or
/// longer than 1000 bytes.
pub fn static_file_kind(name: &str) -> (r: Option<StaticKind>)
    ensures
        name.spec_bytes().len() as usize > MAX_STATIC_NAME_LEN ==> r is None,
        (forall|j: int| !#[trigger] last_dot_at(name@, j)) ==> r is None,
        forall|j: int| #[trigger] last_dot_at(name@, j) && name.spec_bytes().len() as usize <= MAX_STATIC_NAME_LEN
            ==> r == kind_of_extension(name@.subrange(j + 1, name@.len() as int)),
{
    if name.len() > MAX_STATIC_NAME_LEN {
        return None;
    }
    let len = name.unicode_len();
    let mut i: usize = len;
    while i > 0
        invariant
            i <= len,
            len == name@.len(),
            name.spec_bytes().len() as usize <= MAX_STATIC_NAME_LEN,
            forall|k: int| i <= k < len ==> name@[k] != '.',
        decreases i,
    {
        if name.get_char(i - 1) == '.' {
            let j = i - 1;
            let ext = String::from_str(name.substring_char(i, len));
            proof {
                assert(last_dot_at(name@, j as int));
                assert forall|j2: int| #[trigger] last_dot_at(name@, j2) implies j2 == j by {}
                reveal_strlit("js");
                reveal_strlit("css");
                reveal_strlit("png");
                reveal_strlit("json");
                reveal_strlit("ico");
                reveal_strlit("wasm");
            }
            let kind = if ext == String::from_str("js") {
                Some(StaticKind::JavaScript)
            } else if ext == String::from_str("css") {
                Some(StaticKind::Css)
            } else if ext == String::from_str("png") {
                Some(StaticKind::Png)
            } else if ext == String::from_str("json") {
                Some(StaticKind::Json)
            } else if ext == String::from_str("ico") {
                Some(StaticKind::Icon)
            } else if ext == String::from_str("wasm") {
                Some(StaticKind::Wasm)
            } else {
                None
            };
            return kind;
        }
        i = i - 1;
    }
    None
}

} // verus!
